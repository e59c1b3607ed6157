//! What was found out about devices and need not be asked again.
use dashmap::DashMap;
use vstd::prelude::*;

verus! {

/// What a cache of HIP devices holds: device ordinal to index in the shared state.
pub uninterp spec fn known_devices(m: DashMap<i32, usize>) -> Map<i32, usize>;

/// What a cache of processor handles holds: handle to index in the shared state, or
/// to the knowledge that there is none.
pub uninterp spec fn known_handles(m: DashMap<usize, Option<usize>>) -> Map<usize, Option<usize>>;

/// Trusted: `DashMap::new` makes a map without entries.
#[verifier::external_body]
pub(crate) fn devices_new() -> (m: DashMap<i32, usize>)
    ensures
        known_devices(m).dom() == Set::<i32>::empty(),
{
    DashMap::new()
}

/// Trusted: `DashMap::get` returns the value of a key, where the key has an entry.
#[verifier::external_body]
pub(crate) fn devices_get(m: &DashMap<i32, usize>, key: i32) -> (r: Option<usize>)
    ensures
        r == (if known_devices(*m).dom().contains(key) {
            Some(known_devices(*m)[key])
        } else {
            None
        }),
{
    m.get(&key).map(|entry| *entry.value())
}

/// Trusted: `DashMap::insert` binds the key to the value, in place of an earlier
/// binding of the same key if there is one.
#[verifier::external_body]
pub(crate) fn devices_insert(m: &mut DashMap<i32, usize>, key: i32, value: usize)
    ensures
        known_devices(*final(m)) == known_devices(*old(m)).insert(key, value),
{
    m.insert(key, value);
}

/// Trusted: `DashMap::new` makes a map without entries.
#[verifier::external_body]
pub(crate) fn handles_new() -> (m: DashMap<usize, Option<usize>>)
    ensures
        known_handles(m).dom() == Set::<usize>::empty(),
{
    DashMap::new()
}

/// Trusted: `DashMap::get` returns the value of a key, where the key has an entry.
#[verifier::external_body]
pub(crate) fn handles_get(
    m: &DashMap<usize, Option<usize>>,
    key: usize,
) -> (r: Option<Option<usize>>)
    ensures
        r == (if known_handles(*m).dom().contains(key) {
            Some(known_handles(*m)[key])
        } else {
            None
        }),
{
    m.get(&key).map(|entry| *entry.value())
}

/// Trusted: `DashMap::insert` binds the key to the value, in place of an earlier
/// binding of the same key if there is one.
#[verifier::external_body]
pub(crate) fn handles_insert(
    m: &mut DashMap<usize, Option<usize>>,
    key: usize,
    value: Option<usize>,
)
    ensures
        known_handles(*final(m)) == known_handles(*old(m)).insert(key, value),
{
    m.insert(key, value);
}

} // verus!
