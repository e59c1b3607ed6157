//! The process-local record of live allocations.
use dashmap::DashMap;
use vstd::prelude::*;

verus! {

/// `dashmap::DashMap`, carried as an opaque value.
#[verifier::external_type_specification]
#[verifier::external_body]
#[verifier::reject_recursive_types(K)]
#[verifier::reject_recursive_types(V)]
#[verifier::reject_recursive_types(S)]
pub struct ExDashMap<K, V, S>(DashMap<K, V, S>);

/// What an allocation map holds: pointer address to (device index, size in bytes).
pub uninterp spec fn live(m: DashMap<usize, (usize, u64)>) -> Map<usize, (usize, u64)>;

/// Trusted: `DashMap::new` makes a map without entries.
#[verifier::external_body]
pub(crate) fn live_new() -> (m: DashMap<usize, (usize, u64)>)
    ensures
        live(m).dom() == Set::<usize>::empty(),
{
    DashMap::new()
}

/// Trusted: `DashMap::insert` binds the key to the value, in place of an
/// earlier binding of the same key if there is one.
#[verifier::external_body]
pub(crate) fn live_insert(m: &mut DashMap<usize, (usize, u64)>, key: usize, value: (usize, u64))
    ensures
        live(*final(m)) == live(*old(m)).insert(key, value),
{
    m.insert(key, value);
}

/// Trusted: `DashMap::remove` takes the key's entry out and returns its value,
/// and returns `None` with the map unchanged where the key has no entry.
#[verifier::external_body]
pub(crate) fn live_remove(
    m: &mut DashMap<usize, (usize, u64)>,
    key: usize,
) -> (r: Option<(usize, u64)>)
    ensures
        r == (if live(*old(m)).dom().contains(key) {
            Some(live(*old(m))[key])
        } else {
            None
        }),
        live(*final(m)) == live(*old(m)).remove(key),
{
    m.remove(&key).map(|entry| entry.1)
}

/// `items` names every entry of `m` once, in any order.
pub open spec fn lists(items: Seq<(usize, (usize, u64))>, m: Map<usize, (usize, u64)>) -> bool {
    &&& forall|i: int|
        0 <= i < items.len() ==> m.dom().contains((#[trigger] items[i]).0) && m[items[i].0]
            == items[i].1
    &&& forall|i: int, j: int|
        0 <= i < j < items.len() ==> (#[trigger] items[i]).0 != (#[trigger] items[j]).0
    &&& forall|k: usize| #[trigger]
        m.dom().contains(k) ==> exists|i: int| 0 <= i < items.len() && (#[trigger] items[i]).0 == k
}

/// Trusted: `DashMap::iter` visits every entry once, in an order that is left open.
#[verifier::external_body]
pub(crate) fn live_items(m: &DashMap<usize, (usize, u64)>) -> (items: Vec<(usize, (usize, u64))>)
    ensures
        lists(items@, live(*m)),
{
    m.iter().map(|entry| (*entry.key(), *entry.value())).collect()
}

/// Trusted: `DashMap::len` counts the entries.
#[verifier::external_body]
pub(crate) fn live_len(m: &DashMap<usize, (usize, u64)>) -> (n: usize)
    ensures
        n == live(*m).dom().len(),
{
    m.len()
}

/// Trusted: `DashMap::clear` takes every entry out.
#[verifier::external_body]
pub(crate) fn live_clear(m: &mut DashMap<usize, (usize, u64)>)
    ensures
        live(*final(m)).dom() == Set::<usize>::empty(),
{
    m.clear();
}

/// The sum of `weight` over the entries of a finite map.
pub open spec fn weighed(
    m: Map<usize, (usize, u64)>,
    weight: spec_fn((usize, u64)) -> nat,
) -> nat
    decreases m.dom().len(),
{
    if m.dom().finite() && m.dom().len() > 0 {
        let k = m.dom().choose();
        weight(m[k]) + weighed(m.remove(k), weight)
    } else {
        0
    }
}

/// The bytes of all live allocations.
pub open spec fn total_bytes(m: Map<usize, (usize, u64)>) -> nat {
    weighed(m, |e: (usize, u64)| e.1 as nat)
}

/// The bytes of the live allocations of one device.
pub open spec fn device_bytes(m: Map<usize, (usize, u64)>, device: usize) -> nat {
    weighed(m, on_device(device))
}

/// Counts an entry's size where it belongs to `device`, and nothing otherwise.
pub open spec fn on_device(device: usize) -> spec_fn((usize, u64)) -> nat {
    |e: (usize, u64)|
        if e.0 == device {
            e.1 as nat
        } else {
            0
        }
}

/// Any entry may be split off the sum.
pub proof fn lemma_weighed_remove(
    m: Map<usize, (usize, u64)>,
    weight: spec_fn((usize, u64)) -> nat,
    k: usize,
)
    requires
        m.dom().finite(),
        m.dom().contains(k),
    ensures
        weighed(m, weight) == weight(m[k]) + weighed(m.remove(k), weight),
    decreases m.dom().len(),
{
    let c = m.dom().choose();
    assert(m.dom().len() > 0);
    if c != k {
        let rest = m.remove(c);
        lemma_weighed_remove(rest, weight, k);
        lemma_weighed_remove(m.remove(k), weight, c);
        assert(rest.remove(k) =~= m.remove(k).remove(c));
    }
}

/// A new entry adds its weight.
pub proof fn lemma_weighed_insert(
    m: Map<usize, (usize, u64)>,
    weight: spec_fn((usize, u64)) -> nat,
    k: usize,
    e: (usize, u64),
)
    requires
        m.dom().finite(),
        !m.dom().contains(k),
    ensures
        weighed(m.insert(k, e), weight) == weight(e) + weighed(m, weight),
{
    lemma_weighed_remove(m.insert(k, e), weight, k);
    assert(m.insert(k, e).remove(k) =~= m);
}

/// A smaller weight sums to no more.
pub proof fn lemma_weighed_le(
    m: Map<usize, (usize, u64)>,
    small: spec_fn((usize, u64)) -> nat,
    large: spec_fn((usize, u64)) -> nat,
)
    requires
        forall|e: (usize, u64)| #[trigger] small(e) <= large(e),
    ensures
        weighed(m, small) <= weighed(m, large),
    decreases m.dom().len(),
{
    if m.dom().finite() && m.dom().len() > 0 {
        let k = m.dom().choose();
        lemma_weighed_le(m.remove(k), small, large);
        assert(small(m[k]) <= large(m[k]));
    }
}

/// A device without entries has no bytes.
pub proof fn lemma_no_device_bytes(m: Map<usize, (usize, u64)>, device: usize)
    requires
        forall|k: usize| #[trigger] m.dom().contains(k) ==> m[k].0 != device,
    ensures
        device_bytes(m, device) == 0,
    decreases m.dom().len(),
{
    if m.dom().finite() && m.dom().len() > 0 {
        let k = m.dom().choose();
        lemma_no_device_bytes(m.remove(k), device);
        assert(m.dom().contains(k));
    }
}

/// The sum of `weight` over listed entries.
pub open spec fn weighed_items(
    items: Seq<(usize, (usize, u64))>,
    weight: spec_fn((usize, u64)) -> nat,
) -> nat
    decreases items.len(),
{
    if items.len() == 0 {
        0
    } else {
        weighed_items(items.drop_last(), weight) + weight(items.last().1)
    }
}

/// A map that can be listed is finite, and the list weighs what the map weighs.
pub proof fn lemma_weighed_items(
    items: Seq<(usize, (usize, u64))>,
    m: Map<usize, (usize, u64)>,
    weight: spec_fn((usize, u64)) -> nat,
)
    requires
        lists(items, m),
    ensures
        m.dom().finite(),
        weighed_items(items, weight) == weighed(m, weight),
    decreases items.len(),
{
    if items.len() == 0 {
        assert(m.dom() =~= Set::<usize>::empty());
    } else {
        let last = items.last();
        let rest = items.drop_last();
        assert(items[items.len() - 1] == last);
        assert(m.dom().contains(last.0));
        assert forall|i: int| 0 <= i < rest.len() implies m.remove(last.0).dom().contains(
            (#[trigger] rest[i]).0,
        ) && m.remove(last.0)[rest[i].0] == rest[i].1 by {
            assert(rest[i] == items[i]);
        }
        assert forall|k: usize| #[trigger] m.remove(last.0).dom().contains(k) implies exists|i: int|
            0 <= i < rest.len() && (#[trigger] rest[i]).0 == k by {
            assert(m.dom().contains(k));
            let i = choose|i: int| 0 <= i < items.len() && (#[trigger] items[i]).0 == k;
            assert(rest[i] == items[i]);
        }
        lemma_weighed_items(rest, m.remove(last.0), weight);
        assert(m.dom() =~= m.remove(last.0).dom().insert(last.0));
        lemma_weighed_remove(m, weight, last.0);
    }
}

/// A part of a list weighs no more than the whole.
pub proof fn lemma_weighed_items_prefix(
    items: Seq<(usize, (usize, u64))>,
    weight: spec_fn((usize, u64)) -> nat,
    n: int,
)
    requires
        0 <= n <= items.len(),
    ensures
        weighed_items(items.take(n), weight) <= weighed_items(items, weight),
    decreases items.len() - n,
{
    if n < items.len() {
        lemma_weighed_items_prefix(items, weight, n + 1);
        assert(items.take(n + 1).drop_last() =~= items.take(n));
    } else {
        assert(items.take(n) =~= items);
    }
}

/// Adds up the sizes of all listed entries.
pub(crate) fn sum_items(items: &Vec<(usize, (usize, u64))>) -> (sum: u64)
    requires
        weighed_items(items@, |e: (usize, u64)| e.1 as nat) <= u64::MAX,
    ensures
        sum == weighed_items(items@, |e: (usize, u64)| e.1 as nat),
{
    let ghost w = |e: (usize, u64)| e.1 as nat;
    let mut sum: u64 = 0;
    let mut i: usize = 0;
    while i < items.len()
        invariant
            i <= items.len(),
            w == (|e: (usize, u64)| e.1 as nat),
            weighed_items(items@, w) <= u64::MAX,
            sum == weighed_items(items@.take(i as int), w),
        decreases items.len() - i,
    {
        proof {
            lemma_weighed_items_prefix(items@, w, i + 1);
            assert(items@.take(i + 1).drop_last() =~= items@.take(i as int));
        }
        sum = sum + items[i].1.1;
        i = i + 1;
    }
    proof {
        assert(items@.take(i as int) =~= items@);
    }
    sum
}

/// Adds up the sizes of the listed entries of one device.
pub(crate) fn sum_device_items(items: &Vec<(usize, (usize, u64))>, device: usize) -> (sum: u64)
    requires
        weighed_items(items@, on_device(device)) <= u64::MAX,
    ensures
        sum == weighed_items(items@, on_device(device)),
{
    let ghost w = on_device(device);
    let mut sum: u64 = 0;
    let mut i: usize = 0;
    while i < items.len()
        invariant
            i <= items.len(),
            w == on_device(device),
            weighed_items(items@, w) <= u64::MAX,
            sum == weighed_items(items@.take(i as int), w),
        decreases items.len() - i,
    {
        proof {
            lemma_weighed_items_prefix(items@, w, i + 1);
            assert(items@.take(i + 1).drop_last() =~= items@.take(i as int));
        }
        if items[i].1.0 == device {
            sum = sum + items[i].1.1;
        }
        i = i + 1;
    }
    proof {
        assert(items@.take(i as int) =~= items@);
    }
    sum
}

/// Whether the sizes of all listed entries add up to something that can be counted.
pub(crate) fn sum_fits(items: &Vec<(usize, (usize, u64))>) -> (fits: bool)
    ensures
        fits == (weighed_items(items@, |e: (usize, u64)| e.1 as nat) <= u64::MAX),
{
    let ghost w = |e: (usize, u64)| e.1 as nat;
    let mut sum: u64 = 0;
    let mut i: usize = 0;
    while i < items.len()
        invariant
            i <= items.len(),
            w == (|e: (usize, u64)| e.1 as nat),
            sum == weighed_items(items@.take(i as int), w),
        decreases items.len() - i,
    {
        proof {
            lemma_weighed_items_prefix(items@, w, i + 1);
            assert(items@.take(i + 1).drop_last() =~= items@.take(i as int));
        }
        match sum.checked_add(items[i].1.1) {
            Some(next) => {
                sum = next;
            },
            None => {
                return false;
            },
        }
        i = i + 1;
    }
    proof {
        assert(items@.take(i as int) =~= items@);
    }
    true
}

/// The bytes of allocations are the sum of their sizes: each new one adds its own, to the
/// total and to its device and to no other.
pub proof fn law_bytes_are_sums(
    m: Map<usize, (usize, u64)>,
    k: usize,
    device: usize,
    size: u64,
    other: usize,
)
    requires
        m.dom().finite(),
        !m.dom().contains(k),
    ensures
        total_bytes(Map::empty()) == 0,
        device_bytes(Map::empty(), device) == 0,
        total_bytes(m.insert(k, (device, size))) == total_bytes(m) + size,
        device_bytes(m.insert(k, (device, size)), device) == device_bytes(m, device) + size,
        other != device ==> device_bytes(m.insert(k, (device, size)), other) == device_bytes(
            m,
            other,
        ),
        device_bytes(m, device) <= total_bytes(m),
{
    let w = |e: (usize, u64)| e.1 as nat;
    lemma_weighed_insert(m, w, k, (device, size));
    lemma_weighed_insert(m, on_device(device), k, (device, size));
    lemma_weighed_insert(m, on_device(other), k, (device, size));
    lemma_weighed_le(m, on_device(device), w);
}

} // verus!
