//! The arithmetic of a shared usage counter.
//!
//! A counter is a `u64` cell that many parties update. Space is reserved by adding
//! first and judging the sum afterwards, so that two parties never both pass a limit
//! check on the same stale reading. The addition wraps around, and so does the
//! subtraction that takes a denied reservation back: the two undo each other whatever
//! the counter holds. What was granted is given back by a subtraction that stops at
//! zero.
use vstd::prelude::*;

verus! {

/// The largest single request. Larger ones are turned away before a counter is
/// touched, so that one request can never wrap a counter by itself.
pub const MAX_ALLOC_SIZE: u64 = 0x7FFF_FFFF_FFFF_FFFF;

/// The value of a counter after `size` was added to it.
pub open spec fn counter_add(used: u64, size: u64) -> u64 {
    (if used + size > u64::MAX {
        used + size - u64::MAX - 1
    } else {
        used + size
    }) as u64
}

/// The value of a counter after `size` was taken from it.
pub open spec fn counter_sub(used: u64, size: u64) -> u64 {
    (if used < size {
        0
    } else {
        used - size
    }) as u64
}

/// The value of a counter after a reservation of `size` was taken back.
pub open spec fn counter_back(used: u64, size: u64) -> u64 {
    (if used < size {
        used - size + u64::MAX + 1
    } else {
        used - size
    }) as u64
}

/// A request of `size` on top of `used` stays within `limit`. One that runs over the
/// range of the counter never does.
pub open spec fn fits(used: u64, size: u64, limit: u64) -> bool {
    used + size <= limit
}

/// Adds `size` to the counter, wrapping around, and returns its earlier value.
pub fn fetch_add(counter: &mut u64, size: u64) -> (previous: u64)
    ensures
        previous == *old(counter),
        *final(counter) == counter_add(*old(counter), size),
{
    let previous: u64 = *counter;
    *counter = previous.wrapping_add(size);
    previous
}

/// The value that a counter at `current` takes when `size` is released.
pub fn released(current: u64, size: u64) -> (value: u64)
    ensures
        value == counter_sub(current, size),
{
    current.saturating_sub(size)
}

/// Takes `size` from the counter, stopping at zero.
pub fn saturating_fetch_sub(counter: &mut u64, size: u64)
    ensures
        *final(counter) == counter_sub(*old(counter), size),
{
    *counter = released(*counter, size);
}

/// Takes a reservation of `size` back from the counter, wrapping around as the addition
/// that made it, and returns its earlier value.
pub fn fetch_sub(counter: &mut u64, size: u64) -> (previous: u64)
    ensures
        previous == *old(counter),
        *final(counter) == counter_back(*old(counter), size),
{
    let previous: u64 = *counter;
    *counter = previous.wrapping_sub(size);
    previous
}

/// Whether a counter that stood at `previous` when `size` was added is within `limit`.
pub fn within_limit(previous: u64, size: u64, limit: u64) -> (ok: bool)
    ensures
        ok == fits(previous, size, limit),
{
    match previous.checked_add(size) {
        Some(sum) => sum <= limit,
        None => false,
    }
}

/// Taking a reservation back restores the counter, also where adding it wrapped around.
pub proof fn law_undo_restores(used: u64, size: u64)
    ensures
        counter_back(counter_add(used, size), size) == used,
{
}

/// A granted request leaves the counter within the limit, and giving it back restores the
/// counter.
pub proof fn law_granted_stays_within(used: u64, size: u64, limit: u64)
    requires
        fits(used, size, limit),
    ensures
        counter_add(used, size) == used + size,
        counter_add(used, size) <= limit,
        counter_sub(counter_add(used, size), size) == used,
{
}

/// Releasing never raises a counter, and never takes it below zero.
pub proof fn law_release_never_raises(used: u64, size: u64)
    ensures
        counter_sub(used, size) <= used,
        size >= used ==> counter_sub(used, size) == 0,
{
}

/// The operations on a counter as arithmetic on integers: adding and taking back go modulo
/// two to the power of 64, giving back stops at zero, and a request fits where the sum is
/// no more than the limit.
pub proof fn law_counters_are_integers(used: u64, size: u64, limit: u64)
    ensures
        counter_add(used, size) == (used + size) % 0x1_0000_0000_0000_0000,
        counter_back(used, size) == (used - size) % 0x1_0000_0000_0000_0000,
        used >= size ==> counter_sub(used, size) + size == used,
        used <= size ==> counter_sub(used, size) == 0,
        fits(used, size, limit) <==> used + size <= limit,
{
}

/// What fits stays fitting under a higher limit, with less in use, and where less is asked
/// for; and two requests fit one after the other exactly where they fit together.
pub proof fn law_fitting_is_monotone(used: u64, size: u64, more: u64, limit: u64, higher: u64)
    requires
        limit <= higher,
    ensures
        fits(used, size, limit) ==> fits(used, size, higher),
        size <= more && fits(used, more, limit) ==> fits(used, size, limit),
        used + size <= u64::MAX ==> (fits(used, size, limit) && fits(
            (used + size) as u64,
            more,
            limit,
        ) <==> used + size + more <= limit),
        used <= limit ==> fits(used, (limit - used) as u64, limit),
        used < limit && limit - used < u64::MAX ==> !fits(used, (limit - used + 1) as u64, limit),
{
}

} // verus!
