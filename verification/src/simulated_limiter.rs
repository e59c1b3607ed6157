//! Memory accounting of one device.
use crate::counter::{
    counter_add, counter_sub, fetch_add, fetch_sub, fits, saturating_fetch_sub, within_limit,
    MAX_ALLOC_SIZE,
};
use crate::tracker::{
    live, live_clear, live_insert, live_items, live_len, live_new, live_remove,
    lemma_weighed_items, sum_items, total_bytes,
};
use dashmap::DashMap;
use vstd::prelude::*;

verus! {

/// The accounting state of one device, as plain values.
#[verifier::ext_equal]
pub struct LimiterState {
    /// The configured limit in bytes.
    pub mem_limit: u64,
    /// A tighter limit; zero where none has been computed.
    pub effective_mem_limit: u64,
    /// The pod-wide usage counter.
    pub used: u64,
    /// This process's own usage counter.
    pub proc_usage: u64,
    /// The live allocations of this process.
    pub live: Map<usize, (usize, u64)>,
    /// The pointer that the next allocation gets.
    pub next_pointer: usize,
}

/// The accounting of one device at its start.
pub open spec fn empty_books(mem_limit: u64) -> LimiterState {
    LimiterState {
        mem_limit,
        effective_mem_limit: 0,
        used: 0,
        proc_usage: 0,
        live: Map::empty(),
        next_pointer: 1,
    }
}

impl LimiterState {
    /// The limit in force.
    pub open spec fn active_limit(self) -> u64 {
        if self.effective_mem_limit > 0 {
            self.effective_mem_limit
        } else {
            self.mem_limit
        }
    }

    /// A request of `size` bytes is granted; zero bytes always are.
    pub open spec fn grants(self, size: u64) -> bool {
        size == 0 || (size <= MAX_ALLOC_SIZE && fits(self.used, size, self.active_limit()))
    }

    /// The state with one pointer handed out.
    pub open spec fn pointer_taken(self) -> LimiterState {
        LimiterState {
            next_pointer: (if self.next_pointer == usize::MAX {
                0
            } else {
                self.next_pointer + 1
            }) as usize,
            ..self
        }
    }

    /// The state after a reservation of `size` bytes became a live allocation.
    pub open spec fn holding(self, size: u64) -> LimiterState {
        LimiterState {
            used: counter_add(self.used, size),
            proc_usage: counter_add(self.proc_usage, size),
            live: self.live.insert(self.next_pointer, (0usize, size)),
            ..self.pointer_taken()
        }
    }

    /// The state after a request of `size` bytes. A denied one changes nothing.
    pub open spec fn after_alloc(self, size: u64) -> LimiterState {
        if size == 0 {
            self.pointer_taken()
        } else if self.grants(size) {
            self.holding(size)
        } else {
            self
        }
    }

    /// The state after a pointer was freed; an unknown pointer changes nothing.
    pub open spec fn after_free(self, pointer: usize) -> LimiterState {
        if self.live.dom().contains(pointer) {
            let size = self.live[pointer].1;
            LimiterState {
                used: counter_sub(self.used, size),
                proc_usage: counter_sub(self.proc_usage, size),
                live: self.live.remove(pointer),
                ..self
            }
        } else {
            self
        }
    }

    /// A pitched request is granted: the native allocation succeeds, and the actual size
    /// fits. No estimate above zero is larger.
    pub open spec fn grants_pitched(self, estimated: u64, actual: u64, native: bool) -> bool {
        estimated == 0 || {
            &&& actual <= MAX_ALLOC_SIZE
            &&& native
            &&& fits(self.used, actual, self.active_limit())
        }
    }

    /// The state after a pitched request. One that is denied, or whose native allocation
    /// fails, changes nothing.
    pub open spec fn after_pitched(
        self,
        estimated: u64,
        actual: u64,
        native: bool,
    ) -> LimiterState {
        if estimated == 0 {
            self.pointer_taken()
        } else if self.grants_pitched(estimated, actual, native) {
            self.holding(actual)
        } else {
            self
        }
    }

    /// What follows a denied request and a recovery that left this state: one
    /// more attempt where something was recovered, and otherwise the denial.
    pub open spec fn after_reap(
        self,
        size: u64,
        recovered: u64,
        end: LimiterState,
        r: Result<usize, ()>,
    ) -> bool {
        if recovered > 0 && self.grants(size) {
            end == self.after_alloc(size) && r == Ok::<usize, ()>(self.next_pointer)
        } else if recovered > 0 {
            end == self.after_alloc(size) && r is Err
        } else {
            end == self && r is Err
        }
    }

    /// The state after every live allocation was given back at once.
    pub open spec fn after_drain(self) -> LimiterState {
        LimiterState {
            used: counter_sub(self.used, total_bytes(self.live) as u64),
            proc_usage: 0,
            live: Map::empty(),
            ..self
        }
    }
}

/// The memory accounting of one device: a pod-wide usage counter that is
/// reserved from before an allocation is made, and the live allocations with
/// which it is released again.
pub struct SimulatedLimiter {
    mem_limit: u64,
    effective_mem_limit: u64,
    pod_memory_used: u64,
    proc_usage: u64,
    allocation_tracker: DashMap<usize, (usize, u64)>,
    next_pointer: usize,
}

impl View for SimulatedLimiter {
    type V = LimiterState;

    closed spec fn view(&self) -> LimiterState {
        LimiterState {
            mem_limit: self.mem_limit,
            effective_mem_limit: self.effective_mem_limit,
            used: self.pod_memory_used,
            proc_usage: self.proc_usage,
            live: live(self.allocation_tracker),
            next_pointer: self.next_pointer,
        }
    }
}

impl SimulatedLimiter {
    /// An empty accounting with the given limit. Pointers start at one, so that
    /// the null pointer is never handed out.
    pub fn new(mem_limit: u64) -> (limiter: Self)
        ensures
            limiter@ == empty_books(mem_limit),
    {
        let limiter = SimulatedLimiter {
            mem_limit,
            effective_mem_limit: 0,
            pod_memory_used: 0,
            proc_usage: 0,
            allocation_tracker: live_new(),
            next_pointer: 1,
        };
        assert(limiter@.live =~= Map::empty());
        limiter
    }

    /// Hands out the next pointer.
    fn take_pointer(&mut self) -> (pointer: usize)
        ensures
            pointer == old(self)@.next_pointer,
            final(self)@ == old(self)@.pointer_taken(),
    {
        let pointer: usize = self.next_pointer;
        self.next_pointer = pointer.wrapping_add(1);
        pointer
    }

    /// The limit in force.
    fn active_limit(&self) -> (limit: u64)
        ensures
            limit == self@.active_limit(),
    {
        if self.effective_mem_limit > 0 {
            self.effective_mem_limit
        } else {
            self.mem_limit
        }
    }

    /// Attempts an allocation of `size` bytes: reserves it in the usage counter,
    /// undoes the reservation where the limit is exceeded, and otherwise records
    /// the allocation. Zero bytes are granted a pointer and not recorded.
    pub fn try_alloc(&mut self, size: u64) -> (r: Result<usize, ()>)
        ensures
            r == (if old(self)@.grants(size) {
                Ok(old(self)@.next_pointer)
            } else {
                Err(())
            }),
            final(self)@ == old(self)@.after_alloc(size),
    {
        if size == 0 {
            return Ok(self.take_pointer());
        }
        if size > MAX_ALLOC_SIZE {
            return Err(());
        }
        let limit: u64 = self.active_limit();
        let previous: u64 = fetch_add(&mut self.pod_memory_used, size);
        if !within_limit(previous, size, limit) {
            fetch_sub(&mut self.pod_memory_used, size);
            return Err(());
        }
        let pointer: usize = self.take_pointer();
        live_insert(&mut self.allocation_tracker, pointer, (0usize, size));
        fetch_add(&mut self.proc_usage, size);
        Ok(pointer)
    }

    /// Gives an allocation back. Returns whether the pointer was recorded.
    pub fn free(&mut self, pointer: usize) -> (known: bool)
        ensures
            known == old(self)@.live.dom().contains(pointer),
            final(self)@ == old(self)@.after_free(pointer),
    {
        match live_remove(&mut self.allocation_tracker, pointer) {
            None => {
                assert(self@.live =~= old(self)@.live);
                false
            },
            Some(entry) => {
                saturating_fetch_sub(&mut self.pod_memory_used, entry.1);
                saturating_fetch_sub(&mut self.proc_usage, entry.1);
                true
            },
        }
    }

    /// The pod-wide usage in bytes.
    pub fn pod_memory_used(&self) -> (used: u64)
        ensures
            used == self@.used,
    {
        self.pod_memory_used
    }

    /// The bytes of all live allocations.
    pub fn tracked_total(&self) -> (total: u64)
        requires
            total_bytes(self@.live) <= u64::MAX,
        ensures
            total == total_bytes(self@.live),
    {
        let items = live_items(&self.allocation_tracker);
        proof {
            lemma_weighed_items(items@, self@.live, |e: (usize, u64)| e.1 as nat);
        }
        sum_items(&items)
    }

    /// The configured limit.
    pub fn mem_limit(&self) -> (limit: u64)
        ensures
            limit == self@.mem_limit,
    {
        self.mem_limit
    }

    /// The tighter limit, or zero where there is none.
    pub fn effective_mem_limit(&self) -> (limit: u64)
        ensures
            limit == self@.effective_mem_limit,
    {
        self.effective_mem_limit
    }

    /// Sets the tighter limit; zero puts the configured limit in force again.
    pub fn set_effective_mem_limit(&mut self, limit: u64)
        ensures
            final(self)@ == (LimiterState { effective_mem_limit: limit, ..old(self)@ }),
    {
        self.effective_mem_limit = limit;
    }

    /// The usage of this process in bytes.
    pub fn proc_usage(&self) -> (used: u64)
        ensures
            used == self@.proc_usage,
    {
        self.proc_usage
    }

    /// The number of live allocations.
    pub fn allocation_count(&self) -> (n: usize)
        ensures
            n == self@.live.dom().len(),
    {
        live_len(&self.allocation_tracker)
    }

    /// Adds usage that no live allocation accounts for, as a process that died
    /// without freeing leaves behind.
    pub fn inject_stale_usage(&mut self, size: u64)
        ensures
            final(self)@ == (LimiterState {
                used: counter_add(old(self)@.used, size),
                ..old(self)@
            }),
    {
        fetch_add(&mut self.pod_memory_used, size);
    }

    /// Takes usage back that no live allocation accounts for.
    pub fn recover_stale_usage(&mut self, size: u64)
        ensures
            final(self)@ == (LimiterState {
                used: counter_sub(old(self)@.used, size),
                ..old(self)@
            }),
    {
        saturating_fetch_sub(&mut self.pod_memory_used, size);
    }

    /// Attempts an allocation, and where it is denied lets `reap_fn` recover
    /// stale usage. Where that returns anything above zero the attempt is made
    /// once more, and never a third time.
    pub fn try_alloc_with_reap(
        &mut self,
        size: u64,
        reap_fn: impl FnOnce(&mut Self) -> u64,
    ) -> (r: Result<usize, ()>)
        requires
            forall|l: &mut Self|
                l@ == old(self)@.after_alloc(size) ==> #[trigger] call_requires(reap_fn, (l,)),
        ensures
            old(self)@.grants(size) ==> r == Ok::<usize, ()>(old(self)@.next_pointer)
                && final(self)@ == old(self)@.after_alloc(size),
            !old(self)@.grants(size) ==> exists|l: &mut Self, recovered: u64|
                {
                    &&& l@ == old(self)@.after_alloc(size)
                    &&& #[trigger] call_ensures(reap_fn, (l,), recovered)
                    &&& final(l)@.after_reap(size, recovered, final(self)@, r)
                },
    {
        match self.try_alloc(size) {
            Ok(pointer) => Ok(pointer),
            Err(_) => {
                let recovered: u64 = reap_fn(self);
                if recovered > 0 {
                    self.try_alloc(size)
                } else {
                    Err(())
                }
            },
        }
    }

    /// Attempts an allocation whose size is known only once it was made: reserves
    /// `estimated_size`, and where the native allocation succeeds also what
    /// `actual_size` adds to it. A denial or a native failure undoes everything.
    pub fn try_alloc_pitched(
        &mut self,
        estimated_size: u64,
        actual_size: u64,
        native_succeeds: bool,
    ) -> (r: Result<usize, ()>)
        requires
            actual_size >= estimated_size,
        ensures
            r == (if old(self)@.grants_pitched(estimated_size, actual_size, native_succeeds) {
                Ok(old(self)@.next_pointer)
            } else {
                Err(())
            }),
            final(self)@ == old(self)@.after_pitched(estimated_size, actual_size, native_succeeds),
    {
        if estimated_size == 0 {
            return Ok(self.take_pointer());
        }
        if estimated_size > MAX_ALLOC_SIZE || actual_size > MAX_ALLOC_SIZE {
            return Err(());
        }
        let limit: u64 = self.active_limit();
        let previous: u64 = fetch_add(&mut self.pod_memory_used, estimated_size);
        if !within_limit(previous, estimated_size, limit) {
            fetch_sub(&mut self.pod_memory_used, estimated_size);
            return Err(());
        }
        if !native_succeeds {
            saturating_fetch_sub(&mut self.pod_memory_used, estimated_size);
            return Err(());
        }
        let extra: u64 = actual_size - estimated_size;
        if extra > 0 {
            let reserved: u64 = fetch_add(&mut self.pod_memory_used, extra);
            if !within_limit(reserved, extra, limit) {
                fetch_sub(&mut self.pod_memory_used, estimated_size + extra);
                return Err(());
            }
        }
        let pointer: usize = self.take_pointer();
        live_insert(&mut self.allocation_tracker, pointer, (0usize, actual_size));
        fetch_add(&mut self.proc_usage, actual_size);
        Ok(pointer)
    }

    /// Gives every live allocation back at once and returns their bytes.
    pub fn drain_allocations(&mut self) -> (total: u64)
        requires
            total_bytes(old(self)@.live) <= u64::MAX,
        ensures
            total == total_bytes(old(self)@.live),
            final(self)@ == old(self)@.after_drain(),
    {
        let total: u64 = self.tracked_total();
        live_clear(&mut self.allocation_tracker);
        if total > 0 {
            saturating_fetch_sub(&mut self.pod_memory_used, total);
        }
        self.proc_usage = 0;
        assert(self@.live =~= Map::empty());
        total
    }

    /// An allocation whose native call fails: whatever was reserved is undone, and nothing
    /// has changed.
    pub fn try_alloc_native_fails(&mut self, size: u64) -> (r: Result<(), ()>)
        ensures
            r == (if size == 0 {
                Ok(())
            } else {
                Err(())
            }),
            final(self)@ == old(self)@,
    {
        if size == 0 {
            return Ok(());
        }
        if size > MAX_ALLOC_SIZE {
            return Err(());
        }
        let limit: u64 = self.active_limit();
        let previous: u64 = fetch_add(&mut self.pod_memory_used, size);
        if !within_limit(previous, size, limit) {
            fetch_sub(&mut self.pod_memory_used, size);
            return Err(());
        }
        saturating_fetch_sub(&mut self.pod_memory_used, size);
        Err(())
    }
}

/// The limit in force is the tighter one where there is one.
pub proof fn law_tighter_limit_is_in_force(s: LimiterState)
    ensures
        s.effective_mem_limit == 0 ==> s.active_limit() == s.mem_limit,
        s.effective_mem_limit > 0 ==> s.active_limit() == s.effective_mem_limit,
{
}

/// A request is granted exactly where it asks for nothing, or for no more than half of what
/// can be counted and together with what is in use for no more than the limit. Granted bytes
/// are counted for the pod and for the process and recorded under the next pointer; a denied
/// request changes nothing.
pub proof fn law_requests_by_the_limit(s: LimiterState, size: u64)
    ensures
        ({
            let limit = if s.effective_mem_limit > 0 {
                s.effective_mem_limit
            } else {
                s.mem_limit
            };
            let end = s.after_alloc(size);
            &&& s.grants(size) <==> size == 0 || (size <= u64::MAX / 2 && s.used + size <= limit)
            &&& !s.grants(size) ==> end == s
            &&& s.grants(size) && size > 0 ==> {
                &&& end.used == s.used + size
                &&& end.proc_usage == (s.proc_usage + size) % 0x1_0000_0000_0000_0000
                &&& end.live == s.live.insert(s.next_pointer, (0usize, size))
            }
            &&& size == 0 ==> end.used == s.used && end.proc_usage == s.proc_usage && end.live
                == s.live
            &&& s.grants(size) && s.next_pointer < usize::MAX ==> end.next_pointer
                == s.next_pointer + 1
            &&& end.mem_limit == s.mem_limit && end.effective_mem_limit == s.effective_mem_limit
        }),
{
}

/// Giving a pointer back takes its recorded size from both counters, to zero at most, and
/// forgets it; a pointer that is not recorded changes nothing.
pub proof fn law_frees_by_the_record(s: LimiterState, pointer: usize)
    ensures
        ({
            let end = s.after_free(pointer);
            &&& !s.live.dom().contains(pointer) ==> end == s
            &&& s.live.dom().contains(pointer) ==> {
                let size = s.live[pointer].1;
                &&& end.live == s.live.remove(pointer)
                &&& end.used == (if s.used >= size {
                    s.used - size
                } else {
                    0
                })
                &&& end.proc_usage == (if s.proc_usage >= size {
                    s.proc_usage - size
                } else {
                    0
                })
                &&& end.next_pointer == s.next_pointer
                &&& end.mem_limit == s.mem_limit
                &&& end.effective_mem_limit == s.effective_mem_limit
            }
        }),
{
}

/// A pitched request is a request for its actual size, where the estimate is not zero and
/// the native call succeeds; otherwise it is denied, and without an estimate nothing is asked
/// for.
pub proof fn law_pitched_requests_are_requests(
    s: LimiterState,
    estimated: u64,
    actual: u64,
    native: bool,
)
    requires
        estimated <= actual,
    ensures
        estimated > 0 && native ==> s.grants_pitched(estimated, actual, native) == s.grants(actual)
            && s.after_pitched(estimated, actual, native) == s.after_alloc(actual),
        estimated > 0 && !native ==> !s.grants_pitched(estimated, actual, native)
            && s.after_pitched(estimated, actual, native) == s,
        estimated == 0 ==> s.grants_pitched(estimated, actual, native) && s.after_pitched(
            estimated,
            actual,
            native,
        ) == s.after_alloc(0),
{
}

/// A drain takes the bytes of all live allocations from the counter of the pod, to zero at
/// most, and leaves nothing of the process.
pub proof fn law_drains_by_the_record(s: LimiterState)
    requires
        total_bytes(s.live) <= u64::MAX,
    ensures
        s.after_drain().used == (if s.used >= total_bytes(s.live) {
            s.used - total_bytes(s.live)
        } else {
            0
        }),
        s.after_drain().proc_usage == 0,
        s.after_drain().live.dom() == Set::<usize>::empty(),
        s.after_drain().next_pointer == s.next_pointer,
        s.after_drain().mem_limit == s.mem_limit,
{
    assert(s.after_drain().live.dom() =~= Set::<usize>::empty());
}

/// After a denial and a recovery one more attempt is made exactly where something was
/// recovered, and its outcome is that of a request.
pub proof fn law_one_more_attempt(
    s: LimiterState,
    size: u64,
    recovered: u64,
    end: LimiterState,
    r: Result<usize, ()>,
)
    requires
        s.after_reap(size, recovered, end, r),
    ensures
        r is Ok <==> recovered > 0 && s.grants(size),
        r is Ok ==> r->Ok_0 == s.next_pointer,
        recovered == 0 ==> end == s,
        recovered > 0 ==> end == s.after_alloc(size),
{
}

/// A new accounting has nothing in use and hands out no null pointer.
pub proof fn law_new_books_are_empty(mem_limit: u64)
    ensures
        empty_books(mem_limit).used == 0,
        empty_books(mem_limit).proc_usage == 0,
        empty_books(mem_limit).live.dom().len() == 0,
        empty_books(mem_limit).next_pointer == 1,
        empty_books(mem_limit).active_limit() == mem_limit,
{
}

} // verus!
