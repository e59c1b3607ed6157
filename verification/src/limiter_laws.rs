//! What the accounting of one device keeps, whatever is asked of it.
use crate::counter::{counter_add, counter_sub, MAX_ALLOC_SIZE};
use crate::simulated_limiter::{empty_books, LimiterState};
use crate::tracker::{lemma_weighed_insert, lemma_weighed_remove, total_bytes};
use vstd::prelude::*;

verus! {

impl LimiterState {
    /// The books balance: both counters hold the bytes of the live allocations.
    pub open spec fn balanced(self) -> bool {
        &&& self.live.dom().finite()
        &&& self.used == total_bytes(self.live)
        &&& self.proc_usage == self.used
    }

    /// The usage is within the limit in force.
    pub open spec fn within(self) -> bool {
        self.used <= self.active_limit()
    }

    /// The next pointer is not in use.
    pub open spec fn spare(self) -> bool {
        !self.live.dom().contains(self.next_pointer)
    }
}

/// A request keeps the books balanced and the usage within the limit, as long as the next
/// pointer is not in use.
pub proof fn law_alloc_keeps_balance(s: LimiterState, size: u64)
    requires
        s.balanced(),
        s.spare(),
    ensures
        s.after_alloc(size).balanced(),
        s.within() ==> s.after_alloc(size).within(),
{
    if size > 0 && s.grants(size) {
        lemma_weighed_insert(
            s.live,
            |e: (usize, u64)| e.1 as nat,
            s.next_pointer,
            (0usize, size),
        );
    }
}

/// Giving a pointer back keeps the books balanced and never raises the usage.
pub proof fn law_free_keeps_balance(s: LimiterState, pointer: usize)
    requires
        s.balanced(),
    ensures
        s.after_free(pointer).balanced(),
        s.after_free(pointer).used <= s.used,
        s.within() ==> s.after_free(pointer).within(),
{
    if s.live.dom().contains(pointer) {
        lemma_weighed_remove(s.live, |e: (usize, u64)| e.1 as nat, pointer);
    }
}

/// A pitched request keeps the books balanced and the usage within the limit, as long as
/// the next pointer is not in use.
pub proof fn law_pitched_keeps_balance(
    s: LimiterState,
    estimated: u64,
    actual: u64,
    native: bool,
)
    requires
        s.balanced(),
        s.spare(),
        estimated <= actual,
    ensures
        s.after_pitched(estimated, actual, native).balanced(),
        s.within() ==> s.after_pitched(estimated, actual, native).within(),
{
    if estimated > 0 && s.grants_pitched(estimated, actual, native) {
        lemma_weighed_insert(
            s.live,
            |e: (usize, u64)| e.1 as nat,
            s.next_pointer,
            (0usize, actual),
        );
    }
}

/// Draining balanced books hands back exactly the usage and leaves nothing behind.
pub proof fn law_drain_leaves_nothing(s: LimiterState)
    requires
        s.balanced(),
    ensures
        total_bytes(s.live) == s.used,
        s.after_drain().used == 0,
        s.after_drain().proc_usage == 0,
        s.after_drain().live.dom().len() == 0,
        s.after_drain().balanced(),
        s.after_drain().after_drain() == s.after_drain(),
{
    assert(s.after_drain().live.dom() =~= Set::<usize>::empty());
    assert(s.after_drain().live.dom().len() == 0);
    assert(total_bytes(s.after_drain().live) == 0);
}

/// A denied request changes nothing, not even where it runs over the counter.
pub proof fn law_denied_changes_nothing(s: LimiterState, size: u64)
    requires
        !s.grants(size),
    ensures
        s.after_alloc(size) == s,
{
}

/// A pitched request that is denied, or whose native allocation fails, changes nothing.
pub proof fn law_denied_pitched_changes_nothing(
    s: LimiterState,
    estimated: u64,
    actual: u64,
    native: bool,
)
    requires
        estimated <= actual,
        !s.grants_pitched(estimated, actual, native),
    ensures
        s.after_pitched(estimated, actual, native) == s,
{
}

/// Freeing what was just allocated restores everything but the supply of pointers.
pub proof fn law_free_undoes_alloc(s: LimiterState, size: u64)
    requires
        s.balanced(),
        s.spare(),
        s.grants(size),
        size > 0,
    ensures
        s.after_alloc(size).live.dom().contains(s.next_pointer),
        s.after_alloc(size).after_free(s.next_pointer) == s.pointer_taken(),
{
    assert(s.after_alloc(size).after_free(s.next_pointer).live =~= s.live);
}

/// Freeing a pointer a second time changes nothing.
pub proof fn law_second_free_changes_nothing(s: LimiterState, pointer: usize)
    ensures
        !s.after_free(pointer).live.dom().contains(pointer),
        s.after_free(pointer).after_free(pointer) == s.after_free(pointer),
{
}

/// A request of zero bytes leaves no trace: its pointer is not recorded, so
/// freeing it changes nothing.
pub proof fn law_zero_size_is_free(s: LimiterState)
    requires
        s.spare(),
    ensures
        s.grants(0),
        s.after_alloc(0) == s.pointer_taken(),
        s.after_alloc(0).after_free(s.next_pointer) == s.pointer_taken(),
{
}

/// Successive pointers differ.
pub proof fn law_pointers_differ(s: LimiterState, size: u64)
    requires
        s.grants(size),
    ensures
        s.after_alloc(size).next_pointer != s.next_pointer,
{
}

/// Recovering stale usage makes room: a request is granted as soon as what is
/// left of the usage leaves space for it.
pub proof fn law_recovery_makes_room(s: LimiterState, size: u64, recovered: u64)
    requires
        size <= MAX_ALLOC_SIZE,
        recovered <= s.used,
        s.used - recovered + size <= s.active_limit(),
    ensures
        (LimiterState { used: counter_sub(s.used, recovered), ..s }).grants(size),
{
}

/// Stale usage takes up room without being anyone's allocation, and recovering
/// it restores the state.
pub proof fn law_recovery_undoes_stale_usage(s: LimiterState, size: u64)
    requires
        s.used + size <= u64::MAX,
    ensures
        ({
            let stale = LimiterState { used: counter_add(s.used, size), ..s };
            &&& stale.live == s.live
            &&& LimiterState { used: counter_sub(stale.used, size), ..stale } == s
        }),
{
}

/// One thing that can be asked of the accounting.
pub enum Request {
    /// An allocation of so many bytes.
    Alloc(u64),
    /// An allocation whose native call fails.
    NativeFails(u64),
    /// A pitched allocation: estimate, actual size, whether the native call succeeds.
    Pitched(u64, u64, bool),
    /// A pointer to give back.
    Free(usize),
    /// Everything at once to give back.
    Drain,
}

impl LimiterState {
    /// The state after one request.
    pub open spec fn after(self, request: Request) -> LimiterState {
        match request {
            Request::Alloc(size) => self.after_alloc(size),
            Request::NativeFails(_size) => self,
            Request::Pitched(estimated, actual, native) => self.after_pitched(
                estimated,
                actual,
                native,
            ),
            Request::Free(pointer) => self.after_free(pointer),
            Request::Drain => self.after_drain(),
        }
    }

    /// The request is in order: a new pointer that it may need is not in use, and an
    /// estimate is no more than the actual size.
    pub open spec fn serves(self, request: Request) -> bool {
        match request {
            Request::Alloc(_size) => self.spare(),
            Request::Pitched(estimated, actual, _native) => self.spare() && estimated <= actual,
            _ => true,
        }
    }

    /// The state after a sequence of requests.
    pub open spec fn after_all(self, requests: Seq<Request>) -> LimiterState
        decreases requests.len(),
    {
        if requests.len() == 0 {
            self
        } else {
            self.after_all(requests.drop_last()).after(requests.last())
        }
    }

    /// Every request of a sequence is in order when its turn comes.
    pub open spec fn serves_all(self, requests: Seq<Request>) -> bool
        decreases requests.len(),
    {
        requests.len() > 0 ==> self.serves_all(requests.drop_last()) && self.after_all(
            requests.drop_last(),
        ).serves(requests.last())
    }

    /// The pointers with more than zero bytes that were handed out and neither freed nor
    /// drained since, with their sizes.
    pub open spec fn outstanding(self, requests: Seq<Request>) -> Map<usize, u64>
        decreases requests.len(),
    {
        if requests.len() == 0 {
            sizes(self.live)
        } else {
            let before = self.after_all(requests.drop_last());
            let held = self.outstanding(requests.drop_last());
            match requests.last() {
                Request::Alloc(size) => if size > 0 && before.grants(size) {
                    held.insert(before.next_pointer, size)
                } else {
                    held
                },
                Request::NativeFails(_size) => held,
                Request::Pitched(estimated, actual, native) => if estimated > 0
                    && before.grants_pitched(estimated, actual, native) {
                    held.insert(before.next_pointer, actual)
                } else {
                    held
                },
                Request::Free(pointer) => held.remove(pointer),
                Request::Drain => Map::empty(),
            }
        }
    }
}

/// The sizes of allocations.
pub open spec fn sizes(live: Map<usize, (usize, u64)>) -> Map<usize, u64> {
    live.map_values(|e: (usize, u64)| e.1)
}

/// After any sequence of requests the books balance, the usage is within the limit, and
/// what is recorded is what was handed out and not given back, as long as no pointer is
/// handed out that is still in use.
pub proof fn law_any_sequence_balances(s: LimiterState, requests: Seq<Request>)
    requires
        s.balanced(),
        s.within(),
        s.serves_all(requests),
    ensures
        s.after_all(requests).balanced(),
        s.after_all(requests).within(),
        s.after_all(requests).active_limit() == s.active_limit(),
        sizes(s.after_all(requests).live) == s.outstanding(requests),
    decreases requests.len(),
{
    if requests.len() > 0 {
        law_any_sequence_balances(s, requests.drop_last());
        let before = s.after_all(requests.drop_last());
        match requests.last() {
            Request::Alloc(size) => law_alloc_keeps_balance(before, size),
            Request::NativeFails(size) => {},
            Request::Pitched(estimated, actual, native) => law_pitched_keeps_balance(
                before,
                estimated,
                actual,
                native,
            ),
            Request::Free(pointer) => law_free_keeps_balance(before, pointer),
            Request::Drain => law_drain_leaves_nothing(before),
        }
        assert(sizes(s.after_all(requests).live) =~= s.outstanding(requests));
    }
}

/// Pointers are counted upwards: fewer requests than there are pointers never meet one
/// that is still in use.
pub proof fn law_pointers_last(mem_limit: u64, requests: Seq<Request>)
    requires
        requests.len() < usize::MAX,
        forall|i: int|
            0 <= i < requests.len() ==> (#[trigger] requests[i] matches Request::Pitched(e, a, _n)
                ==> e <= a),
    ensures
        empty_books(mem_limit).serves_all(requests),
        empty_books(mem_limit).after_all(requests).next_pointer <= 1 + requests.len(),
        empty_books(mem_limit).after_all(requests).spare(),
        forall|p: usize| #[trigger]
            empty_books(mem_limit).after_all(requests).live.dom().contains(p) ==> p
                < empty_books(mem_limit).after_all(requests).next_pointer,
    decreases requests.len(),
{
    if requests.len() > 0 {
        let rest = requests.drop_last();
        assert forall|i: int| 0 <= i < rest.len() implies (#[trigger] rest[i] matches
            Request::Pitched(e, a, _n) ==> e <= a) by {
            assert(rest[i] == requests[i]);
        }
        law_pointers_last(mem_limit, rest);
        assert(requests.last() == requests[requests.len() - 1]);
    }
}

/// Whatever is asked of a new accounting, the bytes of the live allocations, the usage of
/// the pod and the usage of the process are one number within the limit, and the live
/// allocations are the pointers handed out and not given back.
pub proof fn law_books_of_a_new_limiter(mem_limit: u64, requests: Seq<Request>)
    requires
        requests.len() < usize::MAX,
        forall|i: int|
            0 <= i < requests.len() ==> (#[trigger] requests[i] matches Request::Pitched(e, a, _n)
                ==> e <= a),
    ensures
        ({
            let s = empty_books(mem_limit).after_all(requests);
            let held = empty_books(mem_limit).outstanding(requests);
            &&& total_bytes(s.live) == s.used
            &&& s.proc_usage == s.used
            &&& s.used <= mem_limit
            &&& s.live.dom() == held.dom()
            &&& forall|p: usize| #[trigger] held.dom().contains(p) ==> s.live[p].1 == held[p]
        }),
{
    let start = empty_books(mem_limit);
    law_pointers_last(mem_limit, requests);
    assert(total_bytes(start.live) == 0);
    law_any_sequence_balances(start, requests);
    let s = start.after_all(requests);
    assert(sizes(s.live).dom() =~= s.live.dom());
}

/// Whatever was asked of a new accounting before, freeing what was just allocated restores
/// the usage, the live allocations and their number, and freeing it once more changes
/// nothing.
pub proof fn law_free_undoes_alloc_at_any_time(
    mem_limit: u64,
    requests: Seq<Request>,
    size: u64,
)
    requires
        requests.len() < usize::MAX,
        forall|i: int|
            0 <= i < requests.len() ==> (#[trigger] requests[i] matches Request::Pitched(e, a, _n)
                ==> e <= a),
        size > 0,
        empty_books(mem_limit).after_all(requests).grants(size),
    ensures
        ({
            let s = empty_books(mem_limit).after_all(requests);
            let allocated = s.after_alloc(size);
            let freed = allocated.after_free(s.next_pointer);
            &&& allocated.live.dom().contains(s.next_pointer)
            &&& freed.used == s.used
            &&& freed.proc_usage == s.proc_usage
            &&& freed.live == s.live
            &&& !freed.live.dom().contains(s.next_pointer)
            &&& freed.after_free(s.next_pointer) == freed
        }),
{
    law_pointers_last(mem_limit, requests);
    assert(total_bytes(empty_books(mem_limit).live) == 0);
    law_any_sequence_balances(empty_books(mem_limit), requests);
    law_free_undoes_alloc(empty_books(mem_limit).after_all(requests), size);
}

} // verus!
