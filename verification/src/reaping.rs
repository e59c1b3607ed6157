//! Why racing reapers hand out the right counter, and each one once.
//!
//! A slot, its owner, and any number of reapers that race for it once its owner is
//! dead. Each step is one indivisible operation on the slot, and steps may interleave in
//! any order. A reaper first reads owner and counter, and later empties the slot, which
//! succeeds only where the owner is still the one it saw.
use crate::counter::counter_add;
use vstd::prelude::*;

verus! {

/// A slot and the reapers that look at it.
#[verifier::ext_equal]
pub struct SlotRace {
    /// The owner; zero marks an empty slot.
    pub owner: u32,
    /// What the slot has counted.
    pub used: u64,
    /// The processes that no longer run.
    pub dead: Set<u32>,
    /// What each reaper saw and has not acted on yet: owner and counter.
    pub seen: Seq<Option<(u32, u64)>>,
    /// What was handed out: owner and counter.
    pub handed: Seq<(u32, u64)>,
}

/// One indivisible step.
pub enum RaceStep {
    /// A new process claims the empty slot; the counter starts at zero.
    Claim(u32),
    /// The owner counts.
    Add(u64),
    /// The owner dies.
    Die,
    /// A reaper reads the owner, which is dead, and the counter.
    Look(int),
    /// A reaper empties the slot and hands out what it read, where the owner is still the
    /// one it saw; otherwise it gives up.
    Act(int),
    /// The counter of the empty slot is zeroed.
    Wipe,
}

impl SlotRace {
    /// A process that was never seen or handed out. The ids of dead processes are not
    /// given out again while reapers may still act on them.
    pub open spec fn is_new(self, pid: u32) -> bool {
        &&& pid != 0
        &&& !self.dead.contains(pid)
        &&& forall|r: int|
            0 <= r < self.seen.len() ==> (#[trigger] self.seen[r] matches Some(x) ==> x.0 != pid)
        &&& forall|k: int| 0 <= k < self.handed.len() ==> (#[trigger] self.handed[k]).0 != pid
    }

    /// The step can be taken.
    pub open spec fn enabled(self, step: RaceStep) -> bool {
        match step {
            RaceStep::Claim(pid) => self.owner == 0 && self.is_new(pid),
            RaceStep::Add(_size) => self.owner != 0 && !self.dead.contains(self.owner),
            RaceStep::Die => self.owner != 0,
            RaceStep::Look(r) => 0 <= r < self.seen.len() && self.owner != 0 && self.dead.contains(
                self.owner,
            ),
            RaceStep::Act(r) => 0 <= r < self.seen.len() && self.seen[r] is Some,
            RaceStep::Wipe => self.owner == 0,
        }
    }

    /// A reaper that acts now would succeed.
    pub open spec fn succeeds(self, r: int) -> bool {
        self.seen[r] matches Some(x) && x.0 == self.owner
    }

    /// The state after a step.
    pub open spec fn after(self, step: RaceStep) -> SlotRace {
        match step {
            RaceStep::Claim(pid) => SlotRace { owner: pid, used: 0, ..self },
            RaceStep::Add(size) => SlotRace { used: counter_add(self.used, size), ..self },
            RaceStep::Die => SlotRace { dead: self.dead.insert(self.owner), ..self },
            RaceStep::Look(r) => SlotRace {
                seen: self.seen.update(r, Some((self.owner, self.used))),
                ..self
            },
            RaceStep::Act(r) => if self.succeeds(r) {
                SlotRace {
                    owner: 0,
                    seen: self.seen.update(r, None),
                    handed: self.handed.push(self.seen[r]->0),
                    ..self
                }
            } else {
                SlotRace { seen: self.seen.update(r, None), ..self }
            },
            RaceStep::Wipe => SlotRace { used: 0, ..self },
        }
    }

    /// What a reaper saw of the present owner still holds, and nobody was handed out
    /// twice.
    pub open spec fn fair(self) -> bool {
        &&& forall|r: int|
            0 <= r < self.seen.len() ==> (#[trigger] self.seen[r] matches Some(x) ==> x.0 != 0
                && self.dead.contains(x.0) && (x.0 == self.owner ==> x.1 == self.used))
        &&& forall|k: int|
            0 <= k < self.handed.len() ==> (#[trigger] self.handed[k]).0 != self.owner
                && self.handed[k].0 != 0
        &&& forall|k: int, l: int|
            0 <= k < l < self.handed.len() ==> (#[trigger] self.handed[k]).0 != (
            #[trigger] self.handed[l]).0
    }

    /// The state after a sequence of steps.
    pub open spec fn after_all(self, steps: Seq<RaceStep>) -> SlotRace
        decreases steps.len(),
    {
        if steps.len() == 0 {
            self
        } else {
            self.after_all(steps.drop_last()).after(steps.last())
        }
    }

    /// Each step of a sequence can be taken when its turn comes.
    pub open spec fn enabled_all(self, steps: Seq<RaceStep>) -> bool
        decreases steps.len(),
    {
        steps.len() > 0 ==> self.enabled_all(steps.drop_last()) && self.after_all(
            steps.drop_last(),
        ).enabled(steps.last())
    }
}

/// Every step keeps the race fair.
pub proof fn law_race_stays_fair(s: SlotRace, step: RaceStep)
    requires
        s.fair(),
        s.enabled(step),
    ensures
        s.after(step).fair(),
{
    let end = s.after(step);
    assert forall|r: int| 0 <= r < end.seen.len() implies (#[trigger] end.seen[r] matches Some(x)
        ==> x.0 != 0 && end.dead.contains(x.0) && (x.0 == end.owner ==> x.1 == end.used)) by {
        assert(s.seen[r] matches Some(x) ==> x.0 != 0 && s.dead.contains(x.0));
    }
    if let RaceStep::Act(r) = step {
        if s.succeeds(r) {
            assert(s.seen[r] is Some);
            let x = s.seen[r]->0;
            assert forall|k: int, l: int| 0 <= k < l < end.handed.len() implies (
            #[trigger] end.handed[k]).0 != (#[trigger] end.handed[l]).0 by {
                assert(end.handed[k] == s.handed[k]);
                if l < s.handed.len() {
                    assert(end.handed[l] == s.handed[l]);
                } else {
                    assert(end.handed[l] == x);
                }
            }
            assert forall|k: int| 0 <= k < end.handed.len() implies (
            #[trigger] end.handed[k]).0 != end.owner && end.handed[k].0 != 0 by {
                if k < s.handed.len() {
                    assert(end.handed[k] == s.handed[k]);
                } else {
                    assert(end.handed[k] == x);
                }
            }
        }
    }
}

/// However the steps interleave, each dead process is handed out at most once, and what a
/// reaper that succeeds hands out is what the slot has counted.
pub proof fn law_each_dead_process_is_handed_out_once(s: SlotRace, steps: Seq<RaceStep>)
    requires
        s.fair(),
        s.enabled_all(steps),
    ensures
        s.after_all(steps).fair(),
        forall|k: int, l: int|
            0 <= k < l < s.after_all(steps).handed.len() ==> (
            #[trigger] s.after_all(steps).handed[k]).0 != (
            #[trigger] s.after_all(steps).handed[l]).0,
        forall|r: int|
            0 <= r < s.after_all(steps).seen.len() && #[trigger] s.after_all(steps).succeeds(r)
                ==> (s.after_all(steps).seen[r]->0).1 == s.after_all(steps).used,
    decreases steps.len(),
{
    if steps.len() > 0 {
        law_each_dead_process_is_handed_out_once(s, steps.drop_last());
        law_race_stays_fair(s.after_all(steps.drop_last()), steps.last());
    }
    let end = s.after_all(steps);
    assert forall|r: int| 0 <= r < end.seen.len() && #[trigger] end.succeeds(r) implies
        (end.seen[r]->0).1 == end.used by {
        assert(end.seen[r] is Some);
    }
}

/// A reaper that saw a dead owner never takes the slot from a process that has claimed it
/// since.
pub proof fn law_new_owner_is_safe(s: SlotRace, pid: u32, r: int)
    requires
        s.fair(),
        s.enabled(RaceStep::Claim(pid)),
        0 <= r < s.seen.len(),
    ensures
        !s.after(RaceStep::Claim(pid)).succeeds(r),
{
}

} // verus!
