//! Why reserving first and judging afterwards never overcommits.
//!
//! Many tasks, in one process or in several, share one usage counter and one
//! limit. Each step below is one indivisible operation on the counter, and steps
//! of different tasks may interleave in any order.
use crate::counter::{counter_add, counter_back, counter_sub, fits};
use vstd::prelude::*;

verus! {

/// One task's part in the shared counter.
pub struct Task {
    /// The bytes of its live allocations.
    pub held: nat,
    /// A reservation that has not been judged yet: its size, and what the counter
    /// showed when it was added.
    pub pending: Option<(u64, u64)>,
}

/// The shared counter, its limit, and the tasks that use it.
#[verifier::ext_equal]
pub struct Shared {
    /// The limit in bytes.
    pub limit: u64,
    /// The counter.
    pub used: u64,
    /// The tasks.
    pub tasks: Seq<Task>,
}

/// One indivisible step of one task.
pub enum Step {
    /// Adds a request to the counter and remembers what the counter showed.
    Reserve(u64),
    /// Judges the pending reservation by what it remembered: keeps it where it
    /// fits, and takes it back otherwise.
    Judge,
    /// Takes the pending reservation back because the native call failed.
    GiveUp,
    /// Gives so many held bytes back.
    Release(u64),
}

/// The sum of `weight` over the tasks.
pub open spec fn sum_tasks(tasks: Seq<Task>, weight: spec_fn(Task) -> nat) -> nat
    decreases tasks.len(),
{
    if tasks.len() == 0 {
        0
    } else {
        sum_tasks(tasks.drop_last(), weight) + weight(tasks.last())
    }
}

/// What a task has in the counter: held bytes and a pending reservation.
pub open spec fn counted() -> spec_fn(Task) -> nat {
    |t: Task|
        match t.pending {
            Some(p) => t.held + p.0 as nat,
            None => t.held,
        }
}

/// What a task holds or is bound to hold: a pending reservation counts where it
/// will be judged to fit.
pub open spec fn committed(limit: u64) -> spec_fn(Task) -> nat {
    |t: Task|
        match t.pending {
            Some(p) => if fits(p.1, p.0, limit) {
                t.held + p.0 as nat
            } else {
                t.held
            },
            None => t.held,
        }
}

/// What a task holds.
pub open spec fn holding() -> spec_fn(Task) -> nat {
    |t: Task| t.held
}

impl Shared {
    /// The bytes of all live allocations.
    pub open spec fn held(self) -> nat {
        sum_tasks(self.tasks, holding())
    }

    /// No reservation is waiting to be judged.
    pub open spec fn quiet(self) -> bool {
        forall|i: int| 0 <= i < self.tasks.len() ==> (#[trigger] self.tasks[i]).pending is None
    }

    /// The counter shows exactly what the tasks hold and have pending, and what
    /// they hold or are bound to hold is within the limit.
    pub open spec fn sound(self) -> bool {
        &&& self.used == sum_tasks(self.tasks, counted())
        &&& sum_tasks(self.tasks, committed(self.limit)) <= self.limit
    }

    /// Task `i` can take the step. A reservation must not wrap the counter around.
    pub open spec fn enabled(self, i: int, step: Step) -> bool {
        &&& 0 <= i < self.tasks.len()
        &&& match step {
            Step::Reserve(size) => self.tasks[i].pending is None && self.used + size <= u64::MAX,
            Step::Judge => self.tasks[i].pending is Some,
            Step::GiveUp => self.tasks[i].pending is Some,
            Step::Release(size) => size <= self.tasks[i].held,
        }
    }

    /// The state after task `i` took the step.
    pub open spec fn after(self, i: int, step: Step) -> Shared {
        let task = self.tasks[i];
        match step {
            Step::Reserve(size) => Shared {
                used: counter_add(self.used, size),
                tasks: self.tasks.update(i, (Task { pending: Some((size, self.used)), ..task })),
                ..self
            },
            Step::Judge => {
                let (size, previous) = task.pending->0;
                if fits(previous, size, self.limit) {
                    Shared {
                        tasks: self.tasks.update(
                            i,
                            (Task { held: task.held + size as nat, pending: None }),
                        ),
                        ..self
                    }
                } else {
                    Shared {
                        used: counter_back(self.used, size),
                        tasks: self.tasks.update(i, (Task { pending: None, ..task })),
                        ..self
                    }
                }
            },
            Step::GiveUp => {
                let (size, _previous) = task.pending->0;
                Shared {
                    used: counter_sub(self.used, size),
                    tasks: self.tasks.update(i, (Task { pending: None, ..task })),
                    ..self
                }
            },
            Step::Release(size) => Shared {
                used: counter_sub(self.used, size),
                tasks: self.tasks.update(i, (Task { held: (task.held - size) as nat, ..task })),
                ..self
            },
        }
    }

    /// The state after a sequence of steps, each of some task.
    pub open spec fn after_all(self, steps: Seq<(int, Step)>) -> Shared
        decreases steps.len(),
    {
        if steps.len() == 0 {
            self
        } else {
            self.after_all(steps.drop_last()).after(steps.last().0, steps.last().1)
        }
    }

    /// Each step of a sequence can be taken when its turn comes.
    pub open spec fn enabled_all(self, steps: Seq<(int, Step)>) -> bool
        decreases steps.len(),
    {
        steps.len() > 0 ==> self.enabled_all(steps.drop_last()) && self.after_all(
            steps.drop_last(),
        ).enabled(steps.last().0, steps.last().1)
    }
}

/// Replacing one task changes a sum by the difference of the two weights.
proof fn lemma_sum_update(tasks: Seq<Task>, weight: spec_fn(Task) -> nat, i: int, t: Task)
    requires
        0 <= i < tasks.len(),
    ensures
        sum_tasks(tasks.update(i, t), weight) + weight(tasks[i]) == sum_tasks(tasks, weight)
            + weight(t),
    decreases tasks.len(),
{
    let updated = tasks.update(i, t);
    if i == tasks.len() - 1 {
        assert(updated.drop_last() =~= tasks.drop_last());
    } else {
        assert(updated.drop_last() =~= tasks.drop_last().update(i, t));
        lemma_sum_update(tasks.drop_last(), weight, i, t);
    }
}

/// A smaller weight sums to no more.
proof fn lemma_sum_le(tasks: Seq<Task>, small: spec_fn(Task) -> nat, large: spec_fn(Task) -> nat)
    requires
        forall|t: Task| #[trigger] small(t) <= large(t),
    ensures
        sum_tasks(tasks, small) <= sum_tasks(tasks, large),
    decreases tasks.len(),
{
    if tasks.len() > 0 {
        lemma_sum_le(tasks.drop_last(), small, large);
        assert(small(tasks.last()) <= large(tasks.last()));
    }
}

/// One task's weight is no more than the sum.
proof fn lemma_sum_part(tasks: Seq<Task>, weight: spec_fn(Task) -> nat, i: int)
    requires
        0 <= i < tasks.len(),
    ensures
        weight(tasks[i]) <= sum_tasks(tasks, weight),
    decreases tasks.len(),
{
    if i < tasks.len() - 1 {
        lemma_sum_part(tasks.drop_last(), weight, i);
        assert(tasks.drop_last()[i] == tasks[i]);
    }
}

/// Every step of every task keeps the counter sound.
pub proof fn law_step_keeps_sound(s: Shared, i: int, step: Step)
    requires
        s.sound(),
        s.enabled(i, step),
    ensures
        s.after(i, step).sound(),
{
    let end = s.after(i, step);
    lemma_sum_update(s.tasks, counted(), i, end.tasks[i]);
    lemma_sum_update(s.tasks, committed(s.limit), i, end.tasks[i]);
    lemma_sum_part(s.tasks, counted(), i);
    lemma_sum_le(s.tasks, committed(s.limit), counted());
    assert(end.tasks == s.tasks.update(i, end.tasks[i]));
}

/// However the steps of any number of tasks interleave, live allocations never
/// exceed the limit, and once no reservation is pending the counter shows exactly
/// the bytes of the live allocations.
pub proof fn law_never_overcommits(s: Shared, steps: Seq<(int, Step)>)
    requires
        s.sound(),
        s.enabled_all(steps),
    ensures
        s.after_all(steps).sound(),
        s.after_all(steps).limit == s.limit,
        s.after_all(steps).held() <= s.limit,
        s.after_all(steps).quiet() ==> s.after_all(steps).used == s.after_all(steps).held(),
    decreases steps.len(),
{
    if steps.len() > 0 {
        law_never_overcommits(s, steps.drop_last());
        law_step_keeps_sound(s.after_all(steps.drop_last()), steps.last().0, steps.last().1);
    }
    let end = s.after_all(steps);
    lemma_sum_le(end.tasks, holding(), committed(end.limit));
    if end.quiet() {
        lemma_quiet_sum(end.tasks);
    }
}

/// Without pending reservations, what is counted is what is held.
proof fn lemma_quiet_sum(tasks: Seq<Task>)
    requires
        forall|i: int| 0 <= i < tasks.len() ==> (#[trigger] tasks[i]).pending is None,
    ensures
        sum_tasks(tasks, counted()) == sum_tasks(tasks, holding()),
    decreases tasks.len(),
{
    if tasks.len() > 0 {
        let rest = tasks.drop_last();
        assert forall|i: int| 0 <= i < rest.len() implies (#[trigger] rest[i]).pending is None by {
            assert(rest[i] == tasks[i]);
        }
        lemma_quiet_sum(rest);
        assert(tasks[tasks.len() - 1].pending is None);
    }
}

/// A request that fits on top of everything in the counter is kept, whatever the
/// other tasks do between its reservation and its judgement.
pub proof fn law_fitting_request_is_kept(s: Shared, i: int, size: u64, t: Shared)
    requires
        s.sound(),
        s.enabled(i, Step::Reserve(size)),
        s.used + size <= s.limit,
        0 <= i < t.tasks.len(),
        t.limit == s.limit,
        t.tasks[i] == s.after(i, Step::Reserve(size)).tasks[i],
    ensures
        t.after(i, Step::Judge).tasks[i].held == s.tasks[i].held + size,
        t.after(i, Step::Judge).used == t.used,
{
}

} // verus!
