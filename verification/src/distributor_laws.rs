//! What holds of the distributor's total, whatever the order in which the
//! tasks end.

use vstd::prelude::*;
use vstd::seq_lib::{to_multiset_build, to_multiset_contains, to_multiset_len, to_multiset_remove};
use crate::distributor::{
    accepts, contribution, initial, next_state, records_total, state_after, total_of,
    DistributorModel, Event, Phase, TaskOutcome,
};
use crate::extract::ExtractionRule;
use crate::extract_laws::lemma_extraction_range;

verus! {

/// The events of a whole run in which the tasks end with `outcomes`, in
/// this order: one record arrives for each task, the input closes, and the
/// tasks end.
pub open spec fn run_events(outcomes: Seq<TaskOutcome>) -> Seq<Event> {
    Seq::new(outcomes.len(), |i: int| Event::RecordReceived) + seq![Event::InputClosed]
        + outcomes.map_values(|o: TaskOutcome| Event::TaskFinished(o))
}

/// The total never falls: an event adds what one task delivered, or
/// nothing. The phase never goes back: collecting comes before draining and
/// draining before done, and nothing changes once the distributor is done.
pub proof fn lemma_step_is_monotone(state: DistributorModel, event: Event)
    ensures
        next_state(state, event).total >= state.total,
        event matches Event::TaskFinished(outcome) ==> next_state(state, event).total
            <= state.total + contribution(outcome),
        event !is TaskFinished ==> next_state(state, event).total == state.total,
        state.phase == Phase::Done ==> next_state(state, event) == state,
        state.phase == Phase::Draining ==> next_state(state, event).phase != Phase::Collecting,
{
}

/// The number of tasks that were launched in the course of `events`: the
/// records that arrived while the distributor was collecting.
pub open spec fn launched_in(events: Seq<Event>) -> nat
    decreases events.len(),
{
    if events.len() == 0 {
        0
    } else {
        let before = state_after(initial(), events.drop_last());
        if events.last() == Event::RecordReceived && accepts(before, events.last()) {
            launched_in(events.drop_last()) + 1
        } else {
            launched_in(events.drop_last())
        }
    }
}

/// The outcomes that the distributor took in the course of `events`, in
/// order: those of the tasks that ended while it was draining.
pub open spec fn taken_in(events: Seq<Event>) -> Seq<TaskOutcome>
    decreases events.len(),
{
    if events.len() == 0 {
        Seq::empty()
    } else {
        let before = state_after(initial(), events.drop_last());
        match events.last() {
            Event::TaskFinished(outcome) => if accepts(before, events.last()) {
                taken_in(events.drop_last()).push(outcome)
            } else {
                taken_in(events.drop_last())
            },
            _ => taken_in(events.drop_last()),
        }
    }
}

/// Whatever events come, in whatever order: the total is the sum of the
/// outcomes that were taken, and each task that was launched has either
/// ended or is pending, so that no record adds more than once. Nothing is
/// taken while collecting, tasks are pending while draining, and none is
/// once the distributor is done.
pub proof fn lemma_distributor_invariant(events: Seq<Event>)
    ensures
        state_after(initial(), events).total == total_of(taken_in(events)),
        taken_in(events).len() + state_after(initial(), events).pending == launched_in(events),
        state_after(initial(), events).phase == Phase::Collecting ==> taken_in(events).len() == 0,
        state_after(initial(), events).phase == Phase::Draining ==> state_after(
            initial(),
            events,
        ).pending > 0,
        state_after(initial(), events).phase == Phase::Done ==> state_after(
            initial(),
            events,
        ).pending == 0,
    decreases events.len(),
{
    if events.len() > 0 {
        lemma_distributor_invariant(events.drop_last());
        let before = state_after(initial(), events.drop_last());
        match events.last() {
            Event::TaskFinished(outcome) => {
                if accepts(before, events.last()) {
                    let taken = taken_in(events);
                    assert(taken.drop_last() =~= taken_in(events.drop_last()));
                    assert(taken.last() == outcome);
                }
            },
            _ => {},
        }
    }
}

/// Taking one outcome away lowers the sum by what that outcome added.
pub proof fn lemma_total_of_remove(outcomes: Seq<TaskOutcome>, at: int)
    requires
        0 <= at < outcomes.len(),
    ensures
        total_of(outcomes) == total_of(outcomes.remove(at)) + contribution(outcomes[at]),
    decreases outcomes.len(),
{
    if at == outcomes.len() - 1 {
        assert(outcomes.remove(at) =~= outcomes.drop_last());
    } else {
        lemma_total_of_remove(outcomes.drop_last(), at);
        assert(outcomes.remove(at).drop_last() =~= outcomes.drop_last().remove(at));
        assert(outcomes.remove(at).last() == outcomes.last());
    }
}

/// The sum of the outcomes does not depend on their order: two sequences
/// that hold the same outcomes, each as often as the other, have the same
/// sum.
pub proof fn lemma_total_of_permutation(one: Seq<TaskOutcome>, other: Seq<TaskOutcome>)
    requires
        one.to_multiset() == other.to_multiset(),
    ensures
        total_of(one) == total_of(other),
    decreases one.len(),
{
    to_multiset_len(one);
    to_multiset_len(other);
    if one.len() > 0 {
        let last = one.last();
        let rest = one.drop_last();
        assert(rest.push(last) =~= one);
        to_multiset_build(rest, last);
        to_multiset_contains(other, last);
        assert(other.to_multiset().count(last) > 0);
        let at = choose|at: int| 0 <= at < other.len() && other[at] == last;
        to_multiset_remove(other, at);
        assert(rest.to_multiset() =~= other.remove(at).to_multiset());
        lemma_total_of_permutation(rest, other.remove(at));
        lemma_total_of_remove(other, at);
    }
}

/// After the records have arrived and the input has closed, and the first
/// `ended` tasks have ended, the total is the sum of their outcomes, the
/// other tasks are pending, and the distributor is done exactly when none
/// is.
pub proof fn lemma_run_prefix(outcomes: Seq<TaskOutcome>, ended: int)
    requires
        0 <= ended <= outcomes.len(),
    ensures
        state_after(initial(), run_events(outcomes).take(outcomes.len() + 1 + ended)) == (
        DistributorModel {
            phase: if ended == outcomes.len() {
                Phase::Done
            } else {
                Phase::Draining
            },
            pending: (outcomes.len() - ended) as nat,
            total: total_of(outcomes.take(ended)),
        }),
    decreases ended,
{
    let events = run_events(outcomes);
    let n = outcomes.len() as int;
    if ended == 0 {
        lemma_run_collecting(outcomes, n);
        assert(events.take(n + 1).drop_last() =~= events.take(n));
        assert(events.take(n + 1).last() == Event::InputClosed);
        assert(outcomes.take(0) =~= Seq::<TaskOutcome>::empty());
    } else {
        lemma_run_prefix(outcomes, ended - 1);
        assert(events.take(n + 1 + ended).drop_last() =~= events.take(n + ended));
        assert(events.take(n + 1 + ended).last() == Event::TaskFinished(outcomes[ended - 1]));
        assert(outcomes.take(ended).drop_last() =~= outcomes.take(ended - 1));
        assert(outcomes.take(ended).last() == outcomes[ended - 1]);
    }
}

/// While the records arrive, one task is pending for each and the total is
/// zero.
pub proof fn lemma_run_collecting(outcomes: Seq<TaskOutcome>, arrived: int)
    requires
        0 <= arrived <= outcomes.len(),
    ensures
        state_after(initial(), run_events(outcomes).take(arrived)) == (DistributorModel {
            phase: Phase::Collecting,
            pending: arrived as nat,
            total: 0,
        }),
    decreases arrived,
{
    let events = run_events(outcomes);
    if arrived > 0 {
        lemma_run_collecting(outcomes, arrived - 1);
        assert(events.take(arrived).drop_last() =~= events.take(arrived - 1));
        assert(events.take(arrived).last() == Event::RecordReceived);
    }
}

/// A whole run ends done, with no task pending and the sum of all outcomes
/// as its total.
pub proof fn lemma_run_total(outcomes: Seq<TaskOutcome>)
    ensures
        state_after(initial(), run_events(outcomes)) == (DistributorModel {
            phase: Phase::Done,
            pending: 0,
            total: total_of(outcomes),
        }),
{
    lemma_run_prefix(outcomes, outcomes.len() as int);
    let events = run_events(outcomes);
    assert(events.take(outcomes.len() + 1 + outcomes.len() as int) =~= events);
    assert(outcomes.take(outcomes.len() as int) =~= outcomes);
}

/// The order in which the tasks end does not change the result: two runs
/// whose tasks end with the same outcomes, in any two orders, end in the
/// same state with the same total.
pub proof fn lemma_completion_order_is_immaterial(
    one: Seq<TaskOutcome>,
    other: Seq<TaskOutcome>,
)
    requires
        one.to_multiset() == other.to_multiset(),
    ensures
        state_after(initial(), run_events(one)) == state_after(initial(), run_events(other)),
        state_after(initial(), run_events(one)).total == total_of(one),
{
    lemma_total_of_permutation(one, other);
    lemma_run_total(one);
    lemma_run_total(other);
}

/// A task that breaks down adds nothing and stops nothing: the run still
/// ends done, and its total is the sum of the other tasks' outcomes.
pub proof fn lemma_failed_task_adds_nothing(outcomes: Seq<TaskOutcome>, at: int)
    requires
        0 <= at < outcomes.len(),
        outcomes[at] == TaskOutcome::Failed,
    ensures
        state_after(initial(), run_events(outcomes)).phase == Phase::Done,
        state_after(initial(), run_events(outcomes)).total == total_of(outcomes.remove(at)),
{
    lemma_run_total(outcomes);
    lemma_total_of_remove(outcomes, at);
}

/// Each record adds at most 99, so the records together add at most 99
/// times their number.
pub proof fn lemma_records_total_bound(rule: ExtractionRule, texts: Seq<Seq<char>>)
    ensures
        records_total(rule, texts) <= 99 * texts.len(),
    decreases texts.len(),
{
    if texts.len() > 0 {
        lemma_records_total_bound(rule, texts.drop_last());
        lemma_extraction_range(rule, texts.last());
    }
}

} // verus!
