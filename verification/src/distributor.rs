//! Summing what the extraction tasks deliver.
//!
//! The distributor launches one task for each record that arrives. When the
//! input has closed it takes the tasks' outcomes as they come, in whatever
//! order, and adds them up. A task that found no number, and one that broke
//! down, adds nothing.

use vstd::prelude::*;
use crate::assembler::record_texts;
use crate::extract::{extract, extraction, ExtractionRule};

verus! {

/// How one task ended.
#[derive(Clone, Copy, Debug, PartialEq, Eq, Structural)]
pub enum TaskOutcome {
    /// The task delivered a number.
    Value(usize),
    /// The task ran and found no number.
    Absent,
    /// The task broke down.
    Failed,
}

/// Where the distributor stands.
#[derive(Clone, Copy, Debug, PartialEq, Eq, Structural)]
pub enum Phase {
    /// Records are still arriving.
    Collecting,
    /// The input has closed and tasks are still running.
    Draining,
    /// Every task has ended and the total is final.
    Done,
}

/// What happened outside the distributor.
#[derive(Clone, Copy, Debug, PartialEq, Eq, Structural)]
pub enum Event {
    /// A record arrived.
    RecordReceived,
    /// The input closed: no record will arrive any more.
    InputClosed,
    /// A task ended.
    TaskFinished(TaskOutcome),
}

/// What the distributor asks for next.
#[derive(Clone, Copy, Debug, PartialEq, Eq, Structural)]
pub enum Action {
    /// Launch a task for the record that arrived, and go on receiving.
    LaunchTask,
    /// Wait for the next task to end.
    AwaitTask,
    /// Report the total: the work is done.
    Report(usize),
    /// Nothing: the event has no place in this phase and was passed over.
    Ignore,
}

/// The distributor as the contracts speak of it.
pub struct DistributorModel {
    pub phase: Phase,
    /// Tasks launched and not yet ended.
    pub pending: nat,
    /// The sum of what the ended tasks delivered.
    pub total: nat,
}

/// What one task adds to the total.
pub open spec fn contribution(outcome: TaskOutcome) -> nat {
    match outcome {
        TaskOutcome::Value(n) => n as nat,
        TaskOutcome::Absent => 0,
        TaskOutcome::Failed => 0,
    }
}

/// The sum of what `outcomes` add.
pub open spec fn total_of(outcomes: Seq<TaskOutcome>) -> nat
    decreases outcomes.len(),
{
    if outcomes.len() == 0 {
        0
    } else {
        total_of(outcomes.drop_last()) + contribution(outcomes.last())
    }
}

/// The distributor before anything has happened.
pub open spec fn initial() -> DistributorModel {
    DistributorModel { phase: Phase::Collecting, pending: 0, total: 0 }
}

/// Whether `event` has a place in the state `state`: records arrive and the
/// input closes while collecting; tasks end while draining, as long as some
/// are pending.
pub open spec fn accepts(state: DistributorModel, event: Event) -> bool {
    match event {
        Event::RecordReceived => state.phase == Phase::Collecting,
        Event::InputClosed => state.phase == Phase::Collecting,
        Event::TaskFinished(_) => state.phase == Phase::Draining && state.pending > 0,
    }
}

/// The state that follows `state` on `event`.
pub open spec fn next_state(state: DistributorModel, event: Event) -> DistributorModel {
    if !accepts(state, event) {
        state
    } else {
        match event {
            Event::RecordReceived => DistributorModel { pending: state.pending + 1, ..state },
            Event::InputClosed => DistributorModel {
                phase: if state.pending == 0 {
                    Phase::Done
                } else {
                    Phase::Draining
                },
                ..state
            },
            Event::TaskFinished(outcome) => DistributorModel {
                phase: if state.pending == 1 {
                    Phase::Done
                } else {
                    Phase::Draining
                },
                pending: (state.pending - 1) as nat,
                total: state.total + contribution(outcome),
            },
        }
    }
}

/// What the distributor asks for when `event` meets `state`.
pub open spec fn action_on(state: DistributorModel, event: Event) -> Action {
    if !accepts(state, event) {
        Action::Ignore
    } else {
        let next = next_state(state, event);
        match next.phase {
            Phase::Collecting => Action::LaunchTask,
            Phase::Draining => Action::AwaitTask,
            Phase::Done => Action::Report(next.total as usize),
        }
    }
}

/// The state after `events`, one after the other, starting from `state`.
pub open spec fn state_after(state: DistributorModel, events: Seq<Event>) -> DistributorModel
    decreases events.len(),
{
    if events.len() == 0 {
        state
    } else {
        next_state(state_after(state, events.drop_last()), events.last())
    }
}

/// Launches tasks, takes their outcomes and keeps the running total.
pub struct Distributor {
    phase: Phase,
    pending: usize,
    total: usize,
}

impl View for Distributor {
    type V = DistributorModel;

    closed spec fn view(&self) -> DistributorModel {
        DistributorModel {
            phase: self.phase,
            pending: self.pending as nat,
            total: self.total as nat,
        }
    }
}

impl Distributor {
    /// A distributor that collects records, with no task launched and a
    /// total of zero.
    pub fn new() -> (distributor: Distributor)
        ensures
            distributor@ == initial(),
    {
        Distributor { phase: Phase::Collecting, pending: 0, total: 0 }
    }

    /// The phase in which the distributor stands.
    pub fn phase(&self) -> (phase: Phase)
        ensures
            phase == self@.phase,
    {
        self.phase
    }

    /// The number of tasks launched and not yet ended.
    pub fn pending(&self) -> (pending: usize)
        ensures
            pending == self@.pending,
    {
        self.pending
    }

    /// The sum of what the tasks that have ended delivered.
    pub fn running_total(&self) -> (total: usize)
        ensures
            total == self@.total,
    {
        self.total
    }

    /// Takes one event and says what to do next. An event that has no place
    /// in the present phase changes nothing. The count of pending tasks and
    /// the total must still fit the machine's integers after the event.
    pub fn step(&mut self, event: Event) -> (action: Action)
        requires
            next_state(old(self)@, event).pending <= usize::MAX,
            next_state(old(self)@, event).total <= usize::MAX,
        ensures
            final(self)@ == next_state(old(self)@, event),
            action == action_on(old(self)@, event),
    {
        match event {
            Event::RecordReceived => {
                if self.phase != Phase::Collecting {
                    return Action::Ignore;
                }
                self.pending = self.pending + 1;
                Action::LaunchTask
            },
            Event::InputClosed => {
                if self.phase != Phase::Collecting {
                    return Action::Ignore;
                }
                if self.pending == 0 {
                    self.phase = Phase::Done;
                    Action::Report(self.total)
                } else {
                    self.phase = Phase::Draining;
                    Action::AwaitTask
                }
            },
            Event::TaskFinished(outcome) => {
                if self.phase != Phase::Draining || self.pending == 0 {
                    return Action::Ignore;
                }
                let added: usize = match outcome {
                    TaskOutcome::Value(n) => n,
                    TaskOutcome::Absent => 0,
                    TaskOutcome::Failed => 0,
                };
                self.total = self.total + added;
                self.pending = self.pending - 1;
                if self.pending == 0 {
                    self.phase = Phase::Done;
                    Action::Report(self.total)
                } else {
                    Action::AwaitTask
                }
            },
        }
    }
}

/// What the record `text` adds to the total under `rule`: the number read
/// from it, or zero where it has none.
pub open spec fn record_value(rule: ExtractionRule, text: Seq<char>) -> nat {
    match extraction(rule, text) {
        Some(n) => n as nat,
        None => 0,
    }
}

/// The sum of what the records `texts` add under `rule`.
pub open spec fn records_total(rule: ExtractionRule, texts: Seq<Seq<char>>) -> nat
    decreases texts.len(),
{
    if texts.len() == 0 {
        0
    } else {
        records_total(rule, texts.drop_last()) + record_value(rule, texts.last())
    }
}

/// The outcome of the task that reads the record `text` under `rule`.
pub open spec fn task_outcome(rule: ExtractionRule, text: Seq<char>) -> TaskOutcome {
    match extraction(rule, text) {
        Some(n) => TaskOutcome::Value(n as usize),
        None => TaskOutcome::Absent,
    }
}

/// A part of the records adds no more than all of them.
pub proof fn lemma_records_total_grows(rule: ExtractionRule, texts: Seq<Seq<char>>, count: int)
    requires
        0 <= count <= texts.len(),
    ensures
        records_total(rule, texts.take(count)) <= records_total(rule, texts),
    decreases texts.len() - count,
{
    if count < texts.len() {
        lemma_records_total_grows(rule, texts, count + 1);
        assert(texts.take(count + 1).drop_last() =~= texts.take(count));
    } else {
        assert(texts.take(count) =~= texts);
    }
}

/// The work of one task: reads the record `line` under `rule`.
pub fn run_task(rule: ExtractionRule, line: &str) -> (outcome: TaskOutcome)
    ensures
        outcome == task_outcome(rule, line@),
        contribution(outcome) == record_value(rule, line@),
{
    match extract(rule, line) {
        Some(n) => TaskOutcome::Value(n),
        None => TaskOutcome::Absent,
    }
}

/// Sums the numbers of `records` under `rule`, a record without a number
/// counting as zero. One task is launched for each record; when all records
/// are in, the outcomes are taken one by one and added up. The sum must fit
/// a `usize`.
pub fn distribute_work(records: &Vec<String>, rule: ExtractionRule) -> (total: usize)
    requires
        records_total(rule, record_texts(records@)) <= usize::MAX,
    ensures
        total == records_total(rule, record_texts(records@)),
{
    let ghost texts = record_texts(records@);
    let mut distributor = Distributor::new();
    let mut outcomes: Vec<TaskOutcome> = Vec::new();
    let mut i: usize = 0;
    while i < records.len()
        invariant
            i <= records.len(),
            texts == record_texts(records@),
            outcomes@.len() == i,
            forall|k: int| 0 <= k < i ==> contribution(#[trigger] outcomes@[k]) == record_value(rule, texts[k]),
            distributor@ == (DistributorModel {
                phase: Phase::Collecting,
                pending: i as nat,
                total: 0,
            }),
        decreases records.len() - i,
    {
        distributor.step(Event::RecordReceived);
        let outcome = run_task(rule, records[i].as_str());
        outcomes.push(outcome);
        i += 1;
    }
    distributor.step(Event::InputClosed);
    let mut done: usize = 0;
    assert(texts.take(0) =~= Seq::<Seq<char>>::empty());
    while done < outcomes.len()
        invariant
            done <= outcomes.len(),
            outcomes@.len() == records@.len(),
            texts.len() == records@.len(),
            records_total(rule, texts) <= usize::MAX,
            forall|k: int| 0 <= k < outcomes@.len() ==> contribution(#[trigger] outcomes@[k]) == record_value(rule, texts[k]),
            distributor@ == (DistributorModel {
                phase: if done == outcomes@.len() {
                    Phase::Done
                } else {
                    Phase::Draining
                },
                pending: (outcomes@.len() - done) as nat,
                total: records_total(rule, texts.take(done as int)),
            }),
        decreases outcomes.len() - done,
    {
        proof {
            lemma_records_total_grows(rule, texts, done + 1);
            assert(texts.take(done + 1).drop_last() =~= texts.take(done as int));
        }
        distributor.step(Event::TaskFinished(outcomes[done]));
        done += 1;
    }
    assert(texts.take(done as int) =~= texts);
    distributor.running_total()
}

} // verus!
