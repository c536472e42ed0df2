//! What to do to the storage with what a flush cycle has handed over.
//!
//! An [`Outbox`] decides and performs no I/O of its own: each step names the
//! next action, and the next step takes its outcome.
use crate::buffer::{Batch, BatchModel};
use std::collections::VecDeque;
use vstd::prelude::*;

verus! {

/// What to do next.
#[derive(Debug)]
pub enum StoreAction {
    /// Write the batch.
    Write(Batch),
    /// A batch could not be written: turn recording off.
    StopRecording,
    /// Flush what was written.
    Flush,
    /// Tell the writer that all buffers were drained.
    NoteDrain,
    /// Write the final metadata.
    WriteMetadata,
    /// End the trace.
    Finalize,
    /// Nothing is left to do in this cycle.
    Rest,
}

/// Where a cycle stands.
#[derive(Debug, Clone, Copy, PartialEq, Eq, Structural)]
pub enum Stage {
    /// Batches are being written.
    Writing,
    /// All batches were written and flushed, or one could not be written.
    Flushed,
    /// The writer knows of the drain.
    Noted,
    /// The final metadata was written.
    Described,
    /// The cycle is over.
    Resting,
}

/// What an [`Outbox`] holds.
#[verifier::ext_equal]
pub struct OutboxModel {
    pub batches: Seq<BatchModel>,
    pub drained: bool,
    pub ended: bool,
    pub stage: Stage,
}

/// A [`StoreAction`], with its batch as a plain value.
pub enum ActionModel {
    Write(BatchModel),
    StopRecording,
    Flush,
    NoteDrain,
    WriteMetadata,
    Finalize,
    Rest,
}

impl View for StoreAction {
    type V = ActionModel;

    open spec fn view(&self) -> ActionModel {
        match *self {
            StoreAction::Write(batch) => ActionModel::Write(batch@),
            StoreAction::StopRecording => ActionModel::StopRecording,
            StoreAction::Flush => ActionModel::Flush,
            StoreAction::NoteDrain => ActionModel::NoteDrain,
            StoreAction::WriteMetadata => ActionModel::WriteMetadata,
            StoreAction::Finalize => ActionModel::Finalize,
            StoreAction::Rest => ActionModel::Rest,
        }
    }
}

impl OutboxModel {
    /// The outbox after a cycle handed something over.
    pub open spec fn loaded(
        self,
        batches: Seq<BatchModel>,
        drained: bool,
        ended: bool,
    ) -> OutboxModel {
        OutboxModel { batches: self.batches + batches, drained, ended, stage: Stage::Writing }
    }

    /// The next action, and the outbox after it was named. `failed` tells
    /// whether the action before it failed.
    pub open spec fn step(self, failed: bool) -> (OutboxModel, ActionModel) {
        if self.stage is Writing {
            if failed {
                (OutboxModel { stage: Stage::Flushed, ..self }, ActionModel::StopRecording)
            } else if self.batches.len() > 0 {
                (
                    OutboxModel { batches: self.batches.skip(1), ..self },
                    ActionModel::Write(self.batches[0]),
                )
            } else {
                (OutboxModel { stage: Stage::Flushed, ..self }, ActionModel::Flush)
            }
        } else if self.stage is Flushed && self.drained {
            (OutboxModel { stage: Stage::Noted, ..self }, ActionModel::NoteDrain)
        } else if (self.stage is Flushed || self.stage is Noted) && self.ended {
            (OutboxModel { stage: Stage::Described, ..self }, ActionModel::WriteMetadata)
        } else if self.stage is Described {
            (OutboxModel { stage: Stage::Resting, ..self }, ActionModel::Finalize)
        } else {
            (OutboxModel { stage: Stage::Resting, ..self }, ActionModel::Rest)
        }
    }

    /// The outbox after steps with the given outcomes of the actions before
    /// them.
    pub open spec fn after(self, outcomes: Seq<bool>) -> OutboxModel
        decreases outcomes.len(),
    {
        if outcomes.len() == 0 {
            self
        } else {
            self.after(outcomes.drop_last()).step(outcomes.last()).0
        }
    }

    /// The action that the last of such steps names.
    pub open spec fn action(self, outcomes: Seq<bool>) -> ActionModel {
        self.after(outcomes.drop_last()).step(outcomes.last()).1
    }
}

/// Batches and notes on their way to the storage.
#[derive(Debug)]
pub struct Outbox {
    batches: VecDeque<Batch>,
    drained: bool,
    ended: bool,
    stage: Stage,
}

impl View for Outbox {
    type V = OutboxModel;

    closed spec fn view(&self) -> OutboxModel {
        OutboxModel {
            batches: crate::shared_state::batches_view(self.batches@),
            drained: self.drained,
            ended: self.ended,
            stage: self.stage,
        }
    }
}

impl Outbox {
    /// An outbox with nothing in it.
    pub fn new() -> (r: Self)
        ensures
            r@ == (OutboxModel {
                batches: Seq::empty(),
                drained: false,
                ended: false,
                stage: Stage::Resting,
            }),
    {
        let r = Outbox {
            batches: VecDeque::new(),
            drained: false,
            ended: false,
            stage: Stage::Resting,
        };
        assert(r@.batches =~= Seq::empty());
        r
    }

    /// Takes what a cycle handed over: batches, whether all buffers were
    /// drained, and whether the trace ends. Batches that were left behind come
    /// first.
    pub fn load(&mut self, batches: Vec<Batch>, drained: bool, ended: bool)
        ensures
            final(self)@ == old(self)@.loaded(
                crate::shared_state::batches_view(batches@),
                drained,
                ended,
            ),
    {
        let ghost before = self@;
        let mut more: VecDeque<Batch> = vec_deque_of(batches);
        self.batches.append(&mut more);
        self.drained = drained;
        self.ended = ended;
        self.stage = Stage::Writing;
        assert(self@.batches =~= before.batches + crate::shared_state::batches_view(batches@));
    }

    /// Names the next action; `failed` tells whether the action before it
    /// failed. Once a batch could not be written, recording is to stop, the
    /// batches behind it wait for the next cycle and nothing is flushed. The
    /// other failures change nothing.
    pub fn step(&mut self, failed: bool) -> (action: StoreAction)
        ensures
            (final(self)@, action@) == old(self)@.step(failed),
    {
        let ghost before = self@;
        let action = if self.stage == Stage::Writing {
            if failed {
                self.stage = Stage::Flushed;
                StoreAction::StopRecording
            } else {
                match self.batches.pop_front() {
                    Some(batch) => {
                        assert(self@.batches =~= before.batches.skip(1));
                        StoreAction::Write(batch)
                    },
                    None => {
                        self.stage = Stage::Flushed;
                        StoreAction::Flush
                    },
                }
            }
        } else if self.stage == Stage::Flushed && self.drained {
            self.stage = Stage::Noted;
            StoreAction::NoteDrain
        } else if (self.stage == Stage::Flushed || self.stage == Stage::Noted) && self.ended {
            self.stage = Stage::Described;
            StoreAction::WriteMetadata
        } else if self.stage == Stage::Described {
            self.stage = Stage::Resting;
            StoreAction::Finalize
        } else {
            self.stage = Stage::Resting;
            StoreAction::Rest
        };
        assert(self@ =~= before.step(failed).0);
        action
    }
}

/// A failed write ends the writing of a cycle: no batch is written and nothing
/// is flushed after it, whatever becomes of the other actions.
pub proof fn law_nothing_is_written_after_a_failure(outbox: OutboxModel, outcomes: Seq<bool>)
    requires
        outbox.stage is Writing,
        outcomes.len() > 0,
    ensures
        ({
            let failed = outbox.step(true);
            &&& failed.1 is StopRecording
            &&& failed.0.batches == outbox.batches
            &&& failed.0.after(outcomes).batches == outbox.batches
            &&& !(failed.0.action(outcomes) is Write)
            &&& !(failed.0.action(outcomes) is Flush)
        }),
{
    lemma_past_writing(outbox.step(true).0, outcomes.drop_last());
    lemma_past_writing(outbox.step(true).0, outcomes);
}

proof fn lemma_past_writing(outbox: OutboxModel, outcomes: Seq<bool>)
    requires
        !(outbox.stage is Writing),
    ensures
        !(outbox.after(outcomes).stage is Writing),
        outbox.after(outcomes).batches == outbox.batches,
    decreases outcomes.len(),
{
    if outcomes.len() > 0 {
        lemma_past_writing(outbox, outcomes.drop_last());
    }
}

/// A trace that ends is finalized in any case: until it is, no step rests,
/// whatever failed before it.
pub proof fn law_an_ending_trace_is_finalized(outbox: OutboxModel, failed: bool)
    requires
        outbox.ended,
        !(outbox.stage is Resting),
    ensures
        !(outbox.step(failed).1 is Rest),
        outbox.step(failed).0.stage is Resting <==> outbox.step(failed).1 is Finalize,
{
}

/// The items in the same order.
fn vec_deque_of(items: Vec<Batch>) -> (r: VecDeque<Batch>)
    ensures
        r@ == items@,
{
    let mut deque: VecDeque<Batch> = VecDeque::new();
    let mut items = items;
    let ghost all = items@;
    while items.len() > 0
        invariant
            items@ + deque@ == all,
        decreases items@.len(),
    {
        if let Some(item) = items.pop() {
            deque.push_front(item);
        }
        assert(items@ + deque@ =~= all);
    }
    assert(deque@ =~= all);
    deque
}

proof fn lemma_writing_steps(outbox: OutboxModel, outcomes: Seq<bool>)
    requires
        outbox.stage is Writing,
        outcomes.len() <= outbox.batches.len(),
        forall|i: int| 0 <= i < outcomes.len() ==> !#[trigger] outcomes[i],
    ensures
        outbox.after(outcomes) == (OutboxModel {
            batches: outbox.batches.skip(outcomes.len() as int),
            ..outbox
        }),
    decreases outcomes.len(),
{
    if outcomes.len() > 0 {
        let n = outcomes.len() - 1;
        lemma_writing_steps(outbox, outcomes.drop_last());
        assert(outbox.batches.skip(n).skip(1) =~= outbox.batches.skip(n + 1));
    } else {
        assert(outbox.batches.skip(0) =~= outbox.batches);
    }
}

/// As long as nothing fails, the batches are written one after the other in the
/// order in which they were handed over, those left behind first, and what was
/// written is flushed once.
pub proof fn law_batches_are_written_in_order(
    before: OutboxModel,
    batches: Seq<BatchModel>,
    drained: bool,
    ended: bool,
    outcomes: Seq<bool>,
)
    requires
        0 < outcomes.len() <= before.batches.len() + batches.len() + 1,
        forall|i: int| 0 <= i < outcomes.len() ==> !#[trigger] outcomes[i],
    ensures
        ({
            let outbox = before.loaded(batches, drained, ended);
            let n = outcomes.len() - 1;
            &&& n < before.batches.len() ==> outbox.action(outcomes) == ActionModel::Write(
                before.batches[n],
            )
            &&& before.batches.len() <= n < before.batches.len() + batches.len()
                ==> outbox.action(outcomes) == ActionModel::Write(
                batches[n - before.batches.len()],
            )
            &&& n == before.batches.len() + batches.len() ==> outbox.action(outcomes) is Flush
        }),
{
    lemma_writing_steps(before.loaded(batches, drained, ended), outcomes.drop_last());
}

/// After the batches the writer is told of a drain, if there was one, then gets
/// its final metadata and its end, if the trace ends; what failed before does
/// not matter.
pub proof fn law_a_cycle_is_wound_up_in_order(outbox: OutboxModel, a: bool, b: bool, c: bool)
    requires
        outbox.stage is Flushed,
    ensures
        ({
            let first = outbox.step(a);
            let second = first.0.step(b);
            let third = second.0.step(c);
            &&& outbox.drained ==> first.1 is NoteDrain
            &&& outbox.drained && outbox.ended ==> second.1 is WriteMetadata && third.1
                is Finalize
            &&& outbox.drained && !outbox.ended ==> second.1 is Rest
            &&& !outbox.drained && outbox.ended ==> first.1 is WriteMetadata && second.1
                is Finalize && third.1 is Rest
            &&& !outbox.drained && !outbox.ended ==> first.1 is Rest
            &&& first.0.batches == outbox.batches
        }),
{
}

} // verus!
