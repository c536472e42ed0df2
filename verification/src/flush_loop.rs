//! The flush thread: one pass of its loop at a time.
use crate::buffer::{BatchModel, ThreadLocalBuffer};
use crate::event_writer::{EventWriter, TraceWriter};
use crate::segment_metadata::Entries;
use crate::shared_state::{SharedModel, SharedState, TlDrainStats};
use crate::writer::WriterError;
use vstd::prelude::*;

verus! {

/// The flush thread's own buffer is drained once per this many cycles.
pub const SELF_DRAIN_INTERVAL: u64 = 200;

/// The global queue depth is sampled this often (10 ms).
pub const SAMPLE_INTERVAL_NS: u64 = 10_000_000;

/// What the flush thread got while waiting for a command.
#[derive(Debug, Clone, Copy, PartialEq, Eq, Structural)]
pub enum ControlSignal {
    /// Flush, finalize and exit; the sender waits for an acknowledgement.
    FinalizeAndStop,
    /// All senders are gone.
    Disconnected,
    /// No command arrived in time.
    Timeout,
}

/// Coordinates drains with the writer.
///
/// When the writer reports that a drain is due, thread-local buffers may still
/// hold events of the current segment. So the drain epoch is bumped first, and
/// the buffers are drained one cycle later.
#[derive(Debug, Clone, Copy, PartialEq, Eq, Structural)]
pub enum DrainState {
    /// Poll the writer each cycle.
    Idle,
    /// The epoch was bumped; the next cycle drains.
    EpochBumped,
}

/// What a cycle does about draining.
#[derive(Debug, Clone, Copy, PartialEq, Eq, Structural)]
pub struct DrainPlan {
    /// The state for the next cycle.
    pub next: DrainState,
    /// How often the epoch is bumped.
    pub bumps: u8,
    /// Drain all buffers.
    pub drain: bool,
    /// Tell the writer that all buffers were drained.
    pub notify: bool,
}

/// What a cycle does about draining: a due drain bumps the epoch, the cycle
/// after that drains and tells the writer. The last cycle bumps and drains at
/// once and leaves the rest to finalizing.
pub open spec fn drain_plan(state: DrainState, exit: bool, due: bool) -> DrainPlan {
    match state {
        DrainState::Idle => DrainPlan {
            next: if !exit && due {
                DrainState::EpochBumped
            } else {
                DrainState::Idle
            },
            bumps: if exit || due {
                1
            } else {
                0
            },
            drain: exit,
            notify: false,
        },
        DrainState::EpochBumped => DrainPlan {
            next: DrainState::Idle,
            bumps: if exit {
                1
            } else {
                0
            },
            drain: true,
            notify: !exit,
        },
    }
}

fn plan_drain(state: DrainState, exit: bool, due: bool) -> (r: DrainPlan)
    ensures
        r == drain_plan(state, exit, due),
{
    match state {
        DrainState::Idle => {
            if exit {
                DrainPlan { next: DrainState::Idle, bumps: 1, drain: true, notify: false }
            } else if due {
                DrainPlan { next: DrainState::EpochBumped, bumps: 1, drain: false, notify: false }
            } else {
                DrainPlan { next: DrainState::Idle, bumps: 0, drain: false, notify: false }
            }
        },
        DrainState::EpochBumped => {
            if exit {
                DrainPlan { next: DrainState::Idle, bumps: 1, drain: true, notify: false }
            } else {
                DrainPlan { next: DrainState::Idle, bumps: 0, drain: true, notify: true }
            }
        },
    }
}

/// A drain that is due is carried out in the very next cycle, whatever the
/// writer reports then, and the writer is told unless that cycle is the last.
pub proof fn law_due_drain_happens_next_cycle(exit_next: bool, due_next: bool)
    ensures
        drain_plan(
            drain_plan(DrainState::Idle, false, true).next,
            exit_next,
            due_next,
        ).drain,
        drain_plan(
            drain_plan(DrainState::Idle, false, true).next,
            exit_next,
            due_next,
        ).notify == !exit_next,
        drain_plan(drain_plan(DrainState::Idle, false, true).next, exit_next, due_next).next
            == DrainState::Idle,
{
}

/// Buffers are never drained without the epoch having been bumped in the
/// cycle before or, at the end, in the same cycle.
pub proof fn law_drain_follows_a_bump(
    state: DrainState,
    exit: bool,
    due: bool,
    exit_next: bool,
    due_next: bool,
)
    requires
        state == DrainState::Idle,
    ensures
        ({
            let first = drain_plan(state, exit, due);
            let second = drain_plan(first.next, exit_next, due_next);
            &&& first.drain ==> first.bumps == 1
            &&& second.drain ==> first.bumps == 1 || second.bumps == 1
        }),
{
}

/// The writer is told of a drain only in the cycle after one that saw it due
/// and announced it by bumping the epoch, and always then unless that cycle is
/// the last. So it is never told in two cycles in a row.
pub proof fn law_only_announced_drains_are_noted(
    state: DrainState,
    exit: bool,
    due: bool,
    exit_next: bool,
    due_next: bool,
)
    ensures
        ({
            let first = drain_plan(state, exit, due);
            let second = drain_plan(first.next, exit_next, due_next);
            &&& second.notify <==> state == DrainState::Idle && !exit && due && !exit_next
            &&& second.notify ==> first.bumps == 1 && second.drain
            &&& !(first.notify && second.notify)
        }),
{
}

/// Counters of one flush.
#[derive(Debug, Clone, Copy, PartialEq, Eq, Structural)]
pub struct FlushStats {
    pub event_count: u64,
    pub dropped_batches: u64,
}

/// The batches that hold events, in order.
pub open spec fn non_empty(batches: Seq<BatchModel>) -> Seq<BatchModel>
    decreases batches.len(),
{
    if batches.len() == 0 {
        Seq::empty()
    } else {
        let before = non_empty(batches.drop_last());
        if batches.last().event_count > 0 {
            before.push(batches.last())
        } else {
            before
        }
    }
}

/// The batches that wait to be written once the flush thread's own buffer was
/// drained, if it is.
pub open spec fn queue_with(
    collected: Seq<BatchModel>,
    own: crate::buffer::BufferModel,
    drain_self: bool,
) -> Seq<BatchModel> {
    if drain_self {
        match own.drain().1 {
            Some(batch) => collected.push(batch),
            None => collected,
        }
    } else {
        collected
    }
}

/// A flush wrote the first `taken` queued batches that hold events; with
/// `failed`, the last of them could not be written.
pub open spec fn flushed_prefix(queue: Seq<BatchModel>, taken: int, failed: bool) -> Seq<
    BatchModel,
> {
    non_empty(
        queue.take(
            if failed {
                taken - 1
            } else {
                taken
            },
        ),
    )
}

proof fn lemma_event_sum_take(batches: Seq<BatchModel>, n: int)
    requires
        0 <= n <= batches.len(),
    ensures
        crate::shared_state::event_sum(batches.take(n)) <= crate::shared_state::event_sum(batches),
    decreases batches.len(),
{
    if n < batches.len() {
        assert(batches.drop_last().take(n) =~= batches.take(n));
        lemma_event_sum_take(batches.drop_last(), n);
    } else {
        assert(batches.take(n) =~= batches);
    }
}

proof fn lemma_non_empty_sum(batches: Seq<BatchModel>)
    ensures
        crate::shared_state::event_sum(non_empty(batches)) == crate::shared_state::event_sum(
            batches,
        ),
    decreases batches.len(),
{
    if batches.len() > 0 {
        lemma_non_empty_sum(batches.drop_last());
        let before = non_empty(batches.drop_last());
        assert(before.push(batches.last()).drop_last() =~= before);
    }
}

/// The writer got from `before` to `after` by accepting the batches one after
/// the other, and by nothing else.
pub open spec fn wrote<W: TraceWriter>(before: W, batches: Seq<BatchModel>, after: W) -> bool
    decreases batches.len(),
{
    if batches.len() == 0 {
        after == before
    } else {
        exists|mid: W, r: Result<(), WriterError>|
            wrote(before, batches.drop_last(), mid) && r is Ok && #[trigger] W::can_write(
                mid,
                batches.last(),
                after,
                r,
            )
    }
}

/// The writer got from `before` to `after` by a flush: it accepted the batches
/// `written` one after the other, then refused the batch `refused` if there is
/// one, and was flushed once otherwise.
pub open spec fn flushed_through<W: TraceWriter>(
    before: W,
    written: Seq<BatchModel>,
    refused: Option<BatchModel>,
    after: W,
) -> bool {
    exists|mid: W| #[trigger]
        wrote(before, written, mid) && match refused {
            Some(batch) => exists|r: Result<(), WriterError>|
                r is Err && #[trigger] W::can_write(mid, batch, after, r),
            None => exists|r: Result<(), WriterError>| #[trigger] W::can_flush(mid, after, r),
        }
}

/// The batch that could not be written, if `failed`: the last one taken.
pub open spec fn refused_batch(queue: Seq<BatchModel>, taken: int, failed: bool) -> Option<
    BatchModel,
> {
    if failed {
        Some(queue[taken - 1])
    } else {
        None
    }
}

/// A flush took the first `taken` queued batches and, with `failed`, could not
/// write the last of them. Given are the writer and the session before it; what
/// the writer has accepted and counted, the writer itself and the session
/// after it; and the counters of the flush.
pub open spec fn is_flush<W: TraceWriter>(
    queue: Seq<BatchModel>,
    taken: int,
    failed: bool,
    before: EventWriter<W>,
    shared: SharedModel,
    accepted: Seq<BatchModel>,
    count: nat,
    after: W,
    shared_after: SharedModel,
    stats: FlushStats,
) -> bool {
    let written = flushed_prefix(queue, taken, failed);
    &&& 0 <= taken <= queue.len()
    &&& failed ==> taken > 0 && queue[taken - 1].event_count > 0
    &&& !failed ==> taken == queue.len()
    &&& accepted == before.accepted() + written
    &&& count == before.count() + stats.event_count
    &&& stats.event_count == crate::shared_state::event_sum(written)
    &&& shared_after == (SharedModel {
        enabled: shared.enabled && !failed,
        collected: queue.skip(taken),
        ..shared
    })
    &&& flushed_through(before.inner(), written, refused_batch(queue, taken, failed), after)
}

/// One flush: drains the flush thread's own buffer if `drain_self`, writes the
/// collected batches in order and flushes the writer once. If a batch cannot be
/// written, recording is turned off, the later batches stay queued and the
/// writer is not flushed.
pub fn flush_once<W: TraceWriter>(
    event_writer: &mut EventWriter<W>,
    shared: &mut SharedState,
    own: &mut ThreadLocalBuffer,
    drain_self: bool,
    dropped_batches: u64,
) -> (stats: FlushStats)
    requires
        old(own)@.batch_size <= isize::MAX,
        old(event_writer).count() + crate::shared_state::event_sum(
            queue_with(old(shared)@.collected, old(own)@, drain_self),
        ) <= u64::MAX,
    ensures
        stats.dropped_batches == dropped_batches,
        final(own)@ == if drain_self {
            old(own)@.drain().0
        } else {
            old(own)@
        },
        ({
            let queue = queue_with(old(shared)@.collected, old(own)@, drain_self);
            exists|taken: int, failed: bool| #![trigger flushed_prefix(queue, taken, failed)]
                is_flush(
                    queue,
                    taken,
                    failed,
                    *old(event_writer),
                    old(shared)@,
                    final(event_writer).accepted(),
                    final(event_writer).count(),
                    final(event_writer).inner(),
                    final(shared)@,
                    stats,
                )
        }),
{
    let ghost queue = queue_with(old(shared)@.collected, old(own)@, drain_self);
    let ghost accepted0 = event_writer.accepted();
    let ghost count0 = event_writer.count();
    let ghost shared0 = shared@;
    let events_before: u64 = event_writer.events_written();
    if drain_self {
        if let Some(batch) = own.drain_to_collector() {
            shared.accept_flush(batch);
        }
    }
    let ghost mut taken: int = 0;
    proof {
        assert(queue.skip(0) =~= queue);
        assert(queue.take(0) =~= Seq::empty());
        assert(accepted0 + non_empty(queue.take(0)) =~= accepted0);
    }
    loop
        invariant
            0 <= taken <= queue.len(),
            shared@ == (SharedModel { collected: queue.skip(taken), ..shared0 }),
            event_writer.accepted() == accepted0 + non_empty(queue.take(taken)),
            wrote(old(event_writer).inner(), non_empty(queue.take(taken)), event_writer.inner()),
            event_writer.count() == count0 + crate::shared_state::event_sum(
                non_empty(queue.take(taken)),
            ),
            count0 + crate::shared_state::event_sum(queue) <= u64::MAX,
            events_before == count0,
            shared0 == old(shared)@,
            accepted0 == old(event_writer).accepted(),
            count0 == old(event_writer).count(),
            queue == queue_with(old(shared)@.collected, old(own)@, drain_self),
            own@ == if drain_self {
                old(own)@.drain().0
            } else {
                old(own)@
            },
        ensures
            taken == queue.len(),
            shared@ == (SharedModel { collected: queue.skip(taken), ..shared0 }),
        decreases queue.len() - taken,
    {
        let ghost rest = shared@.collected;
        let batch = match shared.next_batch() {
            Some(batch) => batch,
            None => {
                break ;
            },
        };
        proof {
            assert(rest[0] == queue[taken]);
            assert(queue.skip(taken).skip(1) =~= queue.skip(taken + 1));
            assert(queue.take(taken + 1).drop_last() =~= queue.take(taken));
            assert(queue.take(taken + 1).last() == queue[taken]);
            lemma_event_sum_take(queue, taken + 1);
            lemma_non_empty_sum(queue.take(taken));
            lemma_non_empty_sum(queue.take(taken + 1));
        }
        if batch.event_count > 0 {
            let ghost mid = event_writer.inner();
            let written = event_writer.write_encoded_batch(&batch);
            assert(W::can_write(mid, queue[taken], event_writer.inner(), written));
            if written.is_err() {
                shared.set_enabled(false);
                proof {
                    taken = taken + 1;
                    assert(flushed_prefix(queue, taken, true) == non_empty(queue.take(taken - 1)));
                    assert(wrote(
                        old(event_writer).inner(),
                        flushed_prefix(queue, taken, true),
                        mid,
                    ));
                    let refused = refused_batch(queue, taken, true)->0;
                    assert(written is Err && W::can_write(
                        mid,
                        refused,
                        event_writer.inner(),
                        written,
                    ));
                    assert(flushed_through(
                        old(event_writer).inner(),
                        flushed_prefix(queue, taken, true),
                        refused_batch(queue, taken, true),
                        event_writer.inner(),
                    ));
                }
                return FlushStats {
                    event_count: event_writer.events_written() - events_before,
                    dropped_batches,
                };
            }
            proof {
                let more = non_empty(queue.take(taken + 1));
                assert(more.drop_last() =~= non_empty(queue.take(taken)));
                assert(more.last() == queue[taken]);
                assert(wrote(old(event_writer).inner(), more, event_writer.inner()));
            }
            assert(event_writer.accepted() =~= accepted0 + non_empty(queue.take(taken + 1)));
        }
        proof {
            taken = taken + 1;
        }
    }
    let ghost mid = event_writer.inner();
    let flushed = event_writer.flush();
    assert(W::can_flush(mid, event_writer.inner(), flushed));
    assert(wrote(old(event_writer).inner(), flushed_prefix(queue, taken, false), mid));
    assert(flushed_prefix(queue, taken, false) == non_empty(queue.take(taken)));
    FlushStats { event_count: event_writer.events_written() - events_before, dropped_batches }
}

/// Flushing loses no events: those written, those still queued and those of
/// the one batch that could not be written are exactly the queued events.
pub proof fn law_flush_conserves_events(queue: Seq<BatchModel>, taken: int, failed: bool)
    requires
        0 <= taken <= queue.len(),
        failed ==> taken > 0,
    ensures
        crate::shared_state::event_sum(queue) == crate::shared_state::event_sum(
            flushed_prefix(queue, taken, failed),
        ) + crate::shared_state::event_sum(queue.skip(taken)) + if failed {
            queue[taken - 1].event_count
        } else {
            0
        },
{
    let k = if failed {
        taken - 1
    } else {
        taken
    };
    lemma_non_empty_sum(queue.take(k));
    lemma_event_sum_split(queue, k);
    if failed {
        let tail = queue.skip(k);
        lemma_event_sum_split(tail, 1);
        assert(tail.take(1).drop_last() =~= Seq::empty());
        assert(crate::shared_state::event_sum(tail.take(1).drop_last()) == 0);
        assert(tail.take(1).last() == queue[k]);
        assert(tail.skip(1) =~= queue.skip(taken));
    }
}

proof fn lemma_event_sum_split(batches: Seq<BatchModel>, n: int)
    requires
        0 <= n <= batches.len(),
    ensures
        crate::shared_state::event_sum(batches) == crate::shared_state::event_sum(batches.take(n))
            + crate::shared_state::event_sum(batches.skip(n)),
    decreases batches.len(),
{
    if n == batches.len() {
        assert(batches.take(n) =~= batches);
        assert(batches.skip(n) =~= Seq::empty());
    } else {
        let rest = batches.drop_last();
        lemma_event_sum_split(rest, n);
        assert(rest.take(n) =~= batches.take(n));
        assert(batches.skip(n).drop_last() =~= rest.skip(n));
    }
}

/// The state of the flush thread between cycles.
pub struct FlushLoop {
    cycle_count: u64,
    drain_state: DrainState,
    last_sample_ns: u64,
    static_metadata: Vec<(String, String)>,
}

/// What a [`FlushLoop`] holds.
#[verifier::ext_equal]
pub struct FlushLoopModel {
    pub cycle_count: u64,
    pub drain_state: DrainState,
    pub last_sample_ns: u64,
    pub static_metadata: Entries,
}

impl View for FlushLoop {
    type V = FlushLoopModel;

    closed spec fn view(&self) -> FlushLoopModel {
        FlushLoopModel {
            cycle_count: self.cycle_count,
            drain_state: self.drain_state,
            last_sample_ns: self.last_sample_ns,
            static_metadata: crate::segment_metadata::entries_view(self.static_metadata@),
        }
    }
}

/// How a cycle begins.
#[derive(Debug, Clone, Copy, PartialEq, Eq, Structural)]
pub enum CycleStart {
    /// Recording is off: nothing to do.
    Skip,
    /// Run the cycle.
    Run {
        /// This is the last cycle.
        exit: bool,
        /// The sender of the stop command waits for an acknowledgement.
        ack: bool,
    },
}

/// Whether the signal ends the loop.
pub open spec fn is_exit(signal: ControlSignal) -> bool {
    signal != ControlSignal::Timeout
}

/// How a cycle begins after the signal: without a reason to exit and with
/// recording off there is nothing to do.
pub open spec fn cycle_start(signal: ControlSignal, enabled: bool) -> CycleStart {
    if !is_exit(signal) && !enabled {
        CycleStart::Skip
    } else {
        CycleStart::Run {
            exit: is_exit(signal),
            ack: signal == ControlSignal::FinalizeAndStop,
        }
    }
}

/// The sum of the queue depths.
pub open spec fn depth_sum(depths: Seq<usize>) -> nat
    decreases depths.len(),
{
    if depths.len() == 0 {
        0
    } else {
        depth_sum(depths.drop_last()) + depths.last() as nat
    }
}

proof fn lemma_depth_sum_take(depths: Seq<usize>, n: int)
    requires
        0 <= n <= depths.len(),
    ensures
        depth_sum(depths.take(n)) <= depth_sum(depths),
    decreases depths.len(),
{
    if n < depths.len() {
        assert(depths.drop_last().take(n) =~= depths.take(n));
        lemma_depth_sum_take(depths.drop_last(), n);
    } else {
        assert(depths.take(n) =~= depths);
    }
}

impl FlushLoopModel {
    /// The loop after it looked at the queue depths of the runtimes, and the
    /// depth to record, if any.
    pub open spec fn sampled(self, now: u64, depths: Seq<usize>) -> (FlushLoopModel, Option<usize>) {
        if crate::analysis::elapsed(now, self.last_sample_ns) >= SAMPLE_INTERVAL_NS {
            (
                FlushLoopModel { last_sample_ns: now, ..self },
                if depths.len() > 0 {
                    Some(depth_sum(depths) as usize)
                } else {
                    None
                },
            )
        } else {
            (self, None)
        }
    }
}

/// What happened in a cycle.
#[derive(Debug, Clone, Copy, PartialEq, Eq, Structural)]
pub struct CycleReport {
    /// Counters of the drain, if there was one.
    pub drain: Option<TlDrainStats>,
    /// Counters of the flush.
    pub flush: FlushStats,
    /// The counters are worth publishing.
    pub publish: bool,
    /// The writer failed to act on the drain.
    pub drained_failed: bool,
    /// The final metadata could not be written.
    pub write_metadata_failed: bool,
    /// The trace could not be finalized.
    pub finalize_failed: bool,
}

/// The shared state after the epoch was bumped `bumps` times and, if `drain`,
/// all buffers were drained.
pub open spec fn after_drain_phase(shared: SharedModel, bumps: u8, drain: bool) -> SharedModel {
    let bumped = SharedModel {
        drain_epoch: if bumps == 0 {
            shared.drain_epoch
        } else {
            shared.drain_epoch.wrapping_add(1)
        },
        ..shared
    };
    if drain {
        SharedModel {
            slots: crate::shared_state::drained_slots(bumped.slots, bumped.drain_epoch),
            collected: bumped.collected + crate::shared_state::drained_batches(
                bumped.slots,
                bumped.slots.len() as int,
                bumped.drain_epoch,
            ),
            ..bumped
        }
    } else {
        bumped
    }
}

/// The own buffer is drained in the last cycle and once per
/// [`SELF_DRAIN_INTERVAL`] cycles.
pub open spec fn drains_self(cycle: int, exit: bool) -> bool {
    exit || cycle % (SELF_DRAIN_INTERVAL as int) == 0
}

/// The counters have room for a cycle: for the cycle itself and for all the
/// events that it may write.
pub open spec fn cycle_fits(
    state: FlushLoopModel,
    exit: bool,
    due: bool,
    written: nat,
    shared: SharedModel,
    own: crate::buffer::BufferModel,
) -> bool {
    let plan = drain_plan(state.drain_state, exit, due);
    let drained = after_drain_phase(shared, plan.bumps, plan.drain);
    &&& state.cycle_count < u64::MAX
    &&& written + crate::shared_state::event_sum(
        queue_with(drained.collected, own, drains_self(state.cycle_count + 1, exit)),
    ) <= u64::MAX
}

/// How a cycle ends, given the writer after the flush, after the note of the
/// drain, after the final metadata and at the end: the writer is told of the
/// drain if `notify`, and gets its final metadata and its end if `exit`.
pub open spec fn winds_up<W: TraceWriter>(
    flushed: W,
    drained: W,
    described: W,
    ended: W,
    now: u64,
    notify: bool,
    exit: bool,
    report: CycleReport,
) -> bool {
    &&& if notify {
        exists|r: Result<bool, WriterError>| #[trigger]
            W::can_drain(flushed, now, drained, r) && report.drained_failed == (r is Err)
    } else {
        drained == flushed && !report.drained_failed
    }
    &&& if exit {
        &&& exists|r: Result<(), WriterError>| #[trigger]
            W::can_write_metadata(drained, described, r) && report.write_metadata_failed == (
            r is Err)
        &&& exists|r: Result<(), WriterError>| #[trigger]
            W::can_finalize(described, ended, r) && report.finalize_failed == (r is Err)
    } else {
        ended == drained && !report.write_metadata_failed && !report.finalize_failed
    }
}

impl FlushLoop {
    /// The loop before its first cycle. The metadata the writer starts out
    /// with is kept and merged with the runtimes' entries in each cycle.
    pub fn new(now: u64, static_metadata: Vec<(String, String)>) -> (r: Self)
        ensures
            r@ == (FlushLoopModel {
                cycle_count: 0,
                drain_state: DrainState::Idle,
                last_sample_ns: now,
                static_metadata: crate::segment_metadata::entries_view(static_metadata@),
            }),
    {
        FlushLoop {
            cycle_count: 0,
            drain_state: DrainState::Idle,
            last_sample_ns: now,
            static_metadata,
        }
    }

    /// Decides whether a cycle runs. Without a reason to exit and with
    /// recording off there is nothing to do.
    pub fn begin_cycle(signal: ControlSignal, enabled: bool) -> (r: CycleStart)
        ensures
            r == cycle_start(signal, enabled),
    {
        let (exit, ack) = match signal {
            ControlSignal::FinalizeAndStop => (true, true),
            ControlSignal::Disconnected => (true, false),
            ControlSignal::Timeout => (false, false),
        };
        if !exit && !enabled {
            return CycleStart::Skip;
        }
        CycleStart::Run { exit, ack }
    }

    /// The global queue depth to record, if a sample is due and any runtime
    /// is attached: the sum over the runtimes.
    pub fn sample_queue(&mut self, now: u64, depths: &Vec<usize>) -> (sample: Option<usize>)
        requires
            depth_sum(depths@) <= usize::MAX,
        ensures
            (final(self)@, sample) == old(self)@.sampled(now, depths@),
    {
        if now.saturating_sub(self.last_sample_ns) < SAMPLE_INTERVAL_NS {
            return None;
        }
        self.last_sample_ns = now;
        let mut total: usize = 0;
        let mut i: usize = 0;
        while i < depths.len()
            invariant
                i <= depths.len(),
                total == depth_sum(depths@.take(i as int)),
                depth_sum(depths@) <= usize::MAX,
            decreases depths.len() - i,
        {
            proof {
                lemma_depth_sum_take(depths@, i as int + 1);
                assert(depths@.take(i as int + 1).drop_last() =~= depths@.take(i as int));
            }
            total = total + depths[i];
            i = i + 1;
        }
        assert(depths@.take(i as int) =~= depths@);
        if depths.len() == 0 {
            None
        } else {
            Some(total)
        }
    }

    /// The metadata to hand to the writer: the static entries followed by the
    /// runtimes' entries, if there are any.
    pub fn cycle_metadata(&self, runtime_entries: Vec<(String, String)>) -> (r: Option<
        Vec<(String, String)>,
    >)
        ensures
            runtime_entries@.len() == 0 ==> r is None,
            runtime_entries@.len() > 0 ==> (r matches Some(entries)
                && crate::segment_metadata::entries_view(entries@) == self@.static_metadata
                + crate::segment_metadata::entries_view(runtime_entries@)),
    {
        if runtime_entries.len() == 0 {
            return None;
        }
        let mut merged = crate::segment_metadata::copy_entries(&self.static_metadata);
        let mut more = runtime_entries;
        merged.append(&mut more);
        assert(crate::segment_metadata::entries_view(merged@) =~= self@.static_metadata
            + crate::segment_metadata::entries_view(runtime_entries@));
        Some(merged)
    }

    /// Whether the counters have room for a cycle, whatever it writes of what
    /// the session holds.
    pub fn has_room<W: TraceWriter>(
        &self,
        event_writer: &EventWriter<W>,
        shared: &SharedState,
        own: &ThreadLocalBuffer,
    ) -> (r: bool)
        ensures
            r == (self@.cycle_count < u64::MAX && event_writer.count() + shared@.events()
                + own@.event_count <= u64::MAX),
            r ==> forall|exit: bool, due: bool| #[trigger]
                cycle_fits(self@, exit, due, event_writer.count(), shared@, own@),
    {
        if self.cycle_count == u64::MAX {
            return false;
        }
        let held: u64 = match shared.events_held() {
            Some(held) => held,
            None => return false,
        };
        let room: bool = match held.checked_add(own.pending_events() as u64) {
            Some(more) => match more.checked_add(event_writer.events_written()) {
                Some(_) => true,
                None => false,
            },
            None => false,
        };
        proof {
            if room {
                assert forall|exit: bool, due: bool| #[trigger]
                    cycle_fits(self@, exit, due, event_writer.count(), shared@, own@) by {
                    lemma_held_events_suffice(
                        self@,
                        exit,
                        due,
                        event_writer.count(),
                        shared@,
                        own@,
                    );
                }
            }
        }
        room
    }

    /// Runs one cycle: coordinates the drain, flushes, and in the last cycle
    /// writes the final metadata and finalizes the trace. `own` is the flush
    /// thread's own buffer.
    pub fn run_cycle<W: TraceWriter>(
        &mut self,
        exit: bool,
        now: u64,
        event_writer: &mut EventWriter<W>,
        shared: &mut SharedState,
        own: &mut ThreadLocalBuffer,
        dropped_batches: u64,
    ) -> (report: CycleReport)
        requires
            old(own)@.batch_size <= isize::MAX,
            crate::shared_state::slots_wf(old(shared)@.slots),
            cycle_fits(
                old(self)@,
                exit,
                old(event_writer).inner().drain_due(now),
                old(event_writer).count(),
                old(shared)@,
                old(own)@,
            ),
        ensures
            ({
                let plan = drain_plan(
                    old(self)@.drain_state,
                    exit,
                    old(event_writer).inner().drain_due(now),
                );
                let drained = after_drain_phase(old(shared)@, plan.bumps, plan.drain);
                let queue = queue_with(
                    drained.collected,
                    old(own)@,
                    drains_self(old(self)@.cycle_count + 1, exit),
                );
                &&& final(self)@ == (FlushLoopModel {
                    cycle_count: (old(self)@.cycle_count + 1) as u64,
                    drain_state: plan.next,
                    ..old(self)@
                })
                &&& report.drain is Some <==> plan.drain
                &&& report.drain matches Some(stats) ==> crate::shared_state::counts_drain(
                    stats,
                    old(shared)@.slots,
                    drained.drain_epoch,
                )
                &&& report.publish == (report.flush.event_count > 0 || report.flush.dropped_batches
                    > 0 || exit)
                &&& report.flush.dropped_batches == dropped_batches
                &&& final(own)@ == if drains_self(old(self)@.cycle_count + 1, exit) {
                    old(own)@.drain().0
                } else {
                    old(own)@
                }
                &&& exists|taken: int, failed: bool|
                    #![trigger flushed_prefix(queue, taken, failed)]
                    exists|flushed: W, noted: W, described: W| #[trigger]
                        winds_up(
                            flushed,
                            noted,
                            described,
                            final(event_writer).inner(),
                            now,
                            plan.notify,
                            exit,
                            report,
                        ) && is_flush(
                            queue,
                            taken,
                            failed,
                            *old(event_writer),
                            drained,
                            final(event_writer).accepted(),
                            final(event_writer).count(),
                            flushed,
                            final(shared)@,
                            report.flush,
                        )
            }),
            crate::shared_state::slots_wf(final(shared)@.slots),
    {
        self.cycle_count = self.cycle_count + 1;
        let drain_self: bool = exit || self.cycle_count % SELF_DRAIN_INTERVAL == 0;
        let plan = plan_drain(self.drain_state, exit, event_writer.should_drain(now));
        self.drain_state = plan.next;
        if plan.bumps > 0 {
            shared.bump_drain_epoch();
        }
        let ghost bumped = shared@;
        let mut drain: Option<TlDrainStats> = None;
        if plan.drain {
            proof {
                lemma_event_sum_concat(
                    bumped.collected,
                    crate::shared_state::drained_batches(
                        bumped.slots,
                        bumped.slots.len() as int,
                        bumped.drain_epoch,
                    ),
                );
                if drain_self {
                    let phase = after_drain_phase(old(shared)@, plan.bumps, plan.drain);
                    if let Some(batch) = old(own)@.drain().1 {
                        assert(phase.collected.push(batch).drop_last() =~= phase.collected);
                    }
                }
            }
            let stats = shared.drain_all_tl_buffers();
            drain = Some(stats);
        }
        assert(shared@ =~= after_drain_phase(old(shared)@, plan.bumps, plan.drain));
        let flush = flush_once(event_writer, shared, own, drain_self, dropped_batches);
        let ghost flushed = event_writer.inner();
        let mut drained_failed: bool = false;
        if plan.notify {
            drained_failed = event_writer.drained(now).is_err();
        }
        let ghost drained = event_writer.inner();
        let ghost mut described = drained;
        let mut write_metadata_failed: bool = false;
        let mut finalize_failed: bool = false;
        if exit {
            write_metadata_failed = event_writer.write_current_segment_metadata().is_err();
            proof {
                described = event_writer.inner();
            }
            finalize_failed = event_writer.finalize().is_err();
        }
        let report = CycleReport {
            drain,
            flush,
            publish: flush.event_count > 0 || flush.dropped_batches > 0 || exit,
            drained_failed,
            write_metadata_failed,
            finalize_failed,
        };
        assert(winds_up(
            flushed,
            drained,
            described,
            event_writer.inner(),
            now,
            plan.notify,
            exit,
            report,
        ));
        report
    }
}

proof fn lemma_held_events_suffice(
    state: FlushLoopModel,
    exit: bool,
    due: bool,
    written: nat,
    shared: SharedModel,
    own: crate::buffer::BufferModel,
)
    requires
        state.cycle_count < u64::MAX,
        written + shared.events() + own.event_count <= u64::MAX,
    ensures
        cycle_fits(state, exit, due, written, shared, own),
{
    let plan = drain_plan(state.drain_state, exit, due);
    let drained = after_drain_phase(shared, plan.bumps, plan.drain);
    if plan.drain {
        let batches = crate::shared_state::drained_batches(
            shared.slots,
            shared.slots.len() as int,
            drained.drain_epoch,
        );
        crate::shared_state::law_drain_conserves_events(shared.slots, drained.drain_epoch);
        lemma_event_sum_concat(shared.collected, batches);
    }
    if let Some(batch) = own.drain().1 {
        assert(drained.collected.push(batch).drop_last() =~= drained.collected);
    }
}

proof fn lemma_event_sum_concat(a: Seq<BatchModel>, b: Seq<BatchModel>)
    ensures
        crate::shared_state::event_sum(a + b) == crate::shared_state::event_sum(a)
            + crate::shared_state::event_sum(b),
    decreases b.len(),
{
    if b.len() == 0 {
        assert(a + b =~= a);
    } else {
        lemma_event_sum_concat(a, b.drop_last());
        assert((a + b).drop_last() =~= a + b.drop_last());
    }
}

proof fn lemma_non_empty(batches: Seq<BatchModel>) -> (at: Seq<int>)
    ensures
        non_empty(batches).len() == at.len(),
        forall|k: int|
            0 <= k < at.len() ==> 0 <= #[trigger] at[k] < batches.len() && non_empty(batches)[k]
                == batches[at[k]],
        forall|j: int, k: int| 0 <= j < k < at.len() ==> #[trigger] at[j] < #[trigger] at[k],
        forall|i: int|
            0 <= i < batches.len() ==> (#[trigger] at.contains(i) <==> batches[i].event_count > 0),
    decreases batches.len(),
{
    if batches.len() == 0 {
        Seq::empty()
    } else {
        let rest = batches.drop_last();
        let last = batches.len() - 1;
        let before = lemma_non_empty(rest);
        let at = if batches.last().event_count > 0 {
            before.push(last)
        } else {
            before
        };
        assert forall|i: int| 0 <= i < batches.len() implies (#[trigger] at.contains(i)
            <==> batches[i].event_count > 0) by {
            if at.contains(i) {
                let k = choose|k: int| 0 <= k < at.len() && at[k] == i;
                if k < before.len() {
                    assert(before[k] == i);
                    assert(before.contains(i));
                    assert(rest[i] == batches[i]);
                }
            }
            if i < last {
                assert(rest[i] == batches[i]);
                assert(before.contains(i) <==> rest[i].event_count > 0);
                if before.contains(i) {
                    let k = choose|k: int| 0 <= k < before.len() && before[k] == i;
                    assert(at[k] == i);
                }
            } else if batches.last().event_count > 0 {
                assert(at[before.len() as int] == i);
            }
        }
        at
    }
}

proof fn lemma_event_sum_is_a_fold(batches: Seq<BatchModel>)
    ensures
        crate::shared_state::event_sum(batches) == batches.map_values(
            |b: BatchModel| b.event_count,
        ).fold_left(0nat, |x: nat, y: nat| x + y),
    decreases batches.len(),
{
    let f = |b: BatchModel| b.event_count;
    reveal_with_fuel(Seq::fold_left, 2);
    if batches.len() > 0 {
        lemma_event_sum_is_a_fold(batches.drop_last());
        assert(batches.map_values(f).drop_last() =~= batches.drop_last().map_values(f));
    }
}

/// A flush hands the queued batches that hold events to the writer in order,
/// those at the positions `at`, and counts their events. Without a failure that
/// is the whole queue; after one, the later batches stay queued and recording
/// is off. Nothing else of the session changes.
pub proof fn law_a_flush_writes_the_queue_in_order<W: TraceWriter>(
    queue: Seq<BatchModel>,
    taken: int,
    failed: bool,
    before: EventWriter<W>,
    shared: SharedModel,
    accepted: Seq<BatchModel>,
    count: nat,
    after: W,
    shared_after: SharedModel,
    stats: FlushStats,
) -> (at: Seq<int>)
    requires
        is_flush(
            queue,
            taken,
            failed,
            before,
            shared,
            accepted,
            count,
            after,
            shared_after,
            stats,
        ),
    ensures
        ({
            let first = before.accepted().len();
            &&& accepted.len() == first + at.len()
            &&& forall|i: int|
                0 <= i < first ==> accepted[i] == #[trigger] before.accepted()[i]
            &&& forall|k: int|
                0 <= k < at.len() ==> 0 <= #[trigger] at[k] < taken && accepted[first + k]
                    == queue[at[k]]
            &&& accepted.skip(first as int).map_values(|b: BatchModel| b.event_count).fold_left(
                0nat,
                |x: nat, y: nat| x + y,
            ) == stats.event_count
        }),
        forall|j: int, k: int| 0 <= j < k < at.len() ==> #[trigger] at[j] < #[trigger] at[k],
        forall|i: int|
            0 <= i < taken ==> (#[trigger] at.contains(i) <==> queue[i].event_count > 0 && !(
            failed && i == taken - 1)),
        count == before.count() + stats.event_count,
        !failed ==> taken == queue.len() && shared_after.collected.len() == 0,
        shared_after.collected.len() == queue.len() - taken,
        forall|i: int|
            taken <= i < queue.len() ==> shared_after.collected[i - taken] == #[trigger] queue[i],
        shared_after.enabled <==> shared.enabled && !failed,
        shared_after == (SharedModel {
            enabled: shared_after.enabled,
            collected: shared_after.collected,
            ..shared
        }),
{
    let n = if failed {
        taken - 1
    } else {
        taken
    };
    let part = queue.take(n);
    let at = lemma_non_empty(part);
    let first = before.accepted().len() as int;
    assert(accepted.skip(first) =~= non_empty(part));
    lemma_event_sum_is_a_fold(non_empty(part));
    assert forall|i: int| 0 <= i < taken implies (#[trigger] at.contains(i)
        <==> queue[i].event_count > 0 && !(failed && i == taken - 1)) by {
        if i < n {
            assert(part[i] == queue[i]);
        } else if at.contains(i) {
            let k = choose|k: int| 0 <= k < at.len() && at[k] == i;
            assert(at[k] < n);
        }
    }
    at
}

/// The flush thread's own events join the queue at its end, as one batch, in
/// the cycles that drain its buffer; else, or without such events, the queue is
/// what was collected.
pub proof fn law_own_events_are_queued_last(
    collected: Seq<BatchModel>,
    own: crate::buffer::BufferModel,
    drain_self: bool,
)
    ensures
        drain_self && own.event_count > 0 ==> queue_with(collected, own, drain_self)
            == collected.push(
            BatchModel { bytes: own.encoder.bytes, event_count: own.event_count },
        ),
        !drain_self || own.event_count == 0 ==> queue_with(collected, own, drain_self)
            == collected,
{
}

/// The own buffer is drained in the last cycle, and among any
/// [`SELF_DRAIN_INTERVAL`] cycles in a row in exactly one other.
pub proof fn law_own_events_wait_a_bounded_number_of_cycles(cycle: int) -> (k: int)
    requires
        cycle >= 0,
    ensures
        drains_self(cycle, true),
        0 <= k < SELF_DRAIN_INTERVAL,
        forall|i: int|
            0 <= i < SELF_DRAIN_INTERVAL ==> (#[trigger] drains_self(cycle + i, false) <==> i == k),
{
    let m = cycle % 200;
    if m == 0 {
        0
    } else {
        200 - m
    }
}

/// Draining in a cycle is bumping the epoch as often as planned and then
/// draining the session, if planned; nothing else happens to the session.
pub proof fn law_a_drain_phase_bumps_and_then_drains(shared: SharedModel)
    ensures
        after_drain_phase(shared, 0, false) == shared,
        after_drain_phase(shared, 1, false) == shared.bumped(),
        after_drain_phase(shared, 0, true) == shared.drained(),
        after_drain_phase(shared, 1, true) == shared.bumped().drained(),
{
}

/// A queue sample is taken once the sample interval has passed since the last
/// one. It is the sum of the depths of all runtimes, and there is none without
/// a runtime. No other is taken before another interval has passed.
pub proof fn law_queue_samples_add_up_and_keep_their_distance(
    state: FlushLoopModel,
    now: u64,
    depths: Seq<usize>,
    later: u64,
    more: Seq<usize>,
)
    requires
        depth_sum(depths) <= usize::MAX,
    ensures
        ({
            let (after, sample) = state.sampled(now, depths);
            &&& now >= state.last_sample_ns + SAMPLE_INTERVAL_NS ==> {
                &&& depths.len() > 0 ==> (sample matches Some(depth) && depth
                    == depths.map_values(|d: usize| d as nat).fold_left(
                    0nat,
                    |x: nat, y: nat| x + y,
                ))
                &&& depths.len() == 0 ==> sample is None
                &&& after.last_sample_ns == now
                &&& later < now + SAMPLE_INTERVAL_NS ==> after.sampled(later, more).1 is None
            }
            &&& now < state.last_sample_ns + SAMPLE_INTERVAL_NS ==> sample is None && after
                == state
            &&& after == (FlushLoopModel { last_sample_ns: after.last_sample_ns, ..state })
        }),
{
    lemma_depth_sum_is_a_fold(depths);
}

proof fn lemma_depth_sum_is_a_fold(depths: Seq<usize>)
    ensures
        depth_sum(depths) == depths.map_values(|d: usize| d as nat).fold_left(
            0nat,
            |x: nat, y: nat| x + y,
        ),
    decreases depths.len(),
{
    let f = |d: usize| d as nat;
    reveal_with_fuel(Seq::fold_left, 2);
    if depths.len() > 0 {
        lemma_depth_sum_is_a_fold(depths.drop_last());
        assert(depths.map_values(f).drop_last() =~= depths.drop_last().map_values(f));
    }
}

/// A stop command and the loss of all senders both make for a last cycle, even
/// with recording off; only the command is acknowledged. Without either, a
/// cycle runs exactly if recording is on.
pub proof fn law_a_cycle_runs_to_stop_or_while_recording(enabled: bool)
    ensures
        cycle_start(ControlSignal::FinalizeAndStop, enabled) == (CycleStart::Run {
            exit: true,
            ack: true,
        }),
        cycle_start(ControlSignal::Disconnected, enabled) == (CycleStart::Run {
            exit: true,
            ack: false,
        }),
        enabled ==> cycle_start(ControlSignal::Timeout, enabled) == (CycleStart::Run {
            exit: false,
            ack: false,
        }),
        !enabled ==> cycle_start(ControlSignal::Timeout, enabled) == CycleStart::Skip,
{
}

} // verus!
