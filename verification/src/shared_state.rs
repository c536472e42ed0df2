//! Recording state shared by all threads of a telemetry session.
use crate::buffer::{
    Batch, BatchModel, BufferModel, EncoderModel, Recorded, ThreadLocalBuffer, TraceEncoder,
    DEFAULT_BATCH_SIZE,
};
use std::collections::VecDeque;
use vstd::prelude::*;

verus! {

/// What became of a registered buffer.
pub enum BufferState {
    /// Its thread is alive.
    Live(ThreadLocalBuffer),
    /// Encoding panicked; the contents may be corrupt.
    Poisoned(ThreadLocalBuffer),
    /// Its thread has exited.
    Dead { flush_epoch: u64 },
}

/// A registered buffer, by the thread it belongs to.
pub struct TlBufferHandle {
    pub thread: u64,
    pub buffer: BufferState,
}

/// What a [`BufferState`] holds.
pub enum SlotModel {
    Live(BufferModel),
    Poisoned(BufferModel),
    Dead { flush_epoch: u64 },
}

impl View for BufferState {
    type V = SlotModel;

    open spec fn view(&self) -> SlotModel {
        match *self {
            BufferState::Live(b) => SlotModel::Live(b@),
            BufferState::Poisoned(b) => SlotModel::Poisoned(b@),
            BufferState::Dead { flush_epoch } => SlotModel::Dead { flush_epoch },
        }
    }
}

/// The slots as plain values.
pub open spec fn slots_view(handles: Seq<TlBufferHandle>) -> Seq<(u64, SlotModel)> {
    handles.map_values(|h: TlBufferHandle| (h.thread, h.buffer@))
}

/// The batches as plain values.
pub open spec fn batches_view(batches: Seq<Batch>) -> Seq<BatchModel> {
    batches.map_values(|b: Batch| b@)
}

impl SlotModel {
    pub open spec fn flush_epoch(self) -> u64 {
        match self {
            SlotModel::Live(b) => b.flush_epoch,
            SlotModel::Poisoned(b) => b.flush_epoch,
            SlotModel::Dead { flush_epoch } => flush_epoch,
        }
    }

    /// The buffer flushed itself in the current epoch and is left alone.
    pub open spec fn busy(self, epoch: u64) -> bool {
        self.flush_epoch() >= epoch
    }

    /// The drain locks the buffer.
    pub open spec fn locked(self, epoch: u64) -> bool {
        !self.busy(epoch) && self is Live
    }

    /// The batch that the drain takes from the buffer.
    pub open spec fn drained_batch(self, epoch: u64) -> Option<BatchModel> {
        match self {
            SlotModel::Live(b) if !self.busy(epoch) => b.drain().1,
            _ => None,
        }
    }

    /// The buffer after the drain, which stamps the epoch on what it locked.
    pub open spec fn after_drain(self, epoch: u64) -> SlotModel {
        match self {
            SlotModel::Live(b) if !self.busy(epoch) => SlotModel::Live(
                BufferModel { flush_epoch: epoch, ..b.drain().0 },
            ),
            _ => self,
        }
    }

    /// Events the buffer holds.
    pub open spec fn pending(self) -> nat {
        match self {
            SlotModel::Live(b) => b.event_count,
            SlotModel::Poisoned(b) => b.event_count,
            SlotModel::Dead { .. } => 0,
        }
    }
}

/// Counters of one drain.
#[derive(Debug, Clone, Copy, PartialEq, Eq, Structural)]
pub struct TlDrainStats {
    /// Buffers that flushed themselves in the current epoch.
    pub buffers_skipped_busy: u64,
    /// Buffers that were locked.
    pub buffers_locked: u64,
    /// Events taken from buffers.
    pub events_flushed: u64,
    /// Buffers that held events.
    pub buffers_flushed: u64,
    /// Registrations of exited threads that were dropped.
    pub dead_pruned: u64,
}

/// How many of the first `n` slots satisfy `p`.
pub open spec fn count_slots(
    slots: Seq<(u64, SlotModel)>,
    n: int,
    p: spec_fn(SlotModel) -> bool,
) -> nat
    decreases n,
{
    if n <= 0 {
        0
    } else {
        count_slots(slots, n - 1, p) + if p(slots[n - 1].1) {
            1nat
        } else {
            0nat
        }
    }
}

/// The batches that a drain takes from the first `n` slots, in order.
pub open spec fn drained_batches(slots: Seq<(u64, SlotModel)>, n: int, epoch: u64) -> Seq<
    BatchModel,
>
    decreases n,
{
    if n <= 0 {
        Seq::empty()
    } else {
        let before = drained_batches(slots, n - 1, epoch);
        match slots[n - 1].1.drained_batch(epoch) {
            Some(batch) => before.push(batch),
            None => before,
        }
    }
}

/// The number of events in the batches.
pub open spec fn event_sum(batches: Seq<BatchModel>) -> nat
    decreases batches.len(),
{
    if batches.len() == 0 {
        0
    } else {
        event_sum(batches.drop_last()) + batches.last().event_count
    }
}

/// The number of events that the buffers in the first `n` slots hold.
pub open spec fn pending_events(slots: Seq<(u64, SlotModel)>, n: int) -> nat
    decreases n,
{
    if n <= 0 {
        0
    } else {
        pending_events(slots, n - 1) + slots[n - 1].1.pending()
    }
}

/// The slots after a drain: drained in place, then without those of exited
/// threads.
pub open spec fn drained_slots(slots: Seq<(u64, SlotModel)>, epoch: u64) -> Seq<(u64, SlotModel)> {
    slots.map_values(|s: (u64, SlotModel)| (s.0, s.1.after_drain(epoch))).filter(
        |s: (u64, SlotModel)| !(s.1 is Dead),
    )
}

pub open spec fn is_busy(epoch: u64) -> spec_fn(SlotModel) -> bool {
    |s: SlotModel| s.busy(epoch)
}

pub open spec fn is_locked(epoch: u64) -> spec_fn(SlotModel) -> bool {
    |s: SlotModel| s.locked(epoch)
}

pub open spec fn is_flushed(epoch: u64) -> spec_fn(SlotModel) -> bool {
    |s: SlotModel| s.drained_batch(epoch) is Some
}

pub open spec fn is_dead() -> spec_fn(SlotModel) -> bool {
    |s: SlotModel| s is Dead
}

/// The counters of a drain of these slots.
pub open spec fn counts_drain(
    stats: TlDrainStats,
    slots: Seq<(u64, SlotModel)>,
    epoch: u64,
) -> bool {
    let n = slots.len() as int;
    &&& stats.buffers_skipped_busy == count_slots(slots, n, is_busy(epoch))
    &&& stats.buffers_locked == count_slots(slots, n, is_locked(epoch))
    &&& stats.buffers_flushed == count_slots(slots, n, is_flushed(epoch))
    &&& stats.events_flushed == event_sum(drained_batches(slots, n, epoch))
    &&& stats.dead_pruned == count_slots(slots, n, is_dead())
}

/// What a [`SharedState`] holds.
#[verifier::ext_equal]
pub struct SharedModel {
    pub enabled: bool,
    pub start_time_ns: u64,
    pub next_worker_id: u64,
    pub drain_epoch: u64,
    pub slots: Seq<(u64, SlotModel)>,
    pub collected: Seq<BatchModel>,
}

impl SharedModel {
    /// The state after a block of worker ids was reserved, and the first of
    /// them.
    pub open spec fn reserving(self, num_workers: u64) -> (SharedModel, u64) {
        (
            SharedModel {
                next_worker_id: self.next_worker_id.wrapping_add(num_workers),
                ..self
            },
            self.next_worker_id,
        )
    }

    /// The state after the next batch was taken out, and the batch.
    pub open spec fn taking(self) -> (SharedModel, Option<BatchModel>) {
        if self.collected.len() == 0 {
            (self, None)
        } else {
            (SharedModel { collected: self.collected.skip(1), ..self }, Some(self.collected[0]))
        }
    }

    /// The state after a batch, if there is one, was set aside.
    pub open spec fn collecting(self, batch: Option<BatchModel>) -> SharedModel {
        match batch {
            Some(batch) => SharedModel { collected: self.collected.push(batch), ..self },
            None => self,
        }
    }
}

/// A slot's buffer is registered and has a batch size that can be allocated.
pub open spec fn slot_wf(slot: SlotModel) -> bool {
    match slot {
        SlotModel::Live(b) => b.batch_size <= isize::MAX && b.registered,
        SlotModel::Poisoned(b) => b.batch_size <= isize::MAX && b.registered,
        SlotModel::Dead { .. } => true,
    }
}

/// Every slot is well formed.
pub open spec fn slots_wf(slots: Seq<(u64, SlotModel)>) -> bool {
    forall|i: int| 0 <= i < slots.len() ==> slot_wf((#[trigger] slots[i]).1)
}

/// Core recording state: independent of any runtime.
pub struct SharedState {
    enabled: bool,
    start_time_ns: u64,
    next_worker_id: u64,
    drain_epoch: u64,
    tl_buffers: Vec<TlBufferHandle>,
    collected: VecDeque<Batch>,
}

impl View for SharedState {
    type V = SharedModel;

    closed spec fn view(&self) -> SharedModel {
        SharedModel {
            enabled: self.enabled,
            start_time_ns: self.start_time_ns,
            next_worker_id: self.next_worker_id,
            drain_epoch: self.drain_epoch,
            slots: slots_view(self.tl_buffers@),
            collected: batches_view(self.collected@),
        }
    }
}

proof fn lemma_count_slots(
    slots: Seq<(u64, SlotModel)>,
    n: int,
    p: spec_fn(SlotModel) -> bool,
)
    requires
        0 <= n,
    ensures
        count_slots(slots, n, p) <= n,
    decreases n,
{
    if n > 0 {
        lemma_count_slots(slots, n - 1, p);
    }
}

proof fn lemma_event_sum_push(batches: Seq<BatchModel>, batch: BatchModel)
    ensures
        event_sum(batches.push(batch)) == event_sum(batches) + batch.event_count,
{
    assert(batches.push(batch).drop_last() =~= batches);
}

proof fn lemma_event_sum_mono(slots: Seq<(u64, SlotModel)>, i: int, n: int, epoch: u64)
    requires
        i <= n,
    ensures
        event_sum(drained_batches(slots, i, epoch)) <= event_sum(drained_batches(slots, n, epoch)),
    decreases n - i,
{
    if i < n {
        lemma_event_sum_mono(slots, i, n - 1, epoch);
        if let Some(batch) = slots[n - 1].1.drained_batch(epoch) {
            lemma_event_sum_push(drained_batches(slots, n - 1, epoch), batch);
        }
    }
}

impl SharedState {
    /// A session that does not record yet.
    pub fn new(start_time_ns: u64) -> (r: Self)
        ensures
            r@ == (SharedModel {
                enabled: false,
                start_time_ns,
                next_worker_id: 0,
                drain_epoch: 0,
                slots: Seq::empty(),
                collected: Seq::empty(),
            }),
    {
        let r = SharedState {
            enabled: false,
            start_time_ns,
            next_worker_id: 0,
            drain_epoch: 0,
            tl_buffers: Vec::new(),
            collected: VecDeque::new(),
        };
        assert(r@.slots =~= Seq::empty());
        assert(r@.collected =~= Seq::empty());
        r
    }

    pub fn is_enabled(&self) -> (r: bool)
        ensures
            r == self@.enabled,
    {
        self.enabled
    }

    /// Turns recording on or off.
    pub fn set_enabled(&mut self, enabled: bool)
        ensures
            final(self)@ == (SharedModel { enabled, ..old(self)@ }),
    {
        self.enabled = enabled;
    }

    /// When the session started.
    pub fn start_time_ns(&self) -> (r: u64)
        ensures
            r == self@.start_time_ns,
    {
        self.start_time_ns
    }

    pub fn drain_epoch(&self) -> (r: u64)
        ensures
            r == self@.drain_epoch,
    {
        self.drain_epoch
    }

    /// How many buffers are registered.
    pub fn registered_buffers(&self) -> (r: usize)
        ensures
            r == self@.slots.len(),
    {
        self.tl_buffers.len()
    }

    /// Reserves a contiguous block of worker ids and returns the first.
    pub fn reserve_worker_ids(&mut self, num_workers: u64) -> (base: u64)
        ensures
            (final(self)@, base) == old(self)@.reserving(num_workers),
    {
        let base: u64 = self.next_worker_id;
        self.next_worker_id = self.next_worker_id.wrapping_add(num_workers);
        base
    }

    /// Advances the drain epoch, so that every buffer flushes itself on its
    /// next event.
    pub fn bump_drain_epoch(&mut self)
        ensures
            final(self)@ == old(self)@.bumped(),
    {
        self.drain_epoch = self.drain_epoch.wrapping_add(1);
    }

    /// The next collected batch, oldest first.
    pub fn next_batch(&mut self) -> (batch: Option<Batch>)
        ensures
            (final(self)@, crate::buffer::batch_view(batch)) == old(self)@.taking(),
    {
        let ghost before = self@;
        let batch = self.collected.pop_front();
        assert(before.collected.len() > 0 ==> self@.collected =~= before.collected.skip(1));
        batch
    }

    /// Registers a buffer that recorded its first event.
    pub fn register(&mut self, thread: u64, buffer: ThreadLocalBuffer)
        ensures
            final(self)@ == (SharedModel {
                slots: old(self)@.slots.push((thread, SlotModel::Live(buffer@))),
                ..old(self)@
            }),
    {
        let ghost before = self@;
        self.tl_buffers.push(TlBufferHandle { thread, buffer: BufferState::Live(buffer) });
        assert(self@.slots =~= before.slots.push((thread, SlotModel::Live(buffer@))));
    }

    /// Sets aside a batch for the writer.
    pub fn accept_flush(&mut self, batch: Batch)
        ensures
            final(self)@ == old(self)@.collecting(Some(batch@)),
    {
        let ghost before = self@;
        self.collected.push_back(batch);
        assert(self@.collected =~= before.collected.push(batch@));
    }

    /// Records an event into a thread's buffer while recording is enabled; a
    /// batch that leaves the buffer is set aside for the writer. Returns
    /// whether the buffer is to be registered.
    pub fn record_event<F: FnOnce(&mut TraceEncoder)>(
        &mut self,
        buffer: &mut ThreadLocalBuffer,
        encode: F,
    ) -> (register: bool)
        requires
            old(buffer)@.event_count < usize::MAX,
            old(buffer)@.batch_size <= isize::MAX,
            old(self)@.enabled ==> forall|e: &mut TraceEncoder|
                (*e)@ == old(buffer)@.encoder ==> #[trigger] call_requires(encode, (e,)),
        ensures
            !old(self)@.enabled ==> !register && final(self)@ == old(self)@ && final(buffer)@
                == old(buffer)@,
            old(self)@.enabled ==> {
                &&& register == !old(buffer)@.registered
                &&& exists|e: &mut TraceEncoder| #[trigger]
                    call_ensures(encode, (e,), ()) && (*e)@ == old(buffer)@.encoder && {
                        let step = old(buffer)@.record((*final(e))@, old(self)@.drain_epoch);
                        &&& final(buffer)@ == step.0
                        &&& final(self)@ == old(self)@.collecting(step.1)
                    }
            },
    {
        if !self.enabled {
            return false;
        }
        self.record_encodable_event(buffer, encode)
    }

    /// Records an event into a thread's buffer, whether or not recording is
    /// enabled; a batch that leaves the buffer is set aside for the writer.
    /// Returns whether the buffer is to be registered.
    pub fn record_encodable_event<F: FnOnce(&mut TraceEncoder)>(
        &mut self,
        buffer: &mut ThreadLocalBuffer,
        encode: F,
    ) -> (register: bool)
        requires
            old(buffer)@.event_count < usize::MAX,
            old(buffer)@.batch_size <= isize::MAX,
            forall|e: &mut TraceEncoder|
                (*e)@ == old(buffer)@.encoder ==> #[trigger] call_requires(encode, (e,)),
        ensures
            register == !old(buffer)@.registered,
            exists|e: &mut TraceEncoder| #[trigger]
                call_ensures(encode, (e,), ()) && (*e)@ == old(buffer)@.encoder && {
                    let step = old(buffer)@.record((*final(e))@, old(self)@.drain_epoch);
                    &&& final(buffer)@ == step.0
                    &&& final(self)@ == old(self)@.collecting(step.1)
                },
    {
        let recorded: Recorded = buffer.with_encoder(encode, self.drain_epoch);
        if let Some(batch) = recorded.batch {
            self.accept_flush(batch);
        }
        recorded.first
    }

    /// Flushes every registered buffer that has not flushed itself in the
    /// current epoch, and drops the registrations of exited threads.
    ///
    /// Buffers of the current epoch are skipped, poisoned buffers are not
    /// flushed. The epoch is to be bumped one cycle earlier, so that busy
    /// threads flush themselves in between.
    pub fn drain_all_tl_buffers(&mut self) -> (stats: TlDrainStats)
        requires
            slots_wf(old(self)@.slots),
            event_sum(
                drained_batches(
                    old(self)@.slots,
                    old(self)@.slots.len() as int,
                    old(self)@.drain_epoch,
                ),
            ) <= u64::MAX,
        ensures
            ({
                let slots = old(self)@.slots;
                let n = slots.len() as int;
                let epoch = old(self)@.drain_epoch;
                &&& counts_drain(stats, slots, epoch)
                &&& final(self)@ == (SharedModel {
                    slots: drained_slots(slots, epoch),
                    collected: old(self)@.collected + drained_batches(slots, n, epoch),
                    ..old(self)@
                })
            }),
            slots_wf(final(self)@.slots),
    {
        let ghost before = self@;
        let ghost slots = before.slots;
        let ghost epoch_g = before.drain_epoch;
        let ghost keep = |s: (u64, SlotModel)| !(s.1 is Dead);
        let epoch: u64 = self.drain_epoch;
        let mut stats = TlDrainStats {
            buffers_skipped_busy: 0,
            buffers_locked: 0,
            events_flushed: 0,
            buffers_flushed: 0,
            dead_pruned: 0,
        };
        let mut rest: Vec<TlBufferHandle> = Vec::new();
        std::mem::swap(&mut rest, &mut self.tl_buffers);
        let total: usize = rest.len();
        let mut kept: Vec<TlBufferHandle> = Vec::new();
        let mut i: usize = 0;
        let ghost drained = slots.map_values(
            |s: (u64, SlotModel)| (s.0, s.1.after_drain(epoch_g)),
        );
        assert(slots_view(kept@) =~= drained.take(0).filter(keep)) by {
            assert(drained.take(0) =~= Seq::empty());
            reveal(Seq::filter);
        }
        assert(before.collected + drained_batches(slots, 0, epoch_g) =~= before.collected);
        assert(slots_view(rest@) =~= slots);
        while i < total
            invariant
                i <= total == slots.len(),
                rest@.len() == total,
                forall|j: int| i <= j < total ==> slots_view(rest@)[j] == #[trigger] slots[j],
                slots_wf(slots),
                epoch == epoch_g,
                keep == (|s: (u64, SlotModel)| !(s.1 is Dead)),
                drained == slots.map_values(
                    |s: (u64, SlotModel)| (s.0, s.1.after_drain(epoch_g)),
                ),
                event_sum(drained_batches(slots, total as int, epoch_g)) <= u64::MAX,
                stats.buffers_skipped_busy == count_slots(slots, i as int, is_busy(epoch)),
                stats.buffers_locked == count_slots(slots, i as int, is_locked(epoch)),
                stats.buffers_flushed == count_slots(slots, i as int, is_flushed(epoch)),
                stats.events_flushed == event_sum(drained_batches(slots, i as int, epoch)),
                stats.dead_pruned == count_slots(slots, i as int, is_dead()),
                slots_view(kept@) == drained.take(i as int).filter(keep),
                self@.collected == before.collected + drained_batches(slots, i as int, epoch),
                self.enabled == before.enabled,
                self.start_time_ns == before.start_time_ns,
                self.next_worker_id == before.next_worker_id,
                self.drain_epoch == before.drain_epoch,
            decreases total - i,
        {
            let ghost slot = slots[i as int];
            let ghost kept0 = kept@;
            proof {
                lemma_count_slots(slots, i as int, is_busy(epoch));
                lemma_count_slots(slots, i as int, is_locked(epoch));
                lemma_count_slots(slots, i as int, is_flushed(epoch));
                lemma_count_slots(slots, i as int, is_dead());
                lemma_event_sum_mono(slots, i as int + 1, total as int, epoch);
                assert(slots_view(rest@)[i as int] == slot);
                if let Some(batch) = slot.1.drained_batch(epoch) {
                    lemma_event_sum_push(drained_batches(slots, i as int, epoch), batch);
                }
                assert(drained.take(i as int + 1) =~= drained.take(i as int).push(
                    drained[i as int],
                ));
                drained.take(i as int).lemma_filter_push(drained[i as int], keep);
            }
            let mut handle = TlBufferHandle {
                thread: 0,
                buffer: BufferState::Dead { flush_epoch: 0 },
            };
            std::mem::swap(&mut handle, &mut rest[i]);
            assert((handle.thread, handle.buffer@) == slot);
            let ghost collected0 = self@.collected;
            match handle.buffer {
                BufferState::Live(buffer) => {
                    let mut buffer = buffer;
                    assert(slots[i as int].1 == SlotModel::Live(buffer@));
                    if buffer.flush_epoch() >= epoch {
                        stats.buffers_skipped_busy = stats.buffers_skipped_busy + 1;
                    } else {
                        stats.buffers_locked = stats.buffers_locked + 1;
                        if let Some(batch) = buffer.drain_to_collector() {
                            stats.events_flushed = stats.events_flushed + batch.event_count;
                            stats.buffers_flushed = stats.buffers_flushed + 1;
                            self.accept_flush(batch);
                        }
                        buffer.stamp(epoch);
                    }
                    kept.push(
                        TlBufferHandle {
                            thread: handle.thread,
                            buffer: BufferState::Live(buffer),
                        },
                    );
                    assert(drained[i as int].1 == SlotModel::Live(buffer@));
                    assert(slots_view(kept@) =~= slots_view(kept0).push(drained[i as int]));
                },
                BufferState::Poisoned(buffer) => {
                    assert(slots[i as int].1 == SlotModel::Poisoned(buffer@));
                    if buffer.flush_epoch() >= epoch {
                        stats.buffers_skipped_busy = stats.buffers_skipped_busy + 1;
                    }
                    kept.push(
                        TlBufferHandle {
                            thread: handle.thread,
                            buffer: BufferState::Poisoned(buffer),
                        },
                    );
                    assert(slots_view(kept@) =~= slots_view(kept0).push(drained[i as int]));
                },
                BufferState::Dead { flush_epoch } => {
                    if flush_epoch >= epoch {
                        stats.buffers_skipped_busy = stats.buffers_skipped_busy + 1;
                    }
                    stats.dead_pruned = stats.dead_pruned + 1;
                },
            }
            assert(self@.collected =~= before.collected + drained_batches(
                slots,
                i as int + 1,
                epoch,
            ));
            i = i + 1;
        }
        self.tl_buffers = kept;
        proof {
            assert(drained.take(total as int) =~= drained);
            assert(self@ =~= (SharedModel {
                slots: drained_slots(slots, epoch),
                collected: before.collected + drained_batches(slots, total as int, epoch),
                ..before
            }));
            assert forall|i: int| 0 <= i < self@.slots.len() implies slot_wf(
                (#[trigger] self@.slots[i]).1,
            ) by {
                assert(drained.filter(keep).contains(self@.slots[i]));
                drained.lemma_filter_contains_rev(keep, self@.slots[i]);
                assert(drained.contains(self@.slots[i]));
                let j = choose|j: int| 0 <= j < drained.len() && drained[j] == self@.slots[i];
                assert(slots[j].1.after_drain(epoch) == drained[j].1);
            }
        }
        stats
    }
}

proof fn lemma_pending_prefix(a: Seq<(u64, SlotModel)>, b: Seq<(u64, SlotModel)>, n: int)
    requires
        0 <= n <= a.len(),
        n <= b.len(),
        forall|i: int| 0 <= i < n ==> a[i] == b[i],
    ensures
        pending_events(a, n) == pending_events(b, n),
    decreases n,
{
    if n > 0 {
        lemma_pending_prefix(a, b, n - 1);
    }
}

proof fn lemma_batches_prefix(
    a: Seq<(u64, SlotModel)>,
    b: Seq<(u64, SlotModel)>,
    n: int,
    epoch: u64,
)
    requires
        0 <= n <= a.len(),
        n <= b.len(),
        forall|i: int| 0 <= i < n ==> a[i] == b[i],
    ensures
        drained_batches(a, n, epoch) == drained_batches(b, n, epoch),
    decreases n,
{
    if n > 0 {
        lemma_batches_prefix(a, b, n - 1, epoch);
    }
}

/// The slots after a drain, one slot at a time.
proof fn lemma_drained_slots_step(slots: Seq<(u64, SlotModel)>, epoch: u64)
    requires
        slots.len() > 0,
    ensures
        drained_slots(slots, epoch) == if slots.last().1 is Dead {
            drained_slots(slots.drop_last(), epoch)
        } else {
            drained_slots(slots.drop_last(), epoch).push(
                (slots.last().0, slots.last().1.after_drain(epoch)),
            )
        },
{
    reveal(Seq::filter);
    let f = |s: (u64, SlotModel)| (s.0, s.1.after_drain(epoch));
    assert(slots.map_values(f).drop_last() =~= slots.drop_last().map_values(f));
}

/// A drain moves events and loses none: what the buffers hold before it is
/// what they hold after it together with what the drain collected.
pub proof fn law_drain_conserves_events(slots: Seq<(u64, SlotModel)>, epoch: u64)
    ensures
        pending_events(slots, slots.len() as int) == pending_events(
            drained_slots(slots, epoch),
            drained_slots(slots, epoch).len() as int,
        ) + event_sum(drained_batches(slots, slots.len() as int, epoch)),
    decreases slots.len(),
{
    let n = slots.len() as int;
    if n == 0 {
        reveal(Seq::filter);
        assert(drained_slots(slots, epoch).len() == 0);
    } else {
        let rest = slots.drop_last();
        let last = slots.last();
        law_drain_conserves_events(rest, epoch);
        lemma_pending_prefix(slots, rest, n - 1);
        lemma_batches_prefix(slots, rest, n - 1, epoch);
        lemma_drained_slots_step(slots, epoch);
        if let Some(batch) = last.1.drained_batch(epoch) {
            lemma_event_sum_push(drained_batches(rest, n - 1, epoch), batch);
        }
        if !(last.1 is Dead) {
            let before = drained_slots(rest, epoch);
            let after = drained_slots(slots, epoch);
            lemma_pending_prefix(after, before, before.len() as int);
        }
    }
}

proof fn lemma_drained_slots_busy(slots: Seq<(u64, SlotModel)>, epoch: u64, i: int)
    requires
        0 <= i < drained_slots(slots, epoch).len(),
    ensures
        drained_slots(slots, epoch)[i].1.drained_batch(epoch) is None,
    decreases slots.len(),
{
    if slots.len() == 0 {
        reveal(Seq::filter);
    } else {
        lemma_drained_slots_step(slots, epoch);
        let before = drained_slots(slots.drop_last(), epoch);
        if i < before.len() {
            lemma_drained_slots_busy(slots.drop_last(), epoch, i);
        }
    }
}

proof fn lemma_no_batches(slots: Seq<(u64, SlotModel)>, n: int, epoch: u64)
    requires
        0 <= n <= slots.len(),
        forall|i: int| 0 <= i < n ==> (#[trigger] slots[i]).1.drained_batch(epoch) is None,
    ensures
        drained_batches(slots, n, epoch).len() == 0,
    decreases n,
{
    if n > 0 {
        lemma_no_batches(slots, n - 1, epoch);
    }
}

/// A second drain in the same epoch takes nothing: every buffer the first one
/// locked was stamped with the epoch.
pub proof fn law_second_drain_is_idle(slots: Seq<(u64, SlotModel)>, epoch: u64)
    ensures
        drained_batches(
            drained_slots(slots, epoch),
            drained_slots(slots, epoch).len() as int,
            epoch,
        ).len() == 0,
{
    let after = drained_slots(slots, epoch);
    assert forall|i: int| 0 <= i < after.len() implies (#[trigger] after[i]).1.drained_batch(
        epoch,
    ) is None by {
        lemma_drained_slots_busy(slots, epoch, i);
    }
    lemma_no_batches(after, after.len() as int, epoch);
}

/// Blocks of worker ids reserved one after the other do not overlap, as long
/// as the ids are not exhausted.
pub proof fn law_worker_id_blocks_are_disjoint(
    before: SharedModel,
    first: u64,
    second: u64,
    i: u64,
    j: u64,
)
    requires
        before.next_worker_id + first + second <= u64::MAX,
        i < first,
        j < second,
    ensures
        ({
            let (between, one) = before.reserving(first);
            let (after, two) = between.reserving(second);
            &&& one + i != two + j
            &&& one == before.next_worker_id
            &&& after.next_worker_id == before.next_worker_id + first + second
        }),
{
}

/// Batches are taken out in the order in which they were set aside, each once,
/// and nothing else of the session changes.
pub proof fn law_batches_are_taken_in_order(model: SharedModel, batch: BatchModel)
    ensures
        model.collected.len() == 0 ==> model.taking() == (model, None::<BatchModel>),
        model.collected.len() == 0 ==> model.collecting(Some(batch)).taking() == (
            model,
            Some(batch),
        ),
        model.collected.len() > 0 ==> model.collecting(Some(batch)).taking().1
            == model.taking().1 && model.taking().1 == Some(model.collected[0]),
        model.collected.len() > 0 ==> model.collecting(Some(batch)).taking().0
            == model.taking().0.collecting(Some(batch)),
        model.collecting(None) == model,
{
    if model.collected.len() == 0 {
        assert(model.collected.push(batch).skip(1) =~= model.collected);
    } else {
        assert(model.collected.push(batch).skip(1) =~= model.collected.skip(1).push(batch));
    }
}

/// The slot of a thread among the first `n`: the last that has not exited.
pub open spec fn slot_index(slots: Seq<(u64, SlotModel)>, thread: u64, n: int) -> Option<int>
    decreases n,
{
    if n <= 0 {
        None
    } else if slots[n - 1].0 == thread && !(slots[n - 1].1 is Dead) {
        Some(n - 1)
    } else {
        slot_index(slots, thread, n - 1)
    }
}

impl SharedModel {
    /// The slot of a thread.
    pub open spec fn slot(self, thread: u64) -> Option<int> {
        slot_index(self.slots, thread, self.slots.len() as int)
    }

    /// An event that a thread records now is kept.
    pub open spec fn accepts(self, thread: u64) -> bool {
        self.enabled && (self.slot(thread) matches Some(i) ==> self.slots[i].1 is Live)
    }

    /// What a thread's encoder holds.
    pub open spec fn thread_encoder(self, thread: u64) -> EncoderModel {
        match self.slot(thread) {
            Some(i) => match self.slots[i].1 {
                SlotModel::Live(b) => b.encoder,
                _ => EncoderModel::fresh(),
            },
            None => EncoderModel::fresh(),
        }
    }

    /// The state after a thread recorded an event that left its encoder with
    /// `encoder`. The first event of a thread registers its buffer. Events are
    /// dropped while recording is off and after encoding panicked.
    pub open spec fn recorded_on(self, thread: u64, encoder: EncoderModel) -> SharedModel {
        if !self.accepts(thread) {
            self
        } else {
            match self.slot(thread) {
                Some(i) => {
                    let step = self.slots[i].1->Live_0.record(encoder, self.drain_epoch);
                    SharedModel {
                        slots: self.slots.update(i, (thread, SlotModel::Live(step.0))),
                        ..self
                    }.collecting(step.1)
                },
                None => {
                    let step = BufferModel::fresh(DEFAULT_BATCH_SIZE as nat).record(
                        encoder,
                        self.drain_epoch,
                    );
                    SharedModel {
                        slots: self.slots.push((thread, SlotModel::Live(step.0))),
                        ..self
                    }.collecting(step.1)
                },
            }
        }
    }

    /// The state after encoding panicked on a thread.
    pub open spec fn poisoned_on(self, thread: u64) -> SharedModel {
        match self.slot(thread) {
            Some(i) => match self.slots[i].1 {
                SlotModel::Live(b) => SharedModel {
                    slots: self.slots.update(i, (thread, SlotModel::Poisoned(b))),
                    ..self
                },
                _ => self,
            },
            None => self,
        }
    }

    /// The state after a thread exited: what its buffer held is set aside.
    pub open spec fn exited(self, thread: u64) -> SharedModel {
        match self.slot(thread) {
            Some(i) => {
                let slot = self.slots[i].1;
                let batch = match slot {
                    SlotModel::Live(b) => b.drain().1,
                    SlotModel::Poisoned(b) => b.drain().1,
                    SlotModel::Dead { .. } => None,
                };
                SharedModel {
                    slots: self.slots.update(
                        i,
                        (thread, SlotModel::Dead { flush_epoch: slot.flush_epoch() }),
                    ),
                    ..self
                }.collecting(batch)
            },
            None => self,
        }
    }

    /// The state in the next drain epoch.
    pub open spec fn bumped(self) -> SharedModel {
        SharedModel { drain_epoch: self.drain_epoch.wrapping_add(1), ..self }
    }

    /// The state after all buffers were drained.
    pub open spec fn drained(self) -> SharedModel {
        SharedModel {
            slots: drained_slots(self.slots, self.drain_epoch),
            collected: self.collected + drained_batches(
                self.slots,
                self.slots.len() as int,
                self.drain_epoch,
            ),
            ..self
        }
    }

    /// How many events the session holds, in buffers or set aside.
    pub open spec fn events(self) -> nat {
        pending_events(self.slots, self.slots.len() as int) + event_sum(self.collected)
    }
}

proof fn lemma_pending_mono(slots: Seq<(u64, SlotModel)>, i: int, n: int)
    requires
        i <= n,
    ensures
        pending_events(slots, i) <= pending_events(slots, n),
    decreases n - i,
{
    if i < n {
        lemma_pending_mono(slots, i, n - 1);
    }
}

proof fn lemma_event_sum_take(batches: Seq<BatchModel>, i: int)
    requires
        0 <= i <= batches.len(),
    ensures
        event_sum(batches.take(i)) <= event_sum(batches),
    decreases batches.len(),
{
    if i == batches.len() {
        assert(batches.take(i) =~= batches);
    } else {
        lemma_event_sum_take(batches.drop_last(), i);
        assert(batches.drop_last().take(i) =~= batches.take(i));
    }
}

impl SharedState {
    /// How many events the session holds, in buffers or set aside, unless they
    /// are too many to count.
    pub fn events_held(&self) -> (r: Option<u64>)
        ensures
            r is Some <==> self@.events() <= u64::MAX,
            r matches Some(n) ==> n == self@.events(),
    {
        let mut sum: u64 = 0;
        let mut i: usize = 0;
        while i < self.tl_buffers.len()
            invariant
                i <= self.tl_buffers@.len(),
                self@.slots == slots_view(self.tl_buffers@),
                sum == pending_events(self@.slots, i as int),
            decreases self.tl_buffers@.len() - i,
        {
            let handle = &self.tl_buffers[i];
            assert(self@.slots[i as int] == (handle.thread, handle.buffer@));
            let pending: usize = match &handle.buffer {
                BufferState::Live(buffer) => buffer.pending_events(),
                BufferState::Poisoned(buffer) => buffer.pending_events(),
                BufferState::Dead { .. } => 0,
            };
            proof {
                lemma_pending_mono(self@.slots, i + 1, self@.slots.len() as int);
            }
            sum = match sum.checked_add(pending as u64) {
                Some(sum) => sum,
                None => return None,
            };
            i += 1;
        }
        let ghost buffered = sum as nat;
        let mut k: usize = 0;
        while k < self.collected.len()
            invariant
                k <= self.collected@.len(),
                self@.collected == batches_view(self.collected@),
                buffered == pending_events(self@.slots, self@.slots.len() as int),
                sum == buffered + event_sum(self@.collected.take(k as int)),
            decreases self.collected@.len() - k,
        {
            proof {
                assert(self@.collected[k as int] == self.collected@[k as int]@);
                assert(self@.collected.take(k + 1).drop_last() =~= self@.collected.take(k as int));
                lemma_event_sum_take(self@.collected, k + 1);
            }
            sum = match sum.checked_add(self.collected[k].event_count) {
                Some(sum) => sum,
                None => return None,
            };
            k += 1;
        }
        assert(self@.collected.take(k as int) =~= self@.collected);
        Some(sum)
    }
}

impl SharedState {
    /// Where a thread's buffer is registered.
    fn find_slot(&self, thread: u64) -> (r: Option<usize>)
        ensures
            match r {
                Some(i) => self@.slot(thread) == Some(i as int) && i < self@.slots.len(),
                None => self@.slot(thread) is None,
            },
    {
        let mut n: usize = self.tl_buffers.len();
        while n > 0
            invariant
                n <= self.tl_buffers@.len(),
                self@.slots == slots_view(self.tl_buffers@),
                slot_index(self@.slots, thread, n as int) == self@.slot(thread),
            decreases n,
        {
            let handle = &self.tl_buffers[n - 1];
            assert(self@.slots[n - 1] == (handle.thread, handle.buffer@));
            if handle.thread == thread {
                match &handle.buffer {
                    BufferState::Dead { .. } => {},
                    _ => return Some(n - 1),
                }
            }
            n = n - 1;
        }
        None
    }

    /// Records an event, which `encode` writes, on a thread. The thread's
    /// buffer is created and registered with its first event.
    pub fn record_on_thread<F: FnOnce(&mut TraceEncoder)>(&mut self, thread: u64, encode: F)
        requires
            slots_wf(old(self)@.slots),
            old(self)@.slot(thread) matches Some(i) ==> old(self)@.slots[i].1.pending()
                < usize::MAX,
            old(self)@.accepts(thread) ==> forall|e: &mut TraceEncoder|
                (*e)@ == old(self)@.thread_encoder(thread) ==> #[trigger] call_requires(
                    encode,
                    (e,),
                ),
        ensures
            !old(self)@.accepts(thread) ==> final(self)@ == old(self)@,
            old(self)@.accepts(thread) ==> exists|e: &mut TraceEncoder| #[trigger]
                call_ensures(encode, (e,), ()) && (*e)@ == old(self)@.thread_encoder(thread)
                    && final(self)@ == old(self)@.recorded_on(thread, (*final(e))@),
            slots_wf(final(self)@.slots),
    {
        if !self.enabled {
            return ;
        }
        let ghost before = self@;
        proof {
            lemma_slot_in_range(before.slots, thread, before.slots.len() as int);
        }
        let i: usize = match self.find_slot(thread) {
            Some(i) => i,
            None => {
                self.register(thread, ThreadLocalBuffer::new());
                assert(self.tl_buffers@.len() == self@.slots.len());
                self.tl_buffers.len() - 1
            },
        };
        // The buffer stays in its slot, where it is found again if `encode`
        // panics.
        let ghost opened = self@;
        let epoch: u64 = self.drain_epoch;
        let mut left: Option<Batch> = None;
        assert(opened.slots[i as int] == slots_view(self.tl_buffers@)[i as int]);
        assert(opened.slots[i as int].1.pending() < usize::MAX);
        if let BufferState::Live(buffer) = &mut self.tl_buffers[i].buffer {
            left = buffer.with_encoder(encode, epoch).batch;
        }
        assert(slots_view(self.tl_buffers@) =~= opened.slots.update(
            i as int,
            slots_view(self.tl_buffers@)[i as int],
        ));
        if let Some(batch) = left {
            self.accept_flush(batch);
        }
    }

    /// Encoding panicked on a thread: its buffer takes no more events and is
    /// not drained.
    pub fn thread_poisoned(&mut self, thread: u64)
        requires
            slots_wf(old(self)@.slots),
        ensures
            final(self)@ == old(self)@.poisoned_on(thread),
            slots_wf(final(self)@.slots),
    {
        let ghost before = self@;
        proof {
            lemma_slot_in_range(before.slots, thread, before.slots.len() as int);
        }
        if let Some(i) = self.find_slot(thread) {
            let ghost handles = self.tl_buffers@;
            assert(before.slots[i as int] == slots_view(handles)[i as int]);
            let handle = self.tl_buffers.remove(i);
            let state: BufferState = match handle.buffer {
                BufferState::Live(buffer) => BufferState::Poisoned(buffer),
                other => other,
            };
            self.tl_buffers.insert(i, TlBufferHandle { thread, buffer: state });
            assert(slots_view(self.tl_buffers@) =~= before.slots.update(
                i as int,
                (thread, state@),
            ));
            assert(before.slots[i as int] == (thread, state@) ==> before.slots.update(
                i as int,
                (thread, state@),
            ) =~= before.slots);
            assert(self@ =~= before.poisoned_on(thread));
        }
    }

    /// A thread exited: what its buffer holds is set aside for the writer.
    pub fn thread_exited(&mut self, thread: u64)
        requires
            slots_wf(old(self)@.slots),
        ensures
            final(self)@ == old(self)@.exited(thread),
            slots_wf(final(self)@.slots),
    {
        let ghost before = self@;
        if let Some(i) = self.find_slot(thread) {
            let ghost handles = self.tl_buffers@;
            assert(before.slots[i as int] == slots_view(handles)[i as int]);
            let handle = self.tl_buffers.remove(i);
            let mut batch: Option<Batch> = None;
            let flush_epoch: u64 = match handle.buffer {
                BufferState::Live(buffer) => {
                    let epoch: u64 = buffer.flush_epoch();
                    batch = buffer.close();
                    epoch
                },
                BufferState::Poisoned(buffer) => {
                    let epoch: u64 = buffer.flush_epoch();
                    batch = buffer.close();
                    epoch
                },
                BufferState::Dead { flush_epoch } => flush_epoch,
            };
            self.tl_buffers.insert(
                i,
                TlBufferHandle { thread, buffer: BufferState::Dead { flush_epoch } },
            );
            assert(slots_view(self.tl_buffers@) =~= before.slots.update(
                i as int,
                (thread, SlotModel::Dead { flush_epoch }),
            ));
            if let Some(batch) = batch {
                self.accept_flush(batch);
            }
            assert(self@ =~= before.exited(thread));
        }
    }
}

/// One thing that can happen to a session, on any thread.
pub enum SessionStep {
    /// A thread records an event that leaves its encoder with this.
    Record { thread: u64, encoder: EncoderModel },
    /// Encoding panics on a thread.
    Poison { thread: u64 },
    /// A thread exits.
    Exit { thread: u64 },
    /// The drain epoch advances.
    Bump,
    /// All buffers are drained.
    Drain,
}

impl SharedModel {
    /// The state after one step.
    pub open spec fn after(self, step: SessionStep) -> SharedModel {
        match step {
            SessionStep::Record { thread, encoder } => self.recorded_on(thread, encoder),
            SessionStep::Poison { thread } => self.poisoned_on(thread),
            SessionStep::Exit { thread } => self.exited(thread),
            SessionStep::Bump => self.bumped(),
            SessionStep::Drain => self.drained(),
        }
    }

    /// The state after a run of steps.
    pub open spec fn after_steps(self, steps: Seq<SessionStep>) -> SharedModel
        decreases steps.len(),
    {
        if steps.len() == 0 {
            self
        } else {
            self.after_steps(steps.drop_last()).after(steps.last())
        }
    }

    /// How many events are accepted in a run of steps.
    pub open spec fn accepted_in(self, steps: Seq<SessionStep>) -> nat
        decreases steps.len(),
    {
        if steps.len() == 0 {
            0
        } else {
            self.accepted_in(steps.drop_last()) + match steps.last() {
                SessionStep::Record { thread, .. } if self.after_steps(steps.drop_last()).accepts(
                    thread,
                ) => 1nat,
                _ => 0nat,
            }
        }
    }
}

proof fn lemma_slot_in_range(slots: Seq<(u64, SlotModel)>, thread: u64, n: int)
    ensures
        slot_index(slots, thread, n) matches Some(i) ==> 0 <= i < n && slots[i].0 == thread
            && !(slots[i].1 is Dead),
    decreases n,
{
    if n > 0 {
        lemma_slot_in_range(slots, thread, n - 1);
    }
}

proof fn lemma_pending_update(
    slots: Seq<(u64, SlotModel)>,
    i: int,
    slot: (u64, SlotModel),
    n: int,
)
    requires
        0 <= i < slots.len(),
        0 <= n <= slots.len(),
    ensures
        pending_events(slots.update(i, slot), n) == if i < n {
            (pending_events(slots, n) - slots[i].1.pending() + slot.1.pending()) as nat
        } else {
            pending_events(slots, n)
        },
        i < n ==> pending_events(slots, n) >= slots[i].1.pending(),
    decreases n,
{
    if n > 0 {
        lemma_pending_update(slots, i, slot, n - 1);
    }
}

proof fn lemma_collecting(model: SharedModel, batch: Option<BatchModel>)
    ensures
        model.collecting(batch).events() == model.events() + match batch {
            Some(batch) => batch.event_count,
            None => 0,
        },
        model.collecting(batch).slots == model.slots,
{
    if let Some(batch) = batch {
        lemma_event_sum_push(model.collected, batch);
    }
}

proof fn lemma_event_sum_append(a: Seq<BatchModel>, b: Seq<BatchModel>)
    ensures
        event_sum(a + b) == event_sum(a) + event_sum(b),
    decreases b.len(),
{
    if b.len() == 0 {
        assert(a + b =~= a);
    } else {
        lemma_event_sum_append(a, b.drop_last());
        assert((a + b).drop_last() =~= a + b.drop_last());
    }
}

/// A recorded event is held exactly once, or dropped if it is not accepted.
pub proof fn law_recording_adds_one_event(
    model: SharedModel,
    thread: u64,
    encoder: EncoderModel,
)
    ensures
        model.recorded_on(thread, encoder).events() == model.events() + if model.accepts(thread) {
            1nat
        } else {
            0nat
        },
{
    if model.accepts(thread) {
        lemma_slot_in_range(model.slots, thread, model.slots.len() as int);
        match model.slot(thread) {
            Some(i) => {
                let step = model.slots[i].1->Live_0.record(encoder, model.drain_epoch);
                let slot = (thread, SlotModel::Live(step.0));
                lemma_pending_update(model.slots, i, slot, model.slots.len() as int);
                lemma_collecting(
                    SharedModel { slots: model.slots.update(i, slot), ..model },
                    step.1,
                );
            },
            None => {
                let step = BufferModel::fresh(DEFAULT_BATCH_SIZE as nat).record(
                    encoder,
                    model.drain_epoch,
                );
                let slot = (thread, SlotModel::Live(step.0));
                let next = model.slots.push(slot);
                lemma_pending_prefix(next, model.slots, model.slots.len() as int);
                lemma_collecting(SharedModel { slots: next, ..model }, step.1);
            },
        }
    }
}

/// A thread that exits takes no events with it.
pub proof fn law_exiting_threads_lose_no_events(model: SharedModel, thread: u64)
    ensures
        model.exited(thread).events() == model.events(),
        model.poisoned_on(thread).events() == model.events(),
{
    lemma_slot_in_range(model.slots, thread, model.slots.len() as int);
    if let Some(i) = model.slot(thread) {
        let slot = model.slots[i].1;
        let dead = (thread, SlotModel::Dead { flush_epoch: slot.flush_epoch() });
        lemma_pending_update(model.slots, i, dead, model.slots.len() as int);
        let batch = match slot {
            SlotModel::Live(b) => b.drain().1,
            SlotModel::Poisoned(b) => b.drain().1,
            SlotModel::Dead { .. } => None,
        };
        lemma_collecting(SharedModel { slots: model.slots.update(i, dead), ..model }, batch);
        if let SlotModel::Live(b) = slot {
            lemma_pending_update(
                model.slots,
                i,
                (thread, SlotModel::Poisoned(b)),
                model.slots.len() as int,
            );
        }
    }
}

/// No event is lost and none is duplicated, however threads record, drain,
/// panic and exit: after any run of steps the session holds what it held
/// before and every event accepted since.
pub proof fn law_every_accepted_event_is_held_exactly_once(
    model: SharedModel,
    steps: Seq<SessionStep>,
)
    ensures
        model.after_steps(steps).events() == model.events() + model.accepted_in(steps),
    decreases steps.len(),
{
    if steps.len() > 0 {
        law_every_accepted_event_is_held_exactly_once(model, steps.drop_last());
        let before = model.after_steps(steps.drop_last());
        match steps.last() {
            SessionStep::Record { thread, encoder } => {
                law_recording_adds_one_event(before, thread, encoder);
            },
            SessionStep::Poison { thread } => {
                law_exiting_threads_lose_no_events(before, thread);
            },
            SessionStep::Exit { thread } => {
                law_exiting_threads_lose_no_events(before, thread);
            },
            SessionStep::Bump => {},
            SessionStep::Drain => {
                law_drain_conserves_events(before.slots, before.drain_epoch);
                lemma_event_sum_append(
                    before.collected,
                    drained_batches(before.slots, before.slots.len() as int, before.drain_epoch),
                );
            },
        }
    }
}

/// The buffer at `i` is one that a drain in the epoch locks: its thread is
/// alive, encoding never panicked, and it was last flushed in an earlier epoch.
pub open spec fn is_drainable(slots: Seq<(u64, SlotModel)>, i: int, epoch: u64) -> bool {
    &&& 0 <= i < slots.len()
    &&& slots[i].1 is Live
    &&& slots[i].1->Live_0.flush_epoch < epoch
}

proof fn lemma_drained_batches(slots: Seq<(u64, SlotModel)>, n: int, epoch: u64) -> (at: Seq<int>)
    requires
        0 <= n <= slots.len(),
    ensures
        drained_batches(slots, n, epoch).len() == at.len(),
        forall|k: int|
            0 <= k < at.len() ==> 0 <= #[trigger] at[k] < n && is_drainable(slots, at[k], epoch)
                && drained_batches(slots, n, epoch)[k].bytes
                == slots[at[k]].1->Live_0.encoder.bytes && drained_batches(
                slots,
                n,
                epoch,
            )[k].event_count == slots[at[k]].1->Live_0.event_count,
        forall|j: int, k: int| 0 <= j < k < at.len() ==> #[trigger] at[j] < #[trigger] at[k],
        forall|i: int|
            0 <= i < n ==> (#[trigger] at.contains(i) <==> is_drainable(slots, i, epoch)
                && slots[i].1->Live_0.event_count > 0),
    decreases n,
{
    if n == 0 {
        Seq::empty()
    } else {
        let before = lemma_drained_batches(slots, n - 1, epoch);
        let taken = is_drainable(slots, n - 1, epoch) && slots[n - 1].1->Live_0.event_count > 0;
        let at = if taken {
            before.push(n - 1)
        } else {
            before
        };
        assert(slots[n - 1].1.drained_batch(epoch) is Some <==> taken);
        assert forall|i: int| 0 <= i < n implies (#[trigger] at.contains(i) <==> is_drainable(
            slots,
            i,
            epoch,
        ) && slots[i].1->Live_0.event_count > 0) by {
            if at.contains(i) {
                let k = choose|k: int| 0 <= k < at.len() && at[k] == i;
                if k < before.len() {
                    assert(before[k] == i);
                    assert(before.contains(i));
                }
            }
            if i < n - 1 && before.contains(i) {
                let k = choose|k: int| 0 <= k < before.len() && before[k] == i;
                assert(at[k] == i);
            }
            if i == n - 1 && taken {
                assert(at[before.len() as int] == i);
            }
        }
        at
    }
}

/// A drain appends to what was collected, in order, all that the drainable
/// buffers hold: one batch for each of them that has events, at the slots `at`.
pub proof fn law_a_drain_collects_what_idle_buffers_hold(model: SharedModel) -> (at: Seq<int>)
    ensures
        ({
            let collected = model.drained().collected;
            let first = model.collected.len();
            &&& collected.len() == first + at.len()
            &&& forall|i: int| 0 <= i < first ==> collected[i] == #[trigger] model.collected[i]
            &&& forall|k: int|
                0 <= k < at.len() ==> is_drainable(
                    model.slots,
                    #[trigger] at[k],
                    model.drain_epoch,
                ) && collected[first + k].bytes == model.slots[at[k]].1->Live_0.encoder.bytes
                    && collected[first + k].event_count
                    == model.slots[at[k]].1->Live_0.event_count
        }),
        forall|j: int, k: int| 0 <= j < k < at.len() ==> #[trigger] at[j] < #[trigger] at[k],
        forall|i: int|
            0 <= i < model.slots.len() ==> (#[trigger] at.contains(i) <==> is_drainable(
                model.slots,
                i,
                model.drain_epoch,
            ) && model.slots[i].1->Live_0.event_count > 0),
{
    lemma_drained_batches(model.slots, model.slots.len() as int, model.drain_epoch)
}

/// A drain drops the slots of exited threads and keeps the others in order, at
/// the positions `at`. A drainable buffer is left without events, with the
/// epoch as that of its last flush; every other is left as it is.
pub proof fn law_a_drain_keeps_the_slots_of_running_threads(
    slots: Seq<(u64, SlotModel)>,
    epoch: u64,
) -> (at: Seq<int>)
    ensures
        drained_slots(slots, epoch).len() == at.len(),
        forall|k: int|
            0 <= k < at.len() ==> {
                let before = slots[at[k]];
                let after = drained_slots(slots, epoch)[k];
                &&& 0 <= #[trigger] at[k] < slots.len()
                &&& after.0 == before.0
                &&& is_drainable(slots, at[k], epoch) ==> {
                    &&& after.1 is Live
                    &&& after.1->Live_0.event_count == 0
                    &&& after.1->Live_0.flush_epoch == epoch
                    &&& after.1->Live_0.batch_size == before.1->Live_0.batch_size
                    &&& after.1->Live_0.registered == before.1->Live_0.registered
                }
                &&& !is_drainable(slots, at[k], epoch) ==> after == before
            },
        forall|j: int, k: int| 0 <= j < k < at.len() ==> #[trigger] at[j] < #[trigger] at[k],
        forall|i: int|
            0 <= i < slots.len() ==> (#[trigger] at.contains(i) <==> !(slots[i].1 is Dead)),
    decreases slots.len(),
{
    if slots.len() == 0 {
        reveal(Seq::filter);
        assert(drained_slots(slots, epoch).len() == 0);
        Seq::empty()
    } else {
        let rest = slots.drop_last();
        let last = slots.len() - 1;
        let before = law_a_drain_keeps_the_slots_of_running_threads(rest, epoch);
        lemma_drained_slots_step(slots, epoch);
        let kept = !(slots.last().1 is Dead);
        let at = if kept {
            before.push(last)
        } else {
            before
        };
        assert forall|k: int| 0 <= k < before.len() implies is_drainable(
            slots,
            #[trigger] before[k],
            epoch,
        ) == is_drainable(rest, before[k], epoch) && slots[before[k]] == rest[before[k]] by {
            assert(0 <= before[k] < rest.len());
        }
        assert forall|i: int| 0 <= i < slots.len() implies (#[trigger] at.contains(i) <==> !(
        slots[i].1 is Dead)) by {
            if at.contains(i) {
                let k = choose|k: int| 0 <= k < at.len() && at[k] == i;
                if k < before.len() {
                    assert(before[k] == i);
                    assert(before.contains(i));
                    assert(rest[i] == slots[i]);
                }
            }
            if i < last {
                assert(rest[i] == slots[i]);
                assert(before.contains(i) <==> !(rest[i].1 is Dead));
                if before.contains(i) {
                    let k = choose|k: int| 0 <= k < before.len() && before[k] == i;
                    assert(at[k] == i);
                }
            } else if kept {
                assert(at[before.len() as int] == i);
            }
        }
        at
    }
}

proof fn lemma_count_slots_is_a_filter(
    slots: Seq<(u64, SlotModel)>,
    n: int,
    p: spec_fn(SlotModel) -> bool,
)
    requires
        0 <= n <= slots.len(),
    ensures
        count_slots(slots, n, p) == slots.take(n).filter(|s: (u64, SlotModel)| p(s.1)).len(),
    decreases n,
{
    reveal(Seq::filter);
    if n > 0 {
        lemma_count_slots_is_a_filter(slots, n - 1, p);
        assert(slots.take(n).drop_last() =~= slots.take(n - 1));
        assert(slots.take(n).last() == slots[n - 1]);
    }
}

proof fn lemma_filters_agree(
    slots: Seq<(u64, SlotModel)>,
    p: spec_fn((u64, SlotModel)) -> bool,
    q: spec_fn((u64, SlotModel)) -> bool,
)
    requires
        forall|s: (u64, SlotModel)| #[trigger] p(s) == q(s),
    ensures
        slots.filter(p) == slots.filter(q),
    decreases slots.len(),
{
    reveal(Seq::filter);
    if slots.len() > 0 {
        lemma_filters_agree(slots.drop_last(), p, q);
    }
}

/// The counters of a drain: skipped as busy are the slots last flushed in the
/// epoch or later, whatever became of their threads; locked are the live ones
/// that were last flushed before it; flushed are those among the latter that
/// hold events; pruned are those of exited threads.
pub proof fn law_drain_counters_count_slots(
    slots: Seq<(u64, SlotModel)>,
    epoch: u64,
    stats: TlDrainStats,
)
    requires
        counts_drain(stats, slots, epoch),
    ensures
        stats.buffers_skipped_busy == slots.filter(
            |s: (u64, SlotModel)|
                match s.1 {
                    SlotModel::Live(b) => b.flush_epoch >= epoch,
                    SlotModel::Poisoned(b) => b.flush_epoch >= epoch,
                    SlotModel::Dead { flush_epoch } => flush_epoch >= epoch,
                },
        ).len(),
        stats.buffers_locked == slots.filter(
            |s: (u64, SlotModel)|
                s.1 matches SlotModel::Live(b) && b.flush_epoch < epoch,
        ).len(),
        stats.buffers_flushed == slots.filter(
            |s: (u64, SlotModel)|
                s.1 matches SlotModel::Live(b) && b.flush_epoch < epoch && b.event_count > 0,
        ).len(),
        stats.dead_pruned == slots.filter(|s: (u64, SlotModel)| s.1 is Dead).len(),
{
    let n = slots.len() as int;
    assert(slots.take(n) =~= slots);
    lemma_count_slots_is_a_filter(slots, n, is_busy(epoch));
    lemma_count_slots_is_a_filter(slots, n, is_locked(epoch));
    lemma_count_slots_is_a_filter(slots, n, is_flushed(epoch));
    lemma_count_slots_is_a_filter(slots, n, is_dead());
    lemma_filters_agree(
        slots,
        |s: (u64, SlotModel)| is_busy(epoch)(s.1),
        |s: (u64, SlotModel)|
            match s.1 {
                SlotModel::Live(b) => b.flush_epoch >= epoch,
                SlotModel::Poisoned(b) => b.flush_epoch >= epoch,
                SlotModel::Dead { flush_epoch } => flush_epoch >= epoch,
            },
    );
    lemma_filters_agree(
        slots,
        |s: (u64, SlotModel)| is_locked(epoch)(s.1),
        |s: (u64, SlotModel)| s.1 matches SlotModel::Live(b) && b.flush_epoch < epoch,
    );
    lemma_filters_agree(
        slots,
        |s: (u64, SlotModel)| is_flushed(epoch)(s.1),
        |s: (u64, SlotModel)|
            s.1 matches SlotModel::Live(b) && b.flush_epoch < epoch && b.event_count > 0,
    );
    lemma_filters_agree(
        slots,
        |s: (u64, SlotModel)| is_dead()(s.1),
        |s: (u64, SlotModel)| s.1 is Dead,
    );
}

/// `i` is the latest slot of the thread, among those of threads that run.
pub open spec fn is_slot_of(slots: Seq<(u64, SlotModel)>, thread: u64, i: int) -> bool {
    &&& 0 <= i < slots.len()
    &&& slots[i].0 == thread
    &&& !(slots[i].1 is Dead)
    &&& forall|j: int|
        i < j < slots.len() && (#[trigger] slots[j]).0 == thread ==> slots[j].1 is Dead
}

/// The thread has no slot, other than of an earlier thread of the same name
/// that exited.
pub open spec fn is_unknown(slots: Seq<(u64, SlotModel)>, thread: u64) -> bool {
    forall|j: int|
        0 <= j < slots.len() && (#[trigger] slots[j]).0 == thread ==> slots[j].1 is Dead
}

proof fn lemma_slot_index_finds(slots: Seq<(u64, SlotModel)>, thread: u64, n: int)
    requires
        0 <= n <= slots.len(),
    ensures
        match slot_index(slots, thread, n) {
            Some(i) => {
                &&& 0 <= i < n
                &&& slots[i].0 == thread
                &&& !(slots[i].1 is Dead)
                &&& forall|j: int|
                    i < j < n && (#[trigger] slots[j]).0 == thread ==> slots[j].1 is Dead
            },
            None => forall|j: int|
                0 <= j < n && (#[trigger] slots[j]).0 == thread ==> slots[j].1 is Dead,
        },
    decreases n,
{
    if n > 0 {
        lemma_slot_index_finds(slots, thread, n - 1);
    }
}

/// While recording is on, an event of a thread changes the thread's slot alone:
/// its buffer records the event, and the batch that this makes leave it, if
/// any, is the only one added to what was collected.
pub proof fn law_an_event_goes_to_the_buffer_of_its_thread(
    model: SharedModel,
    thread: u64,
    i: int,
    encoder: EncoderModel,
)
    requires
        model.enabled,
        is_slot_of(model.slots, thread, i),
        model.slots[i].1 is Live,
    ensures
        ({
            let after = model.recorded_on(thread, encoder);
            let step = model.slots[i].1->Live_0.record(encoder, model.drain_epoch);
            &&& after.slots.len() == model.slots.len()
            &&& after.slots[i] == (thread, SlotModel::Live(step.0))
            &&& forall|j: int|
                0 <= j < model.slots.len() && j != i ==> #[trigger] after.slots[j]
                    == model.slots[j]
            &&& step.1 is None ==> after.collected == model.collected
            &&& step.1 matches Some(batch) ==> after.collected == model.collected.push(batch)
            &&& after.enabled
            &&& after.drain_epoch == model.drain_epoch
            &&& after.next_worker_id == model.next_worker_id
            &&& after.start_time_ns == model.start_time_ns
        }),
{
    lemma_slot_index_finds(model.slots, thread, model.slots.len() as int);
}

/// The first event of a thread, while recording is on, adds a slot for it with
/// a new buffer that holds the event.
pub proof fn law_the_first_event_of_a_thread_registers_its_buffer(
    model: SharedModel,
    thread: u64,
    encoder: EncoderModel,
)
    requires
        model.enabled,
        is_unknown(model.slots, thread),
    ensures
        ({
            let after = model.recorded_on(thread, encoder);
            let step = BufferModel::fresh(DEFAULT_BATCH_SIZE as nat).record(
                encoder,
                model.drain_epoch,
            );
            &&& after.slots == model.slots.push((thread, SlotModel::Live(step.0)))
            &&& step.1 is None ==> after.collected == model.collected
            &&& step.1 matches Some(batch) ==> after.collected == model.collected.push(batch)
            &&& is_slot_of(after.slots, thread, model.slots.len() as int)
        }),
{
    lemma_slot_index_finds(model.slots, thread, model.slots.len() as int);
}

/// An event is dropped without a trace while recording is off, and on a thread
/// where encoding panicked.
pub proof fn law_other_events_are_dropped(
    model: SharedModel,
    thread: u64,
    i: int,
    encoder: EncoderModel,
)
    requires
        !model.enabled || (is_slot_of(model.slots, thread, i) && model.slots[i].1 is Poisoned),
    ensures
        model.recorded_on(thread, encoder) == model,
{
    lemma_slot_index_finds(model.slots, thread, model.slots.len() as int);
}

/// A panic while encoding marks the buffer of the thread and no other, and
/// keeps what it holds; what was collected stays.
pub proof fn law_a_panic_poisons_the_buffer_of_its_thread(
    model: SharedModel,
    thread: u64,
    i: int,
)
    requires
        is_slot_of(model.slots, thread, i),
        model.slots[i].1 is Live,
    ensures
        ({
            let after = model.poisoned_on(thread);
            &&& after.slots.len() == model.slots.len()
            &&& after.slots[i] == (thread, SlotModel::Poisoned(model.slots[i].1->Live_0))
            &&& forall|j: int|
                0 <= j < model.slots.len() && j != i ==> #[trigger] after.slots[j]
                    == model.slots[j]
            &&& after.collected == model.collected
            &&& after.enabled == model.enabled
        }),
{
    lemma_slot_index_finds(model.slots, thread, model.slots.len() as int);
}

/// When a thread exits, what its buffer holds is collected as one batch, and
/// its slot alone is marked.
pub proof fn law_an_exit_collects_what_the_thread_recorded(
    model: SharedModel,
    thread: u64,
    i: int,
)
    requires
        is_slot_of(model.slots, thread, i),
    ensures
        ({
            let after = model.exited(thread);
            let buffer = match model.slots[i].1 {
                SlotModel::Poisoned(b) => b,
                _ => model.slots[i].1->Live_0,
            };
            &&& after.slots.len() == model.slots.len()
            &&& after.slots[i] == (
                thread,
                SlotModel::Dead { flush_epoch: buffer.flush_epoch },
            )
            &&& forall|j: int|
                0 <= j < model.slots.len() && j != i ==> #[trigger] after.slots[j]
                    == model.slots[j]
            &&& buffer.event_count == 0 ==> after.collected == model.collected
            &&& buffer.event_count > 0 ==> after.collected == model.collected.push(
                BatchModel { bytes: buffer.encoder.bytes, event_count: buffer.event_count },
            )
            &&& after.enabled == model.enabled
            &&& after.drain_epoch == model.drain_epoch
        }),
{
    lemma_slot_index_finds(model.slots, thread, model.slots.len() as int);
}

/// After the epoch was bumped, a drain takes the events of every running thread
/// that has not recorded since, and bumping changes nothing else.
pub proof fn law_a_bump_lets_every_buffer_be_drained(model: SharedModel, i: int)
    requires
        model.drain_epoch < u64::MAX,
        0 <= i < model.slots.len(),
        model.slots[i].1 is Live,
        model.slots[i].1->Live_0.flush_epoch <= model.drain_epoch,
    ensures
        is_drainable(model.bumped().slots, i, model.bumped().drain_epoch),
        model.bumped().slots == model.slots,
        model.bumped().collected == model.collected,
        model.bumped().enabled == model.enabled,
        model.bumped().next_worker_id == model.next_worker_id,
{
}

} // verus!
