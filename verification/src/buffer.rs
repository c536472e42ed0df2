//! Thread-local event buffers.
//!
//! Events are encoded straight into a buffer's [`TraceEncoder`]. The encoded
//! bytes leave the buffer as a [`Batch`] when they reach the batch size, when
//! the drain epoch has moved on, or when the buffer is drained.
use dial9_trace_format::encoder::Encoder;
use dial9_trace_format::TraceEvent;
use vstd::prelude::*;

verus! {

/// Default encoded batch size before flushing (about 1 MB).
pub const DEFAULT_BATCH_SIZE: usize = 1_047_552;

/// Extra capacity so that typical events never grow a fresh buffer.
pub const BATCH_HEADROOM: usize = 1024;

/// Encoded events on their way to the trace.
#[derive(Debug)]
pub struct Batch {
    /// A self-contained piece of trace: header, schemas, pools and events.
    pub encoded_bytes: Vec<u8>,
    /// How many events the bytes hold.
    pub event_count: u64,
}

impl Batch {
    pub fn new(encoded_bytes: Vec<u8>, event_count: u64) -> (r: Self)
        ensures
            r == (Batch { encoded_bytes, event_count }),
    {
        Batch { encoded_bytes, event_count }
    }
}

/// A `dial9_trace_format` encoder that writes to memory.
#[verifier::external_body]
pub struct TraceEncoder {
    inner: Encoder<Vec<u8>>,
}

/// The bytes an encoder has written since it was created or last reset.
pub uninterp spec fn encoded(encoder: TraceEncoder) -> Seq<u8>;

/// The strings that an encoder has interned since it was created or last reset,
/// each with its handle.
pub uninterp spec fn string_pool(encoder: TraceEncoder) -> Map<Seq<char>, u32>;

/// The stacks that an encoder has interned since it was created or last reset,
/// each with its handle.
pub uninterp spec fn stack_pool(encoder: TraceEncoder) -> Map<Seq<u64>, u32>;

/// What a [`TraceEncoder`] holds for the current batch.
#[verifier::ext_equal]
pub struct EncoderModel {
    pub bytes: Seq<u8>,
    /// The interned strings with their handles.
    pub strings: Map<Seq<char>, u32>,
    /// The interned stacks with their handles.
    pub stacks: Map<Seq<u64>, u32>,
}

impl View for TraceEncoder {
    type V = EncoderModel;

    open spec fn view(&self) -> EncoderModel {
        EncoderModel {
            bytes: encoded(*self),
            strings: string_pool(*self),
            stacks: stack_pool(*self),
        }
    }
}

impl EncoderModel {
    /// An encoder without events: a file header and empty pools.
    pub open spec fn fresh() -> EncoderModel {
        EncoderModel { bytes: trace_header(), strings: Map::empty(), stacks: Map::empty() }
    }
}

/// The file header that every encoder starts with: magic number and version.
pub open spec fn trace_header() -> Seq<u8> {
    seq![0x54u8, 0x52u8, 0x43u8, 0x00u8, 0x01u8]
}

/// Creates an encoder over a vector of the given capacity with
/// `Encoder::new_to`, which writes the file header at once.
#[verifier::external_body]
fn new_encoder(capacity: usize) -> (encoder: TraceEncoder)
    requires
        capacity <= isize::MAX,
    ensures
        encoded(encoder) == trace_header(),
        string_pool(encoder).dom() == Set::<Seq<char>>::empty(),
        stack_pool(encoder).dom() == Set::<Seq<u64>>::empty(),
{
    let inner = Encoder::new_to(Vec::with_capacity(capacity)).expect("Vec::write_all cannot fail");
    TraceEncoder { inner }
}

/// `Encoder::bytes_written`: how many bytes were written, header included.
///
/// Every pool entry was written when it was interned, so neither pool has more
/// entries than there are bytes.
#[verifier::external_body]
fn bytes_written(encoder: &TraceEncoder) -> (n: u64)
    ensures
        n == encoded(*encoder).len(),
        string_pool(*encoder).len() <= n,
        stack_pool(*encoder).len() <= n,
{
    encoder.inner.bytes_written()
}

/// `Encoder::reset_to_infallible` with an empty vector of the given capacity:
/// hands out what was written and starts over with a file header and empty
/// pools.
#[verifier::external_body]
fn reset_encoder(encoder: &mut TraceEncoder, capacity: usize) -> (bytes: Vec<u8>)
    requires
        capacity <= isize::MAX,
    ensures
        bytes@ == encoded(*old(encoder)),
        encoded(*final(encoder)) == trace_header(),
        string_pool(*final(encoder)).dom() == Set::<Seq<char>>::empty(),
        stack_pool(*final(encoder)).dom() == Set::<Seq<u64>>::empty(),
{
    encoder.inner.reset_to_infallible(Vec::with_capacity(capacity))
}

/// `Encoder::intern_string_infallible`: the handle of a string in the string
/// pool.
///
/// A string in the pool keeps its handle and nothing is written. Any other
/// gets a handle that no other string has, and a pool entry is written after
/// the bytes so far; the bytes of that entry are left unsaid.
#[verifier::external_body]
fn pool_string(encoder: &mut TraceEncoder, s: &str) -> (id: u32)
    requires
        string_pool(*old(encoder)).len() < u32::MAX,
    ensures
        stack_pool(*final(encoder)) == stack_pool(*old(encoder)),
        string_pool(*old(encoder)).contains_key(s@) ==> id == string_pool(*old(encoder))[s@]
            && string_pool(*final(encoder)) == string_pool(*old(encoder)) && encoded(
            *final(encoder),
        ) == encoded(*old(encoder)),
        !string_pool(*old(encoder)).contains_key(s@) ==> string_pool(*final(encoder))
            == string_pool(*old(encoder)).insert(s@, id) && !string_pool(
            *old(encoder),
        ).contains_value(id) && encoded(*old(encoder)).is_prefix_of(encoded(*final(encoder))),
{
    encoder.inner.intern_string_infallible(s).raw_id()
}

/// `Encoder::intern_stack_frames_infallible`: the handle of a stack in the
/// stack pool.
///
/// A stack in the pool keeps its handle and nothing is written. Any other gets
/// a handle that no other stack has, and a pool entry is written after the
/// bytes so far; the bytes of that entry are left unsaid.
#[verifier::external_body]
fn pool_stack_frames(encoder: &mut TraceEncoder, frames: &[u64]) -> (id: u32)
    requires
        stack_pool(*old(encoder)).len() < u32::MAX,
    ensures
        string_pool(*final(encoder)) == string_pool(*old(encoder)),
        stack_pool(*old(encoder)).contains_key(frames@) ==> id == stack_pool(
            *old(encoder),
        )[frames@] && stack_pool(*final(encoder)) == stack_pool(*old(encoder)) && encoded(
            *final(encoder),
        ) == encoded(*old(encoder)),
        !stack_pool(*old(encoder)).contains_key(frames@) ==> stack_pool(*final(encoder))
            == stack_pool(*old(encoder)).insert(frames@, id) && !stack_pool(
            *old(encoder),
        ).contains_value(id) && encoded(*old(encoder)).is_prefix_of(encoded(*final(encoder))),
{
    encoder.inner.intern_stack_frames_infallible(frames).raw_id()
}

/// A pool with one more entry, unless it has the entry already, and the
/// entry's handle.
pub open spec fn interned<K>(before: Map<K, u32>, key: K, id: u32, after: Map<K, u32>) -> bool {
    if before.contains_key(key) {
        id == before[key] && after == before
    } else {
        !before.contains_value(id) && after == before.insert(key, id)
    }
}

/// No two entries of a pool share a handle.
pub open spec fn distinct_handles<K>(pool: Map<K, u32>) -> bool {
    forall|a: K, b: K|
        pool.contains_key(a) && pool.contains_key(b) && #[trigger] pool[a] == #[trigger] pool[b]
            ==> a == b
}

/// Interning the same entry again gives the same handle and leaves the pool as
/// it is.
pub proof fn law_interning_is_idempotent<K>(
    pool: Map<K, u32>,
    key: K,
    id: u32,
    once: Map<K, u32>,
    again: u32,
    twice: Map<K, u32>,
)
    requires
        interned(pool, key, id, once),
        interned(once, key, again, twice),
    ensures
        again == id,
        twice == once,
{
}

/// Interning keeps the handles of all entries, and keeps them distinct.
pub proof fn law_interning_keeps_handles<K>(
    pool: Map<K, u32>,
    key: K,
    id: u32,
    after: Map<K, u32>,
    other: K,
)
    requires
        interned(pool, key, id, after),
        distinct_handles(pool),
    ensures
        pool.contains_key(other) ==> after.contains_key(other) && after[other] == pool[other],
        distinct_handles(after),
{
    if !pool.contains_key(key) {
        assert forall|a: K, b: K|
            after.contains_key(a) && after.contains_key(b) && #[trigger] after[a]
                == #[trigger] after[b] implies a == b by {
            if a != key && b != key {
                assert(pool[a] == pool[b]);
            } else if a != key {
                assert(pool.contains_key(a) && pool[a] == id);
            } else if b != key {
                assert(pool.contains_key(b) && pool[b] == id);
            }
        }
    }
}

impl TraceEncoder {
    /// `Encoder::write`: writes an event, and its schema before the first event
    /// of its kind.
    ///
    /// What is written follows the bytes so far, which stay as they are, and
    /// interns nothing. Which bytes they are depends on the event and on the
    /// events before it, and is left unsaid. Fails if the schema conflicts with
    /// that of another event of the batch, or if the event fails to encode its
    /// fields. The format numbers kinds of events with sixteen bits, more than
    /// a program has.
    #[verifier::external_body]
    pub fn encode<T: TraceEvent>(&mut self, event: &T) -> (r: Result<(), String>)
        ensures
            string_pool(*final(self)) == string_pool(*old(self)),
            stack_pool(*final(self)) == stack_pool(*old(self)),
            encoded(*old(self)).is_prefix_of(encoded(*final(self))),
            r is Ok ==> encoded(*old(self)).len() < encoded(*final(self)).len(),
    {
        self.inner.write(event).map_err(|e| e.to_string())
    }

    /// How many bytes the batch has so far, file header included.
    pub fn bytes_written(&self) -> (n: u64)
        ensures
            n == self@.bytes.len(),
    {
        self::bytes_written(self)
    }

    /// The handle of a string for events of this batch. A string that the
    /// batch has already is not written again.
    pub fn intern_string(&mut self, s: &str) -> (id: u32)
        requires
            string_pool(*old(self)).len() < u32::MAX,
        ensures
            interned(string_pool(*old(self)), s@, id, string_pool(*final(self))),
            stack_pool(*final(self)) == stack_pool(*old(self)),
            encoded(*old(self)).is_prefix_of(encoded(*final(self))),
            string_pool(*old(self)).contains_key(s@) ==> encoded(*final(self)) == encoded(
                *old(self),
            ),
    {
        pool_string(self, s)
    }

    /// The handle of a stack for events of this batch. A stack that the batch
    /// has already is not written again.
    pub fn intern_stack_frames(&mut self, frames: &[u64]) -> (id: u32)
        requires
            stack_pool(*old(self)).len() < u32::MAX,
        ensures
            interned(stack_pool(*old(self)), frames@, id, stack_pool(*final(self))),
            string_pool(*final(self)) == string_pool(*old(self)),
            encoded(*old(self)).is_prefix_of(encoded(*final(self))),
            stack_pool(*old(self)).contains_key(frames@) ==> encoded(*final(self)) == encoded(
                *old(self),
            ),
    {
        pool_stack_frames(self, frames)
    }

    /// Whether handles are left for sure: the batch is smaller than 4 GiB.
    pub fn can_intern(&self) -> (r: bool)
        ensures
            r == (encoded(*self).len() < u32::MAX),
            r ==> string_pool(*self).len() < u32::MAX,
            r ==> stack_pool(*self).len() < u32::MAX,
    {
        self::bytes_written(self) < 0xffff_ffff
    }

    /// The handle of a string for events of this batch, unless the batch is so
    /// large that handles may have run out.
    pub fn try_intern_string(&mut self, s: &str) -> (r: Option<u32>)
        ensures
            r is Some <==> encoded(*old(self)).len() < u32::MAX,
            match r {
                Some(id) => {
                    &&& interned(string_pool(*old(self)), s@, id, string_pool(*final(self)))
                    &&& stack_pool(*final(self)) == stack_pool(*old(self))
                    &&& encoded(*old(self)).is_prefix_of(encoded(*final(self)))
                    &&& string_pool(*old(self)).contains_key(s@) ==> encoded(*final(self))
                        == encoded(*old(self))
                },
                None => *final(self) == *old(self),
            },
    {
        if self.can_intern() {
            Some(self.intern_string(s))
        } else {
            None
        }
    }

    /// The handle of a stack for events of this batch, unless the batch is so
    /// large that handles may have run out.
    pub fn try_intern_stack_frames(&mut self, frames: &[u64]) -> (r: Option<u32>)
        ensures
            r is Some <==> encoded(*old(self)).len() < u32::MAX,
            match r {
                Some(id) => {
                    &&& interned(stack_pool(*old(self)), frames@, id, stack_pool(*final(self)))
                    &&& string_pool(*final(self)) == string_pool(*old(self))
                    &&& encoded(*old(self)).is_prefix_of(encoded(*final(self)))
                    &&& stack_pool(*old(self)).contains_key(frames@) ==> encoded(*final(self))
                        == encoded(*old(self))
                },
                None => *final(self) == *old(self),
            },
    {
        if self.can_intern() {
            Some(self.intern_stack_frames(frames))
        } else {
            None
        }
    }
}

/// The last drain epoch at which a buffer was flushed. A drain skips buffers
/// that flushed themselves in the current epoch.
#[derive(Debug, Clone, Copy, PartialEq, Eq, Structural)]
pub struct FlushEpoch(pub u64);

impl FlushEpoch {
    pub fn new() -> (r: Self)
        ensures
            r == FlushEpoch(0),
    {
        FlushEpoch(0)
    }

    pub fn store(&mut self, epoch: u64)
        ensures
            *final(self) == FlushEpoch(epoch),
    {
        self.0 = epoch;
    }

    pub fn load(&self) -> (r: u64)
        ensures
            r == self.0,
    {
        self.0
    }
}

/// What a [`ThreadLocalBuffer`] holds.
#[verifier::ext_equal]
pub struct BufferModel {
    /// What is encoded for the current batch.
    pub encoder: EncoderModel,
    pub event_count: nat,
    pub batch_size: nat,
    pub registered: bool,
    pub flush_epoch: u64,
}

/// What a [`Batch`] holds.
#[verifier::ext_equal]
pub struct BatchModel {
    pub bytes: Seq<u8>,
    pub event_count: nat,
}

impl View for Batch {
    type V = BatchModel;

    open spec fn view(&self) -> BatchModel {
        BatchModel { bytes: self.encoded_bytes@, event_count: self.event_count as nat }
    }
}

/// The views of optional batches.
pub open spec fn batch_view(batch: Option<Batch>) -> Option<BatchModel> {
    match batch {
        Some(b) => Some(b@),
        None => None,
    }
}

impl BufferModel {
    /// A buffer without events.
    pub open spec fn fresh(batch_size: nat) -> BufferModel {
        BufferModel {
            encoder: EncoderModel::fresh(),
            event_count: 0,
            batch_size,
            registered: false,
            flush_epoch: 0,
        }
    }

    /// Everything the buffer holds, as a batch.
    pub open spec fn contents(self) -> BatchModel {
        BatchModel { bytes: self.encoder.bytes, event_count: self.event_count }
    }

    /// The buffer after its contents were taken.
    pub open spec fn emptied(self) -> BufferModel {
        BufferModel { encoder: EncoderModel::fresh(), event_count: 0, ..self }
    }

    /// The buffer after one more event, which left the encoder with `encoder`.
    pub open spec fn with_event(self, encoder: EncoderModel) -> BufferModel {
        BufferModel { encoder, event_count: self.event_count + 1, registered: true, ..self }
    }

    /// Whether the batch is full: there are events, and the encoded bytes reach
    /// the batch size. A file header alone fills no batch, however small.
    pub open spec fn is_full(self) -> bool {
        self.event_count > 0 && self.encoder.bytes.len() >= self.batch_size
    }

    /// Whether the buffer flushes itself: its batch is full, or a drain was
    /// asked for since its last flush.
    pub open spec fn flush_due(self, drain_epoch: u64) -> bool {
        self.is_full() || self.flush_epoch < drain_epoch
    }

    /// The buffer and the batch that leaves it when one more event is recorded.
    pub open spec fn record(self, encoder: EncoderModel, drain_epoch: u64) -> (
        BufferModel,
        Option<BatchModel>,
    ) {
        let next = self.with_event(encoder);
        if next.flush_due(drain_epoch) {
            (
                BufferModel { flush_epoch: drain_epoch, ..next.emptied() },
                Some(next.contents()),
            )
        } else {
            (next, None)
        }
    }

    /// The batch that leaves the buffer at its end: a buffer that was never
    /// registered has none.
    pub open spec fn last_batch(self) -> Option<BatchModel> {
        if self.registered {
            self.drain().1
        } else {
            None
        }
    }

    /// The buffer and the batch that leaves it when it is drained.
    pub open spec fn drain(self) -> (BufferModel, Option<BatchModel>) {
        if self.event_count > 0 {
            (self.emptied(), Some(self.contents()))
        } else {
            (self, None)
        }
    }
}

/// One thread's buffer.
pub struct ThreadLocalBuffer {
    /// Where events are encoded.
    pub encoder: TraceEncoder,
    event_count: usize,
    batch_size: usize,
    registered: bool,
    flush_epoch: FlushEpoch,
}

impl View for ThreadLocalBuffer {
    type V = BufferModel;

    closed spec fn view(&self) -> BufferModel {
        BufferModel {
            encoder: self.encoder@,
            event_count: self.event_count as nat,
            batch_size: self.batch_size as nat,
            registered: self.registered,
            flush_epoch: self.flush_epoch.0,
        }
    }
}

impl Default for ThreadLocalBuffer {
    fn default() -> (r: Self)
        ensures
            r@ == BufferModel::fresh(DEFAULT_BATCH_SIZE as nat),
    {
        ThreadLocalBuffer::new()
    }
}

/// What recording an event brought about.
#[derive(Debug)]
pub struct Recorded {
    /// This was the buffer's first event: it is to be registered for draining.
    pub first: bool,
    /// The batch that left the buffer.
    pub batch: Option<Batch>,
}

impl ThreadLocalBuffer {
    /// A buffer with the default batch size.
    pub fn new() -> (r: Self)
        ensures
            r@ == BufferModel::fresh(DEFAULT_BATCH_SIZE as nat),
    {
        ThreadLocalBuffer::with_batch_size(DEFAULT_BATCH_SIZE)
    }

    /// A buffer that flushes itself once `batch_size` bytes are encoded.
    pub fn with_batch_size(batch_size: usize) -> (r: Self)
        requires
            batch_size + BATCH_HEADROOM <= isize::MAX,
        ensures
            r@ == BufferModel::fresh(batch_size as nat),
    {
        let encoder = new_encoder(batch_size + BATCH_HEADROOM);
        assert(encoder@ =~= EncoderModel::fresh());
        ThreadLocalBuffer {
            encoder,
            event_count: 0,
            batch_size,
            registered: false,
            flush_epoch: FlushEpoch::new(),
        }
    }

    /// Marks the buffer as registered. Returns whether it was not before.
    pub fn set_collector(&mut self) -> (first: bool)
        ensures
            first == !old(self)@.registered,
            final(self)@ == (BufferModel { registered: true, ..old(self)@ }),
    {
        if !self.registered {
            self.registered = true;
            return true;
        }
        false
    }

    /// Whether the batch is full.
    pub fn should_flush(&self) -> (r: bool)
        ensures
            r == self@.is_full(),
    {
        self.event_count > 0 && bytes_written(&self.encoder) >= self.batch_size as u64
    }

    /// Takes everything the buffer holds.
    pub fn flush(&mut self) -> (batch: Batch)
        requires
            old(self)@.batch_size <= isize::MAX,
        ensures
            batch@ == old(self)@.contents(),
            final(self)@ == old(self)@.emptied(),
    {
        let event_count: u64 = self.event_count as u64;
        let encoded_bytes = reset_encoder(&mut self.encoder, self.batch_size);
        assert(self.encoder@ =~= EncoderModel::fresh());
        self.event_count = 0;
        Batch { encoded_bytes, event_count }
    }

    /// Whether the buffer holds events.
    pub fn has_pending_events(&self) -> (r: bool)
        ensures
            r == (self@.event_count > 0),
    {
        self.event_count > 0
    }

    /// How many encoded bytes fill a batch.
    pub fn batch_size(&self) -> (r: usize)
        ensures
            r == self@.batch_size,
    {
        self.batch_size
    }

    /// The number of events the buffer holds.
    pub fn pending_events(&self) -> (r: usize)
        ensures
            r == self@.event_count,
    {
        self.event_count
    }

    /// The epoch of the buffer's last flush.
    pub fn flush_epoch(&self) -> (r: u64)
        ensures
            r == self@.flush_epoch,
    {
        self.flush_epoch.load()
    }

    /// Sets the epoch of the buffer's last flush.
    pub fn stamp(&mut self, epoch: u64)
        ensures
            final(self)@ == (BufferModel { flush_epoch: epoch, ..old(self)@ }),
    {
        self.flush_epoch.store(epoch);
    }

    /// Records one event, which `encode` writes, without flushing.
    pub fn record_encodable<F: FnOnce(&mut TraceEncoder)>(&mut self, encode: F)
        requires
            old(self)@.event_count < usize::MAX,
            forall|e: &mut TraceEncoder|
                (*e)@ == old(self)@.encoder ==> #[trigger] call_requires(encode, (e,)),
        ensures
            exists|e: &mut TraceEncoder| #[trigger]
                call_ensures(encode, (e,), ()) && (*e)@ == old(self)@.encoder && final(self)@ == (
                BufferModel {
                    encoder: (*final(e))@,
                    event_count: old(self)@.event_count + 1,
                    ..old(self)@
                }),
    {
        encode(&mut self.encoder);
        self.event_count = self.event_count + 1;
    }

    /// Records one event, which `encode` writes, and flushes the buffer if its
    /// batch is full or `drain_epoch` is later than its last flush.
    pub fn with_encoder<F: FnOnce(&mut TraceEncoder)>(&mut self, encode: F, drain_epoch: u64) -> (
    recorded: Recorded)
        requires
            old(self)@.event_count < usize::MAX,
            old(self)@.batch_size <= isize::MAX,
            forall|e: &mut TraceEncoder|
                (*e)@ == old(self)@.encoder ==> #[trigger] call_requires(encode, (e,)),
        ensures
            recorded.first == !old(self)@.registered,
            exists|e: &mut TraceEncoder| #[trigger]
                call_ensures(encode, (e,), ()) && (*e)@ == old(self)@.encoder && (
                final(self)@,
                batch_view(recorded.batch),
                ) == old(self)@.record((*final(e))@, drain_epoch),
    {
        let first: bool = self.set_collector();
        self.record_encodable(encode);
        if self.should_flush() || self.flush_epoch() < drain_epoch {
            let batch = self.flush();
            self.stamp(drain_epoch);
            Recorded { first, batch: Some(batch) }
        } else {
            Recorded { first, batch: None }
        }
    }

    /// Drains the buffer even if its batch is not full.
    pub fn drain_to_collector(&mut self) -> (batch: Option<Batch>)
        requires
            old(self)@.batch_size <= isize::MAX,
        ensures
            (final(self)@, batch_view(batch)) == old(self)@.drain(),
    {
        if self.event_count > 0 {
            Some(self.flush())
        } else {
            None
        }
    }

    /// Ends the buffer: its remaining events leave as a last batch if it was
    /// registered, and are dropped otherwise.
    pub fn close(self) -> (batch: Option<Batch>)
        requires
            self@.batch_size <= isize::MAX,
        ensures
            batch_view(batch) == self@.last_batch(),
    {
        let mut buffer = self;
        if buffer.registered {
            buffer.drain_to_collector()
        } else {
            None
        }
    }

    /// Encodes one event into a self-contained batch.
    pub fn encode_single<F: FnOnce(&mut TraceEncoder)>(encode: F) -> (bytes: Vec<u8>)
        requires
            forall|e: &mut TraceEncoder|
                (*e)@ == EncoderModel::fresh() ==> #[trigger] call_requires(encode, (e,)),
        ensures
            exists|e: &mut TraceEncoder| #[trigger]
                call_ensures(encode, (e,), ()) && (*e)@ == EncoderModel::fresh() && bytes@
                    == (*final(e))@.bytes,
    {
        let mut buffer = ThreadLocalBuffer::with_batch_size(BATCH_HEADROOM);
        buffer.record_encodable(encode);
        buffer.flush().encoded_bytes
    }
}

/// The buffer after a run of recorded events. Each input is what the encoder
/// holds after the event, and the drain epoch at that time.
pub open spec fn after_run(buffer: BufferModel, inputs: Seq<(EncoderModel, u64)>) -> BufferModel
    decreases inputs.len(),
{
    if inputs.len() == 0 {
        buffer
    } else {
        after_run(buffer, inputs.drop_last()).record(inputs.last().0, inputs.last().1).0
    }
}

/// The number of events in the batches that leave the buffer during such a run.
pub open spec fn flushed_in_run(buffer: BufferModel, inputs: Seq<(EncoderModel, u64)>) -> nat
    decreases inputs.len(),
{
    if inputs.len() == 0 {
        0
    } else {
        flushed_in_run(buffer, inputs.drop_last()) + match after_run(
            buffer,
            inputs.drop_last(),
        ).record(inputs.last().0, inputs.last().1).1 {
            Some(batch) => batch.event_count,
            None => 0,
        }
    }
}

/// No event is lost or counted twice: after any run, the events in the batches
/// that left the buffer and those it still holds are exactly the events it
/// held before and those recorded since.
pub proof fn law_recording_conserves_events(buffer: BufferModel, inputs: Seq<(EncoderModel, u64)>)
    ensures
        flushed_in_run(buffer, inputs) + after_run(buffer, inputs).event_count
            == buffer.event_count + inputs.len(),
    decreases inputs.len(),
{
    if inputs.len() > 0 {
        law_recording_conserves_events(buffer, inputs.drop_last());
    }
}

/// Draining hands out every event the buffer holds and leaves none behind.
pub proof fn law_drain_conserves_events(buffer: BufferModel)
    ensures
        buffer.drain().0.event_count == 0,
        (match buffer.drain().1 {
            Some(batch) => batch.event_count,
            None => 0,
        }) == buffer.event_count,
        buffer.event_count > 0 ==> buffer.drain().1 == Some(buffer.contents()),
{
}

/// Handles last for one batch: a buffer whose contents left it starts over with
/// empty pools.
pub proof fn law_handles_last_for_one_batch(
    buffer: BufferModel,
    encoder: EncoderModel,
    drain_epoch: u64,
)
    ensures
        buffer.emptied().encoder == EncoderModel::fresh(),
        buffer.record(encoder, drain_epoch).1 is Some ==> buffer.record(
            encoder,
            drain_epoch,
        ).0.encoder == EncoderModel::fresh(),
        buffer.drain().1 is Some ==> buffer.drain().0.encoder == EncoderModel::fresh(),
{
}

/// Once the drain epoch has moved past a buffer's last flush, its next event
/// flushes it and stamps the new epoch.
pub proof fn law_epoch_bump_makes_the_next_event_flush(
    buffer: BufferModel,
    encoder: EncoderModel,
    drain_epoch: u64,
)
    requires
        buffer.flush_epoch < drain_epoch,
    ensures
        buffer.record(encoder, drain_epoch).1 is Some,
        buffer.record(encoder, drain_epoch).0.event_count == 0,
        buffer.record(encoder, drain_epoch).0.flush_epoch == drain_epoch,
{
}

/// Recording an event makes a batch leave the buffer exactly if the encoded
/// bytes have reached the batch size or a drain was asked for since the last
/// flush. The batch has all bytes and counts the event; the buffer starts over
/// with a file header alone.
pub proof fn law_a_batch_leaves_when_full_or_asked_for(
    buffer: BufferModel,
    encoder: EncoderModel,
    drain_epoch: u64,
)
    ensures
        ({
            let (after, batch) = buffer.record(encoder, drain_epoch);
            &&& batch is Some <==> encoder.bytes.len() >= buffer.batch_size || buffer.flush_epoch
                < drain_epoch
            &&& batch matches Some(b) ==> {
                &&& b.bytes == encoder.bytes
                &&& b.event_count == buffer.event_count + 1
                &&& after.event_count == 0
                &&& after.encoder.bytes == seq![0x54u8, 0x52u8, 0x43u8, 0x00u8, 0x01u8]
                &&& after.encoder.strings.dom() == Set::<Seq<char>>::empty()
                &&& after.encoder.stacks.dom() == Set::<Seq<u64>>::empty()
                &&& after.flush_epoch == drain_epoch
            }
            &&& batch is None ==> {
                &&& after.event_count == buffer.event_count + 1
                &&& after.encoder == encoder
                &&& after.flush_epoch == buffer.flush_epoch
            }
            &&& after.registered
            &&& after.batch_size == buffer.batch_size
        }),
{
    assert(Map::<Seq<char>, u32>::empty().dom() =~= Set::<Seq<char>>::empty());
    assert(Map::<Seq<u64>, u32>::empty().dom() =~= Set::<Seq<u64>>::empty());
}

/// Draining a buffer takes everything it holds, and nothing if it holds no
/// events; a second drain right after takes nothing.
pub proof fn law_draining_takes_everything(buffer: BufferModel)
    ensures
        buffer.event_count > 0 ==> buffer.drain().1 == Some(
            BatchModel { bytes: buffer.encoder.bytes, event_count: buffer.event_count },
        ),
        buffer.event_count == 0 ==> buffer.drain() == (buffer, None::<BatchModel>),
        buffer.drain().0.event_count == 0,
        buffer.drain().0.batch_size == buffer.batch_size,
        buffer.drain().0.registered == buffer.registered,
        buffer.drain().0.flush_epoch == buffer.flush_epoch,
        buffer.event_count > 0 ==> buffer.drain().0.encoder == EncoderModel::fresh(),
        buffer.drain().0.drain().1 is None,
{
}

/// A buffer that ends hands out what it holds if it was registered and holds
/// events, and nothing otherwise.
pub proof fn law_an_ending_buffer_hands_out_its_events(buffer: BufferModel)
    ensures
        buffer.last_batch() is Some <==> buffer.registered && buffer.event_count > 0,
        buffer.last_batch() matches Some(batch) ==> batch.bytes == buffer.encoder.bytes
            && batch.event_count == buffer.event_count,
{
}

} // verus!
