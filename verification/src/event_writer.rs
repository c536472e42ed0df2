//! The layer between the recorder and the raw trace writer.
use crate::buffer::{Batch, BatchModel, EncoderModel, ThreadLocalBuffer, TraceEncoder};
use crate::segment_metadata::Entries;
use crate::writer::WriterError;
use vstd::prelude::*;

verus! {

/// Something that trace batches can be written to.
pub trait TraceWriter: Sized {
    /// The batches written so far.
    spec fn accepted(&self) -> Seq<BatchModel>;

    /// The metadata entries embedded in the trace.
    spec fn metadata(&self) -> Entries;

    /// The metadata entries after merging in others.
    spec fn metadata_after(&self, entries: Entries) -> Entries;

    /// Whether buffers are to be drained at `now`.
    spec fn drain_due(&self, now: u64) -> bool;

    /// How writing a batch can end, and with what left in the writer.
    spec fn can_write(
        before: Self,
        batch: BatchModel,
        after: Self,
        r: Result<(), WriterError>,
    ) -> bool;

    /// How a flush can end, and with what left in the writer.
    spec fn can_flush(before: Self, after: Self, r: Result<(), WriterError>) -> bool;

    /// How writing the metadata entries can end, and with what left in the
    /// writer.
    spec fn can_write_metadata(before: Self, after: Self, r: Result<(), WriterError>) -> bool;

    /// How a drain at `now` can end, and with what left in the writer.
    spec fn can_drain(before: Self, now: u64, after: Self, r: Result<bool, WriterError>) -> bool;

    /// How the end of the trace can go, and with what left in the writer.
    spec fn can_finalize(before: Self, after: Self, r: Result<(), WriterError>) -> bool;

    /// Writes a batch. A batch that cannot be written leaves no trace.
    fn write_encoded_batch(&mut self, batch: &Batch) -> (r: Result<(), WriterError>)
        ensures
            final(self).accepted() == if r is Ok {
                old(self).accepted().push(batch@)
            } else {
                old(self).accepted()
            },
            Self::can_write(*old(self), batch@, *final(self), r),
    ;

    /// Flushes buffered data to the storage.
    fn flush(&mut self) -> (r: Result<(), WriterError>)
        ensures
            final(self).accepted() == old(self).accepted(),
            Self::can_flush(*old(self), *final(self), r),
    ;

    /// The metadata entries embedded in the trace.
    fn segment_metadata(&self) -> (r: Vec<(String, String)>)
        ensures
            crate::segment_metadata::entries_view(r@) == self.metadata(),
    ;

    /// Merges metadata entries.
    fn update_segment_metadata(&mut self, entries: Vec<(String, String)>)
        ensures
            final(self).accepted() == old(self).accepted(),
            final(self).metadata() == old(self).metadata_after(
                crate::segment_metadata::entries_view(entries@),
            ),
    ;

    /// Writes the metadata entries if they are due.
    fn write_current_segment_metadata(&mut self) -> (r: Result<(), WriterError>)
        ensures
            final(self).accepted() == old(self).accepted(),
            Self::can_write_metadata(*old(self), *final(self), r),
    ;

    /// Whether buffers are to be drained at `now`.
    fn should_drain(&self, now: u64) -> (r: bool)
        ensures
            r == self.drain_due(now),
    ;

    /// Takes note that all buffers were drained. Returns whether the segment
    /// was rotated.
    fn drained(&mut self, now: u64) -> (r: Result<bool, WriterError>)
        ensures
            final(self).accepted() == old(self).accepted(),
            Self::can_drain(*old(self), now, *final(self), r),
    ;

    /// Ends the trace.
    fn finalize(&mut self) -> (r: Result<(), WriterError>)
        ensures
            final(self).accepted() == old(self).accepted(),
            Self::can_finalize(*old(self), *final(self), r),
    ;
}

/// What a [`CapturingWriter`] holds.
#[verifier::ext_equal]
pub struct CaptureModel {
    pub batches: Seq<BatchModel>,
    /// At most this many batches are kept; more are refused.
    pub limit: nat,
    /// A drain is due.
    pub due: bool,
    /// The writer was told of a drain.
    pub drained: bool,
    /// The trace was ended.
    pub ended: bool,
}

/// A writer that keeps batches in memory until they are taken out, up to a
/// limit, and takes note of drains and of the end of the trace.
pub struct CapturingWriter {
    batches: Vec<Batch>,
    limit: usize,
    due: bool,
    drained: bool,
    finalized: bool,
}

impl View for CapturingWriter {
    type V = CaptureModel;

    closed spec fn view(&self) -> CaptureModel {
        CaptureModel {
            batches: crate::shared_state::batches_view(self.batches@),
            limit: self.limit as nat,
            due: self.due,
            drained: self.drained,
            ended: self.finalized,
        }
    }
}

impl CapturingWriter {
    /// A writer without batches and, but for memory, without a limit.
    pub fn new() -> (r: Self)
        ensures
            r@ == (CaptureModel {
                batches: Seq::empty(),
                limit: usize::MAX as nat,
                due: false,
                drained: false,
                ended: false,
            }),
    {
        CapturingWriter::with_limit(usize::MAX)
    }

    /// A writer without batches that keeps at most `limit`.
    pub fn with_limit(limit: usize) -> (r: Self)
        ensures
            r@ == (CaptureModel {
                batches: Seq::empty(),
                limit: limit as nat,
                due: false,
                drained: false,
                ended: false,
            }),
    {
        let r = CapturingWriter {
            batches: Vec::new(),
            limit,
            due: false,
            drained: false,
            finalized: false,
        };
        assert(r@.batches =~= Seq::empty());
        r
    }

    /// The batches kept.
    pub fn batches(&self) -> (r: &Vec<Batch>)
        ensures
            crate::shared_state::batches_view(r@) == self@.batches,
    {
        &self.batches
    }

    /// Takes the batches out.
    pub fn take_batches(&mut self) -> (r: Vec<Batch>)
        ensures
            crate::shared_state::batches_view(r@) == old(self)@.batches,
            final(self)@ == (CaptureModel { batches: Seq::empty(), ..old(self)@ }),
    {
        let mut r: Vec<Batch> = Vec::new();
        std::mem::swap(&mut r, &mut self.batches);
        assert(self@.batches =~= Seq::empty());
        r
    }

    /// Sets whether a drain is due.
    pub fn set_drain_due(&mut self, due: bool)
        ensures
            final(self)@ == (CaptureModel { due, ..old(self)@ }),
    {
        self.due = due;
    }

    /// Whether the writer was told of a drain since this was last asked.
    pub fn take_drain_note(&mut self) -> (r: bool)
        ensures
            r == old(self)@.drained,
            final(self)@ == (CaptureModel { drained: false, ..old(self)@ }),
    {
        let r: bool = self.drained;
        self.drained = false;
        r
    }

    /// Whether the trace was ended.
    pub fn is_finalized(&self) -> (r: bool)
        ensures
            r == self@.ended,
    {
        self.finalized
    }
}

fn copy_bytes(bytes: &Vec<u8>) -> (r: Vec<u8>)
    ensures
        r@ == bytes@,
{
    let r = bytes.clone();
    assert(r@ =~= bytes@);
    r
}

impl TraceWriter for CapturingWriter {
    open spec fn accepted(&self) -> Seq<BatchModel> {
        self@.batches
    }

    open spec fn metadata(&self) -> Entries {
        Seq::empty()
    }

    open spec fn metadata_after(&self, entries: Entries) -> Entries {
        Seq::empty()
    }

    open spec fn drain_due(&self, now: u64) -> bool {
        self@.due
    }

    open spec fn can_write(
        before: Self,
        batch: BatchModel,
        after: Self,
        r: Result<(), WriterError>,
    ) -> bool {
        if before@.batches.len() < before@.limit {
            r is Ok && after@ == (CaptureModel {
                batches: before@.batches.push(batch),
                ..before@
            })
        } else {
            r == Err::<(), WriterError>(WriterError::Storage) && after@ == before@
        }
    }

    open spec fn can_flush(before: Self, after: Self, r: Result<(), WriterError>) -> bool {
        r is Ok && after@ == before@
    }

    open spec fn can_write_metadata(before: Self, after: Self, r: Result<(), WriterError>) -> bool {
        r is Ok && after@ == before@
    }

    open spec fn can_drain(
        before: Self,
        now: u64,
        after: Self,
        r: Result<bool, WriterError>,
    ) -> bool {
        r == Ok::<bool, WriterError>(false) && after@ == (CaptureModel { drained: true, ..before@ })
    }

    open spec fn can_finalize(before: Self, after: Self, r: Result<(), WriterError>) -> bool {
        r is Ok && after@ == (CaptureModel { ended: true, ..before@ })
    }

    fn write_encoded_batch(&mut self, batch: &Batch) -> Result<(), WriterError> {
        if self.batches.len() >= self.limit {
            return Err(WriterError::Storage);
        }
        let ghost before = self@;
        let copy = Batch {
            encoded_bytes: copy_bytes(&batch.encoded_bytes),
            event_count: batch.event_count,
        };
        self.batches.push(copy);
        assert(copy@ == batch@);
        assert(self@.batches =~= before.batches.push(batch@));
        Ok(())
    }

    fn flush(&mut self) -> Result<(), WriterError> {
        Ok(())
    }

    fn segment_metadata(&self) -> Vec<(String, String)> {
        let r: Vec<(String, String)> = Vec::new();
        assert(crate::segment_metadata::entries_view(r@) =~= Seq::empty());
        r
    }

    fn update_segment_metadata(&mut self, entries: Vec<(String, String)>) {
    }

    fn write_current_segment_metadata(&mut self) -> Result<(), WriterError> {
        Ok(())
    }

    fn should_drain(&self, now: u64) -> bool {
        self.due
    }

    fn drained(&mut self, now: u64) -> Result<bool, WriterError> {
        self.drained = true;
        Ok(false)
    }

    fn finalize(&mut self) -> Result<(), WriterError> {
        self.finalized = true;
        Ok(())
    }
}

/// Counts the events that pass through a writer.
pub struct EventWriter<W: TraceWriter> {
    writer: W,
    events_written: u64,
}

impl<W: TraceWriter> EventWriter<W> {
    /// How many events were written.
    pub closed spec fn count(&self) -> nat {
        self.events_written as nat
    }

    /// The writer underneath.
    pub closed spec fn inner(&self) -> W {
        self.writer
    }

    /// The batches written so far.
    pub open spec fn accepted(&self) -> Seq<BatchModel> {
        self.inner().accepted()
    }

    pub fn new(writer: W) -> (r: Self)
        ensures
            r.inner() == writer,
            r.count() == 0,
    {
        EventWriter { writer, events_written: 0 }
    }

    pub fn events_written(&self) -> (r: u64)
        ensures
            r == self.count(),
    {
        self.events_written
    }

    /// The writer underneath.
    pub fn writer(&self) -> (r: &W)
        ensures
            *r == self.inner(),
    {
        &self.writer
    }

    /// The writer underneath, for changes.
    pub fn writer_mut(&mut self) -> (r: &mut W)
        ensures
            *r == old(self).inner(),
            final(self).inner() == *final(r),
            final(self).count() == old(self).count(),
    {
        &mut self.writer
    }

    /// Writes a batch; its events are counted if that succeeds.
    pub fn write_encoded_batch(&mut self, batch: &Batch) -> (r: Result<(), WriterError>)
        requires
            old(self).count() + batch.event_count <= u64::MAX,
        ensures
            r is Ok ==> final(self).accepted() == old(self).accepted().push(batch@)
                && final(self).count() == old(self).count() + batch.event_count,
            r is Err ==> final(self).accepted() == old(self).accepted() && final(self).count()
                == old(self).count(),
            W::can_write(old(self).inner(), batch@, final(self).inner(), r),
    {
        let r = self.writer.write_encoded_batch(batch);
        if r.is_ok() {
            self.events_written = self.events_written + batch.event_count;
        }
        r
    }

    /// Encodes one event into a batch of its own and writes it.
    pub fn write_raw_event<F: FnOnce(&mut TraceEncoder)>(&mut self, encode: F) -> (r: Result<
        (),
        WriterError,
    >)
        requires
            old(self).count() < u64::MAX,
            forall|e: &mut TraceEncoder|
                (*e)@ == EncoderModel::fresh() ==> #[trigger] call_requires(encode, (e,)),
        ensures
            exists|e: &mut TraceEncoder| #[trigger]
                call_ensures(encode, (e,), ()) && (*e)@ == EncoderModel::fresh() && ({
                    let batch = BatchModel { bytes: (*final(e))@.bytes, event_count: 1 };
                    &&& W::can_write(old(self).inner(), batch, final(self).inner(), r)
                    &&& final(self).accepted() == if r is Ok {
                        old(self).accepted().push(batch)
                    } else {
                        old(self).accepted()
                    }
                }),
            final(self).count() == old(self).count() + if r is Ok {
                1int
            } else {
                0
            },
    {
        let encoded_bytes = ThreadLocalBuffer::encode_single(encode);
        let batch = Batch { encoded_bytes, event_count: 1 };
        self.write_encoded_batch(&batch)
    }

    pub fn segment_metadata(&self) -> (r: Vec<(String, String)>)
        ensures
            crate::segment_metadata::entries_view(r@) == self.inner().metadata(),
    {
        self.writer.segment_metadata()
    }

    pub fn update_segment_metadata(&mut self, entries: Vec<(String, String)>)
        ensures
            final(self).accepted() == old(self).accepted(),
            final(self).count() == old(self).count(),
            final(self).inner().metadata() == old(self).inner().metadata_after(
                crate::segment_metadata::entries_view(entries@),
            ),
    {
        self.writer.update_segment_metadata(entries);
    }

    pub fn write_current_segment_metadata(&mut self) -> (r: Result<(), WriterError>)
        ensures
            final(self).accepted() == old(self).accepted(),
            final(self).count() == old(self).count(),
            W::can_write_metadata(old(self).inner(), final(self).inner(), r),
    {
        self.writer.write_current_segment_metadata()
    }

    pub fn flush(&mut self) -> (r: Result<(), WriterError>)
        ensures
            final(self).accepted() == old(self).accepted(),
            final(self).count() == old(self).count(),
            W::can_flush(old(self).inner(), final(self).inner(), r),
    {
        self.writer.flush()
    }

    pub fn should_drain(&self, now: u64) -> (r: bool)
        ensures
            r == self.inner().drain_due(now),
    {
        self.writer.should_drain(now)
    }

    pub fn drained(&mut self, now: u64) -> (r: Result<bool, WriterError>)
        ensures
            final(self).accepted() == old(self).accepted(),
            final(self).count() == old(self).count(),
            W::can_drain(old(self).inner(), now, final(self).inner(), r),
    {
        self.writer.drained(now)
    }

    pub fn finalize(&mut self) -> (r: Result<(), WriterError>)
        ensures
            final(self).accepted() == old(self).accepted(),
            final(self).count() == old(self).count(),
            W::can_finalize(old(self).inner(), final(self).inner(), r),
    {
        self.writer.finalize()
    }
}

/// A capturing writer keeps the batches that it is given in order, up to its
/// limit, and refuses those beyond it, which change nothing.
pub proof fn law_a_capturing_writer_keeps_up_to_its_limit(
    before: CapturingWriter,
    batch: BatchModel,
    after: CapturingWriter,
    r: Result<(), WriterError>,
)
    requires
        CapturingWriter::can_write(before, batch, after, r),
        before@.batches.len() <= before@.limit,
    ensures
        after@.batches.len() <= after@.limit,
        after@.limit == before@.limit,
        r is Ok <==> before@.batches.len() < before@.limit,
        r is Ok ==> after@.batches == before@.batches.push(batch),
        r is Err ==> after@ == before@,
{
}

/// A drain and the end of a trace are noted and change nothing else; flushing
/// and metadata change nothing at all.
pub proof fn law_a_capturing_writer_takes_notes(
    before: CapturingWriter,
    now: u64,
    drained: CapturingWriter,
    rotated: Result<bool, WriterError>,
    ended: CapturingWriter,
    finalized: Result<(), WriterError>,
    flushed: CapturingWriter,
    done: Result<(), WriterError>,
)
    requires
        CapturingWriter::can_drain(before, now, drained, rotated),
        CapturingWriter::can_finalize(before, ended, finalized),
        CapturingWriter::can_flush(before, flushed, done),
    ensures
        rotated matches Ok(r) && !r,
        drained@.drained,
        drained@.ended == before@.ended,
        drained@.batches == before@.batches,
        finalized is Ok,
        ended@.ended,
        ended@.drained == before@.drained,
        ended@.batches == before@.batches,
        done is Ok,
        flushed@ == before@,
{
}

} // verus!
