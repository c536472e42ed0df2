//! The segment writer: when to rotate, what to retain, what to drop.
//!
//! A [`SegmentWriter`] decides; it performs no I/O of its own. An operation
//! that needs the storage takes the storage calls as closures. Times are
//! monotonic nanoseconds.
use crate::buffer::Batch;
use crate::mode_sealed::Sealed;
use crate::segment_metadata::{Entries, SegmentMetadata};
use std::collections::VecDeque;
use std::marker::PhantomData;
use vstd::prelude::*;
use vstd::string::{StrSliceExecFns, StringExecFns};

verus! {

/// Default rotation period: one minute.
pub const DEFAULT_ROTATION_PERIOD_NS: u64 = 60_000_000_000;

/// Default maximum interval between thread-local buffer drains.
pub const DEFAULT_DRAIN_INTERVAL_NS: u64 = 30_000_000_000;

/// A rotation period that turns time-based rotation off.
pub const ROTATION_DISABLED: u64 = 0xffff_ffff_ffff_ffff;

/// Hard cap on the derived per-file size: 100 MiB.
pub const MAX_FILE_SIZE_CAP: u64 = 104_857_600;

/// Segments that live outside the in-memory ring: the active one and the one
/// in flight.
pub const PIPELINE_RESERVE_SEGMENTS: u64 = 2;

/// Backend mode of a [`SegmentWriter`]: [`Disk`] or [`Memory`].
pub trait WriterMode: Sealed {
    /// Whether the writer mode is disk-backed.
    spec fn disk() -> bool;

    /// Whether the writer mode is disk-backed.
    fn is_disk() -> (r: bool)
        ensures
            r == Self::disk(),
    ;
}

/// Disk-backed mode.
#[derive(Debug)]
pub struct Disk;

/// In-memory mode.
#[derive(Debug)]
pub struct Memory;

impl Sealed for Disk {

}

impl Sealed for Memory {

}

impl WriterMode for Disk {
    open spec fn disk() -> bool {
        true
    }

    fn is_disk() -> bool {
        true
    }
}

impl WriterMode for Memory {
    open spec fn disk() -> bool {
        false
    }

    fn is_disk() -> bool {
        false
    }
}

/// Alias for the disk-backed writer.
pub type DiskWriter = SegmentWriter<Disk>;

/// Alias for the in-memory writer.
pub type InMemoryWriter = SegmentWriter<Memory>;

/// The default limit for one file: a quarter of the total budget, but no more
/// than the cap.
pub open spec fn default_file_size(max_total_size: u64) -> u64 {
    if max_total_size / 4 <= MAX_FILE_SIZE_CAP {
        max_total_size / 4
    } else {
        MAX_FILE_SIZE_CAP
    }
}

/// The default size of an in-memory segment: an eighth of the total budget, but
/// at least one byte.
pub open spec fn default_segment_size(max_total_size: u64) -> u64 {
    if max_total_size / 8 >= 1 {
        max_total_size / 8
    } else {
        1
    }
}

/// Default per-file rotation threshold: a quarter of the total budget, so one
/// segment never dominates retention, capped at 100 MiB.
pub fn derive_max_file_size(max_total_size: u64) -> (r: u64)
    ensures
        r == default_file_size(max_total_size),
{
    let quarter: u64 = max_total_size / 4;
    if quarter <= MAX_FILE_SIZE_CAP {
        quarter
    } else {
        MAX_FILE_SIZE_CAP
    }
}

/// Default in-memory segment size: an eighth of the budget, at least one byte.
pub fn pick_segment_size(max_total_size: u64) -> (r: u64)
    ensures
        r == default_segment_size(max_total_size),
{
    let eighth: u64 = max_total_size / 8;
    if eighth >= 1 {
        eighth
    } else {
        1
    }
}

/// Why a writer could not be created or an operation failed.
#[derive(Debug, Clone, Copy, PartialEq, Eq, Structural)]
pub enum WriterError {
    /// `max_total_size must be > 0`.
    ZeroTotalSize,
    /// `max_segment_size must be > 0`.
    ZeroSegmentSize,
    /// `Rotation period must not be zero`.
    ZeroRotationPeriod,
    /// The total size does not hold the active, the in-flight and one sealed
    /// segment; `min_total` would.
    TotalSizeTooSmall { min_total: u64 },
    /// `trace segment index overflow`.
    IndexOverflow,
    /// The storage reported an error.
    Storage,
}

/// The segment that is being written.
#[derive(Debug, Clone, Copy, PartialEq, Eq, Structural)]
pub struct ActiveSegment {
    /// Bytes written to the segment so far.
    pub bytes_written: u64,
    /// Whether the metadata entries are still to be written.
    pub need_metadata: bool,
}

/// Whether the writer accepts events.
#[derive(Debug, Clone, Copy, PartialEq, Eq, Structural)]
pub enum WriterState {
    /// Open: events can be written.
    Active(ActiveSegment),
    /// Finalized or stopped: no writes.
    Finished,
}

/// A closed segment: its index and its size in bytes.
pub type ClosedSegment = (u32, u64);

/// Asks the storage to seal the segment that was being written.
#[derive(Debug, Clone, Copy, PartialEq, Eq, Structural)]
pub struct SealRequest {
    pub index: u32,
    pub size: u64,
}

/// What came of sealing a segment.
#[derive(Debug, Clone, Copy, PartialEq, Eq, Structural)]
pub enum SealOutcome {
    /// The segment is sealed.
    Sealed,
    /// The active file had disappeared.
    Missing,
    /// The storage failed.
    Failed,
}

/// What came of opening a new active segment.
#[derive(Debug, Clone, Copy, PartialEq, Eq, Structural)]
pub enum OpenOutcome {
    /// The segment is open and its header is written.
    Opened { bytes_written: u64 },
    /// The segment could not be created.
    CreateFailed,
    /// The segment was created but its header could not be written.
    PrepareFailed,
}

/// What came of removing an active segment.
#[derive(Debug, Clone, Copy, PartialEq, Eq, Structural)]
pub enum RemoveOutcome {
    Removed,
    Missing,
    Failed,
}

/// The outcome of appending bytes to the active segment.
#[derive(Debug, Clone, Copy, PartialEq, Eq, Structural)]
pub struct Appended {
    /// All bytes were written.
    pub ok: bool,
    /// The size of the segment afterwards.
    pub bytes_written: u64,
}

/// How the active segment ends.
enum FinalizeStep {
    /// The writer was finished already.
    AlreadyClosed,
    /// Seal the active segment.
    Seal(SealRequest),
    /// Remove the active segment: it holds no real events.
    RemoveActive { index: u32 },
}

/// What a [`SegmentWriter`] holds.
#[verifier::ext_equal]
pub struct WriterModel {
    pub disk: bool,
    pub max_file_size: u64,
    pub max_total_size: u64,
    pub rotation_period: u64,
    pub next_rotation_time: Option<u64>,
    pub closed: Seq<ClosedSegment>,
    pub state: WriterState,
    pub next_index: u32,
    pub metadata: Entries,
    pub dropped_events: usize,
    pub has_real_events: bool,
    pub drain_interval: u64,
    pub next_drain_time: u64,
    pub writer_done: bool,
}

/// The sum of the segment sizes.
pub open spec fn size_sum(segments: Seq<ClosedSegment>) -> nat
    decreases segments.len(),
{
    if segments.len() == 0 {
        0
    } else {
        size_sum(segments.drop_last()) + segments.last().1 as nat
    }
}

/// The number of oldest segments to give up so that the rest and the `active`
/// bytes fit the budget; all of them if nothing less helps.
pub open spec fn evict_count(closed: Seq<ClosedSegment>, active: nat, budget: nat) -> nat
    decreases closed.len(),
{
    if closed.len() == 0 || size_sum(closed) + active <= budget {
        0
    } else {
        1 + evict_count(closed.skip(1), active, budget)
    }
}

/// The next rotation deadline, if time-based rotation is on.
pub open spec fn rotation_deadline(now: u64, period: u64) -> Option<u64> {
    if period == ROTATION_DISABLED {
        None
    } else {
        Some((now + period) as u64)
    }
}

/// The deadlines computed at `now` are representable.
pub open spec fn deadlines_fit(now: u64, period: u64, drain_interval: u64) -> bool {
    &&& now + drain_interval <= u64::MAX
    &&& period != ROTATION_DISABLED ==> now + period <= u64::MAX
}

impl WriterModel {
    /// Bytes of the active segment.
    pub open spec fn active_size(self) -> nat {
        match self.state {
            WriterState::Active(a) => a.bytes_written as nat,
            WriterState::Finished => 0,
        }
    }

    /// Bytes that count towards the retention budget.
    pub open spec fn total_size(self) -> nat {
        if self.disk {
            size_sum(self.closed) + self.active_size()
        } else {
            0
        }
    }

    /// Segments are numbered in the order they were opened, closed segments
    /// are listed oldest first, and only a disk-backed writer lists any.
    pub open spec fn wf(self) -> bool {
        &&& self.next_index >= 1
        &&& self.rotation_period > 0
        &&& self.drain_interval > 0
        &&& !self.disk ==> self.closed.len() == 0
        &&& forall|i: int, j: int|
            0 <= i < j < self.closed.len() ==> (#[trigger] self.closed[i]).0 < (
            #[trigger] self.closed[j]).0
        &&& forall|i: int|
            0 <= i < self.closed.len() ==> (#[trigger] self.closed[i]).0 < self.next_index
        &&& self.state is Active ==> forall|i: int|
            0 <= i < self.closed.len() ==> (#[trigger] self.closed[i]).0 < self.next_index - 1
    }

    /// Deadlines computed at `now` are representable.
    pub open spec fn timers_fit(self, now: u64) -> bool {
        deadlines_fit(now, self.rotation_period, self.drain_interval)
    }

    /// Gives up the oldest closed segments while over budget, and stops
    /// writing if the active segment alone is over budget.
    pub open spec fn evicted(self) -> WriterModel {
        if !self.disk {
            self
        } else {
            let k = evict_count(self.closed, self.active_size(), self.max_total_size as nat);
            let kept = self.closed.skip(k as int);
            WriterModel {
                closed: kept,
                state: if size_sum(kept) + self.active_size() > self.max_total_size {
                    WriterState::Finished
                } else {
                    self.state
                },
                ..self
            }
        }
    }

    /// The segments given up by [`WriterModel::evicted`].
    pub open spec fn given_up(self) -> Seq<ClosedSegment> {
        if !self.disk {
            Seq::empty()
        } else {
            self.closed.take(
                evict_count(self.closed, self.active_size(), self.max_total_size as nat) as int,
            )
        }
    }

    /// The writer while its active segment is being replaced: both timers are
    /// advanced and nothing can be written.
    pub open spec fn rotating(self, now: u64) -> WriterModel {
        WriterModel {
            next_rotation_time: rotation_deadline(now, self.rotation_period),
            next_drain_time: (now + self.drain_interval) as u64,
            state: WriterState::Finished,
            ..self
        }
    }

    /// The closed segments after sealing one.
    pub open spec fn with_sealed(self, request: SealRequest, outcome: SealOutcome) -> WriterModel {
        if self.disk && outcome is Sealed {
            WriterModel { closed: self.closed.push((request.index, request.size)), ..self }
        } else {
            self
        }
    }

    /// The writer with a fresh segment of the given size.
    pub open spec fn with_fresh_segment(self, bytes_written: u64) -> WriterModel {
        WriterModel {
            state: WriterState::Active(ActiveSegment { bytes_written, need_metadata: true }),
            has_real_events: false,
            ..self
        }
    }

    /// The writer when a drain of the thread-local buffers is due.
    pub open spec fn drain_due(self, now: u64) -> bool {
        self.has_real_events && now >= self.next_drain_time
    }

    /// The writer when the rotation deadline has passed.
    pub open spec fn rotation_due(self, now: u64) -> bool {
        self.next_rotation_time matches Some(deadline) && now >= deadline
    }

    /// The metadata entries are to be written to the open segment.
    pub open spec fn needs_metadata(self) -> bool {
        self.state matches WriterState::Active(a) && a.need_metadata
    }

    /// The writer after appending the metadata entries, which stay due if that
    /// failed.
    pub open spec fn described(self, outcome: Appended) -> WriterModel {
        WriterModel {
            state: WriterState::Active(
                ActiveSegment {
                    bytes_written: outcome.bytes_written,
                    need_metadata: !outcome.ok,
                },
            ),
            ..self
        }
    }

    /// The writer after appending a batch to its open segment.
    pub open spec fn grown(self, outcome: Appended) -> WriterModel {
        WriterModel {
            state: WriterState::Active(
                ActiveSegment {
                    bytes_written: outcome.bytes_written,
                    need_metadata: self.state->Active_0.need_metadata,
                },
            ),
            has_real_events: self.has_real_events || outcome.ok,
            ..self
        }
    }

    /// The active segment outgrew the per-file limit.
    pub open spec fn oversized(self) -> bool {
        self.state matches WriterState::Active(a) && a.bytes_written > self.max_file_size
    }

    /// The request to seal the active segment.
    pub open spec fn seal_request(self) -> SealRequest {
        SealRequest { index: (self.next_index - 1) as u32, size: self.active_size() as u64 }
    }
}

/// Decides when to rotate trace segments and which to retain.
///
/// Rotation is due when the active segment exceeds `max_file_size`, or when
/// `rotation_period` has passed since the writer or the previous rotation
/// started. `max_total_size` is the retention budget across segments: the
/// oldest closed segments are dropped once the total exceeds it.
pub struct SegmentWriter<M: WriterMode> {
    max_file_size: u64,
    max_total_size: u64,
    rotation_period: u64,
    next_rotation_time: Option<u64>,
    closed_files: VecDeque<ClosedSegment>,
    state: WriterState,
    next_index: u32,
    segment_metadata: SegmentMetadata,
    dropped_events: usize,
    has_real_events: bool,
    drain_interval: u64,
    next_drain_time: u64,
    writer_done: bool,
    mode: PhantomData<M>,
}

impl<M: WriterMode> View for SegmentWriter<M> {
    type V = WriterModel;

    closed spec fn view(&self) -> WriterModel {
        WriterModel {
            disk: M::disk(),
            max_file_size: self.max_file_size,
            max_total_size: self.max_total_size,
            rotation_period: self.rotation_period,
            next_rotation_time: self.next_rotation_time,
            closed: self.closed_files@,
            state: self.state,
            next_index: self.next_index,
            metadata: self.segment_metadata@,
            dropped_events: self.dropped_events,
            has_real_events: self.has_real_events,
            drain_interval: self.drain_interval,
            next_drain_time: self.next_drain_time,
            writer_done: self.writer_done,
        }
    }
}

fn smaller(a: u64, b: u64) -> (r: u64)
    ensures
        r == if a <= b {
            a
        } else {
            b
        },
{
    if a <= b {
        a
    } else {
        b
    }
}

/// Drains happen at least as often as rotations.
pub open spec fn drain_interval_for(period: u64) -> u64 {
    if period <= DEFAULT_DRAIN_INTERVAL_NS {
        period
    } else {
        DEFAULT_DRAIN_INTERVAL_NS
    }
}

fn next_rotation_from(now: u64, period: u64) -> (r: Option<u64>)
    requires
        period != ROTATION_DISABLED ==> now + period <= u64::MAX,
    ensures
        r == rotation_deadline(now, period),
{
    if period == ROTATION_DISABLED {
        None
    } else {
        Some(now + period)
    }
}

/// The writer right after its first segment was opened.
pub open spec fn fresh_writer(
    disk: bool,
    max_file_size: u64,
    max_total_size: u64,
    rotation_period: u64,
    metadata: Entries,
    closed: Seq<ClosedSegment>,
    first_index: u32,
    header_bytes: u64,
    now: u64,
) -> WriterModel {
    WriterModel {
        disk,
        max_file_size,
        max_total_size,
        rotation_period,
        next_rotation_time: rotation_deadline(now, rotation_period),
        closed,
        state: WriterState::Active(
            ActiveSegment { bytes_written: header_bytes, need_metadata: true },
        ),
        next_index: (first_index + 1) as u32,
        metadata,
        dropped_events: 0,
        has_real_events: false,
        drain_interval: drain_interval_for(rotation_period),
        next_drain_time: (now + drain_interval_for(rotation_period)) as u64,
        writer_done: false,
    }
}

impl SegmentWriter<Disk> {
    /// Checks the configuration of a disk-backed writer whose first segment
    /// gets the index `first_index`.
    pub fn check(rotation_period: u64, first_index: u32) -> (r: Result<(), WriterError>)
        ensures
            rotation_period == 0 <==> r == Err::<(), WriterError>(WriterError::ZeroRotationPeriod),
            rotation_period != 0 && first_index == u32::MAX <==> r == Err::<(), WriterError>(
                WriterError::IndexOverflow,
            ),
            r is Ok <==> rotation_period != 0 && first_index != u32::MAX,
    {
        if rotation_period == 0 {
            return Err(WriterError::ZeroRotationPeriod);
        }
        match first_index.checked_add(1) {
            Some(_) => Ok(()),
            None => Err(WriterError::IndexOverflow),
        }
    }

    /// Creates a writer for a first segment of index `first_index` that is
    /// open with `header_bytes` written. `closed` lists the segments left by
    /// earlier writers, oldest first; the budget is enforced on them at once.
    /// Returns the writer and the segments to remove.
    pub fn create(
        max_file_size: u64,
        max_total_size: u64,
        rotation_period: u64,
        segment_metadata: SegmentMetadata,
        closed: VecDeque<ClosedSegment>,
        first_index: u32,
        header_bytes: u64,
        now: u64,
    ) -> (r: Result<(Self, Vec<ClosedSegment>), WriterError>)
        requires
            deadlines_fit(now, rotation_period, drain_interval_for(rotation_period)),
            forall|i: int, j: int|
                0 <= i < j < closed@.len() ==> (#[trigger] closed@[i]).0 < (
                #[trigger] closed@[j]).0,
            forall|i: int| 0 <= i < closed@.len() ==> (#[trigger] closed@[i]).0 < first_index,
        ensures
            rotation_period == 0 <==> r matches Err(WriterError::ZeroRotationPeriod),
            rotation_period != 0 && first_index == u32::MAX <==> r matches Err(
                WriterError::IndexOverflow,
            ),
            r is Ok <==> rotation_period != 0 && first_index != u32::MAX,
            r matches Ok((writer, evicted)) ==> {
                let fresh = fresh_writer(
                    true,
                    max_file_size,
                    max_total_size,
                    rotation_period,
                    segment_metadata@,
                    closed@,
                    first_index,
                    header_bytes,
                    now,
                );
                &&& writer@ == fresh.evicted()
                &&& evicted@ == fresh.given_up()
                &&& writer@.wf()
            },
    {
        match SegmentWriter::<Disk>::check(rotation_period, first_index) {
            Ok(()) => {},
            Err(e) => return Err(e),
        }
        let drain_interval: u64 = smaller(rotation_period, DEFAULT_DRAIN_INTERVAL_NS);
        let mut writer = SegmentWriter::<Disk> {
            max_file_size,
            max_total_size,
            rotation_period,
            next_rotation_time: next_rotation_from(now, rotation_period),
            closed_files: closed,
            state: WriterState::Active(
                ActiveSegment { bytes_written: header_bytes, need_metadata: true },
            ),
            next_index: first_index + 1,
            segment_metadata,
            dropped_events: 0,
            has_real_events: false,
            drain_interval,
            next_drain_time: now + drain_interval,
            writer_done: false,
            mode: PhantomData,
        };
        let evicted = writer.evict_oldest();
        Ok((writer, evicted))
    }

    /// Creates a writer with the default rotation period and metadata.
    pub fn new(
        max_file_size: u64,
        max_total_size: u64,
        closed: VecDeque<ClosedSegment>,
        first_index: u32,
        header_bytes: u64,
        now: u64,
    ) -> (r: Result<(Self, Vec<ClosedSegment>), WriterError>)
        requires
            now + DEFAULT_ROTATION_PERIOD_NS <= u64::MAX,
            forall|i: int, j: int|
                0 <= i < j < closed@.len() ==> (#[trigger] closed@[i]).0 < (
                #[trigger] closed@[j]).0,
            forall|i: int| 0 <= i < closed@.len() ==> (#[trigger] closed@[i]).0 < first_index,
        ensures
            r is Ok <==> first_index != u32::MAX,
            r is Err ==> r->Err_0 == WriterError::IndexOverflow,
            r matches Ok((writer, evicted)) ==> {
                let fresh = fresh_writer(
                    true,
                    max_file_size,
                    max_total_size,
                    DEFAULT_ROTATION_PERIOD_NS,
                    crate::segment_metadata::default_entries(),
                    closed@,
                    first_index,
                    header_bytes,
                    now,
                );
                &&& writer@ == fresh.evicted()
                &&& evicted@ == fresh.given_up()
                &&& writer@.wf()
            },
    {
        SegmentWriter::<Disk>::create(
            max_file_size,
            max_total_size,
            DEFAULT_ROTATION_PERIOD_NS,
            SegmentMetadata::default(),
            closed,
            first_index,
            header_bytes,
            now,
        )
    }

    /// Creates a writer with one segment, no rotation and no eviction.
    pub fn single_file(header_bytes: u64, now: u64) -> (r: Self)
        requires
            now + DEFAULT_DRAIN_INTERVAL_NS <= u64::MAX,
        ensures
            r@ == fresh_writer(
                true,
                u64::MAX,
                u64::MAX,
                ROTATION_DISABLED,
                crate::segment_metadata::default_entries(),
                Seq::empty(),
                0,
                header_bytes,
                now,
            ),
            r@.wf(),
    {
        SegmentWriter {
            max_file_size: u64::MAX,
            max_total_size: u64::MAX,
            rotation_period: ROTATION_DISABLED,
            next_rotation_time: None,
            closed_files: VecDeque::new(),
            state: WriterState::Active(
                ActiveSegment { bytes_written: header_bytes, need_metadata: true },
            ),
            next_index: 1,
            segment_metadata: SegmentMetadata::default(),
            dropped_events: 0,
            has_real_events: false,
            drain_interval: DEFAULT_DRAIN_INTERVAL_NS,
            next_drain_time: now + DEFAULT_DRAIN_INTERVAL_NS,
            writer_done: false,
            mode: PhantomData,
        }
    }
}

/// The smallest total size for in-memory segments of the given size: one
/// active, one in flight and one sealed.
pub open spec fn min_total_for(max_segment_size: u64) -> u64 {
    if 3 * max_segment_size <= u64::MAX {
        (3 * max_segment_size) as u64
    } else {
        u64::MAX
    }
}

/// Why an in-memory configuration is refused, if it is.
pub open spec fn memory_config_error(
    max_total_size: u64,
    max_segment_size: u64,
    rotation_period: u64,
) -> Option<WriterError> {
    if max_total_size == 0 {
        Some(WriterError::ZeroTotalSize)
    } else if max_segment_size == 0 {
        Some(WriterError::ZeroSegmentSize)
    } else if rotation_period == 0 {
        Some(WriterError::ZeroRotationPeriod)
    } else if max_total_size < min_total_for(max_segment_size) {
        Some(WriterError::TotalSizeTooSmall { min_total: min_total_for(max_segment_size) })
    } else {
        None
    }
}

impl SegmentWriter<Memory> {
    /// Checks an in-memory configuration.
    pub fn check(max_total_size: u64, max_segment_size: u64, rotation_period: u64) -> (r: Result<
        (),
        WriterError,
    >)
        ensures
            r == (match memory_config_error(max_total_size, max_segment_size, rotation_period) {
                Some(e) => Err::<(), WriterError>(e),
                None => Ok(()),
            }),
    {
        if max_total_size == 0 {
            return Err(WriterError::ZeroTotalSize);
        }
        if max_segment_size == 0 {
            return Err(WriterError::ZeroSegmentSize);
        }
        if rotation_period == 0 {
            return Err(WriterError::ZeroRotationPeriod);
        }
        let min_total: u64 = match max_segment_size.checked_mul(PIPELINE_RESERVE_SEGMENTS + 1) {
            Some(n) => n,
            None => u64::MAX,
        };
        if max_total_size < min_total {
            return Err(WriterError::TotalSizeTooSmall { min_total });
        }
        Ok(())
    }

    /// Creates an in-memory writer whose first segment is open with
    /// `header_bytes` written.
    pub fn create_in_memory(
        max_total_size: u64,
        max_segment_size: u64,
        rotation_period: u64,
        segment_metadata: SegmentMetadata,
        header_bytes: u64,
        now: u64,
    ) -> (r: Result<Self, WriterError>)
        requires
            deadlines_fit(now, rotation_period, drain_interval_for(rotation_period)),
        ensures
            match memory_config_error(max_total_size, max_segment_size, rotation_period) {
                Some(e) => r matches Err(got) && got == e,
                None => r matches Ok(writer) && writer@ == fresh_writer(
                    false,
                    max_segment_size,
                    max_total_size,
                    rotation_period,
                    segment_metadata@,
                    Seq::empty(),
                    0,
                    header_bytes,
                    now,
                ) && writer@.wf(),
            },
    {
        match SegmentWriter::<Memory>::check(max_total_size, max_segment_size, rotation_period) {
            Ok(()) => {},
            Err(e) => return Err(e),
        }
        let drain_interval: u64 = smaller(rotation_period, DEFAULT_DRAIN_INTERVAL_NS);
        Ok(
            SegmentWriter {
                max_file_size: max_segment_size,
                max_total_size,
                rotation_period,
                next_rotation_time: next_rotation_from(now, rotation_period),
                closed_files: VecDeque::new(),
                state: WriterState::Active(
                    ActiveSegment { bytes_written: header_bytes, need_metadata: true },
                ),
                next_index: 1,
                segment_metadata,
                dropped_events: 0,
                has_real_events: false,
                drain_interval,
                next_drain_time: now + drain_interval,
                writer_done: false,
                mode: PhantomData,
            },
        )
    }

    /// Creates an in-memory writer with the default segment size, rotation
    /// period and metadata.
    pub fn new(max_total_size: u64, header_bytes: u64, now: u64) -> (r: Result<Self, WriterError>)
        requires
            now + DEFAULT_ROTATION_PERIOD_NS <= u64::MAX,
        ensures
            ({
                let segment_size = default_segment_size(max_total_size);
                match memory_config_error(
                    max_total_size,
                    segment_size,
                    DEFAULT_ROTATION_PERIOD_NS,
                ) {
                    Some(e) => r matches Err(got) && got == e,
                    None => r matches Ok(writer) && writer@ == fresh_writer(
                        false,
                        segment_size,
                        max_total_size,
                        DEFAULT_ROTATION_PERIOD_NS,
                        crate::segment_metadata::default_entries(),
                        Seq::empty(),
                        0,
                        header_bytes,
                        now,
                    ) && writer@.wf(),
                }
            }),
    {
        SegmentWriter::<Memory>::create_in_memory(
            max_total_size,
            pick_segment_size(max_total_size),
            DEFAULT_ROTATION_PERIOD_NS,
            SegmentMetadata::default(),
            header_bytes,
            now,
        )
    }
}

pub(crate) proof fn lemma_evict_count(closed: Seq<ClosedSegment>, active: nat, budget: nat)
    ensures
        evict_count(closed, active, budget) <= closed.len(),
        size_sum(closed.skip(evict_count(closed, active, budget) as int)) + active <= budget
            || evict_count(closed, active, budget) == closed.len(),
        evict_count(closed, active, budget) > 0 ==> size_sum(
            closed.skip(evict_count(closed, active, budget) - 1),
        ) + active > budget,
    decreases closed.len(),
{
    let k = evict_count(closed, active, budget);
    if closed.len() == 0 || size_sum(closed) + active <= budget {
        assert(closed.skip(0) =~= closed);
    } else {
        let rest = closed.skip(1);
        lemma_evict_count(rest, active, budget);
        let m = evict_count(rest, active, budget);
        assert(k == m + 1);
        assert(closed.skip(k as int) =~= rest.skip(m as int));
        if m > 0 {
            assert(closed.skip(k - 1) =~= rest.skip(m - 1));
        } else {
            assert(closed.skip(0) =~= closed);
        }
    }
}

impl<M: WriterMode> SegmentWriter<M> {
    /// Total size across all closed and active segments; always zero in
    /// memory mode, where the backend evicts.
    pub fn total_size(&self) -> (r: u128)
        ensures
            r == self@.total_size(),
    {
        if !M::is_disk() {
            return 0;
        }
        let mut closed: u128 = 0;
        let mut i: usize = 0;
        let ghost all = self.closed_files@;
        while i < self.closed_files.len()
            invariant
                i <= self.closed_files.len(),
                all == self.closed_files@,
                closed == size_sum(all.take(i as int)),
                closed <= i * u64::MAX,
            decreases self.closed_files.len() - i,
        {
            assert(all.take(i as int + 1).drop_last() =~= all.take(i as int));
            assert(all.take(i as int + 1).last() == all[i as int]);
            assert(i * u64::MAX + u64::MAX == (i + 1) * u64::MAX) by (nonlinear_arith);
            assert((i + 1) * u64::MAX <= u64::MAX * u64::MAX) by (nonlinear_arith)
                requires
                    i + 1 <= u64::MAX,
            ;
            closed = closed + self.closed_files[i].1 as u128;
            i = i + 1;
        }
        assert(all.take(i as int) =~= all);
        assert(i * u64::MAX <= u64::MAX * u64::MAX) by (nonlinear_arith)
            requires
                i <= u64::MAX,
        ;
        let active: u128 = match &self.state {
            WriterState::Active(a) => a.bytes_written as u128,
            WriterState::Finished => 0,
        };
        closed + active
    }

    /// Drops the oldest closed segments while the total exceeds the budget,
    /// and stops writing if the active segment alone exceeds it. Returns the
    /// segments to remove, oldest first.
    pub fn evict_oldest(&mut self) -> (removed: Vec<ClosedSegment>)
        ensures
            final(self)@ == old(self)@.evicted(),
            removed@ == old(self)@.given_up(),
            old(self)@.wf() ==> final(self)@.wf(),
    {
        let mut removed: Vec<ClosedSegment> = Vec::new();
        if !M::is_disk() {
            return removed;
        }
        let ghost start = self@;
        let ghost k = evict_count(start.closed, start.active_size(), start.max_total_size as nat);
        proof {
            lemma_evict_count(start.closed, start.active_size(), start.max_total_size as nat);
            assert(start.closed.skip(0) =~= start.closed);
            assert(start.closed.take(0) =~= Seq::empty());
        }
        while self.total_size() > self.max_total_size as u128 && self.closed_files.len() > 0
            invariant
                M::disk(),
                start.disk,
                removed@.len() <= k <= start.closed.len(),
                removed@ == start.closed.take(removed@.len() as int),
                self@ == (WriterModel {
                    closed: start.closed.skip(removed@.len() as int),
                    ..start
                }),
                k == removed@.len() + evict_count(
                    self@.closed,
                    start.active_size(),
                    start.max_total_size as nat,
                ),
            decreases self@.closed.len(),
        {
            let ghost n = removed@.len() as int;
            assert(start.closed.skip(n).skip(1) =~= start.closed.skip(n + 1));
            if let Some(segment) = self.closed_files.pop_front() {
                removed.push(segment);
                assert(start.closed.take(n + 1) =~= start.closed.take(n).push(start.closed[n]));
            }
            assert(self@ =~= (WriterModel {
                closed: start.closed.skip(removed@.len() as int),
                ..start
            }));
        }
        assert(removed@.len() == k);
        if self.total_size() > self.max_total_size as u128 {
            self.state = WriterState::Finished;
        }
        assert(self@ =~= start.evicted());
        removed
    }

    /// Starts replacing the active segment. Both timers are advanced first, so
    /// a rotation that fails, or that a finished writer cannot carry out, is not
    /// attempted again right away. Returns the segment to seal, or nothing if
    /// the writer is finished.
    fn begin_rotation(&mut self, now: u64) -> (request: Option<SealRequest>)
        requires
            old(self)@.wf(),
            old(self)@.timers_fit(now),
        ensures
            request == (if old(self)@.state is Active {
                Some(old(self)@.seal_request())
            } else {
                None
            }),
            final(self)@ == old(self)@.rotating(now),
            final(self)@.wf(),
    {
        let ghost before = self@;
        self.next_rotation_time = next_rotation_from(now, self.rotation_period);
        self.next_drain_time = now + self.drain_interval;
        let request = match self.state {
            WriterState::Finished => None,
            WriterState::Active(a) => Some(
                SealRequest { index: self.next_index - 1, size: a.bytes_written },
            ),
        };
        self.state = WriterState::Finished;
        assert(self@ =~= before.rotating(now));
        request
    }

    /// Takes the outcome of sealing during a rotation. Returns the index of
    /// the segment to open next; a segment that had disappeared is abandoned.
    /// On a storage failure the writer stays finished.
    fn rotation_sealed(&mut self, request: SealRequest, outcome: SealOutcome) -> (r: Result<
        u32,
        WriterError,
    >)
        requires
            old(self)@.wf(),
            old(self)@.state is Finished,
            old(self)@.next_index < u32::MAX,
            request.index == old(self)@.next_index - 1,
            forall|i: int|
                0 <= i < old(self)@.closed.len() ==> (#[trigger] old(self)@.closed[i]).0
                    < request.index,
        ensures
            outcome is Failed <==> r is Err,
            outcome is Failed ==> r == Err::<u32, WriterError>(WriterError::Storage) && final(self)@ == old(self)@,
            outcome !is Failed ==> {
                &&& r == Ok::<u32, WriterError>(old(self)@.next_index)
                &&& final(self)@ == (WriterModel {
                    next_index: (old(self)@.next_index + 1) as u32,
                    ..old(self)@.with_sealed(request, outcome)
                })
            },
            final(self)@.wf(),
    {
        let ghost before = self@;
        match outcome {
            SealOutcome::Failed => {
                return Err(WriterError::Storage);
            },
            SealOutcome::Sealed => {
                if M::is_disk() {
                    self.closed_files.push_back((request.index, request.size));
                }
            },
            SealOutcome::Missing => {},
        }
        let index: u32 = self.next_index;
        self.next_index = self.next_index + 1;
        assert(self@ =~= (WriterModel {
            next_index: (before.next_index + 1) as u32,
            ..before.with_sealed(request, outcome)
        }));
        Ok(index)
    }

    /// Takes the outcome of opening the next segment during a rotation.
    /// Returns the closed segments to remove. If the segment could not be
    /// opened the writer stays finished; a segment whose header could not be
    /// written is to be removed by the caller.
    fn rotation_opened(&mut self, outcome: OpenOutcome) -> (r: Result<
        Vec<ClosedSegment>,
        WriterError,
    >)
        requires
            old(self)@.wf(),
            old(self)@.state is Finished,
            forall|i: int|
                0 <= i < old(self)@.closed.len() ==> (#[trigger] old(self)@.closed[i]).0
                    < old(self)@.next_index - 1,
        ensures
            outcome is Opened <==> r is Ok,
            r is Err ==> r->Err_0 == WriterError::Storage && final(self)@ == old(self)@,
            outcome matches OpenOutcome::Opened { bytes_written } ==> {
                let fresh = old(self)@.with_fresh_segment(bytes_written);
                &&& final(self)@ == fresh.evicted()
                &&& r->Ok_0@ == fresh.given_up()
            },
            final(self)@.wf(),
    {
        let ghost before = self@;
        match outcome {
            OpenOutcome::Opened { bytes_written } => {
                self.state = WriterState::Active(
                    ActiveSegment { bytes_written, need_metadata: true },
                );
                self.has_real_events = false;
                assert(self@ =~= before.with_fresh_segment(bytes_written));
                Ok(self.evict_oldest())
            },
            OpenOutcome::CreateFailed => Err(WriterError::Storage),
            OpenOutcome::PrepareFailed => Err(WriterError::Storage),
        }
    }

    /// Flushes the buffered data of the open segment with `flush`. A finished
    /// writer has nothing to flush, which is no error.
    pub fn flush<F: FnOnce() -> Result<(), WriterError>>(&self, flush: F) -> (r: Result<
        (),
        WriterError,
    >)
        requires
            self@.state is Active ==> call_requires(flush, ()),
        ensures
            self@.state is Active ==> call_ensures(flush, (), r),
            self@.state is Finished ==> r is Ok,
    {
        match self.state {
            WriterState::Active(_) => flush(),
            WriterState::Finished => Ok(()),
        }
    }

    /// Whether the active segment exceeds the per-file limit and is to be
    /// rotated.
    pub fn maybe_rotate(&self) -> (r: bool)
        ensures
            r == self@.oversized(),
    {
        match self.state {
            WriterState::Active(a) => a.bytes_written > self.max_file_size,
            WriterState::Finished => false,
        }
    }

    /// The metadata entries written to each segment.
    pub fn segment_metadata(&self) -> (r: &Vec<(String, String)>)
        ensures
            crate::segment_metadata::entries_view(r@) == self@.metadata,
    {
        self.segment_metadata.entries()
    }

    /// Merges metadata entries. If they changed, they are written again to
    /// the open segment before its next batch.
    pub fn update_segment_metadata(&mut self, entries: Vec<(String, String)>)
        ensures
            ({
                let next = crate::segment_metadata::merged(
                    old(self)@.metadata,
                    crate::segment_metadata::entries_view(entries@),
                );
                final(self)@ == (WriterModel {
                    metadata: next,
                    state: match old(self)@.state {
                        WriterState::Active(a) if next != old(self)@.metadata =>
                            WriterState::Active(
                            ActiveSegment { bytes_written: a.bytes_written, need_metadata: true },
                        ),
                        _ => old(self)@.state,
                    },
                    ..old(self)@
                })
            }),
            old(self)@.wf() ==> final(self)@.wf(),
    {
        if self.segment_metadata.merge(entries) {
            match self.state {
                WriterState::Active(a) => {
                    self.state = WriterState::Active(
                        ActiveSegment { bytes_written: a.bytes_written, need_metadata: true },
                    );
                },
                WriterState::Finished => {},
            }
        }
    }

    /// Writes the metadata entries to the open segment with `append`, if they
    /// are due. They stay due if they cannot be written.
    pub fn write_current_segment_metadata<A: FnOnce(&Vec<(String, String)>) -> Appended>(
        &mut self,
        append: A,
    ) -> (r: Result<(), WriterError>)
        requires
            may_describe(old(self)@, append),
        ensures
            describes(old(self)@, append, final(self)@, r is Ok),
            r is Err ==> r->Err_0 == WriterError::Storage,
            old(self)@.wf() ==> final(self)@.wf(),
    {
        let ghost before = self@;
        let due: bool = match self.state {
            WriterState::Active(a) => a.need_metadata,
            WriterState::Finished => false,
        };
        if !due {
            return Ok(());
        }
        let entries = self.segment_metadata.entries();
        let outcome = append(entries);
        assert(call_ensures(append, (entries,), outcome));
        self.state = WriterState::Active(
            ActiveSegment { bytes_written: outcome.bytes_written, need_metadata: !outcome.ok },
        );
        assert(self@ =~= before.described(outcome));
        if outcome.ok {
            Ok(())
        } else {
            Err(WriterError::Storage)
        }
    }

    /// Takes the outcome of appending a batch. Returns whether the segment is
    /// to be rotated.
    fn batch_written(&mut self, outcome: Appended) -> (rotate: bool)
        requires
            old(self)@.state is Active,
        ensures
            final(self)@ == old(self)@.grown(outcome),
            rotate == (outcome.ok && final(self)@.oversized()),
            old(self)@.wf() ==> final(self)@.wf(),
    {
        let ghost before = self@;
        match self.state {
            WriterState::Active(a) => {
                self.state = WriterState::Active(
                    ActiveSegment {
                        bytes_written: outcome.bytes_written,
                        need_metadata: a.need_metadata,
                    },
                );
            },
            WriterState::Finished => {},
        }
        if outcome.ok {
            self.has_real_events = true;
        }
        assert(self@ =~= before.grown(outcome));
        outcome.ok && self.maybe_rotate()
    }

    /// Writes a batch: first the metadata entries with `describe` if they are
    /// due, then the bytes of the batch with `append` if it holds events. A
    /// segment that then exceeds the per-file limit is rotated. Nothing more is
    /// written once a write failed. A finished writer drops the events and
    /// counts them. Returns the closed segments to remove.
    pub fn write_encoded_batch<A, B, S, O, D>(
        &mut self,
        batch: &Batch,
        now: u64,
        describe: A,
        append: B,
        seal: S,
        open: O,
        discard: D,
    ) -> (r: Result<Vec<ClosedSegment>, WriterError>) where
        A: FnOnce(&Vec<(String, String)>) -> Appended,
        B: FnOnce(&Vec<u8>) -> Appended,
        S: FnOnce(SealRequest) -> SealOutcome,
        O: FnOnce(u32) -> OpenOutcome,
        D: FnOnce(u32),

        requires
            old(self)@.wf(),
            old(self)@.state is Finished ==> old(self)@.dropped_events + batch.event_count
                <= usize::MAX,
            may_describe(old(self)@, describe),
            batch.event_count > 0 ==> forall|described: WriterModel| #[trigger]
                describes(old(self)@, describe, described, true) && described.state is Active
                    ==> may_append(
                    described,
                    batch.encoded_bytes,
                    now,
                    append,
                    seal,
                    open,
                    discard,
                ),
        ensures
            writes(old(self)@, *batch, now, describe, append, seal, open, discard, final(self)@, r),
            final(self)@.wf(),
    {
        let ghost before = self@;
        let described = self.write_current_segment_metadata(describe);
        let ghost mid = self@;
        assert(describes(before, describe, mid, described is Ok));
        if let Err(e) = described {
            return Err(e);
        }
        match self.state {
            WriterState::Finished => {
                self.dropped_events = self.dropped_events + batch.event_count as usize;
                return Ok(Vec::new());
            },
            WriterState::Active(_) => {},
        }
        if batch.event_count == 0 {
            return Ok(Vec::new());
        }
        let outcome = append(&batch.encoded_bytes);
        assert(call_ensures(append, (&batch.encoded_bytes,), outcome));
        let rotate: bool = self.batch_written(outcome);
        if !outcome.ok {
            return Err(WriterError::Storage);
        }
        if rotate {
            self.rotate(now, seal, open, discard)
        } else {
            Ok(Vec::new())
        }
    }

    /// Whether the thread-local buffers are to be drained.
    pub fn should_drain(&self, now: u64) -> (r: bool)
        ensures
            r == self@.drain_due(now),
    {
        self.has_real_events && now >= self.next_drain_time
    }

    /// Replaces the active segment: seals it with `seal`, opens the next one
    /// with `open`, and removes with `discard` a segment whose header could not
    /// be written. Returns the closed segments to remove.
    ///
    /// A segment that had disappeared is abandoned. On any other failure the
    /// writer stops; a finished writer stays as it is. The timers are advanced
    /// in any case.
    pub fn rotate<S, O, D>(&mut self, now: u64, seal: S, open: O, discard: D) -> (r: Result<
        Vec<ClosedSegment>,
        WriterError,
    >) where S: FnOnce(SealRequest) -> SealOutcome, O: FnOnce(u32) -> OpenOutcome, D: FnOnce(u32)
        requires
            old(self)@.wf(),
            may_rotate(old(self)@, now, seal, open, discard),
        ensures
            rotates(old(self)@, now, seal, open, discard, final(self)@, r),
            final(self)@.wf(),
    {
        let ghost before = self@;
        let request = match self.begin_rotation(now) {
            Some(request) => request,
            None => return Ok(Vec::new()),
        };
        let sealed = seal(request);
        assert(call_ensures(seal, (before.seal_request(),), sealed));
        let index: u32 = match self.rotation_sealed(request, sealed) {
            Ok(index) => index,
            Err(e) => return Err(e),
        };
        let opened = open(index);
        if let OpenOutcome::PrepareFailed = opened {
            discard(index);
        }
        assert(call_ensures(open, (before.next_index,), opened));
        self.rotation_opened(opened)
    }

    /// Takes note that the thread-local buffers were drained: rotates if the
    /// rotation deadline has passed, else advances the drain timer. Returns
    /// whether it rotated, and the closed segments to remove.
    pub fn drained<S, O, D>(&mut self, now: u64, seal: S, open: O, discard: D) -> (r: Result<
        (bool, Vec<ClosedSegment>),
        WriterError,
    >) where S: FnOnce(SealRequest) -> SealOutcome, O: FnOnce(u32) -> OpenOutcome, D: FnOnce(u32)
        requires
            old(self)@.wf(),
            old(self)@.has_real_events ==> now + old(self)@.drain_interval <= u64::MAX,
            old(self)@.has_real_events && old(self)@.rotation_due(now) ==> may_rotate(
                old(self)@,
                now,
                seal,
                open,
                discard,
            ),
        ensures
            notes_drain(old(self)@, now, seal, open, discard, final(self)@, r),
            forall|later: u64|
                later < now + old(self)@.drain_interval ==> !#[trigger] final(self)@.drain_due(
                    later,
                ),
            final(self)@.wf(),
    {
        if !self.has_real_events {
            return Ok((false, Vec::new()));
        }
        let due: bool = match self.next_rotation_time {
            Some(deadline) => now >= deadline,
            None => false,
        };
        if due {
            let rotated = self.rotate(now, seal, open, discard);
            assert(rotates(old(self)@, now, seal, open, discard, self@, rotated));
            return match rotated {
                Ok(removed) => Ok((true, removed)),
                Err(e) => Err(e),
            };
        }
        self.next_drain_time = now + self.drain_interval;
        assert(self@ =~= (WriterModel {
            next_drain_time: (now + old(self)@.drain_interval) as u64,
            ..old(self)@
        }));
        Ok((false, Vec::new()))
    }

    /// Ends the writer: seals the active segment with `seal` if it holds real
    /// events, and removes it with `remove` otherwise. The sealed segment
    /// counts towards the budget too. Returns the closed segments to remove;
    /// afterwards nothing can be written.
    pub fn finalize<S, R>(&mut self, seal: S, remove: R) -> (r: Result<
        Vec<ClosedSegment>,
        WriterError,
    >) where S: FnOnce(SealRequest) -> SealOutcome, R: FnOnce(u32) -> RemoveOutcome
        requires
            old(self)@.wf(),
            old(self)@.state is Active && old(self)@.has_real_events ==> call_requires(
                seal,
                (old(self)@.seal_request(),),
            ),
            old(self)@.state is Active && !old(self)@.has_real_events ==> call_requires(
                remove,
                (old(self)@.seal_request().index,),
            ),
        ensures
            finalizes(old(self)@, seal, remove, final(self)@, r),
            final(self)@.wf(),
    {
        match self.begin_finalize() {
            FinalizeStep::AlreadyClosed => Ok(Vec::new()),
            FinalizeStep::Seal(request) => {
                let outcome = seal(request);
                self.finalize_sealed(request, outcome)
            },
            FinalizeStep::RemoveActive { index } => {
                let outcome = remove(index);
                self.finalize_removed(outcome)
            },
        }
    }

    /// Stops accepting events and decides how the active segment ends.
    fn begin_finalize(&mut self) -> (r: FinalizeStep)
        requires
            old(self)@.wf(),
        ensures
            final(self)@ == (WriterModel {
                state: WriterState::Finished,
                writer_done: old(self)@.writer_done || old(self)@.state is Finished,
                ..old(self)@
            }),
            r == (match old(self)@.state {
                WriterState::Finished => FinalizeStep::AlreadyClosed,
                WriterState::Active(_) => if old(self)@.has_real_events {
                    FinalizeStep::Seal(old(self)@.seal_request())
                } else {
                    FinalizeStep::RemoveActive { index: old(self)@.seal_request().index }
                },
            }),
            final(self)@.wf(),
    {
        match self.state {
            WriterState::Finished => {
                self.writer_done = true;
                FinalizeStep::AlreadyClosed
            },
            WriterState::Active(a) => {
                self.state = WriterState::Finished;
                let index: u32 = self.next_index - 1;
                if self.has_real_events {
                    FinalizeStep::Seal(SealRequest { index, size: a.bytes_written })
                } else {
                    FinalizeStep::RemoveActive { index }
                }
            },
        }
    }

    /// Takes the outcome of sealing the last segment. The sealed segment
    /// counts towards the budget too. Returns the segments to remove.
    fn finalize_sealed(&mut self, request: SealRequest, outcome: SealOutcome) -> (r: Result<
        Vec<ClosedSegment>,
        WriterError,
    >)
        requires
            old(self)@.wf(),
            old(self)@.state is Finished,
            request.index == old(self)@.next_index - 1,
            forall|i: int|
                0 <= i < old(self)@.closed.len() ==> (#[trigger] old(self)@.closed[i]).0
                    < request.index,
        ensures
            outcome is Failed <==> r is Err,
            outcome is Failed ==> r->Err_0 == WriterError::Storage && final(self)@ == (WriterModel {
                writer_done: true,
                ..old(self)@
            }),
            outcome !is Failed ==> {
                let sealed = old(self)@.with_sealed(request, outcome);
                &&& final(self)@ == (WriterModel { writer_done: true, ..sealed.evicted() })
                &&& r->Ok_0@ == sealed.given_up()
            },
            final(self)@.wf(),
    {
        let ghost before = self@;
        match outcome {
            SealOutcome::Failed => {
                self.writer_done = true;
                return Err(WriterError::Storage);
            },
            SealOutcome::Sealed => {
                if M::is_disk() {
                    self.closed_files.push_back((request.index, request.size));
                }
            },
            SealOutcome::Missing => {},
        }
        assert(self@ =~= before.with_sealed(request, outcome));
        let removed = self.evict_oldest();
        self.writer_done = true;
        Ok(removed)
    }

    /// Takes the outcome of removing an empty last segment. Returns the
    /// segments to remove.
    fn finalize_removed(&mut self, outcome: RemoveOutcome) -> (r: Result<
        Vec<ClosedSegment>,
        WriterError,
    >)
        requires
            old(self)@.wf(),
            old(self)@.state is Finished,
        ensures
            outcome is Failed <==> r is Err,
            outcome is Failed ==> r->Err_0 == WriterError::Storage && final(self)@ == (WriterModel {
                writer_done: true,
                ..old(self)@
            }),
            outcome !is Failed ==> {
                &&& final(self)@ == (WriterModel { writer_done: true, ..old(self)@.evicted() })
                &&& r->Ok_0@ == old(self)@.given_up()
            },
            final(self)@.wf(),
    {
        match outcome {
            RemoveOutcome::Failed => {
                self.writer_done = true;
                Err(WriterError::Storage)
            },
            _ => {
                let removed = self.evict_oldest();
                self.writer_done = true;
                Ok(removed)
            },
        }
    }
}

/// The metadata entries can be appended, if they are due.
pub open spec fn may_describe<A: FnOnce(&Vec<(String, String)>) -> Appended>(
    writer: WriterModel,
    append: A,
) -> bool {
    writer.needs_metadata() ==> forall|entries: &Vec<(String, String)>|
        crate::segment_metadata::entries_view(entries@) == writer.metadata
            ==> #[trigger] call_requires(append, (entries,))
}

/// How writing the metadata entries can go: they are appended if they are due,
/// and else nothing is.
pub open spec fn describes<A: FnOnce(&Vec<(String, String)>) -> Appended>(
    writer: WriterModel,
    append: A,
    after: WriterModel,
    ok: bool,
) -> bool {
    if writer.needs_metadata() {
        exists|entries: &Vec<(String, String)>, outcome: Appended| #[trigger]
            call_ensures(append, (entries,), outcome) && crate::segment_metadata::entries_view(
                entries@,
            ) == writer.metadata && after == writer.described(outcome) && ok == outcome.ok
    } else {
        after == writer && ok
    }
}

/// A batch can be appended and, if the segment then exceeds the per-file limit,
/// the segment can be rotated.
pub open spec fn may_append<B, S, O, D>(
    writer: WriterModel,
    bytes: Vec<u8>,
    now: u64,
    append: B,
    seal: S,
    open: O,
    discard: D,
) -> bool where
    B: FnOnce(&Vec<u8>) -> Appended,
    S: FnOnce(SealRequest) -> SealOutcome,
    O: FnOnce(u32) -> OpenOutcome,
    D: FnOnce(u32),
 {
    &&& call_requires(append, (&bytes,))
    &&& forall|outcome: Appended| #[trigger]
        call_ensures(append, (&bytes,), outcome) && outcome.ok && writer.grown(outcome).oversized()
            ==> may_rotate(writer.grown(outcome), now, seal, open, discard)
}

/// How appending a batch can go: a failure ends it, and a segment that exceeds
/// the per-file limit is rotated.
pub open spec fn appends<B, S, O, D>(
    writer: WriterModel,
    bytes: Vec<u8>,
    now: u64,
    append: B,
    seal: S,
    open: O,
    discard: D,
    after: WriterModel,
    r: Result<Vec<ClosedSegment>, WriterError>,
) -> bool where
    B: FnOnce(&Vec<u8>) -> Appended,
    S: FnOnce(SealRequest) -> SealOutcome,
    O: FnOnce(u32) -> OpenOutcome,
    D: FnOnce(u32),
 {
    exists|outcome: Appended| #[trigger]
        call_ensures(append, (&bytes,), outcome) && if !outcome.ok {
            after == writer.grown(outcome) && (r matches Err(WriterError::Storage))
        } else if writer.grown(outcome).oversized() {
            rotates(writer.grown(outcome), now, seal, open, discard, after, r)
        } else {
            after == writer.grown(outcome) && (r matches Ok(removed) && removed@.len() == 0)
        }
}

/// How writing a batch can go. A finished writer counts the events as dropped.
/// Else the metadata entries come first, if they are due, and then the batch,
/// if it holds events.
pub open spec fn writes<A, B, S, O, D>(
    writer: WriterModel,
    batch: Batch,
    now: u64,
    describe: A,
    append: B,
    seal: S,
    open: O,
    discard: D,
    after: WriterModel,
    r: Result<Vec<ClosedSegment>, WriterError>,
) -> bool where
    A: FnOnce(&Vec<(String, String)>) -> Appended,
    B: FnOnce(&Vec<u8>) -> Appended,
    S: FnOnce(SealRequest) -> SealOutcome,
    O: FnOnce(u32) -> OpenOutcome,
    D: FnOnce(u32),
 {
    &&& writer.state is Finished ==> after == (WriterModel {
        dropped_events: (writer.dropped_events + batch.event_count) as usize,
        ..writer
    }) && (r matches Ok(removed) && removed@.len() == 0)
    &&& writer.state is Active ==> exists|described: WriterModel, ok: bool| #[trigger]
        describes(writer, describe, described, ok) && if !ok {
            after == described && (r matches Err(WriterError::Storage))
        } else if batch.event_count == 0 {
            after == described && (r matches Ok(removed) && removed@.len() == 0)
        } else {
            appends(
                described,
                batch.encoded_bytes,
                now,
                append,
                seal,
                open,
                discard,
                after,
                r,
            )
        }
}

/// How taking note of a drain can go: the segment is rotated if the deadline
/// has passed, and else the drain timer is advanced. Without real events there
/// is nothing to do.
pub open spec fn notes_drain<S, O, D>(
    writer: WriterModel,
    now: u64,
    seal: S,
    open: O,
    discard: D,
    after: WriterModel,
    r: Result<(bool, Vec<ClosedSegment>), WriterError>,
) -> bool where S: FnOnce(SealRequest) -> SealOutcome, O: FnOnce(u32) -> OpenOutcome, D: FnOnce(u32)
 {
    &&& !writer.has_real_events ==> after == writer && (r matches Ok(x) && !x.0 && x.1@.len() == 0)
    &&& writer.has_real_events && !writer.rotation_due(now) ==> after == (WriterModel {
        next_drain_time: (now + writer.drain_interval) as u64,
        ..writer
    }) && (r matches Ok(x) && !x.0 && x.1@.len() == 0)
    &&& writer.has_real_events && writer.rotation_due(now) ==> exists|
        rotated: Result<Vec<ClosedSegment>, WriterError>,
    | #[trigger]
        rotates(writer, now, seal, open, discard, after, rotated) && (match rotated {
            Ok(removed) => r matches Ok(x) && x.0 && x.1@ == removed@,
            Err(e) => r matches Err(got) && got == e,
        })
}

/// How ending the writer can go: the active segment is sealed if it holds real
/// events, and removed otherwise.
pub open spec fn finalizes<S, R>(
    writer: WriterModel,
    seal: S,
    remove: R,
    after: WriterModel,
    r: Result<Vec<ClosedSegment>, WriterError>,
) -> bool where S: FnOnce(SealRequest) -> SealOutcome, R: FnOnce(u32) -> RemoveOutcome {
    let closed = WriterModel { state: WriterState::Finished, ..writer };
    &&& writer.state is Finished ==> after == (WriterModel { writer_done: true, ..writer }) && (
    r matches Ok(removed) && removed@.len() == 0)
    &&& writer.state is Active && writer.has_real_events ==> exists|s: SealOutcome| #[trigger]
        call_ensures(seal, (writer.seal_request(),), s) && {
            &&& after == finalize_result(writer, s, RemoveOutcome::Missing)
            &&& if s is Failed {
                r matches Err(WriterError::Storage)
            } else {
                r matches Ok(removed) && removed@ == closed.with_sealed(
                    writer.seal_request(),
                    s,
                ).given_up()
            }
        }
    &&& writer.state is Active && !writer.has_real_events ==> exists|o: RemoveOutcome| #[trigger]
        call_ensures(remove, (writer.seal_request().index,), o) && {
            &&& after == finalize_result(writer, SealOutcome::Missing, o)
            &&& if o is Failed {
                r matches Err(WriterError::Storage)
            } else {
                r matches Ok(removed) && removed@ == closed.given_up()
            }
        }
}

/// The storage calls can be made as a rotation makes them: the active segment
/// is sealed, the next one is opened unless that failed, and it is discarded
/// only if its header could not be written.
pub open spec fn may_replace<S, O, D>(writer: WriterModel, seal: S, open: O, discard: D) -> bool where
    S: FnOnce(SealRequest) -> SealOutcome,
    O: FnOnce(u32) -> OpenOutcome,
    D: FnOnce(u32),
 {
    &&& call_requires(seal, (writer.seal_request(),))
    &&& forall|s: SealOutcome| #[trigger]
        call_ensures(seal, (writer.seal_request(),), s) && s !is Failed ==> call_requires(
            open,
            (writer.next_index,),
        )
    &&& forall|o: OpenOutcome| #[trigger]
        call_ensures(open, (writer.next_index,), o) && o is PrepareFailed ==> call_requires(
            discard,
            (writer.next_index,),
        )
}

/// A rotation can be made at `now`: the timers have room and, unless the writer
/// is finished, there is an index left and the storage calls can be made.
pub open spec fn may_rotate<S, O, D>(
    writer: WriterModel,
    now: u64,
    seal: S,
    open: O,
    discard: D,
) -> bool where S: FnOnce(SealRequest) -> SealOutcome, O: FnOnce(u32) -> OpenOutcome, D: FnOnce(u32)
 {
    &&& writer.timers_fit(now)
    &&& writer.state is Active ==> {
        &&& writer.next_index < u32::MAX
        &&& may_replace(writer, seal, open, discard)
    }
}

/// How a rotation at `now` can go, and what it returns. A finished writer only
/// advances its timers. Else the active segment is sealed and, unless that
/// failed, the next one is opened; one whose header could not be written is
/// discarded.
pub open spec fn rotates<S, O, D>(
    writer: WriterModel,
    now: u64,
    seal: S,
    open: O,
    discard: D,
    after: WriterModel,
    r: Result<Vec<ClosedSegment>, WriterError>,
) -> bool where S: FnOnce(SealRequest) -> SealOutcome, O: FnOnce(u32) -> OpenOutcome, D: FnOnce(u32)
 {
    if writer.state is Finished {
        after == writer.rotating(now) && (r matches Ok(removed) && removed@.len() == 0)
    } else {
        exists|s: SealOutcome| #[trigger]
            call_ensures(seal, (writer.seal_request(),), s) && if s is Failed {
                &&& after == writer.rotating(now)
                &&& r matches Err(WriterError::Storage)
            } else {
                exists|o: OpenOutcome| #[trigger]
                    call_ensures(open, (writer.next_index,), o) && {
                        &&& after == rotation_result(writer, now, s, o)
                        &&& o is PrepareFailed ==> call_ensures(discard, (writer.next_index,), ())
                        &&& match o {
                            OpenOutcome::Opened { .. } => r matches Ok(removed) && removed@
                                == rotation_removes(writer, now, s, o),
                            _ => r matches Err(WriterError::Storage),
                        }
                    }
            }
    }
}

/// The writer after a whole rotation at `now` with the given outcomes. A
/// finished writer only advances its timers.
pub open spec fn rotation_result(
    writer: WriterModel,
    now: u64,
    seal: SealOutcome,
    open: OpenOutcome,
) -> WriterModel {
    let rotating = writer.rotating(now);
    if writer.state is Finished || seal is Failed {
        rotating
    } else {
        let next = WriterModel {
            next_index: (writer.next_index + 1) as u32,
            ..rotating.with_sealed(writer.seal_request(), seal)
        };
        match open {
            OpenOutcome::Opened { bytes_written } => next.with_fresh_segment(
                bytes_written,
            ).evicted(),
            _ => next,
        }
    }
}

/// The writer after it was told of a drain at `now`, with the given outcomes of
/// a rotation if one is due.
pub open spec fn drained_result(
    writer: WriterModel,
    now: u64,
    seal: SealOutcome,
    open: OpenOutcome,
) -> WriterModel {
    if !writer.has_real_events {
        writer
    } else if writer.rotation_due(now) {
        rotation_result(writer, now, seal, open)
    } else {
        WriterModel { next_drain_time: (now + writer.drain_interval) as u64, ..writer }
    }
}

/// The closed segments that such a rotation gives up.
pub open spec fn rotation_removes(
    writer: WriterModel,
    now: u64,
    seal: SealOutcome,
    open: OpenOutcome,
) -> Seq<ClosedSegment> {
    match open {
        OpenOutcome::Opened { bytes_written } => (WriterModel {
            next_index: (writer.next_index + 1) as u32,
            ..writer.rotating(now).with_sealed(writer.seal_request(), seal)
        }).with_fresh_segment(bytes_written).given_up(),
        _ => Seq::empty(),
    }
}

/// The writer after it was finalized with the given outcomes.
pub open spec fn finalize_result(
    writer: WriterModel,
    seal: SealOutcome,
    remove: RemoveOutcome,
) -> WriterModel {
    let closed = WriterModel { state: WriterState::Finished, ..writer };
    if writer.state is Finished {
        WriterModel { writer_done: true, ..closed }
    } else if writer.has_real_events {
        if seal is Failed {
            WriterModel { writer_done: true, ..closed }
        } else {
            WriterModel {
                writer_done: true,
                ..closed.with_sealed(writer.seal_request(), seal).evicted()
            }
        }
    } else if remove is Failed {
        WriterModel { writer_done: true, ..closed }
    } else {
        WriterModel { writer_done: true, ..closed.evicted() }
    }
}

/// After eviction a disk-backed writer is within its total budget.
pub proof fn law_eviction_meets_budget(writer: WriterModel)
    requires
        writer.disk,
    ensures
        writer.evicted().total_size() <= writer.max_total_size,
{
    lemma_evict_count(writer.closed, writer.active_size(), writer.max_total_size as nat);
    let k = evict_count(writer.closed, writer.active_size(), writer.max_total_size as nat);
    if k == writer.closed.len() {
        assert(writer.closed.skip(k as int).len() == 0);
    }
}

/// Eviction gives up the oldest segments first, loses track of none, and gives
/// up no more than the budget asks for: keeping one more would exceed it.
pub proof fn law_eviction_drops_only_the_oldest(writer: WriterModel)
    requires
        writer.disk,
    ensures
        writer.given_up() + writer.evicted().closed == writer.closed,
        writer.given_up().len() > 0 ==> size_sum(
            writer.closed.skip(writer.given_up().len() - 1),
        ) + writer.active_size() > writer.max_total_size,
{
    lemma_evict_count(writer.closed, writer.active_size(), writer.max_total_size as nat);
    let k = evict_count(writer.closed, writer.active_size(), writer.max_total_size as nat) as int;
    assert(writer.closed.take(k) + writer.closed.skip(k) =~= writer.closed);
}

/// A rotation advances the drain timer whatever comes of it, so a failing
/// rotation is not attempted again before a whole drain interval has passed.
pub proof fn law_rotation_rearms_the_drain_timer(
    writer: WriterModel,
    now: u64,
    seal: SealOutcome,
    open: OpenOutcome,
    later: u64,
)
    requires
        now + writer.drain_interval <= u64::MAX,
        later < now + writer.drain_interval,
    ensures
        !rotation_result(writer, now, seal, open).drain_due(later),
{
}

/// A segment has its metadata before its events: where a batch is appended, no
/// metadata is due any more.
pub proof fn law_metadata_precedes_events<A: FnOnce(&Vec<(String, String)>) -> Appended>(
    writer: WriterModel,
    append: A,
    described: WriterModel,
)
    requires
        describes(writer, append, described, true),
    ensures
        !described.needs_metadata(),
        described.has_real_events == writer.has_real_events,
{
}

/// Once the writer was told of a drain, none is due before a whole drain
/// interval has passed, whatever came of a rotation and also if the writer was
/// finished already. So none is due at the same instant.
pub proof fn law_a_drain_is_not_due_again_at_once(
    writer: WriterModel,
    now: u64,
    seal: SealOutcome,
    open: OpenOutcome,
    later: u64,
)
    requires
        writer.wf(),
        now + writer.drain_interval <= u64::MAX,
        later < now + writer.drain_interval,
    ensures
        !drained_result(writer, now, seal, open).drain_due(later),
        !drained_result(writer, now, seal, open).drain_due(now),
{
}

/// Rotation keeps account of every segment: what was closed before, and the
/// sealed one, is still listed or was given up to meet the budget.
pub proof fn law_rotation_accounts_for_segments(
    writer: WriterModel,
    now: u64,
    bytes_written: u64,
)
    requires
        writer.disk,
        writer.state is Active,
    ensures
        ({
            let open = OpenOutcome::Opened { bytes_written };
            let request = writer.seal_request();
            rotation_removes(writer, now, SealOutcome::Sealed, open) + rotation_result(
                writer,
                now,
                SealOutcome::Sealed,
                open,
            ).closed == writer.closed.push((request.index, request.size))
        }),
{
    let fresh = WriterModel {
        next_index: (writer.next_index + 1) as u32,
        ..writer.rotating(now).with_sealed(writer.seal_request(), SealOutcome::Sealed)
    }.with_fresh_segment(bytes_written);
    law_eviction_drops_only_the_oldest(fresh);
}

/// A rotation never reuses a segment index: the new segment's index is larger
/// than that of every segment still listed.
pub proof fn law_rotation_uses_a_fresh_index(
    writer: WriterModel,
    now: u64,
    seal: SealOutcome,
    open: OpenOutcome,
)
    requires
        writer.wf(),
        writer.state is Active,
        writer.next_index < u32::MAX,
    ensures
        rotation_result(writer, now, seal, open).wf(),
        rotation_result(writer, now, seal, open).state is Active ==> rotation_result(
            writer,
            now,
            seal,
            open,
        ).next_index == writer.next_index + 1,
{
    let rotating = writer.rotating(now);
    if seal !is Failed {
        let next = WriterModel {
            next_index: (writer.next_index + 1) as u32,
            ..rotating.with_sealed(writer.seal_request(), seal)
        };
        if let OpenOutcome::Opened { bytes_written } = open {
            let fresh = next.with_fresh_segment(bytes_written);
            lemma_evict_count(fresh.closed, fresh.active_size(), fresh.max_total_size as nat);
        }
    }
}

/// Finalizing ends the writer whatever comes of it: it is marked done and
/// accepts no more events.
pub proof fn law_finalize_is_terminal(
    writer: WriterModel,
    seal: SealOutcome,
    remove: RemoveOutcome,
)
    ensures
        finalize_result(writer, seal, remove).state is Finished,
        finalize_result(writer, seal, remove).writer_done,
{
}

/// Finalizing leaves a disk-backed writer within its total budget, unless the
/// storage failed or the writer had been closed before.
pub proof fn law_finalize_meets_budget(
    writer: WriterModel,
    seal: SealOutcome,
    remove: RemoveOutcome,
)
    requires
        writer.disk,
        writer.state is Active,
        seal !is Failed,
        remove !is Failed,
    ensures
        finalize_result(writer, seal, remove).total_size() <= writer.max_total_size,
{
    let closed = WriterModel { state: WriterState::Finished, ..writer };
    if writer.has_real_events {
        law_eviction_meets_budget(closed.with_sealed(writer.seal_request(), seal));
    } else {
        law_eviction_meets_budget(closed);
    }
}

/// A segment without real events is never sealed by finalizing: the closed
/// segments afterwards are among those closed before.
pub proof fn law_finalize_seals_no_empty_segment(
    writer: WriterModel,
    seal: SealOutcome,
    remove: RemoveOutcome,
)
    requires
        !writer.has_real_events,
    ensures
        finalize_result(writer, seal, remove).closed.is_suffix_of(writer.closed),
{
    let closed = WriterModel { state: WriterState::Finished, ..writer };
    lemma_evict_count(closed.closed, closed.active_size(), closed.max_total_size as nat);
    let after = finalize_result(writer, seal, remove).closed;
    assert(after =~= writer.closed.subrange(
        (writer.closed.len() - after.len()) as int,
        writer.closed.len() as int,
    ));
}

// ---------------------------------------------------------------------------
// Segment file names
// ---------------------------------------------------------------------------

/// The decimal digit `d`.
pub open spec fn digit(d: nat) -> char {
    if d == 0 {
        '0'
    } else if d == 1 {
        '1'
    } else if d == 2 {
        '2'
    } else if d == 3 {
        '3'
    } else if d == 4 {
        '4'
    } else if d == 5 {
        '5'
    } else if d == 6 {
        '6'
    } else if d == 7 {
        '7'
    } else if d == 8 {
        '8'
    } else {
        '9'
    }
}

/// The decimal notation of `n`.
pub open spec fn decimal(n: nat) -> Seq<char>
    decreases n,
{
    if n < 10 {
        seq![digit(n)]
    } else {
        decimal(n / 10).push(digit(n % 10))
    }
}

fn digit_str(d: u64) -> (r: &'static str)
    requires
        d < 10,
    ensures
        r@ == seq![digit(d as nat)],
{
    proof {
        reveal_strlit("0");
        reveal_strlit("1");
        reveal_strlit("2");
        reveal_strlit("3");
        reveal_strlit("4");
        reveal_strlit("5");
        reveal_strlit("6");
        reveal_strlit("7");
        reveal_strlit("8");
        reveal_strlit("9");
    }
    if d == 0 {
        "0"
    } else if d == 1 {
        "1"
    } else if d == 2 {
        "2"
    } else if d == 3 {
        "3"
    } else if d == 4 {
        "4"
    } else if d == 5 {
        "5"
    } else if d == 6 {
        "6"
    } else if d == 7 {
        "7"
    } else if d == 8 {
        "8"
    } else {
        "9"
    }
}

pub(crate) fn decimal_string(n: u64) -> (r: String)
    ensures
        r@ == decimal(n as nat),
    decreases n,
{
    if n < 10 {
        digit_str(n).to_owned()
    } else {
        let head = decimal_string(n / 10);
        let r = head.concat(digit_str(n % 10));
        assert(r@ =~= decimal(n as nat));
        r
    }
}

/// The file name of a segment that is being written.
pub open spec fn active_name_of(stem: Seq<char>, index: u32) -> Seq<char> {
    stem + "."@ + decimal(index as nat) + ".bin.active"@
}

/// The file name of a sealed segment.
pub open spec fn sealed_name_of(stem: Seq<char>, index: u32) -> Seq<char> {
    stem + "."@ + decimal(index as nat) + ".bin"@
}

/// The file name of a segment that is being written:
/// `{stem}.{index}.bin.active`.
pub fn active_file_name(stem: &str, index: u32) -> (r: String)
    ensures
        r@ == active_name_of(stem@, index),
{
    let number = decimal_string(index as u64);
    stem.to_owned().concat(".").concat(number.as_str()).concat(".bin.active")
}

/// The file name of a sealed segment: `{stem}.{index}.bin`.
pub fn sealed_file_name(stem: &str, index: u32) -> (r: String)
    ensures
        r@ == sealed_name_of(stem@, index),
{
    let number = decimal_string(index as u64);
    stem.to_owned().concat(".").concat(number.as_str()).concat(".bin")
}

proof fn lemma_decimal_len(n: nat)
    ensures
        decimal(n).len() >= 1,
        n >= 10 ==> decimal(n).len() >= 2,
    decreases n,
{
    if n >= 10 {
        lemma_decimal_len(n / 10);
    }
}

proof fn lemma_digit_injective(a: nat, b: nat)
    requires
        a < 10,
        b < 10,
    ensures
        digit(a) == digit(b) ==> a == b,
{
}

proof fn lemma_decimal_injective(m: nat, n: nat)
    requires
        decimal(m) == decimal(n),
    ensures
        m == n,
    decreases m,
{
    lemma_decimal_len(m);
    lemma_decimal_len(n);
    if m < 10 || n < 10 {
        assert(decimal(m).len() == decimal(n).len());
        assert(m < 10 && n < 10);
        assert(decimal(m)[0] == digit(m));
        assert(decimal(n)[0] == digit(n));
        lemma_digit_injective(m, n);
    } else {
        lemma_digit_injective(m % 10, n % 10);
        assert(decimal(m).drop_last() =~= decimal(m / 10));
        assert(decimal(n).drop_last() =~= decimal(n / 10));
        assert(decimal(m).last() == digit(m % 10));
        assert(decimal(n).last() == digit(n % 10));
        lemma_decimal_injective(m / 10, n / 10);
    }
}

/// Segments of one writer never share a file name: different indices give
/// different names.
pub proof fn law_segment_names_are_distinct(stem: Seq<char>, i: u32, j: u32, suffix: Seq<char>)
    requires
        i != j,
    ensures
        stem + "."@ + decimal(i as nat) + suffix != stem + "."@ + decimal(j as nat) + suffix,
{
    let a = stem + "."@ + decimal(i as nat) + suffix;
    let b = stem + "."@ + decimal(j as nat) + suffix;
    if a == b {
        let from = (stem.len() + "."@.len()) as int;
        assert(a.len() == from + decimal(i as nat).len() + suffix.len());
        assert(b.len() == from + decimal(j as nat).len() + suffix.len());
        assert(a.subrange(from, from + decimal(i as nat).len()) =~= decimal(i as nat));
        assert(b.subrange(from, from + decimal(j as nat).len()) =~= decimal(j as nat));
        lemma_decimal_injective(i as nat, j as nat);
    }
}

impl SegmentWriter<Disk> {
    /// Creates a writer from a configuration in which everything but the total
    /// size has a default: the file size derived from the total size, a
    /// rotation period of 60 seconds and no entries but the default ones.
    /// `header_bytes` were written to its first segment, whose index is
    /// `first_index`; `closed` lists the segments left by earlier writers.
    pub fn builder(
        max_total_size: u64,
        max_file_size: Option<u64>,
        rotation_period: Option<u64>,
        segment_metadata: Option<Vec<(String, String)>>,
        closed: VecDeque<ClosedSegment>,
        first_index: u32,
        header_bytes: u64,
        now: u64,
    ) -> (r: Result<(Self, Vec<ClosedSegment>), WriterError>)
        requires
            deadlines_fit(
                now,
                period_or_default(rotation_period),
                drain_interval_for(period_or_default(rotation_period)),
            ),
            forall|i: int, j: int|
                0 <= i < j < closed@.len() ==> (#[trigger] closed@[i]).0 < (
                #[trigger] closed@[j]).0,
            forall|i: int| 0 <= i < closed@.len() ==> (#[trigger] closed@[i]).0 < first_index,
        ensures
            rotation_period == Some(0u64) <==> r matches Err(WriterError::ZeroRotationPeriod),
            rotation_period != Some(0u64) && first_index == u32::MAX <==> r matches Err(
                WriterError::IndexOverflow,
            ),
            r is Ok <==> rotation_period != Some(0u64) && first_index != u32::MAX,
            r matches Ok((writer, evicted)) ==> {
                let fresh = fresh_writer(
                    true,
                    match max_file_size {
                        Some(size) => size,
                        None => default_file_size(max_total_size),
                    },
                    max_total_size,
                    period_or_default(rotation_period),
                    metadata_or_default(segment_metadata),
                    closed@,
                    first_index,
                    header_bytes,
                    now,
                );
                &&& writer@ == fresh.evicted()
                &&& evicted@ == fresh.given_up()
                &&& writer@.wf()
            },
    {
        let file_size: u64 = match max_file_size {
            Some(size) => size,
            None => derive_max_file_size(max_total_size),
        };
        let period: u64 = match rotation_period {
            Some(period) => period,
            None => DEFAULT_ROTATION_PERIOD_NS,
        };
        let metadata: SegmentMetadata = match segment_metadata {
            Some(entries) => SegmentMetadata::new(entries),
            None => SegmentMetadata::default(),
        };
        SegmentWriter::<Disk>::create(
            file_size,
            max_total_size,
            period,
            metadata,
            closed,
            first_index,
            header_bytes,
            now,
        )
    }
}

/// The rotation period of a configuration.
pub open spec fn period_or_default(period: Option<u64>) -> u64 {
    match period {
        Some(period) => period,
        None => DEFAULT_ROTATION_PERIOD_NS,
    }
}

/// The metadata of a configuration: the given entries
/// on top of the default ones.
pub open spec fn metadata_or_default(entries: Option<Vec<(String, String)>>) -> Entries {
    match entries {
        Some(entries) => crate::segment_metadata::merged(
            crate::segment_metadata::default_entries(),
            crate::segment_metadata::entries_view(entries@),
        ),
        None => crate::segment_metadata::default_entries(),
    }
}

impl SegmentWriter<Memory> {
    /// Creates an in-memory writer from a configuration in which everything
    /// but the total size has a default: an eighth of the total size per
    /// segment, a rotation period of 60 seconds and no entries but the default
    /// ones.
    pub fn builder(
        max_total_size: u64,
        max_segment_size: Option<u64>,
        rotation_period: Option<u64>,
        segment_metadata: Option<Vec<(String, String)>>,
        header_bytes: u64,
        now: u64,
    ) -> (r: Result<Self, WriterError>)
        requires
            deadlines_fit(
                now,
                period_or_default(rotation_period),
                drain_interval_for(period_or_default(rotation_period)),
            ),
        ensures
            ({
                let segment_size = match max_segment_size {
                    Some(size) => size,
                    None => default_segment_size(max_total_size),
                };
                match memory_config_error(
                    max_total_size,
                    segment_size,
                    period_or_default(rotation_period),
                ) {
                    Some(e) => r matches Err(got) && got == e,
                    None => r matches Ok(writer) && writer@ == fresh_writer(
                        false,
                        segment_size,
                        max_total_size,
                        period_or_default(rotation_period),
                        metadata_or_default(segment_metadata),
                        Seq::empty(),
                        0,
                        header_bytes,
                        now,
                    ) && writer@.wf(),
                }
            }),
    {
        let segment_size: u64 = match max_segment_size {
            Some(size) => size,
            None => pick_segment_size(max_total_size),
        };
        let period: u64 = match rotation_period {
            Some(period) => period,
            None => DEFAULT_ROTATION_PERIOD_NS,
        };
        let metadata: SegmentMetadata = match segment_metadata {
            Some(entries) => SegmentMetadata::new(entries),
            None => SegmentMetadata::default(),
        };
        SegmentWriter::<Memory>::create_in_memory(
            max_total_size,
            segment_size,
            period,
            metadata,
            header_bytes,
            now,
        )
    }
}

impl<M: WriterMode> SegmentWriter<M> {
    /// Whether the writer accepts events, and what it has written.
    pub fn state(&self) -> (r: WriterState)
        ensures
            r == self@.state,
    {
        self.state
    }

    /// The closed segments that are kept, oldest first.
    pub fn closed_segments(&self) -> (r: &VecDeque<ClosedSegment>)
        ensures
            r@ == self@.closed,
    {
        &self.closed_files
    }

    /// The index of the next segment.
    pub fn next_index(&self) -> (r: u32)
        ensures
            r == self@.next_index,
    {
        self.next_index
    }

    /// How many events came after the writer was finished.
    pub fn dropped_events(&self) -> (r: usize)
        ensures
            r == self@.dropped_events,
    {
        self.dropped_events
    }

    /// Whether the writer was finalized.
    pub fn is_done(&self) -> (r: bool)
        ensures
            r == self@.writer_done,
    {
        self.writer_done
    }

    /// How long a segment is written at most, in nanoseconds.
    pub fn rotation_period(&self) -> (r: u64)
        ensures
            r == self@.rotation_period,
    {
        self.rotation_period
    }

    /// Segments larger than this are rotated.
    pub fn max_file_size(&self) -> (r: u64)
        ensures
            r == self@.max_file_size,
    {
        self.max_file_size
    }
}

/// Where a writer's segments live. The base path is given with its directory
/// and its file stem, as the platform splits it.
#[derive(Debug)]
pub struct SegmentPaths {
    base_path: String,
    directory: String,
    stem: String,
    boot_id: Option<String>,
}

/// What [`SegmentPaths`] holds.
#[verifier::ext_equal]
pub struct PathsModel {
    pub base_path: Seq<char>,
    /// Empty if the base path names no directory.
    pub directory: Seq<char>,
    pub stem: Seq<char>,
    pub boot_id: Option<Seq<char>>,
}

impl View for SegmentPaths {
    type V = PathsModel;

    closed spec fn view(&self) -> PathsModel {
        PathsModel {
            base_path: self.base_path@,
            directory: self.directory@,
            stem: self.stem@,
            boot_id: match self.boot_id {
                Some(id) => Some(id@),
                None => None,
            },
        }
    }
}

impl SegmentPaths {
    /// The paths for a base path without namespace isolation.
    pub fn new(base_path: String, directory: String, stem: String) -> (r: Self)
        ensures
            r@ == (PathsModel {
                base_path: base_path@,
                directory: directory@,
                stem: stem@,
                boot_id: None,
            }),
    {
        SegmentPaths { base_path, directory, stem, boot_id: None }
    }

    /// The base path of the segment files.
    pub fn base_path(&self) -> (r: &str)
        ensures
            r@ == self@.base_path,
    {
        self.base_path.as_str()
    }

    /// The process's boot identifier, if namespace isolation is active.
    pub fn boot_id(&self) -> (r: Option<&str>)
        ensures
            match r {
                Some(id) => self@.boot_id == Some(id@),
                None => self@.boot_id is None,
            },
    {
        match &self.boot_id {
            Some(id) => Some(id.as_str()),
            None => None,
        }
    }

    /// Marks namespace isolation as active.
    pub fn set_namespace(&mut self, boot_id: String)
        ensures
            final(self)@ == (PathsModel { boot_id: Some(boot_id@), ..old(self)@ }),
    {
        self.boot_id = Some(boot_id);
    }

    /// The directory of the segment files: that of the base path, or the
    /// current one if it names none.
    pub fn trace_dir(&self) -> (r: &str)
        ensures
            r@ == if self@.directory.len() > 0 {
                self@.directory
            } else {
                "."@
            },
    {
        if self.directory.as_str().unicode_len() > 0 {
            self.directory.as_str()
        } else {
            "."
        }
    }

    /// The name of the file that a segment is written to while it is active.
    pub fn active_name(&self, index: u32) -> (r: String)
        ensures
            r@ == self@.stem + "."@ + decimal(index as nat) + ".bin.active"@,
    {
        active_file_name(self.stem.as_str(), index)
    }

    /// The name of the file that a sealed segment is in.
    pub fn sealed_name(&self, index: u32) -> (r: String)
        ensures
            r@ == self@.stem + "."@ + decimal(index as nat) + ".bin"@,
    {
        sealed_file_name(self.stem.as_str(), index)
    }
}

} // verus!
