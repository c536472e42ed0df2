//! What the segment writer promises, operation by operation.
use crate::buffer::Batch;
use crate::segment_metadata::entries_view;
use crate::writer::{
    appends, default_file_size, default_segment_size, describes, evict_count, finalizes,
    fresh_writer, lemma_evict_count, memory_config_error, notes_drain, rotates, size_sum, writes,
    ActiveSegment, Appended, ClosedSegment, OpenOutcome, RemoveOutcome, SealOutcome, SealRequest,
    WriterError, WriterModel, WriterState, ROTATION_DISABLED,
};
use vstd::prelude::*;

verus! {

/// The bytes that the segments take up together.
pub open spec fn bytes_in(segments: Seq<ClosedSegment>) -> nat {
    segments.map_values(|s: ClosedSegment| s.1 as nat).fold_left(0nat, |x: nat, y: nat| x + y)
}

proof fn lemma_size_sum(segments: Seq<ClosedSegment>)
    ensures
        size_sum(segments) == bytes_in(segments),
    decreases segments.len(),
{
    let f = |s: ClosedSegment| s.1 as nat;
    reveal_with_fuel(Seq::fold_left, 2);
    if segments.len() > 0 {
        lemma_size_sum(segments.drop_last());
        assert(segments.map_values(f).drop_last() =~= segments.drop_last().map_values(f));
    }
}

/// The first `k` closed segments are given up, and no more than the budget asks
/// for: the others fit it together with the `active` bytes, or there are no
/// others, and with one more they would not.
pub open spec fn gives_up(
    closed: Seq<ClosedSegment>,
    active: nat,
    budget: u64,
    k: int,
) -> bool {
    &&& 0 <= k <= closed.len()
    &&& k < closed.len() ==> bytes_in(closed.skip(k)) + active <= budget
    &&& k > 0 ==> bytes_in(closed.skip(k - 1)) + active > budget
}

/// The bytes of the open segment.
pub open spec fn open_bytes(state: WriterState) -> nat {
    match state {
        WriterState::Active(segment) => segment.bytes_written as nat,
        WriterState::Finished => 0,
    }
}

/// On disk, eviction gives up the oldest closed segments, `k` of them, as far
/// as the budget asks for, and stops the writer if the open segment alone is
/// over the budget. In memory nothing is given up. All else stays as it is.
pub proof fn law_eviction_gives_up_what_the_budget_asks_for(writer: WriterModel) -> (k: int)
    ensures
        writer.disk ==> {
            let active = open_bytes(writer.state);
            &&& gives_up(writer.closed, active, writer.max_total_size, k)
            &&& writer.given_up() == writer.closed.take(k)
            &&& writer.evicted() == (WriterModel {
                closed: writer.closed.skip(k),
                state: if active > writer.max_total_size {
                    WriterState::Finished
                } else {
                    writer.state
                },
                ..writer
            })
        },
        !writer.disk ==> writer.evicted() == writer && writer.given_up().len() == 0,
{
    let active = writer.active_size();
    let budget = writer.max_total_size as nat;
    let k = evict_count(writer.closed, active, budget) as int;
    lemma_evict_count(writer.closed, active, budget);
    lemma_size_sum(writer.closed.skip(k));
    if k > 0 {
        lemma_size_sum(writer.closed.skip(k - 1));
    }
    if k == writer.closed.len() {
        assert(writer.closed.skip(k).len() == 0);
        assert(size_sum(writer.closed.skip(k)) == 0);
    }
    k
}

/// The timers of a writer that rotated at `now`.
pub open spec fn rearmed(before: WriterModel, after: WriterModel, now: u64) -> bool {
    &&& after.next_drain_time == now + before.drain_interval
    &&& before.rotation_period == ROTATION_DISABLED ==> after.next_rotation_time is None
    &&& before.rotation_period != ROTATION_DISABLED ==> after.next_rotation_time == Some(
        (now + before.rotation_period) as u64,
    )
}

/// The settings and counters that no rotation changes.
pub open spec fn same_settings(before: WriterModel, after: WriterModel) -> bool {
    &&& after.disk == before.disk
    &&& after.max_file_size == before.max_file_size
    &&& after.max_total_size == before.max_total_size
    &&& after.rotation_period == before.rotation_period
    &&& after.drain_interval == before.drain_interval
    &&& after.metadata == before.metadata
    &&& after.dropped_events == before.dropped_events
}

/// The storage seals the segment `index` of `size` bytes and no other.
pub open spec fn seals_only<S: FnOnce(SealRequest) -> SealOutcome>(
    seal: S,
    index: int,
    size: nat,
    outcome: SealOutcome,
) -> bool {
    forall|q: SealRequest, s: SealOutcome| #[trigger]
        call_ensures(seal, (q,), s) ==> s == if q.index == index && q.size == size {
            outcome
        } else {
            SealOutcome::Failed
        }
}

/// The storage opens the segment `index` and no other.
pub open spec fn opens_only<O: FnOnce(u32) -> OpenOutcome>(
    open: O,
    index: u32,
    outcome: OpenOutcome,
) -> bool {
    forall|i: u32, o: OpenOutcome| #[trigger]
        call_ensures(open, (i,), o) ==> o == if i == index {
            outcome
        } else {
            OpenOutcome::CreateFailed
        }
}

/// A rotation seals the open segment under its index and with its size, and
/// opens the one with the next index: a fresh segment without real events, with
/// the metadata still to come. The sealed segment counts as the newest closed
/// one, and what is given up is reported, oldest first: `k` segments.
pub proof fn law_a_rotation_replaces_the_open_segment<S, O, D>(
    writer: WriterModel,
    size: u64,
    need_metadata: bool,
    now: u64,
    seal: S,
    open: O,
    discard: D,
    sealed: SealOutcome,
    bytes_written: u64,
    after: WriterModel,
    r: Result<Vec<ClosedSegment>, WriterError>,
) -> (k: int) where
    S: FnOnce(SealRequest) -> SealOutcome,
    O: FnOnce(u32) -> OpenOutcome,
    D: FnOnce(u32),

    requires
        writer.wf(),
        writer.timers_fit(now),
        writer.next_index < u32::MAX,
        writer.state == WriterState::Active(ActiveSegment { bytes_written: size, need_metadata }),
        sealed !is Failed,
        seals_only(seal, writer.next_index - 1, size as nat, sealed),
        opens_only(open, writer.next_index, OpenOutcome::Opened { bytes_written }),
        rotates(writer, now, seal, open, discard, after, r),
    ensures
        ({
            let all = if writer.disk && sealed is Sealed {
                writer.closed.push(((writer.next_index - 1) as u32, size))
            } else {
                writer.closed
            };
            &&& writer.disk ==> gives_up(all, bytes_written as nat, writer.max_total_size, k)
            &&& !writer.disk ==> k == 0
            &&& r matches Ok(removed) && removed@ == all.take(k)
            &&& after.closed == all.skip(k)
        }),
        after.state == if writer.disk && bytes_written > writer.max_total_size {
            WriterState::Finished
        } else {
            WriterState::Active(ActiveSegment { bytes_written, need_metadata: true })
        },
        after.next_index == writer.next_index + 1,
        !after.has_real_events,
        after.writer_done == writer.writer_done,
        rearmed(writer, after, now),
        same_settings(writer, after),
{
    let s = choose|s: SealOutcome| #[trigger]
        call_ensures(seal, (writer.seal_request(),), s) && if s is Failed {
            &&& after == writer.rotating(now)
            &&& r matches Err(WriterError::Storage)
        } else {
            exists|o: OpenOutcome| #[trigger]
                call_ensures(open, (writer.next_index,), o) && {
                    &&& after == crate::writer::rotation_result(writer, now, s, o)
                    &&& o is PrepareFailed ==> call_ensures(discard, (writer.next_index,), ())
                    &&& match o {
                        OpenOutcome::Opened { .. } => r matches Ok(removed) && removed@
                            == crate::writer::rotation_removes(writer, now, s, o),
                        _ => r matches Err(WriterError::Storage),
                    }
                }
        };
    assert(s == sealed);
    let fresh = WriterModel {
        next_index: (writer.next_index + 1) as u32,
        ..writer.rotating(now).with_sealed(writer.seal_request(), sealed)
    }.with_fresh_segment(bytes_written);
    let k = law_eviction_gives_up_what_the_budget_asks_for(fresh);
    let all = fresh.closed;
    if writer.disk {
        k
    } else {
        assert(all.take(0) =~= Seq::empty());
        assert(all.skip(0) =~= all);
        assert(fresh.given_up() =~= Seq::empty());
        0
    }
}

/// A rotation that fails, at sealing or at opening, stops the writer with an
/// error and gives up nothing; the timers are advanced all the same. What was
/// sealed is still listed.
pub proof fn law_a_failed_rotation_stops_the_writer<S, O, D>(
    writer: WriterModel,
    now: u64,
    seal: S,
    open: O,
    discard: D,
    sealed: SealOutcome,
    opened: OpenOutcome,
    after: WriterModel,
    r: Result<Vec<ClosedSegment>, WriterError>,
) where S: FnOnce(SealRequest) -> SealOutcome, O: FnOnce(u32) -> OpenOutcome, D: FnOnce(u32)
    requires
        writer.wf(),
        writer.timers_fit(now),
        writer.next_index < u32::MAX,
        writer.state is Active,
        sealed is Failed || opened !is Opened,
        seals_only(seal, writer.next_index - 1, open_bytes(writer.state), sealed),
        opens_only(open, writer.next_index, opened),
        rotates(writer, now, seal, open, discard, after, r),
    ensures
        r matches Err(e) && e == WriterError::Storage,
        after.state is Finished,
        after.closed == if writer.disk && sealed is Sealed {
            writer.closed.push(
                ((writer.next_index - 1) as u32, open_bytes(writer.state) as u64),
            )
        } else {
            writer.closed
        },
        sealed !is Failed && opened is PrepareFailed ==> call_ensures(
            discard,
            (writer.next_index,),
            (),
        ),
        after.has_real_events == writer.has_real_events,
        rearmed(writer, after, now),
        same_settings(writer, after),
{
}

/// A finished writer has nothing to rotate.
pub proof fn law_a_finished_writer_rotates_nothing<S, O, D>(
    writer: WriterModel,
    now: u64,
    seal: S,
    open: O,
    discard: D,
    after: WriterModel,
    r: Result<Vec<ClosedSegment>, WriterError>,
) where S: FnOnce(SealRequest) -> SealOutcome, O: FnOnce(u32) -> OpenOutcome, D: FnOnce(u32)
    requires
        writer.timers_fit(now),
        writer.state is Finished,
        rotates(writer, now, seal, open, discard, after, r),
    ensures
        r matches Ok(removed) && removed@.len() == 0,
        after.state is Finished,
        after.closed == writer.closed,
        after.next_index == writer.next_index,
        rearmed(writer, after, now),
        same_settings(writer, after),
{
}

/// A finished writer drops a batch, counts its events, and changes nothing
/// else.
pub proof fn law_a_finished_writer_counts_dropped_events<A, B, S, O, D>(
    writer: WriterModel,
    batch: Batch,
    now: u64,
    describe: A,
    append: B,
    seal: S,
    open: O,
    discard: D,
    after: WriterModel,
    r: Result<Vec<ClosedSegment>, WriterError>,
) where
    A: FnOnce(&Vec<(String, String)>) -> Appended,
    B: FnOnce(&Vec<u8>) -> Appended,
    S: FnOnce(SealRequest) -> SealOutcome,
    O: FnOnce(u32) -> OpenOutcome,
    D: FnOnce(u32),

    requires
        writer.state is Finished,
        writer.dropped_events + batch.event_count <= usize::MAX,
        writes(writer, batch, now, describe, append, seal, open, discard, after, r),
    ensures
        r matches Ok(removed) && removed@.len() == 0,
        after.dropped_events == writer.dropped_events + batch.event_count,
        after == (WriterModel { dropped_events: after.dropped_events, ..writer }),
{
}

/// A batch with events is handed to the storage byte for byte. Once appended,
/// it makes the segment one with real events and gives it its new size; if it
/// could not be appended, the error is passed on. The segment is replaced only
/// if it then exceeds the limit for one file.
pub proof fn law_a_batch_grows_the_open_segment<A, B, S, O, D>(
    writer: WriterModel,
    size: u64,
    batch: Batch,
    now: u64,
    describe: A,
    append: B,
    seal: S,
    open: O,
    discard: D,
    bytes: Seq<u8>,
    appended: Appended,
    after: WriterModel,
    r: Result<Vec<ClosedSegment>, WriterError>,
) where
    A: FnOnce(&Vec<(String, String)>) -> Appended,
    B: FnOnce(&Vec<u8>) -> Appended,
    S: FnOnce(SealRequest) -> SealOutcome,
    O: FnOnce(u32) -> OpenOutcome,
    D: FnOnce(u32),

    requires
        writer.wf(),
        writer.timers_fit(now),
        writer.next_index < u32::MAX,
        writer.state == WriterState::Active(
            ActiveSegment { bytes_written: size, need_metadata: false },
        ),
        batch.event_count > 0,
        forall|b: &Vec<u8>, o: Appended| #[trigger]
            call_ensures(append, (b,), o) ==> b@ == bytes && o == appended,
        writes(writer, batch, now, describe, append, seal, open, discard, after, r),
    ensures
        bytes == batch.encoded_bytes@,
        same_settings(writer, after),
        !appended.ok || appended.bytes_written <= writer.max_file_size ==> {
            &&& after.state == WriterState::Active(
                ActiveSegment { bytes_written: appended.bytes_written, need_metadata: false },
            )
            &&& after.has_real_events == (writer.has_real_events || appended.ok)
            &&& after.closed == writer.closed
            &&& after.next_index == writer.next_index
            &&& after.next_drain_time == writer.next_drain_time
            &&& after.next_rotation_time == writer.next_rotation_time
            &&& appended.ok ==> (r matches Ok(removed) && removed@.len() == 0)
            &&& !appended.ok ==> (r matches Err(e) && e == WriterError::Storage)
        },
        appended.ok && appended.bytes_written > writer.max_file_size ==> {
            &&& rearmed(writer, after, now)
            &&& after.state is Active ==> after.next_index == writer.next_index + 1
                && !after.has_real_events
        },
{
    assert(describes(writer, describe, writer, true));
    let (described, ok) = choose|described: WriterModel, ok: bool| #[trigger]
        describes(writer, describe, described, ok) && if !ok {
            after == described && (r matches Err(WriterError::Storage))
        } else if batch.event_count == 0 {
            after == described && (r matches Ok(removed) && removed@.len() == 0)
        } else {
            appends(
                described,
                batch.encoded_bytes,
                now,
                append,
                seal,
                open,
                discard,
                after,
                r,
            )
        };
    assert(described == writer && ok);
    let grown = writer.grown(appended);
    if appended.ok && appended.bytes_written > writer.max_file_size {
        assert(rotates(grown, now, seal, open, discard, after, r));
        assert(rearmed(grown, after, now));
    }
}

/// A fresh segment gets the metadata entries, all of them, before anything
/// else. If that fails, they stay due and no event is written.
pub proof fn law_a_fresh_segment_is_described_first<A, B, S, O, D>(
    writer: WriterModel,
    size: u64,
    batch: Batch,
    now: u64,
    describe: A,
    append: B,
    seal: S,
    open: O,
    discard: D,
    entries: Seq<(Seq<char>, Seq<char>)>,
    outcome: Appended,
    after: WriterModel,
    r: Result<Vec<ClosedSegment>, WriterError>,
) where
    A: FnOnce(&Vec<(String, String)>) -> Appended,
    B: FnOnce(&Vec<u8>) -> Appended,
    S: FnOnce(SealRequest) -> SealOutcome,
    O: FnOnce(u32) -> OpenOutcome,
    D: FnOnce(u32),

    requires
        writer.state == WriterState::Active(
            ActiveSegment { bytes_written: size, need_metadata: true },
        ),
        forall|e: &Vec<(String, String)>, o: Appended| #[trigger]
            call_ensures(describe, (e,), o) ==> entries_view(e@) == entries && o == outcome,
        writes(writer, batch, now, describe, append, seal, open, discard, after, r),
    ensures
        entries == writer.metadata,
        !outcome.ok || batch.event_count == 0 ==> {
            &&& after == (WriterModel { state: after.state, ..writer })
            &&& after.state == WriterState::Active(
                ActiveSegment {
                    bytes_written: outcome.bytes_written,
                    need_metadata: !outcome.ok,
                },
            )
            &&& outcome.ok ==> (r matches Ok(removed) && removed@.len() == 0)
            &&& !outcome.ok ==> (r matches Err(e) && e == WriterError::Storage)
        },
        outcome.ok && batch.event_count > 0 ==> exists|described: WriterModel| #[trigger]
            appends(
                described,
                batch.encoded_bytes,
                now,
                append,
                seal,
                open,
                discard,
                after,
                r,
            ) && described == (WriterModel {
                state: WriterState::Active(
                    ActiveSegment { bytes_written: outcome.bytes_written, need_metadata: false },
                ),
                ..writer
            }),
{
    let (described, ok) = choose|described: WriterModel, ok: bool| #[trigger]
        describes(writer, describe, described, ok) && if !ok {
            after == described && (r matches Err(WriterError::Storage))
        } else if batch.event_count == 0 {
            after == described && (r matches Ok(removed) && removed@.len() == 0)
        } else {
            appends(
                described,
                batch.encoded_bytes,
                now,
                append,
                seal,
                open,
                discard,
                after,
                r,
            )
        };
    assert(described == writer.described(outcome) && ok == outcome.ok);
}

/// Told of a drain, a writer whose segment holds real events rotates if its
/// rotation deadline has passed, and says so; else it waits another drain
/// interval. A segment without real events is left alone.
pub proof fn law_a_drain_rotates_after_the_deadline<S, O, D>(
    writer: WriterModel,
    now: u64,
    seal: S,
    open: O,
    discard: D,
    after: WriterModel,
    r: Result<(bool, Vec<ClosedSegment>), WriterError>,
) where S: FnOnce(SealRequest) -> SealOutcome, O: FnOnce(u32) -> OpenOutcome, D: FnOnce(u32)
    requires
        writer.timers_fit(now),
        notes_drain(writer, now, seal, open, discard, after, r),
    ensures
        !writer.has_real_events ==> after == writer && (r matches Ok(x) && !x.0 && x.1@.len()
            == 0),
        writer.has_real_events && (writer.next_rotation_time matches Some(deadline) ==> now
            < deadline) ==> {
            &&& r matches Ok(x) && !x.0 && x.1@.len() == 0
            &&& after.next_drain_time == now + writer.drain_interval
            &&& after == (WriterModel { next_drain_time: after.next_drain_time, ..writer })
        },
        writer.has_real_events && (writer.next_rotation_time matches Some(deadline) && now
            >= deadline) ==> {
            &&& rearmed(writer, after, now)
            &&& r matches Ok(x) ==> x.0
            &&& exists|rotated: Result<Vec<ClosedSegment>, WriterError>| #[trigger]
                rotates(writer, now, seal, open, discard, after, rotated) && (rotated is Ok <==> r
                    is Ok) && (r matches Ok(x) ==> x.1@ == rotated->Ok_0@)
        },
{
}

/// Ending a writer whose segment holds real events seals the segment under its
/// index and with its size and gives up what the budget asks for: `k`
/// segments, which may be the sealed one too.
pub proof fn law_finalizing_seals_the_open_segment<S, R>(
    writer: WriterModel,
    size: u64,
    need_metadata: bool,
    seal: S,
    remove: R,
    sealed: SealOutcome,
    after: WriterModel,
    r: Result<Vec<ClosedSegment>, WriterError>,
) -> (k: int) where S: FnOnce(SealRequest) -> SealOutcome, R: FnOnce(u32) -> RemoveOutcome
    requires
        writer.wf(),
        writer.state == WriterState::Active(ActiveSegment { bytes_written: size, need_metadata }),
        writer.has_real_events,
        sealed !is Failed,
        seals_only(seal, writer.next_index - 1, size as nat, sealed),
        finalizes(writer, seal, remove, after, r),
    ensures
        ({
            let all = if writer.disk && sealed is Sealed {
                writer.closed.push(((writer.next_index - 1) as u32, size))
            } else {
                writer.closed
            };
            &&& writer.disk ==> gives_up(all, 0, writer.max_total_size, k)
            &&& !writer.disk ==> k == 0
            &&& r matches Ok(removed) && removed@ == all.take(k)
            &&& after.closed == all.skip(k)
        }),
        after.state is Finished,
        after.writer_done,
        after.next_index == writer.next_index,
        same_settings(writer, after),
{
    let last = WriterModel { state: WriterState::Finished, ..writer }.with_sealed(
        writer.seal_request(),
        sealed,
    );
    let k = law_eviction_gives_up_what_the_budget_asks_for(last);
    if writer.disk {
        k
    } else {
        assert(last.closed.take(0) =~= Seq::empty());
        assert(last.closed.skip(0) =~= last.closed);
        assert(last.given_up() =~= Seq::empty());
        0
    }
}

/// Ending a writer whose segment holds no real events removes the segment and
/// seals nothing; `k` closed segments are given up if the budget asks for it.
pub proof fn law_finalizing_removes_an_empty_segment<S, R>(
    writer: WriterModel,
    seal: S,
    remove: R,
    index: u32,
    outcome: RemoveOutcome,
    after: WriterModel,
    r: Result<Vec<ClosedSegment>, WriterError>,
) -> (k: int) where S: FnOnce(SealRequest) -> SealOutcome, R: FnOnce(u32) -> RemoveOutcome
    requires
        writer.wf(),
        writer.state is Active,
        !writer.has_real_events,
        forall|i: u32, o: RemoveOutcome| #[trigger]
            call_ensures(remove, (i,), o) ==> i == index && o == outcome,
        finalizes(writer, seal, remove, after, r),
    ensures
        index == writer.next_index - 1,
        after.state is Finished,
        after.writer_done,
        same_settings(writer, after),
        outcome is Failed ==> (r matches Err(e) && e == WriterError::Storage) && after.closed
            == writer.closed,
        outcome !is Failed ==> {
            &&& writer.disk ==> gives_up(writer.closed, 0, writer.max_total_size, k)
            &&& !writer.disk ==> k == 0
            &&& r matches Ok(removed) && removed@ == writer.closed.take(k)
            &&& after.closed == writer.closed.skip(k)
        },
{
    let last = WriterModel { state: WriterState::Finished, ..writer };
    let k = law_eviction_gives_up_what_the_budget_asks_for(last);
    if writer.disk {
        k
    } else {
        assert(last.closed.take(0) =~= Seq::empty());
        assert(last.closed.skip(0) =~= last.closed);
        assert(last.given_up() =~= Seq::empty());
        0
    }
}

/// Ending a writer fails if its segment cannot be sealed; the writer is done
/// all the same. A second end changes nothing.
pub proof fn law_finalizing_happens_once<S, R>(
    writer: WriterModel,
    seal: S,
    remove: R,
    after: WriterModel,
    r: Result<Vec<ClosedSegment>, WriterError>,
) where S: FnOnce(SealRequest) -> SealOutcome, R: FnOnce(u32) -> RemoveOutcome
    requires
        finalizes(writer, seal, remove, after, r),
    ensures
        after.state is Finished,
        after.writer_done,
        writer.state is Finished ==> after == (WriterModel { writer_done: true, ..writer }) && (
        r matches Ok(removed) && removed@.len() == 0),
        writer.state is Active && writer.has_real_events && seals_only(
            seal,
            writer.next_index - 1,
            open_bytes(writer.state),
            SealOutcome::Failed,
        ) ==> (r matches Err(e) && e == WriterError::Storage) && after.closed == writer.closed,
{
}

/// A new writer has its first segment open, with nothing but the header in it
/// and the metadata to come, and goes on from there: the next segment gets the
/// next index, the first rotation is due after one period, and the first drain
/// after one period or half a minute, whichever is shorter.
pub proof fn law_a_new_writer_starts_with_an_empty_segment(
    disk: bool,
    max_file_size: u64,
    max_total_size: u64,
    rotation_period: u64,
    metadata: Seq<(Seq<char>, Seq<char>)>,
    closed: Seq<ClosedSegment>,
    first_index: u32,
    header_bytes: u64,
    now: u64,
)
    requires
        first_index < u32::MAX,
        now + 30_000_000_000 <= u64::MAX,
        rotation_period != ROTATION_DISABLED ==> now + rotation_period <= u64::MAX,
    ensures
        ({
            let writer = fresh_writer(
                disk,
                max_file_size,
                max_total_size,
                rotation_period,
                metadata,
                closed,
                first_index,
                header_bytes,
                now,
            );
            &&& writer.state == WriterState::Active(
                ActiveSegment { bytes_written: header_bytes, need_metadata: true },
            )
            &&& !writer.has_real_events && !writer.writer_done && writer.dropped_events == 0
            &&& writer.next_index == first_index + 1
            &&& writer.closed == closed
            &&& writer.metadata == metadata
            &&& writer.disk == disk
            &&& writer.max_file_size == max_file_size
            &&& writer.max_total_size == max_total_size
            &&& writer.rotation_period == rotation_period
            &&& rotation_period == ROTATION_DISABLED ==> writer.next_rotation_time is None
            &&& rotation_period != ROTATION_DISABLED ==> writer.next_rotation_time == Some(
                (now + rotation_period) as u64,
            )
            &&& writer.next_drain_time == now + writer.drain_interval
            &&& writer.drain_interval <= rotation_period
            &&& writer.drain_interval <= 30_000_000_000
            &&& writer.drain_interval == rotation_period || writer.drain_interval
                == 30_000_000_000
        }),
{
}

/// An in-memory configuration is accepted exactly if no size and no period is
/// zero and the total holds three segments, as far as sizes go. A total that is
/// too small is refused with the least one that is not.
pub proof fn law_memory_holds_three_segments(total: u64, segment: u64, period: u64)
    ensures
        memory_config_error(total, segment, period) is None <==> total > 0 && segment > 0 && period
            > 0 && (total >= 3 * segment || total == u64::MAX),
        memory_config_error(total, segment, period) matches Some(
            WriterError::TotalSizeTooSmall { min_total },
        ) ==> {
            &&& memory_config_error(min_total, segment, period) is None
            &&& memory_config_error((min_total - 1) as u64, segment, period) is Some
            &&& total < min_total
        },
        total == 0 ==> memory_config_error(total, segment, period) == Some(
            WriterError::ZeroTotalSize,
        ),
        total > 0 && segment == 0 ==> memory_config_error(total, segment, period) == Some(
            WriterError::ZeroSegmentSize,
        ),
        total > 0 && segment > 0 && period == 0 ==> memory_config_error(total, segment, period)
            == Some(WriterError::ZeroRotationPeriod),
{
}

/// By default four files fit the budget, unless a file has its largest default
/// size, 100 MiB, and a file is as large as that allows. Eight in-memory
/// segments fit the budget, or a segment has a single byte.
pub proof fn law_default_sizes_divide_the_budget(total: u64)
    ensures
        4 * default_file_size(total) <= total,
        default_file_size(total) <= 104_857_600,
        default_file_size(total) < 104_857_600 ==> 4 * (default_file_size(total) + 1) > total,
        default_segment_size(total) >= 1,
        default_segment_size(total) > 1 ==> 8 * default_segment_size(total) <= total,
        8 * (default_segment_size(total) + 1) > total,
{
}

} // verus!
