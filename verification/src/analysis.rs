//! Offline analysis of decoded trace events.
use crate::analysis_events::{CpuSampleSource, Dial9Event, WorkerId};
use std::collections::HashMap;
use vstd::hash_map::StringHashMap;
use vstd::prelude::*;

verus! {

broadcast use vstd::std_specs::hash::group_hash_axioms;

/// Aggregated statistics for a single Tokio worker thread.
#[derive(Debug, Clone, Copy)]
pub struct WorkerStats {
    /// Number of task polls executed by this worker.
    pub poll_count: usize,
    /// Number of times this worker parked (went idle).
    pub park_count: usize,
    /// Number of times this worker was unparked (resumed).
    pub unpark_count: usize,
    /// Cumulative time spent polling tasks, in nanoseconds.
    pub total_poll_time_ns: u64,
    /// Maximum observed local queue depth for this worker.
    pub max_local_queue: usize,
    /// Maximum OS scheduling wait observed during any single unpark, in nanoseconds.
    pub max_sched_wait_ns: u64,
    /// Cumulative OS scheduling wait across all unparks, in nanoseconds.
    pub total_sched_wait_ns: u64,
}

impl Default for WorkerStats {
    fn default() -> (r: Self)
        ensures
            r.poll_count == 0,
            r.park_count == 0,
            r.unpark_count == 0,
            r.total_poll_time_ns == 0,
            r.max_local_queue == 0,
            r.max_sched_wait_ns == 0,
            r.total_sched_wait_ns == 0,
    {
        WorkerStats {
            poll_count: 0,
            park_count: 0,
            unpark_count: 0,
            total_poll_time_ns: 0,
            max_local_queue: 0,
            max_sched_wait_ns: 0,
            total_sched_wait_ns: 0,
        }
    }
}

/// Aggregated poll statistics for a single spawn location.
#[derive(Debug, Clone, Copy)]
pub struct SpawnLocationStats {
    /// Number of polls from tasks spawned at this location.
    pub poll_count: usize,
    /// Cumulative poll time for tasks from this location, in nanoseconds.
    pub total_poll_time_ns: u64,
}

impl Default for SpawnLocationStats {
    fn default() -> (r: Self)
        ensures
            r.poll_count == 0,
            r.total_poll_time_ns == 0,
    {
        SpawnLocationStats { poll_count: 0, total_poll_time_ns: 0 }
    }
}

/// Summary of a decoded trace: event counts, timing, and per-worker statistics.
///
/// The mean global queue depth is `global_queue_sum / global_queue_samples`.
pub struct TraceAnalysis {
    /// Total number of events in the trace.
    pub total_events: usize,
    /// Wall-clock duration of the trace in nanoseconds.
    pub duration_ns: u64,
    /// Per-worker aggregated statistics, by raw worker id.
    pub worker_stats: HashMap<u64, WorkerStats>,
    /// Maximum observed global queue depth across all samples.
    pub max_global_queue: usize,
    /// Sum of the observed global queue depths.
    pub global_queue_sum: u64,
    /// Number of global queue samples.
    pub global_queue_samples: u64,
    /// Per-spawn-location statistics.
    pub spawn_location_stats: StringHashMap<SpawnLocationStats>,
}

/// `a - b`, or zero if `b` is larger.
pub open spec fn elapsed(a: u64, b: u64) -> nat {
    if a >= b {
        (a - b) as nat
    } else {
        0
    }
}

/// The timestamp an event carries.
pub open spec fn timestamp_of(ev: Dial9Event) -> Option<u64> {
    match ev {
        Dial9Event::PollStartEvent(e) => Some(e.timestamp_ns),
        Dial9Event::PollEndEvent(e) => Some(e.timestamp_ns),
        Dial9Event::WorkerParkEvent(e) => Some(e.timestamp_ns),
        Dial9Event::WorkerUnparkEvent(e) => Some(e.timestamp_ns),
        Dial9Event::QueueSampleEvent(e) => Some(e.timestamp_ns),
        Dial9Event::TaskSpawnEvent(e) => Some(e.timestamp_ns),
        Dial9Event::TaskTerminateEvent(e) => Some(e.timestamp_ns),
        Dial9Event::CpuSampleEvent(e) => Some(e.timestamp_ns),
        Dial9Event::TaskDumpEvent(e) => Some(e.timestamp_ns),
        Dial9Event::WakeEvent(e) => Some(e.timestamp_ns),
        Dial9Event::SegmentMetadataEvent(e) => Some(e.timestamp_ns),
        Dial9Event::ClockSyncEvent(e) => Some(e.timestamp_ns),
        Dial9Event::AllocEvent(e) => Some(e.timestamp_ns),
        Dial9Event::FreeEvent(e) => Some(e.timestamp_ns),
        Dial9Event::ProcessResourceUsageEvent(e) => Some(e.timestamp_ns),
        Dial9Event::SocketAcceptQueueEvent(e) => Some(e.timestamp_ns),
        Dial9Event::Custom(e) => e.timestamp_ns,
        Dial9Event::Other => None,
    }
}

/// The timestamp of an event, if it has one.
pub fn event_timestamp(ev: &Dial9Event) -> (r: Option<u64>)
    ensures
        r == timestamp_of(*ev),
{
    match ev {
        Dial9Event::PollStartEvent(e) => Some(e.timestamp_ns),
        Dial9Event::PollEndEvent(e) => Some(e.timestamp_ns),
        Dial9Event::WorkerParkEvent(e) => Some(e.timestamp_ns),
        Dial9Event::WorkerUnparkEvent(e) => Some(e.timestamp_ns),
        Dial9Event::QueueSampleEvent(e) => Some(e.timestamp_ns),
        Dial9Event::TaskSpawnEvent(e) => Some(e.timestamp_ns),
        Dial9Event::TaskTerminateEvent(e) => Some(e.timestamp_ns),
        Dial9Event::CpuSampleEvent(e) => Some(e.timestamp_ns),
        Dial9Event::TaskDumpEvent(e) => Some(e.timestamp_ns),
        Dial9Event::WakeEvent(e) => Some(e.timestamp_ns),
        Dial9Event::SegmentMetadataEvent(e) => Some(e.timestamp_ns),
        Dial9Event::ClockSyncEvent(e) => Some(e.timestamp_ns),
        Dial9Event::AllocEvent(e) => Some(e.timestamp_ns),
        Dial9Event::FreeEvent(e) => Some(e.timestamp_ns),
        Dial9Event::ProcessResourceUsageEvent(e) => Some(e.timestamp_ns),
        Dial9Event::SocketAcceptQueueEvent(e) => Some(e.timestamp_ns),
        Dial9Event::Custom(e) => e.timestamp_ns,
        Dial9Event::Other => None,
    }
}

// ---------------------------------------------------------------------------
// Global queue depth over time
// ---------------------------------------------------------------------------

/// The timeline is in timestamp order.
pub open spec fn timeline_sorted(timeline: Seq<(u64, usize)>) -> bool {
    forall|i: int, j: int| 0 <= i <= j < timeline.len() ==> timeline[i].0 <= timeline[j].0
}

/// How many entries of a sorted timeline lie at or before `timestamp`.
pub open spec fn entries_until(timeline: Seq<(u64, usize)>, timestamp: u64) -> nat
    decreases timeline.len(),
{
    if timeline.len() == 0 {
        0
    } else if timeline.last().0 <= timestamp {
        timeline.len()
    } else {
        entries_until(timeline.drop_last(), timestamp)
    }
}

/// The depth of the most recent entry at or before `timestamp`, or zero.
pub open spec fn depth_at(timeline: Seq<(u64, usize)>, timestamp: u64) -> usize {
    let n = entries_until(timeline, timestamp);
    if n == 0 {
        0
    } else {
        timeline[n - 1].1
    }
}

/// The timeline of the first `n` events: each queue sample is placed after
/// every sample that is not later, so samples of one instant keep their order.
pub open spec fn queue_timeline(events: Seq<Dial9Event>, n: int) -> Seq<(u64, usize)>
    decreases n,
{
    if n <= 0 {
        Seq::empty()
    } else {
        let before = queue_timeline(events, n - 1);
        match events[n - 1] {
            Dial9Event::QueueSampleEvent(q) => before.insert(
                entries_until(before, q.timestamp_ns) as int,
                (q.timestamp_ns, q.global_queue as usize),
            ),
            _ => before,
        }
    }
}

pub(crate) proof fn lemma_entries_until(timeline: Seq<(u64, usize)>, timestamp: u64)
    requires
        timeline_sorted(timeline),
    ensures
        entries_until(timeline, timestamp) <= timeline.len(),
        forall|i: int|
            0 <= i < timeline.len() ==> (timeline[i].0 <= timestamp <==> i < entries_until(
                timeline,
                timestamp,
            )),
    decreases timeline.len(),
{
    if timeline.len() > 0 && timeline.last().0 > timestamp {
        lemma_entries_until(timeline.drop_last(), timestamp);
        assert forall|i: int| 0 <= i < timeline.len() implies (timeline[i].0 <= timestamp <==> i
            < entries_until(timeline, timestamp)) by {
            if i < timeline.len() - 1 {
                assert(timeline.drop_last()[i] == timeline[i]);
            }
        }
    }
}

fn upper_bound(timeline: &Vec<(u64, usize)>, timestamp: u64) -> (r: usize)
    requires
        timeline_sorted(timeline@),
    ensures
        r == entries_until(timeline@, timestamp),
        r <= timeline.len(),
{
    proof {
        lemma_entries_until(timeline@, timestamp);
    }
    let mut lo: usize = 0;
    let mut hi: usize = timeline.len();
    while lo < hi
        invariant
            lo <= hi <= timeline.len(),
            lo <= entries_until(timeline@, timestamp) <= hi,
            forall|i: int|
                0 <= i < timeline@.len() ==> (timeline@[i].0 <= timestamp <==> i < entries_until(
                    timeline@,
                    timestamp,
                )),
        decreases hi - lo,
    {
        let mid: usize = lo + (hi - lo) / 2;
        if timeline[mid].0 <= timestamp {
            lo = mid + 1;
        } else {
            hi = mid;
        }
    }
    lo
}

/// Builds the list of (timestamp, depth) pairs of the queue samples, in
/// timestamp order.
pub fn build_global_queue_timeline(events: &[Dial9Event]) -> (timeline: Vec<(u64, usize)>)
    ensures
        timeline@ == queue_timeline(events@, events@.len() as int),
        timeline_sorted(timeline@),
{
    let mut timeline: Vec<(u64, usize)> = Vec::new();
    let mut i: usize = 0;
    while i < events.len()
        invariant
            i <= events.len(),
            timeline@ == queue_timeline(events@, i as int),
            timeline_sorted(timeline@),
        decreases events.len() - i,
    {
        if let Dial9Event::QueueSampleEvent(q) = &events[i] {
            let pos: usize = upper_bound(&timeline, q.timestamp_ns);
            proof {
                lemma_entries_until(timeline@, q.timestamp_ns);
            }
            timeline.insert(pos, (q.timestamp_ns, q.global_queue as usize));
        }
        i = i + 1;
    }
    timeline
}

/// Looks up the most recent global queue depth at or before `timestamp`.
/// Returns 0 if no sample has been recorded yet.
pub fn lookup_global_queue_depth(timeline: &Vec<(u64, usize)>, timestamp: u64) -> (depth: usize)
    requires
        timeline_sorted(timeline@),
    ensures
        depth == depth_at(timeline@, timestamp),
{
    let n: usize = upper_bound(timeline, timestamp);
    if n == 0 {
        0
    } else {
        timeline[n - 1].1
    }
}

// ---------------------------------------------------------------------------
// Trace summary
// ---------------------------------------------------------------------------

/// The worker an event is accounted to in the per-worker statistics.
pub open spec fn stats_worker(ev: Dial9Event) -> Option<u64> {
    match ev {
        Dial9Event::PollStartEvent(e) => Some(e.worker_id.0),
        Dial9Event::PollEndEvent(e) => Some(e.worker_id.0),
        Dial9Event::WorkerParkEvent(e) => Some(e.worker_id.0),
        Dial9Event::WorkerUnparkEvent(e) => Some(e.worker_id.0),
        _ => None,
    }
}

/// Whether one of the first `n` events is accounted to worker `w`.
pub open spec fn worker_seen(events: Seq<Dial9Event>, n: int, w: u64) -> bool {
    exists|i: int| 0 <= i < n && #[trigger] stats_worker(events[i]) == Some(w)
}

/// How many of the first `n` events satisfy `p`.
pub open spec fn count_of(events: Seq<Dial9Event>, n: int, p: spec_fn(Dial9Event) -> bool) -> nat
    decreases n,
{
    if n <= 0 {
        0
    } else {
        count_of(events, n - 1, p) + if p(events[n - 1]) {
            1nat
        } else {
            0nat
        }
    }
}

/// The largest value of `f` over the first `n` events (zero if there are none).
pub open spec fn max_of(events: Seq<Dial9Event>, n: int, f: spec_fn(Dial9Event) -> nat) -> nat
    decreases n,
{
    if n <= 0 {
        0
    } else {
        let before = max_of(events, n - 1, f);
        if f(events[n - 1]) > before {
            f(events[n - 1])
        } else {
            before
        }
    }
}

/// The sum of `f` over the first `n` events.
pub open spec fn sum_of(events: Seq<Dial9Event>, n: int, f: spec_fn(Dial9Event) -> nat) -> nat
    decreases n,
{
    if n <= 0 {
        0
    } else {
        sum_of(events, n - 1, f) + f(events[n - 1])
    }
}

pub open spec fn is_poll_start_of(w: u64) -> spec_fn(Dial9Event) -> bool {
    |ev: Dial9Event| ev matches Dial9Event::PollStartEvent(e) && e.worker_id.0 == w
}

pub open spec fn is_park_of(w: u64) -> spec_fn(Dial9Event) -> bool {
    |ev: Dial9Event| ev matches Dial9Event::WorkerParkEvent(e) && e.worker_id.0 == w
}

pub open spec fn is_unpark_of(w: u64) -> spec_fn(Dial9Event) -> bool {
    |ev: Dial9Event| ev matches Dial9Event::WorkerUnparkEvent(e) && e.worker_id.0 == w
}

pub open spec fn is_queue_sample() -> spec_fn(Dial9Event) -> bool {
    |ev: Dial9Event| ev is QueueSampleEvent
}

pub open spec fn is_poll_start_at(loc: Seq<char>) -> spec_fn(Dial9Event) -> bool {
    |ev: Dial9Event| ev matches Dial9Event::PollStartEvent(e) && e.spawn_loc@ == loc
}

/// The local queue depth an event reports for worker `w`.
pub open spec fn local_queue_of(w: u64) -> spec_fn(Dial9Event) -> nat {
    |ev: Dial9Event|
        match ev {
            Dial9Event::PollStartEvent(e) if e.worker_id.0 == w => e.local_queue as nat,
            Dial9Event::WorkerParkEvent(e) if e.worker_id.0 == w => e.local_queue as nat,
            Dial9Event::WorkerUnparkEvent(e) if e.worker_id.0 == w => e.local_queue as nat,
            _ => 0,
        }
}

/// The OS scheduling wait an event reports for worker `w`.
pub open spec fn sched_wait_of(w: u64) -> spec_fn(Dial9Event) -> nat {
    |ev: Dial9Event|
        match ev {
            Dial9Event::WorkerUnparkEvent(e) if e.worker_id.0 == w => e.sched_wait_ns as nat,
            _ => 0,
        }
}

/// The global queue depth an event reports.
pub open spec fn global_queue_of() -> spec_fn(Dial9Event) -> nat {
    |ev: Dial9Event|
        match ev {
            Dial9Event::QueueSampleEvent(e) => e.global_queue as nat,
            _ => 0,
        }
}

/// When worker `w` last began a poll within the first `n` events.
pub open spec fn last_poll_start(events: Seq<Dial9Event>, n: int, w: u64) -> Option<u64>
    decreases n,
{
    if n <= 0 {
        None
    } else {
        match events[n - 1] {
            Dial9Event::PollStartEvent(e) if e.worker_id.0 == w => Some(e.timestamp_ns),
            _ => last_poll_start(events, n - 1, w),
        }
    }
}

/// The poll time that event `n` adds to worker `w`: the time since the
/// worker's last poll start, if the event ends a poll of that worker.
pub open spec fn poll_time_at(events: Seq<Dial9Event>, n: int, w: u64) -> nat {
    match events[n] {
        Dial9Event::PollEndEvent(e) if e.worker_id.0 == w => match last_poll_start(events, n, w) {
            Some(start) => elapsed(e.timestamp_ns, start),
            None => 0,
        },
        _ => 0,
    }
}

/// The time worker `w` spent polling within the first `n` events.
pub open spec fn total_poll_time(events: Seq<Dial9Event>, n: int, w: u64) -> nat
    decreases n,
{
    if n <= 0 {
        0
    } else {
        total_poll_time(events, n - 1, w) + poll_time_at(events, n - 1, w)
    }
}

/// The spawn location that the next poll end of worker `w` is charged to.
pub open spec fn pending_location(events: Seq<Dial9Event>, n: int, w: u64) -> Option<Seq<char>>
    decreases n,
{
    if n <= 0 {
        None
    } else {
        match events[n - 1] {
            Dial9Event::PollStartEvent(e) if e.worker_id.0 == w && e.spawn_loc@.len() > 0 => Some(
                e.spawn_loc@,
            ),
            Dial9Event::PollEndEvent(e) if e.worker_id.0 == w => None,
            _ => pending_location(events, n - 1, w),
        }
    }
}

/// The poll time that event `n` adds to spawn location `loc`.
pub open spec fn location_time_at(events: Seq<Dial9Event>, n: int, loc: Seq<char>) -> nat {
    match events[n] {
        Dial9Event::PollEndEvent(e) if pending_location(events, n, e.worker_id.0) == Some(loc) =>
            poll_time_at(events, n, e.worker_id.0),
        _ => 0,
    }
}

/// The poll time charged to spawn location `loc` within the first `n` events.
pub open spec fn location_poll_time(events: Seq<Dial9Event>, n: int, loc: Seq<char>) -> nat
    decreases n,
{
    if n <= 0 {
        0
    } else {
        location_poll_time(events, n - 1, loc) + location_time_at(events, n - 1, loc)
    }
}

/// `stats` is the account of worker `w` over the first `n` events.
pub open spec fn is_worker_account(
    stats: WorkerStats,
    events: Seq<Dial9Event>,
    n: int,
    w: u64,
) -> bool {
    &&& stats.poll_count == count_of(events, n, is_poll_start_of(w))
    &&& stats.park_count == count_of(events, n, is_park_of(w))
    &&& stats.unpark_count == count_of(events, n, is_unpark_of(w))
    &&& stats.total_poll_time_ns == total_poll_time(events, n, w)
    &&& stats.max_local_queue == max_of(events, n, local_queue_of(w))
    &&& stats.max_sched_wait_ns == max_of(events, n, sched_wait_of(w))
    &&& stats.total_sched_wait_ns == sum_of(events, n, sched_wait_of(w))
}

/// `stats` is the account of spawn location `loc` over the first `n` events.
pub open spec fn is_location_account(
    stats: SpawnLocationStats,
    events: Seq<Dial9Event>,
    n: int,
    loc: Seq<char>,
) -> bool {
    &&& stats.poll_count == count_of(events, n, is_poll_start_at(loc))
    &&& stats.total_poll_time_ns == location_poll_time(events, n, loc)
}

/// The per-worker table holds exactly the workers seen, each with its account.
pub open spec fn worker_table_ok(
    table: Map<u64, WorkerStats>,
    events: Seq<Dial9Event>,
    n: int,
) -> bool {
    &&& forall|w: u64| #[trigger] table.contains_key(w) <==> worker_seen(events, n, w)
    &&& forall|w: u64| #[trigger] table.contains_key(w) ==> is_worker_account(table[w], events, n, w)
}

/// The location table holds exactly the non-empty locations that some poll
/// began at, each with its account.
pub open spec fn location_table_ok(
    table: Map<Seq<char>, SpawnLocationStats>,
    events: Seq<Dial9Event>,
    n: int,
) -> bool {
    &&& forall|loc: Seq<char>| #[trigger]
        table.contains_key(loc) <==> (loc.len() > 0 && count_of(events, n, is_poll_start_at(loc))
            > 0)
    &&& forall|loc: Seq<char>| #[trigger]
        table.contains_key(loc) ==> is_location_account(table[loc], events, n, loc)
}

/// No statistic of the trace exceeds the range of its counter.
pub open spec fn totals_fit(events: Seq<Dial9Event>) -> bool {
    let n = events.len() as int;
    &&& 255 * events.len() <= u64::MAX
    &&& forall|w: u64| #[trigger] total_poll_time(events, n, w) <= u64::MAX
    &&& forall|w: u64| #[trigger] sum_of(events, n, sched_wait_of(w)) <= u64::MAX
    &&& forall|loc: Seq<char>| #[trigger] location_poll_time(events, n, loc) <= u64::MAX
}

pub(crate) proof fn lemma_count_bound(events: Seq<Dial9Event>, n: int, p: spec_fn(Dial9Event) -> bool)
    requires
        0 <= n,
    ensures
        count_of(events, n, p) <= n,
    decreases n,
{
    if n > 0 {
        lemma_count_bound(events, n - 1, p);
    }
}

proof fn lemma_sum_mono(events: Seq<Dial9Event>, i: int, n: int, f: spec_fn(Dial9Event) -> nat)
    requires
        i <= n,
    ensures
        sum_of(events, i, f) <= sum_of(events, n, f),
    decreases n - i,
{
    if i < n {
        lemma_sum_mono(events, i, n - 1, f);
    }
}

proof fn lemma_poll_time_mono(events: Seq<Dial9Event>, i: int, n: int, w: u64)
    requires
        i <= n,
    ensures
        total_poll_time(events, i, w) <= total_poll_time(events, n, w),
    decreases n - i,
{
    if i < n {
        lemma_poll_time_mono(events, i, n - 1, w);
    }
}

proof fn lemma_location_time_mono(events: Seq<Dial9Event>, i: int, n: int, loc: Seq<char>)
    requires
        i <= n,
    ensures
        location_poll_time(events, i, loc) <= location_poll_time(events, n, loc),
    decreases n - i,
{
    if i < n {
        lemma_location_time_mono(events, i, n - 1, loc);
    }
}

/// A location waiting to be charged was recorded by an earlier poll start of
/// the same worker.
proof fn lemma_pending_known(events: Seq<Dial9Event>, n: int, w: u64)
    ensures
        pending_location(events, n, w) matches Some(loc) ==> {
            &&& loc.len() > 0
            &&& count_of(events, n, is_poll_start_at(loc)) > 0
            &&& last_poll_start(events, n, w) is Some
        },
    decreases n,
{
    if n > 0 {
        lemma_pending_known(events, n - 1, w);
    }
}

proof fn lemma_unseen(events: Seq<Dial9Event>, n: int, w: u64)
    requires
        !worker_seen(events, n, w),
    ensures
        count_of(events, n, is_poll_start_of(w)) == 0,
        count_of(events, n, is_park_of(w)) == 0,
        count_of(events, n, is_unpark_of(w)) == 0,
        total_poll_time(events, n, w) == 0,
        max_of(events, n, local_queue_of(w)) == 0,
        max_of(events, n, sched_wait_of(w)) == 0,
        sum_of(events, n, sched_wait_of(w)) == 0,
        last_poll_start(events, n, w) is None,
    decreases n,
{
    if n > 0 {
        assert(stats_worker(events[n - 1]) != Some(w));
        assert forall|i: int| 0 <= i < n - 1 implies #[trigger] stats_worker(events[i]) != Some(
            w,
        ) by {}
        lemma_unseen(events, n - 1, w);
    }
}

proof fn lemma_no_starts_no_time(events: Seq<Dial9Event>, n: int, loc: Seq<char>)
    requires
        count_of(events, n, is_poll_start_at(loc)) == 0,
    ensures
        location_poll_time(events, n, loc) == 0,
    decreases n,
{
    if n > 0 {
        lemma_no_starts_no_time(events, n - 1, loc);
        if let Dial9Event::PollEndEvent(e) = events[n - 1] {
            lemma_pending_known(events, n - 1, e.worker_id.0);
        }
    }
}

proof fn lemma_queue_sum_bound(events: Seq<Dial9Event>, n: int)
    requires
        0 <= n,
    ensures
        sum_of(events, n, global_queue_of()) <= 255 * n,
        max_of(events, n, global_queue_of()) <= 255,
    decreases n,
{
    if n > 0 {
        lemma_queue_sum_bound(events, n - 1);
    }
}

fn stats_entry(table: &HashMap<u64, WorkerStats>, w: u64) -> (stats: WorkerStats)
    ensures
        table@.contains_key(w) ==> stats == table@[w],
        !table@.contains_key(w) ==> stats == (WorkerStats {
            poll_count: 0,
            park_count: 0,
            unpark_count: 0,
            total_poll_time_ns: 0,
            max_local_queue: 0,
            max_sched_wait_ns: 0,
            total_sched_wait_ns: 0,
        }),
{
    match table.get(&w) {
        Some(stats) => *stats,
        None => WorkerStats::default(),
    }
}

fn location_entry(table: &StringHashMap<SpawnLocationStats>, loc: &String) -> (stats:
    SpawnLocationStats)
    ensures
        table@.contains_key(loc@) ==> stats == table@[loc@],
        !table@.contains_key(loc@) ==> stats == (SpawnLocationStats {
            poll_count: 0,
            total_poll_time_ns: 0,
        }),
{
    match table.get(loc.as_str()) {
        Some(stats) => *stats,
        None => SpawnLocationStats::default(),
    }
}

fn larger(a: usize, b: usize) -> (r: usize)
    ensures
        r == if a >= b {
            a
        } else {
            b
        },
{
    if a >= b {
        a
    } else {
        b
    }
}

proof fn lemma_worker_table_step(
    table: Map<u64, WorkerStats>,
    events: Seq<Dial9Event>,
    i: int,
    w: u64,
    stats: WorkerStats,
)
    requires
        0 <= i < events.len(),
        worker_table_ok(table, events, i),
        stats_worker(events[i]) == Some(w),
        is_worker_account(stats, events, i + 1, w),
    ensures
        worker_table_ok(table.insert(w, stats), events, i + 1),
{
    let next = table.insert(w, stats);
    assert forall|x: u64| #[trigger] next.contains_key(x) <==> worker_seen(events, i + 1, x) by {
        lemma_seen_step(events, i, x);
    }
    assert forall|x: u64| #[trigger] next.contains_key(x) implies is_worker_account(
        next[x],
        events,
        i + 1,
        x,
    ) by {
        if x != w {
            assert(table.contains_key(x));
        }
    }
}

proof fn lemma_worker_table_kept(table: Map<u64, WorkerStats>, events: Seq<Dial9Event>, i: int)
    requires
        0 <= i < events.len(),
        worker_table_ok(table, events, i),
        stats_worker(events[i]) is None,
    ensures
        worker_table_ok(table, events, i + 1),
{
    assert forall|x: u64| #[trigger] table.contains_key(x) <==> worker_seen(events, i + 1, x) by {
        lemma_seen_step(events, i, x);
    }
    assert forall|x: u64| #[trigger] table.contains_key(x) implies is_worker_account(
        table[x],
        events,
        i + 1,
        x,
    ) by {}
}

proof fn lemma_seen_step(events: Seq<Dial9Event>, i: int, w: u64)
    requires
        0 <= i < events.len(),
    ensures
        worker_seen(events, i + 1, w) <==> (worker_seen(events, i, w) || stats_worker(events[i])
            == Some(w)),
{
    if worker_seen(events, i, w) {
        let k = choose|k: int| 0 <= k < i && #[trigger] stats_worker(events[k]) == Some(w);
        assert(0 <= k < i + 1 && stats_worker(events[k]) == Some(w));
    }
}

proof fn lemma_location_table_kept(
    table: Map<Seq<char>, SpawnLocationStats>,
    events: Seq<Dial9Event>,
    i: int,
)
    requires
        0 <= i < events.len(),
        location_table_ok(table, events, i),
        forall|loc: Seq<char>|
            loc.len() > 0 ==> #[trigger] location_time_at(events, i, loc) == 0
                && !is_poll_start_at(loc)(events[i]),
    ensures
        location_table_ok(table, events, i + 1),
{
    assert forall|loc: Seq<char>| loc.len() > 0 implies #[trigger] count_of(
        events,
        i + 1,
        is_poll_start_at(loc),
    ) == count_of(events, i, is_poll_start_at(loc)) by {
        assert(location_time_at(events, i, loc) == 0);
    }
    assert forall|loc: Seq<char>| #[trigger] table.contains_key(loc) implies is_location_account(
        table[loc],
        events,
        i + 1,
        loc,
    ) by {
        assert(location_time_at(events, i, loc) == 0);
    }
}

proof fn lemma_location_table_step(
    table: Map<Seq<char>, SpawnLocationStats>,
    events: Seq<Dial9Event>,
    i: int,
    loc: Seq<char>,
    stats: SpawnLocationStats,
)
    requires
        0 <= i < events.len(),
        location_table_ok(table, events, i),
        loc.len() > 0,
        count_of(events, i + 1, is_poll_start_at(loc)) > 0,
        is_location_account(stats, events, i + 1, loc),
        forall|other: Seq<char>|
            other != loc ==> #[trigger] location_time_at(events, i, other) == 0
                && !is_poll_start_at(other)(events[i]),
    ensures
        location_table_ok(table.insert(loc, stats), events, i + 1),
{
    let next = table.insert(loc, stats);
    assert forall|other: Seq<char>| #[trigger]
        next.contains_key(other) <==> (other.len() > 0 && count_of(
            events,
            i + 1,
            is_poll_start_at(other),
        ) > 0) by {
        if other != loc {
            assert(location_time_at(events, i, other) == 0);
            assert(table.contains_key(other) <==> next.contains_key(other));
        }
    }
    assert forall|other: Seq<char>| #[trigger] next.contains_key(other) implies is_location_account(
        next[other],
        events,
        i + 1,
        other,
    ) by {
        if other != loc {
            assert(location_time_at(events, i, other) == 0);
            assert(table.contains_key(other));
        }
    }
}

/// What [`analyze_trace`] reports for a trace.
pub open spec fn is_analysis_of(analysis: TraceAnalysis, events: Seq<Dial9Event>) -> bool {
    let n = events.len() as int;
    if n == 0 || timestamp_of(events[0]) is None || timestamp_of(events[n - 1]) is None {
        &&& analysis.total_events == 0
        &&& analysis.duration_ns == 0
        &&& analysis.worker_stats@ == Map::<u64, WorkerStats>::empty()
        &&& analysis.max_global_queue == 0
        &&& analysis.global_queue_sum == 0
        &&& analysis.global_queue_samples == 0
        &&& analysis.spawn_location_stats@ == Map::<Seq<char>, SpawnLocationStats>::empty()
    } else {
        &&& analysis.total_events == n
        &&& analysis.duration_ns == elapsed(
            timestamp_of(events[n - 1])->0,
            timestamp_of(events[0])->0,
        )
        &&& worker_table_ok(analysis.worker_stats@, events, n)
        &&& analysis.max_global_queue == max_of(events, n, global_queue_of())
        &&& analysis.global_queue_sum == sum_of(events, n, global_queue_of())
        &&& analysis.global_queue_samples == count_of(events, n, is_queue_sample())
        &&& location_table_ok(analysis.spawn_location_stats@, events, n)
    }
}

fn empty_analysis() -> (r: TraceAnalysis)
    ensures
        r.total_events == 0,
        r.duration_ns == 0,
        r.worker_stats@ == Map::<u64, WorkerStats>::empty(),
        r.max_global_queue == 0,
        r.global_queue_sum == 0,
        r.global_queue_samples == 0,
        r.spawn_location_stats@ == Map::<Seq<char>, SpawnLocationStats>::empty(),
{
    TraceAnalysis {
        total_events: 0,
        duration_ns: 0,
        worker_stats: HashMap::new(),
        max_global_queue: 0,
        global_queue_sum: 0,
        global_queue_samples: 0,
        spawn_location_stats: StringHashMap::new(),
    }
}

/// The running poll bookkeeping agrees with the first `n` events.
pub open spec fn open_polls_ok(
    poll_starts: Map<u64, u64>,
    poll_start_locs: Map<u64, String>,
    events: Seq<Dial9Event>,
    n: int,
) -> bool {
    &&& forall|w: u64| #[trigger]
        poll_starts.contains_key(w) <==> last_poll_start(events, n, w) is Some
    &&& forall|w: u64| #[trigger]
        poll_starts.contains_key(w) ==> last_poll_start(events, n, w) == Some(poll_starts[w])
    &&& forall|w: u64| #[trigger]
        poll_start_locs.contains_key(w) <==> pending_location(events, n, w) is Some
    &&& forall|w: u64| #[trigger]
        poll_start_locs.contains_key(w) ==> pending_location(events, n, w) == Some(
            poll_start_locs[w]@,
        )
}

/// Analyzes a slice of telemetry events and produces a [`TraceAnalysis`] summary.
///
/// The summary is empty when the first or the last event has no timestamp.
pub fn analyze_trace(events: &[Dial9Event]) -> (analysis: TraceAnalysis)
    requires
        totals_fit(events@),
    ensures
        is_analysis_of(analysis, events@),
{
    let len: usize = events.len();
    if len == 0 {
        return empty_analysis();
    }
    let start_time: u64 = match event_timestamp(&events[0]) {
        Some(t) => t,
        None => return empty_analysis(),
    };
    let end_time: u64 = match event_timestamp(&events[len - 1]) {
        Some(t) => t,
        None => return empty_analysis(),
    };
    let mut worker_stats: HashMap<u64, WorkerStats> = HashMap::new();
    let mut poll_starts: HashMap<u64, u64> = HashMap::new();
    let mut poll_start_locs: HashMap<u64, String> = HashMap::new();
    let mut spawn_location_stats: StringHashMap<SpawnLocationStats> = StringHashMap::new();
    let mut max_global_queue: usize = 0;
    let mut global_queue_sum: u64 = 0;
    let mut global_queue_count: u64 = 0;
    let mut i: usize = 0;
    while i < len
        invariant
            len == events@.len(),
            i <= len,
            totals_fit(events@),
            worker_table_ok(worker_stats@, events@, i as int),
            location_table_ok(spawn_location_stats@, events@, i as int),
            open_polls_ok(poll_starts@, poll_start_locs@, events@, i as int),
            max_global_queue == max_of(events@, i as int, global_queue_of()),
            global_queue_sum == sum_of(events@, i as int, global_queue_of()),
            global_queue_count == count_of(events@, i as int, is_queue_sample()),
        decreases len - i,
    {
        proof {
            lemma_queue_sum_bound(events@, i as int + 1);
            lemma_count_bound(events@, i as int + 1, is_queue_sample());
        }
        let ghost table0 = worker_stats@;
        let ghost locs0 = spawn_location_stats@;
        match &events[i] {
            Dial9Event::QueueSampleEvent(q) => {
                let depth: usize = q.global_queue as usize;
                max_global_queue = larger(max_global_queue, depth);
                global_queue_sum = global_queue_sum + depth as u64;
                global_queue_count = global_queue_count + 1;
                proof {
                    lemma_worker_table_kept(table0, events@, i as int);
                    lemma_location_table_kept(locs0, events@, i as int);
                }
            },
            Dial9Event::PollStartEvent(e) => {
                let wid: u64 = e.worker_id.0;
                let mut stats = stats_entry(&worker_stats, wid);
                proof {
                    if !table0.contains_key(wid) {
                        lemma_unseen(events@, i as int, wid);
                    }
                    lemma_count_bound(events@, i as int, is_poll_start_of(wid));
                    lemma_count_bound(events@, i as int, is_poll_start_at(e.spawn_loc@));
                }
                stats.max_local_queue = larger(stats.max_local_queue, e.local_queue as usize);
                stats.poll_count = stats.poll_count + 1;
                worker_stats.insert(wid, stats);
                poll_starts.insert(wid, e.timestamp_ns);
                proof {
                    lemma_worker_table_step(table0, events@, i as int, wid, stats);
                }
                if !e.spawn_loc.as_str().is_empty() {
                    let mut at = location_entry(&spawn_location_stats, &e.spawn_loc);
                    proof {
                        if !locs0.contains_key(e.spawn_loc@) {
                            lemma_no_starts_no_time(events@, i as int, e.spawn_loc@);
                        }
                    }
                    at.poll_count = at.poll_count + 1;
                    spawn_location_stats.insert(e.spawn_loc.clone(), at);
                    poll_start_locs.insert(wid, e.spawn_loc.clone());
                    proof {
                        lemma_location_table_step(locs0, events@, i as int, e.spawn_loc@, at);
                    }
                } else {
                    proof {
                        lemma_location_table_kept(locs0, events@, i as int);
                    }
                }
            },
            Dial9Event::PollEndEvent(e) => {
                let wid: u64 = e.worker_id.0;
                let mut stats = stats_entry(&worker_stats, wid);
                proof {
                    if !table0.contains_key(wid) {
                        lemma_unseen(events@, i as int, wid);
                    }
                    lemma_poll_time_mono(events@, i as int + 1, len as int, wid);
                    lemma_pending_known(events@, i as int, wid);
                }
                match poll_starts.get(&wid) {
                    Some(start) => {
                        let duration: u64 = e.timestamp_ns.saturating_sub(*start);
                        stats.total_poll_time_ns = stats.total_poll_time_ns + duration;
                        match poll_start_locs.remove(&wid) {
                            Some(loc) => {
                                let mut at = location_entry(&spawn_location_stats, &loc);
                                proof {
                                    lemma_location_time_mono(
                                        events@,
                                        i as int + 1,
                                        len as int,
                                        loc@,
                                    );
                                }
                                at.total_poll_time_ns = at.total_poll_time_ns + duration;
                                let ghost loc_view = loc@;
                                spawn_location_stats.insert(loc, at);
                                proof {
                                    lemma_location_table_step(
                                        locs0,
                                        events@,
                                        i as int,
                                        loc_view,
                                        at,
                                    );
                                }
                            },
                            None => {
                                proof {
                                    lemma_location_table_kept(locs0, events@, i as int);
                                }
                            },
                        }
                    },
                    None => {
                        proof {
                            lemma_location_table_kept(locs0, events@, i as int);
                        }
                    },
                }
                worker_stats.insert(wid, stats);
                proof {
                    lemma_worker_table_step(table0, events@, i as int, wid, stats);
                }
            },
            Dial9Event::WorkerParkEvent(e) => {
                let wid: u64 = e.worker_id.0;
                let mut stats = stats_entry(&worker_stats, wid);
                proof {
                    if !table0.contains_key(wid) {
                        lemma_unseen(events@, i as int, wid);
                    }
                    lemma_count_bound(events@, i as int, is_park_of(wid));
                }
                stats.max_local_queue = larger(stats.max_local_queue, e.local_queue as usize);
                stats.park_count = stats.park_count + 1;
                worker_stats.insert(wid, stats);
                proof {
                    lemma_worker_table_step(table0, events@, i as int, wid, stats);
                    lemma_location_table_kept(locs0, events@, i as int);
                }
            },
            Dial9Event::WorkerUnparkEvent(e) => {
                let wid: u64 = e.worker_id.0;
                let mut stats = stats_entry(&worker_stats, wid);
                proof {
                    if !table0.contains_key(wid) {
                        lemma_unseen(events@, i as int, wid);
                    }
                    lemma_count_bound(events@, i as int, is_unpark_of(wid));
                    lemma_sum_mono(events@, i as int + 1, len as int, sched_wait_of(wid));
                }
                stats.max_local_queue = larger(stats.max_local_queue, e.local_queue as usize);
                stats.unpark_count = stats.unpark_count + 1;
                stats.total_sched_wait_ns = stats.total_sched_wait_ns + e.sched_wait_ns;
                if e.sched_wait_ns > stats.max_sched_wait_ns {
                    stats.max_sched_wait_ns = e.sched_wait_ns;
                }
                worker_stats.insert(wid, stats);
                proof {
                    lemma_worker_table_step(table0, events@, i as int, wid, stats);
                    lemma_location_table_kept(locs0, events@, i as int);
                }
            },
            _ => {
                proof {
                    lemma_worker_table_kept(table0, events@, i as int);
                    lemma_location_table_kept(locs0, events@, i as int);
                }
            },
        }
        i = i + 1;
    }
    TraceAnalysis {
        total_events: len,
        duration_ns: end_time.saturating_sub(start_time),
        worker_stats,
        max_global_queue,
        global_queue_sum,
        global_queue_samples: global_queue_count,
        spawn_location_stats,
    }
}

// ---------------------------------------------------------------------------
// Wake-to-poll delays
// ---------------------------------------------------------------------------

/// Delays of one second or more mean that the task was idle, not delayed.
pub const MAX_REASONABLE_DELAY_NS: u64 = 1_000_000_000;

/// The latest time at or before `t` at which one of the first `n` events woke
/// `task`.
pub open spec fn latest_wake(events: Seq<Dial9Event>, n: int, task: u64, t: u64) -> Option<u64>
    decreases n,
{
    if n <= 0 {
        None
    } else {
        let before = latest_wake(events, n - 1, task, t);
        match events[n - 1] {
            Dial9Event::WakeEvent(w) if w.woken_task_id == task && w.timestamp_ns <= t => {
                match before {
                    Some(b) if b > w.timestamp_ns => before,
                    _ => Some(w.timestamp_ns),
                }
            },
            _ => before,
        }
    }
}

/// The values are in ascending order.
pub open spec fn ascending(values: Seq<u64>) -> bool {
    forall|i: int, j: int| 0 <= i <= j < values.len() ==> values[i] <= values[j]
}

/// The largest of `values` that does not exceed `t`.
pub open spec fn is_floor_of(values: Seq<u64>, t: u64, r: Option<u64>) -> bool {
    match r {
        Some(x) => {
            &&& x <= t
            &&& values.contains(x)
            &&& forall|i: int| 0 <= i < values.len() && values[i] <= t ==> values[i] <= x
        },
        None => forall|i: int| 0 <= i < values.len() ==> values[i] > t,
    }
}

/// How many of the ascending `values` do not exceed `t`.
fn count_until(values: &Vec<u64>, t: u64) -> (r: usize)
    requires
        ascending(values@),
    ensures
        r <= values.len(),
        forall|i: int| 0 <= i < values@.len() ==> (values@[i] <= t <==> i < r),
{
    let mut lo: usize = 0;
    let mut hi: usize = values.len();
    while lo < hi
        invariant
            lo <= hi <= values.len(),
            ascending(values@),
            forall|i: int| 0 <= i < lo ==> values@[i] <= t,
            forall|i: int| hi <= i < values@.len() ==> values@[i] > t,
        decreases hi - lo,
    {
        let mid: usize = lo + (hi - lo) / 2;
        if values[mid] <= t {
            lo = mid + 1;
        } else {
            hi = mid;
        }
    }
    lo
}

/// The table holds, per task, the ascending wake times among the first `n` events.
pub open spec fn wake_table_ok(
    table: Map<u64, Vec<u64>>,
    events: Seq<Dial9Event>,
    n: int,
) -> bool {
    &&& forall|task: u64| #[trigger] table.contains_key(task) ==> ascending(table[task]@)
    &&& forall|task: u64, t: u64| #[trigger]
        latest_wake(events, n, task, t) matches Some(_) ==> table.contains_key(task)
    &&& forall|task: u64, t: u64|
        table.contains_key(task) ==> is_floor_of(
            table[task]@,
            t,
            #[trigger] latest_wake(events, n, task, t),
        )
}

fn collect_wakes(events: &[Dial9Event]) -> (table: HashMap<u64, Vec<u64>>)
    ensures
        wake_table_ok(table@, events@, events@.len() as int),
{
    let mut table: HashMap<u64, Vec<u64>> = HashMap::new();
    let mut i: usize = 0;
    while i < events.len()
        invariant
            i <= events.len(),
            wake_table_ok(table@, events@, i as int),
        decreases events.len() - i,
    {
        let ghost before = table@;
        if let Dial9Event::WakeEvent(w) = &events[i] {
            let task: u64 = w.woken_task_id;
            let mut wakes: Vec<u64> = match table.remove(&task) {
                Some(v) => v,
                None => Vec::new(),
            };
            let ghost old_wakes = wakes@;
            let pos: usize = count_until(&wakes, w.timestamp_ns);
            wakes.insert(pos, w.timestamp_ns);
            proof {
                lemma_wake_inserted(before, old_wakes, events@, i as int, pos as int);
            }
            let ghost new_wakes = wakes@;
            table.insert(task, wakes);
            assert forall|k: u64, t: u64| table@.contains_key(k) implies is_floor_of(
                table@[k]@,
                t,
                #[trigger] latest_wake(events@, i as int + 1, k, t),
            ) by {
                if k == task {
                    assert(table@[k]@ == new_wakes);
                } else {
                    assert(before.contains_key(k));
                    assert(is_floor_of(before[k]@, t, latest_wake(events@, i as int, k, t)));
                }
            }
            assert forall|k: u64, t: u64| #[trigger]
                latest_wake(events@, i as int + 1, k, t) matches Some(
                _,
            ) implies table@.contains_key(k) by {
                if k != task {
                    assert(latest_wake(events@, i as int, k, t) is Some);
                }
            }
        } else {
            assert forall|k: u64, t: u64| table@.contains_key(k) implies is_floor_of(
                table@[k]@,
                t,
                #[trigger] latest_wake(events@, i as int + 1, k, t),
            ) by {
                assert(is_floor_of(before[k]@, t, latest_wake(events@, i as int, k, t)));
            }
            assert forall|k: u64, t: u64| #[trigger]
                latest_wake(events@, i as int + 1, k, t) matches Some(
                _,
            ) implies table@.contains_key(k) by {
                assert(latest_wake(events@, i as int, k, t) is Some);
            }
        }
        i = i + 1;
    }
    table
}

proof fn lemma_wake_inserted(
    before: Map<u64, Vec<u64>>,
    old_wakes: Seq<u64>,
    events: Seq<Dial9Event>,
    i: int,
    pos: int,
)
    requires
        0 <= i < events.len(),
        wake_table_ok(before, events, i),
        events[i] is WakeEvent,
        ({
            let w = events[i]->WakeEvent_0;
            &&& if before.contains_key(w.woken_task_id) {
                old_wakes == before[w.woken_task_id]@
            } else {
                old_wakes.len() == 0
            }
            &&& 0 <= pos <= old_wakes.len()
            &&& forall|k: int|
                0 <= k < old_wakes.len() ==> (old_wakes[k] <= w.timestamp_ns <==> k < pos)
        }),
    ensures
        ({
            let w = events[i]->WakeEvent_0;
            let new_wakes = old_wakes.insert(pos, w.timestamp_ns);
            &&& ascending(new_wakes)
            &&& forall|t: u64|
                is_floor_of(
                    new_wakes,
                    t,
                    #[trigger] latest_wake(events, i + 1, w.woken_task_id, t),
                )
        }),
{
    let w = events[i]->WakeEvent_0;
    let task = w.woken_task_id;
    let new_wakes = old_wakes.insert(pos, w.timestamp_ns);
    assert(new_wakes[pos] == w.timestamp_ns);
    assert forall|k: int| 0 <= k < old_wakes.len() implies new_wakes.contains(
        #[trigger] old_wakes[k],
    ) by {
        if k < pos {
            assert(new_wakes[k] == old_wakes[k]);
        } else {
            assert(new_wakes[k + 1] == old_wakes[k]);
        }
    }
    assert forall|t: u64| is_floor_of(
        new_wakes,
        t,
        #[trigger] latest_wake(events, i + 1, task, t),
    ) by {
        let prev = latest_wake(events, i, task, t);
        if before.contains_key(task) {
            assert(is_floor_of(old_wakes, t, prev));
        } else {
            assert(prev is None);
        }
        assert forall|k: int| 0 <= k < new_wakes.len() implies #[trigger] new_wakes[k]
            == w.timestamp_ns || old_wakes.contains(new_wakes[k]) by {
            if k < pos {
                assert(new_wakes[k] == old_wakes[k]);
            } else if k > pos {
                assert(new_wakes[k] == old_wakes[k - 1]);
            }
        }
        if let Some(p) = prev {
            let j = choose|j: int| 0 <= j < old_wakes.len() && old_wakes[j] == p;
            assert(new_wakes.contains(old_wakes[j]));
        }
    }
}

/// The wake time at or before `t` recorded for `task`.
fn wake_before(table: &HashMap<u64, Vec<u64>>, task: u64, t: u64, events: &[Dial9Event]) -> (r:
    Option<u64>)
    requires
        wake_table_ok(table@, events@, events@.len() as int),
    ensures
        r == latest_wake(events@, events@.len() as int, task, t),
        r matches Some(x) ==> x <= t,
{
    let ghost expected = latest_wake(events@, events@.len() as int, task, t);
    match table.get(&task) {
        Some(wakes) => {
            assert(is_floor_of(table@[task]@, t, expected));
            let idx: usize = count_until(wakes, t);
            if idx > 0 {
                assert(wakes@[idx - 1] <= t);
                Some(wakes[idx - 1])
            } else {
                None
            }
        },
        None => {
            assert(expected is None);
            None
        },
    }
}

/// The delay between a poll start and the wake before it, when event `n` is a
/// poll start of a task that was woken.
pub open spec fn wake_delay_at(events: Seq<Dial9Event>, n: int) -> Option<u64> {
    match events[n] {
        Dial9Event::PollStartEvent(p) => match latest_wake(
            events,
            events.len() as int,
            p.task_id,
            p.timestamp_ns,
        ) {
            Some(wake) => Some((p.timestamp_ns - wake) as u64),
            None => None,
        },
        _ => None,
    }
}

/// The delays of the first `n` events that are longer than zero and shorter
/// than [`MAX_REASONABLE_DELAY_NS`], in event order.
pub open spec fn wake_delays(events: Seq<Dial9Event>, n: int) -> Seq<u64>
    decreases n,
{
    if n <= 0 {
        Seq::empty()
    } else {
        let before = wake_delays(events, n - 1);
        match wake_delay_at(events, n - 1) {
            Some(d) if 0 < d < MAX_REASONABLE_DELAY_NS => before.push(d),
            _ => before,
        }
    }
}

/// Sorts in place with `<[u64]>::sort_unstable`: afterwards the same values,
/// each as often as before, are in ascending order.
#[verifier::external_body]
fn sort_ascending(values: &mut Vec<u64>)
    ensures
        ascending(final(values)@),
        final(values)@.to_multiset() == old(values)@.to_multiset(),
{
    values.sort_unstable();
}

/// Computes wake→poll scheduling delays from wake events and poll starts.
/// Returns a sorted vec of delay durations in nanoseconds.
pub fn compute_wake_to_poll_delays(events: &[Dial9Event]) -> (delays: Vec<u64>)
    ensures
        ascending(delays@),
        delays@.to_multiset() == wake_delays(events@, events@.len() as int).to_multiset(),
{
    let wakes = collect_wakes(events);
    let mut delays: Vec<u64> = Vec::new();
    let mut i: usize = 0;
    while i < events.len()
        invariant
            i <= events.len(),
            wake_table_ok(wakes@, events@, events@.len() as int),
            delays@ == wake_delays(events@, i as int),
        decreases events.len() - i,
    {
        if let Dial9Event::PollStartEvent(p) = &events[i] {
            if let Some(wake) = wake_before(&wakes, p.task_id, p.timestamp_ns, events) {
                let delay: u64 = p.timestamp_ns - wake;
                if delay > 0 && delay < MAX_REASONABLE_DELAY_NS {
                    delays.push(delay);
                }
            }
        }
        i = i + 1;
    }
    sort_ascending(&mut delays);
    delays
}

/// A wake-to-poll scheduling delay that exceeded a threshold.
#[derive(Debug, Clone, Copy, PartialEq, Eq, Structural)]
pub struct WakeDelay {
    /// Worker that polled the task after the wake.
    pub worker_id: WorkerId,
    /// Timestamp of the wake event (nanos).
    pub wake_ns: u64,
    /// Timestamp of the subsequent poll start (nanos).
    pub poll_ns: u64,
    /// Delay between wake and poll in nanoseconds.
    pub delay_ns: u64,
    /// Task that experienced the scheduling delay.
    pub task_id: u64,
}

/// The delays of the first `n` events that exceed `threshold_ns` and are shorter
/// than [`MAX_REASONABLE_DELAY_NS`], in event order.
pub open spec fn wake_delays_over(
    events: Seq<Dial9Event>,
    n: int,
    threshold_ns: u64,
) -> Seq<WakeDelay>
    decreases n,
{
    if n <= 0 {
        Seq::empty()
    } else {
        let before = wake_delays_over(events, n - 1, threshold_ns);
        match wake_delay_at(events, n - 1) {
            Some(d) if threshold_ns < d < MAX_REASONABLE_DELAY_NS => {
                let p = events[n - 1]->PollStartEvent_0;
                before.push(
                    WakeDelay {
                        worker_id: p.worker_id,
                        wake_ns: (p.timestamp_ns - d) as u64,
                        poll_ns: p.timestamp_ns,
                        delay_ns: d,
                        task_id: p.task_id,
                    },
                )
            },
            _ => before,
        }
    }
}

/// Detects wake-to-poll delays that exceed `threshold_ns`.
pub fn detect_wake_delays(events: &[Dial9Event], threshold_ns: u64) -> (delays: Vec<WakeDelay>)
    ensures
        delays@ == wake_delays_over(events@, events@.len() as int, threshold_ns),
{
    let wakes = collect_wakes(events);
    let mut delays: Vec<WakeDelay> = Vec::new();
    let mut i: usize = 0;
    while i < events.len()
        invariant
            i <= events.len(),
            wake_table_ok(wakes@, events@, events@.len() as int),
            delays@ == wake_delays_over(events@, i as int, threshold_ns),
        decreases events.len() - i,
    {
        if let Dial9Event::PollStartEvent(p) = &events[i] {
            if let Some(wake) = wake_before(&wakes, p.task_id, p.timestamp_ns, events) {
                let delay: u64 = p.timestamp_ns.saturating_sub(wake);
                if delay > threshold_ns && delay < MAX_REASONABLE_DELAY_NS {
                    delays.push(
                        WakeDelay {
                            worker_id: p.worker_id,
                            wake_ns: wake,
                            poll_ns: p.timestamp_ns,
                            delay_ns: delay,
                            task_id: p.task_id,
                        },
                    );
                }
            }
        }
        i = i + 1;
    }
    delays
}

// ---------------------------------------------------------------------------
// Park/unpark periods
// ---------------------------------------------------------------------------

/// An active period between a worker's unpark and its next park.
///
/// The share of the period that the thread was on a CPU is
/// `cpu_delta_ns / (end_ns - start_ns)`.
#[derive(Debug, Clone, Copy, PartialEq, Eq, Structural)]
pub struct ActivePeriod {
    /// Worker thread that was active during this period.
    pub worker_id: WorkerId,
    /// Timestamp when the worker was unparked (nanos).
    pub start_ns: u64,
    /// Timestamp when the worker parked again (nanos).
    pub end_ns: u64,
    /// CPU time consumed during this active period (nanos).
    pub cpu_delta_ns: u64,
}

/// Wall-clock and CPU time of the unpark that worker `w` has not parked since.
pub open spec fn active_since(events: Seq<Dial9Event>, n: int, w: u64) -> Option<(u64, u64)>
    decreases n,
{
    if n <= 0 {
        None
    } else {
        match events[n - 1] {
            Dial9Event::WorkerUnparkEvent(e) if e.worker_id.0 == w => Some(
                (e.timestamp_ns, e.cpu_time_ns),
            ),
            Dial9Event::WorkerParkEvent(e) if e.worker_id.0 == w => None,
            _ => active_since(events, n - 1, w),
        }
    }
}

/// The active periods that the first `n` events complete, in event order.
pub open spec fn active_periods(events: Seq<Dial9Event>, n: int) -> Seq<ActivePeriod>
    decreases n,
{
    if n <= 0 {
        Seq::empty()
    } else {
        let before = active_periods(events, n - 1);
        match events[n - 1] {
            Dial9Event::WorkerParkEvent(e) => match active_since(events, n - 1, e.worker_id.0) {
                Some((wall, cpu)) => before.push(
                    ActivePeriod {
                        worker_id: e.worker_id,
                        start_ns: wall,
                        end_ns: e.timestamp_ns,
                        cpu_delta_ns: elapsed(e.cpu_time_ns, cpu) as u64,
                    },
                ),
                None => before,
            },
            _ => before,
        }
    }
}

/// Collects the active period (unpark→park) of each worker.
pub fn compute_active_periods(events: &[Dial9Event]) -> (periods: Vec<ActivePeriod>)
    ensures
        periods@ == active_periods(events@, events@.len() as int),
{
    let mut periods: Vec<ActivePeriod> = Vec::new();
    let mut unpark_state: HashMap<u64, (u64, u64)> = HashMap::new();
    let mut i: usize = 0;
    while i < events.len()
        invariant
            i <= events.len(),
            periods@ == active_periods(events@, i as int),
            forall|w: u64| #[trigger]
                unpark_state@.contains_key(w) <==> active_since(events@, i as int, w) is Some,
            forall|w: u64| #[trigger]
                unpark_state@.contains_key(w) ==> active_since(events@, i as int, w) == Some(
                    unpark_state@[w],
                ),
        decreases events.len() - i,
    {
        match &events[i] {
            Dial9Event::WorkerUnparkEvent(e) => {
                unpark_state.insert(e.worker_id.0, (e.timestamp_ns, e.cpu_time_ns));
            },
            Dial9Event::WorkerParkEvent(e) => {
                if let Some(state) = unpark_state.remove(&e.worker_id.0) {
                    periods.push(
                        ActivePeriod {
                            worker_id: e.worker_id,
                            start_ns: state.0,
                            end_ns: e.timestamp_ns,
                            cpu_delta_ns: e.cpu_time_ns.saturating_sub(state.1),
                        },
                    );
                }
            },
            _ => {},
        }
        i = i + 1;
    }
    periods
}

/// When worker `w` parked, if it has not been unparked since.
pub open spec fn parked_since(events: Seq<Dial9Event>, n: int, w: u64) -> Option<u64>
    decreases n,
{
    if n <= 0 {
        None
    } else {
        match events[n - 1] {
            Dial9Event::WorkerParkEvent(e) if e.worker_id.0 == w => Some(e.timestamp_ns),
            Dial9Event::WorkerUnparkEvent(e) if e.worker_id.0 == w => None,
            _ => parked_since(events, n - 1, w),
        }
    }
}

/// Parks longer than this many nanoseconds count as idle.
pub const IDLE_THRESHOLD_NS: u64 = 1_000_000;

/// The idle periods that the first `n` events complete: worker, duration and
/// the global queue depth at the unpark.
pub open spec fn idle_periods(events: Seq<Dial9Event>, n: int) -> Seq<(WorkerId, u64, usize)>
    decreases n,
{
    if n <= 0 {
        Seq::empty()
    } else {
        let before = idle_periods(events, n - 1);
        match events[n - 1] {
            Dial9Event::WorkerUnparkEvent(e) => match parked_since(events, n - 1, e.worker_id.0) {
                Some(park) => {
                    let idle = elapsed(e.timestamp_ns, park);
                    let depth = depth_at(
                        queue_timeline(events, events.len() as int),
                        e.timestamp_ns,
                    );
                    if idle > IDLE_THRESHOLD_NS && depth > 0 {
                        before.push((e.worker_id, idle as u64, depth))
                    } else {
                        before
                    }
                },
                None => before,
            },
            _ => before,
        }
    }
}

/// Detects periods where a worker was parked while the global queue had
/// pending work.
pub fn detect_idle_workers(events: &[Dial9Event]) -> (idle: Vec<(WorkerId, u64, usize)>)
    ensures
        idle@ == idle_periods(events@, events@.len() as int),
{
    let timeline = build_global_queue_timeline(events);
    let mut idle: Vec<(WorkerId, u64, usize)> = Vec::new();
    let mut park_times: HashMap<u64, u64> = HashMap::new();
    let mut i: usize = 0;
    while i < events.len()
        invariant
            i <= events.len(),
            timeline@ == queue_timeline(events@, events@.len() as int),
            timeline_sorted(timeline@),
            idle@ == idle_periods(events@, i as int),
            park_table_ok(park_times@, events@, i as int),
        decreases events.len() - i,
    {
        match &events[i] {
            Dial9Event::WorkerParkEvent(e) => {
                park_times.insert(e.worker_id.0, e.timestamp_ns);
            },
            Dial9Event::WorkerUnparkEvent(e) => {
                if let Some(park_time) = park_times.remove(&e.worker_id.0) {
                    let idle_duration: u64 = e.timestamp_ns.saturating_sub(park_time);
                    let depth: usize = lookup_global_queue_depth(&timeline, e.timestamp_ns);
                    if idle_duration > IDLE_THRESHOLD_NS && depth > 0 {
                        idle.push((e.worker_id, idle_duration, depth));
                    }
                }
            },
            _ => {},
        }
        i = i + 1;
    }
    idle
}

/// The table holds the park time of every worker that is parked after the
/// first `n` events.
pub open spec fn park_table_ok(table: Map<u64, u64>, events: Seq<Dial9Event>, n: int) -> bool {
    &&& forall|w: u64| #[trigger] table.contains_key(w) <==> parked_since(events, n, w) is Some
    &&& forall|w: u64| #[trigger]
        table.contains_key(w) ==> parked_since(events, n, w) == Some(table[w])
}

/// A park period where the OS scheduler delayed the worker thread.
#[derive(Debug, Clone, Copy, PartialEq, Eq, Structural)]
pub struct SchedDelay {
    /// Worker that experienced the scheduling delay.
    pub worker_id: WorkerId,
    /// Timestamp when the worker parked (nanos).
    pub park_ns: u64,
    /// Timestamp when the worker was unparked (nanos).
    pub unpark_ns: u64,
    /// OS scheduling wait during this park period (nanos).
    pub sched_wait_ns: u64,
}

/// The park periods completed by the first `n` events whose scheduling wait
/// exceeds `threshold_ns`.
pub open spec fn sched_delays(
    events: Seq<Dial9Event>,
    n: int,
    threshold_ns: u64,
) -> Seq<SchedDelay>
    decreases n,
{
    if n <= 0 {
        Seq::empty()
    } else {
        let before = sched_delays(events, n - 1, threshold_ns);
        match events[n - 1] {
            Dial9Event::WorkerUnparkEvent(e) => match parked_since(events, n - 1, e.worker_id.0) {
                Some(park_ns) if e.sched_wait_ns > threshold_ns => before.push(
                    SchedDelay {
                        worker_id: e.worker_id,
                        park_ns,
                        unpark_ns: e.timestamp_ns,
                        sched_wait_ns: e.sched_wait_ns,
                    },
                ),
                _ => before,
            },
            _ => before,
        }
    }
}

/// Detects park periods where the OS scheduling wait exceeded `threshold_ns`.
pub fn detect_sched_delays(events: &[Dial9Event], threshold_ns: u64) -> (delays: Vec<SchedDelay>)
    ensures
        delays@ == sched_delays(events@, events@.len() as int, threshold_ns),
{
    let mut delays: Vec<SchedDelay> = Vec::new();
    let mut park_times: HashMap<u64, u64> = HashMap::new();
    let mut i: usize = 0;
    while i < events.len()
        invariant
            i <= events.len(),
            delays@ == sched_delays(events@, i as int, threshold_ns),
            park_table_ok(park_times@, events@, i as int),
        decreases events.len() - i,
    {
        match &events[i] {
            Dial9Event::WorkerParkEvent(e) => {
                park_times.insert(e.worker_id.0, e.timestamp_ns);
            },
            Dial9Event::WorkerUnparkEvent(e) => {
                if let Some(park_ns) = park_times.remove(&e.worker_id.0) {
                    if e.sched_wait_ns > threshold_ns {
                        delays.push(
                            SchedDelay {
                                worker_id: e.worker_id,
                                park_ns,
                                unpark_ns: e.timestamp_ns,
                                sched_wait_ns: e.sched_wait_ns,
                            },
                        );
                    }
                }
            },
            _ => {},
        }
        i = i + 1;
    }
    delays
}

// ---------------------------------------------------------------------------
// Polls
// ---------------------------------------------------------------------------

/// Start time, task and spawn location of the poll that worker `w` is in.
pub open spec fn open_poll(events: Seq<Dial9Event>, n: int, w: u64) -> Option<(u64, u64, String)>
    decreases n,
{
    if n <= 0 {
        None
    } else {
        match events[n - 1] {
            Dial9Event::PollStartEvent(e) if e.worker_id.0 == w => Some(
                (e.timestamp_ns, e.task_id, e.spawn_loc),
            ),
            Dial9Event::PollEndEvent(e) if e.worker_id.0 == w => None,
            _ => open_poll(events, n - 1, w),
        }
    }
}

/// The table holds every poll that is open after the first `n` events.
pub open spec fn poll_table_ok(
    table: Map<u64, (u64, u64, String)>,
    events: Seq<Dial9Event>,
    n: int,
) -> bool {
    &&& forall|w: u64| #[trigger] table.contains_key(w) <==> open_poll(events, n, w) is Some
    &&& forall|w: u64| #[trigger]
        table.contains_key(w) ==> open_poll(events, n, w) == Some(table[w])
}

/// A poll that exceeded the given duration threshold.
#[derive(Debug)]
pub struct LongPoll {
    /// Worker that executed the poll.
    pub worker_id: WorkerId,
    /// Poll start timestamp (nanos).
    pub start_ns: u64,
    /// Poll end timestamp (nanos).
    pub end_ns: u64,
    /// Duration of the poll in nanoseconds.
    pub duration_ns: u64,
    /// Task that was being polled.
    pub task_id: u64,
    /// Spawn location of the task.
    pub spawn_loc: String,
}

/// The polls that the first `n` events complete and that took longer than
/// `threshold_ns`.
pub open spec fn long_polls(events: Seq<Dial9Event>, n: int, threshold_ns: u64) -> Seq<LongPoll>
    decreases n,
{
    if n <= 0 {
        Seq::empty()
    } else {
        let before = long_polls(events, n - 1, threshold_ns);
        match events[n - 1] {
            Dial9Event::PollEndEvent(e) => match open_poll(events, n - 1, e.worker_id.0) {
                Some((start, task_id, spawn_loc)) if elapsed(e.timestamp_ns, start)
                    > threshold_ns => before.push(
                    LongPoll {
                        worker_id: e.worker_id,
                        start_ns: start,
                        end_ns: e.timestamp_ns,
                        duration_ns: elapsed(e.timestamp_ns, start) as u64,
                        task_id,
                        spawn_loc,
                    },
                ),
                _ => before,
            },
            _ => before,
        }
    }
}

/// Detects polls that exceed `threshold_ns` nanoseconds.
pub fn detect_long_polls(events: &[Dial9Event], threshold_ns: u64) -> (polls: Vec<LongPoll>)
    ensures
        polls@ == long_polls(events@, events@.len() as int, threshold_ns),
{
    let mut polls: Vec<LongPoll> = Vec::new();
    let mut poll_starts: HashMap<u64, (u64, u64, String)> = HashMap::new();
    let mut i: usize = 0;
    while i < events.len()
        invariant
            i <= events.len(),
            polls@ == long_polls(events@, i as int, threshold_ns),
            poll_table_ok(poll_starts@, events@, i as int),
        decreases events.len() - i,
    {
        match &events[i] {
            Dial9Event::PollStartEvent(e) => {
                poll_starts.insert(
                    e.worker_id.0,
                    (e.timestamp_ns, e.task_id, e.spawn_loc.clone()),
                );
            },
            Dial9Event::PollEndEvent(e) => {
                if let Some((start, task_id, spawn_loc)) = poll_starts.remove(&e.worker_id.0) {
                    let duration: u64 = e.timestamp_ns.saturating_sub(start);
                    if duration > threshold_ns {
                        polls.push(
                            LongPoll {
                                worker_id: e.worker_id,
                                start_ns: start,
                                end_ns: e.timestamp_ns,
                                duration_ns: duration,
                                task_id,
                                spawn_loc,
                            },
                        );
                    }
                }
            },
            _ => {},
        }
        i = i + 1;
    }
    polls
}

/// A completed poll.
#[derive(Debug)]
pub struct PollSpan {
    pub worker_id: WorkerId,
    pub start_ns: u64,
    pub end_ns: u64,
    pub task_id: u64,
    pub spawn_loc: String,
}

/// The span does not come after a poll of worker `w` that starts at `t`.
pub open spec fn span_not_after(span: PollSpan, w: u64, t: u64) -> bool {
    span.worker_id.0 < w || (span.worker_id.0 == w && span.start_ns <= t)
}

/// The spans are ordered by worker, then by start time.
pub open spec fn spans_sorted(spans: Seq<PollSpan>) -> bool {
    forall|i: int, j: int|
        0 <= i <= j < spans.len() ==> #[trigger] span_not_after(
            spans[i],
            (#[trigger] spans[j]).worker_id.0,
            spans[j].start_ns,
        )
}

/// How many of the ordered spans do not come after a poll of `w` that starts at `t`.
pub open spec fn spans_until(spans: Seq<PollSpan>, w: u64, t: u64) -> nat
    decreases spans.len(),
{
    if spans.len() == 0 {
        0
    } else if span_not_after(spans.last(), w, t) {
        spans.len()
    } else {
        spans_until(spans.drop_last(), w, t)
    }
}

/// The polls that the first `n` events complete, ordered by worker and start
/// time; polls that agree in both keep their order of completion.
pub open spec fn poll_spans(events: Seq<Dial9Event>, n: int) -> Seq<PollSpan>
    decreases n,
{
    if n <= 0 {
        Seq::empty()
    } else {
        let before = poll_spans(events, n - 1);
        match events[n - 1] {
            Dial9Event::PollEndEvent(e) => match open_poll(events, n - 1, e.worker_id.0) {
                Some((start_ns, task_id, spawn_loc)) => before.insert(
                    spans_until(before, e.worker_id.0, start_ns) as int,
                    PollSpan {
                        worker_id: e.worker_id,
                        start_ns,
                        end_ns: e.timestamp_ns,
                        task_id,
                        spawn_loc,
                    },
                ),
                None => before,
            },
            _ => before,
        }
    }
}

/// The span that a sample of worker `w` at time `t` falls into: the worker's
/// last poll that started by then, if it had not ended.
pub open spec fn span_at(spans: Seq<PollSpan>, w: u64, t: u64) -> Option<int> {
    let k = spans_until(spans, w, t) - 1;
    if k >= 0 && spans[k].worker_id.0 == w && t <= spans[k].end_ns {
        Some(k)
    } else {
        None
    }
}

/// The event is a sample of kind `source` that falls into span `k`.
pub open spec fn is_sample_in(
    spans: Seq<PollSpan>,
    k: int,
    source: CpuSampleSource,
) -> spec_fn(Dial9Event) -> bool {
    |ev: Dial9Event|
        ev matches Dial9Event::CpuSampleEvent(e) && e.source == source && span_at(
            spans,
            e.worker_id.0,
            e.timestamp_ns,
        ) == Some(k)
}

pub(crate) proof fn lemma_spans_until(spans: Seq<PollSpan>, w: u64, t: u64)
    requires
        spans_sorted(spans),
    ensures
        spans_until(spans, w, t) <= spans.len(),
        forall|i: int|
            0 <= i < spans.len() ==> (#[trigger] span_not_after(spans[i], w, t) <==> i
                < spans_until(spans, w, t)),
    decreases spans.len(),
{
    if spans.len() > 0 {
        if span_not_after(spans.last(), w, t) {
            assert forall|i: int| 0 <= i < spans.len() implies #[trigger] span_not_after(
                spans[i],
                w,
                t,
            ) by {
                let last = spans[spans.len() - 1];
                assert(span_not_after(spans[i], last.worker_id.0, last.start_ns));
            }
        } else {
            let rest = spans.drop_last();
            assert forall|i: int, j: int| 0 <= i <= j < rest.len() implies #[trigger]
                span_not_after(rest[i], (#[trigger] rest[j]).worker_id.0, rest[j].start_ns) by {
                assert(span_not_after(spans[i], spans[j].worker_id.0, spans[j].start_ns));
            }
            lemma_spans_until(rest, w, t);
            assert forall|i: int| 0 <= i < spans.len() implies (#[trigger] span_not_after(
                spans[i],
                w,
                t,
            ) <==> i < spans_until(spans, w, t)) by {
                if i < rest.len() {
                    assert(rest[i] == spans[i]);
                    assert(span_not_after(rest[i], w, t) <==> i < spans_until(rest, w, t));
                }
            }
        }
    }
}

proof fn lemma_span_inserted(spans: Seq<PollSpan>, span: PollSpan)
    requires
        spans_sorted(spans),
    ensures
        spans_until(spans, span.worker_id.0, span.start_ns) <= spans.len(),
        spans_sorted(
            spans.insert(spans_until(spans, span.worker_id.0, span.start_ns) as int, span),
        ),
{
    lemma_spans_until(spans, span.worker_id.0, span.start_ns);
    let k = spans_until(spans, span.worker_id.0, span.start_ns) as int;
    let next = spans.insert(k, span);
    assert forall|i: int, j: int| 0 <= i <= j < next.len() implies #[trigger] span_not_after(
        next[i],
        (#[trigger] next[j]).worker_id.0,
        next[j].start_ns,
    ) by {
        let a = if i < k {
            i
        } else {
            i - 1
        };
        let b = if j < k {
            j
        } else {
            j - 1
        };
        if i != k {
            assert(next[i] == spans[a]);
            assert(span_not_after(spans[a], span.worker_id.0, span.start_ns) <==> a < k);
        }
        if j != k {
            assert(next[j] == spans[b]);
            assert(span_not_after(spans[b], span.worker_id.0, span.start_ns) <==> b < k);
        }
        if i != k && j != k {
            assert(span_not_after(spans[a], spans[b].worker_id.0, spans[b].start_ns));
        }
    }
}

fn span_upper_bound(spans: &Vec<PollSpan>, w: u64, t: u64) -> (r: usize)
    requires
        spans_sorted(spans@),
    ensures
        r == spans_until(spans@, w, t),
        r <= spans.len(),
{
    proof {
        lemma_spans_until(spans@, w, t);
    }
    let mut lo: usize = 0;
    let mut hi: usize = spans.len();
    while lo < hi
        invariant
            lo <= hi <= spans.len(),
            lo <= spans_until(spans@, w, t) <= hi,
            forall|i: int|
                0 <= i < spans@.len() ==> (#[trigger] span_not_after(spans@[i], w, t) <==> i
                    < spans_until(spans@, w, t)),
        decreases hi - lo,
    {
        let mid: usize = lo + (hi - lo) / 2;
        let span = &spans[mid];
        assert(span_not_after(spans@[mid as int], w, t) <==> mid < spans_until(spans@, w, t));
        if span.worker_id.0 < w || (span.worker_id.0 == w && span.start_ns <= t) {
            lo = mid + 1;
        } else {
            hi = mid;
        }
    }
    lo
}

fn collect_poll_spans(events: &[Dial9Event]) -> (spans: Vec<PollSpan>)
    ensures
        spans@ == poll_spans(events@, events@.len() as int),
        spans_sorted(spans@),
{
    let mut spans: Vec<PollSpan> = Vec::new();
    let mut poll_starts: HashMap<u64, (u64, u64, String)> = HashMap::new();
    let mut i: usize = 0;
    while i < events.len()
        invariant
            i <= events.len(),
            spans@ == poll_spans(events@, i as int),
            spans_sorted(spans@),
            poll_table_ok(poll_starts@, events@, i as int),
        decreases events.len() - i,
    {
        match &events[i] {
            Dial9Event::PollStartEvent(e) => {
                poll_starts.insert(
                    e.worker_id.0,
                    (e.timestamp_ns, e.task_id, e.spawn_loc.clone()),
                );
            },
            Dial9Event::PollEndEvent(e) => {
                if let Some((start_ns, task_id, spawn_loc)) = poll_starts.remove(&e.worker_id.0) {
                    let pos: usize = span_upper_bound(&spans, e.worker_id.0, start_ns);
                    let span = PollSpan {
                        worker_id: e.worker_id,
                        start_ns,
                        end_ns: e.timestamp_ns,
                        task_id,
                        spawn_loc,
                    };
                    proof {
                        lemma_span_inserted(spans@, span);
                    }
                    spans.insert(pos, span);
                }
            },
            _ => {},
        }
        i = i + 1;
    }
    spans
}

/// A poll that had CPU or scheduler samples collected during its execution.
#[derive(Debug)]
pub struct SampledPoll {
    /// Worker that executed the poll.
    pub worker_id: WorkerId,
    /// Poll start timestamp (nanos).
    pub start_ns: u64,
    /// Poll end timestamp (nanos).
    pub end_ns: u64,
    /// Task that was being polled.
    pub task_id: u64,
    /// Spawn location of the task.
    pub spawn_loc: String,
    /// Number of CPU profile samples collected during this poll.
    pub cpu_sample_count: usize,
    /// Number of scheduler event samples collected during this poll.
    pub sched_sample_count: usize,
}

/// The first `k` spans that some sample falls into, with their sample counts.
pub open spec fn sampled_polls(
    events: Seq<Dial9Event>,
    spans: Seq<PollSpan>,
    k: int,
) -> Seq<SampledPoll>
    decreases k,
{
    if k <= 0 {
        Seq::empty()
    } else {
        let before = sampled_polls(events, spans, k - 1);
        let n = events.len() as int;
        let cpu = count_of(events, n, is_sample_in(spans, k - 1, CpuSampleSource::CpuProfile));
        let sched = count_of(events, n, is_sample_in(spans, k - 1, CpuSampleSource::SchedEvent));
        if cpu > 0 || sched > 0 {
            before.push(
                SampledPoll {
                    worker_id: spans[k - 1].worker_id,
                    start_ns: spans[k - 1].start_ns,
                    end_ns: spans[k - 1].end_ns,
                    task_id: spans[k - 1].task_id,
                    spawn_loc: spans[k - 1].spawn_loc,
                    cpu_sample_count: cpu as usize,
                    sched_sample_count: sched as usize,
                },
            )
        } else {
            before
        }
    }
}

/// The counters hold the samples among the first `n` events, per span.
pub open spec fn sample_counts_ok(
    counts: Seq<(usize, usize)>,
    events: Seq<Dial9Event>,
    n: int,
    spans: Seq<PollSpan>,
) -> bool {
    &&& counts.len() == spans.len()
    &&& forall|k: int|
        0 <= k < counts.len() ==> (#[trigger] counts[k]).0 == count_of(
            events,
            n,
            is_sample_in(spans, k, CpuSampleSource::CpuProfile),
        ) && counts[k].1 == count_of(
            events,
            n,
            is_sample_in(spans, k, CpuSampleSource::SchedEvent),
        )
}

fn zero_counts(len: usize) -> (counts: Vec<(usize, usize)>)
    ensures
        counts@ == Seq::new(len as nat, |k: int| (0usize, 0usize)),
{
    let mut counts: Vec<(usize, usize)> = Vec::new();
    let mut k: usize = 0;
    while k < len
        invariant
            k <= len,
            counts@ == Seq::new(k as nat, |k: int| (0usize, 0usize)),
        decreases len - k,
    {
        counts.push((0, 0));
        k = k + 1;
    }
    counts
}

/// Finds polls that had CPU profile or scheduler event samples collected
/// during their execution, ordered by worker and start time.
pub fn detect_sampled_polls(events: &[Dial9Event]) -> (polls: Vec<SampledPoll>)
    ensures
        ({
            let spans = poll_spans(events@, events@.len() as int);
            polls@ == sampled_polls(events@, spans, spans.len() as int)
        }),
{
    let spans = collect_poll_spans(events);
    let mut counts: Vec<(usize, usize)> = zero_counts(spans.len());
    let mut i: usize = 0;
    while i < events.len()
        invariant
            i <= events.len(),
            spans_sorted(spans@),
            sample_counts_ok(counts@, events@, i as int, spans@),
        decreases events.len() - i,
    {
        let ghost counts0 = counts@;
        if let Dial9Event::CpuSampleEvent(e) = &events[i] {
            let n: usize = span_upper_bound(&spans, e.worker_id.0, e.timestamp_ns);
            if n > 0 && spans[n - 1].worker_id.0 == e.worker_id.0 && e.timestamp_ns <= spans[n
                - 1].end_ns {
                let k: usize = n - 1;
                let (cpu, sched) = counts[k];
                proof {
                    lemma_count_bound(
                        events@,
                        i as int,
                        is_sample_in(spans@, k as int, CpuSampleSource::CpuProfile),
                    );
                    lemma_count_bound(
                        events@,
                        i as int,
                        is_sample_in(spans@, k as int, CpuSampleSource::SchedEvent),
                    );
                    assert(counts0[k as int] == (cpu, sched));
                }
                match e.source {
                    CpuSampleSource::CpuProfile => {
                        counts.set(k, (cpu + 1, sched));
                    },
                    CpuSampleSource::SchedEvent => {
                        counts.set(k, (cpu, sched + 1));
                    },
                    CpuSampleSource::Unknown(_) => {},
                }
            }
        }
        i = i + 1;
    }
    let mut polls: Vec<SampledPoll> = Vec::new();
    let mut k: usize = 0;
    while k < spans.len()
        invariant
            k <= spans.len(),
            sample_counts_ok(counts@, events@, events@.len() as int, spans@),
            polls@ == sampled_polls(events@, spans@, k as int),
        decreases spans.len() - k,
    {
        let (cpu, sched) = counts[k];
        assert(counts@[k as int] == (cpu, sched));
        if cpu > 0 || sched > 0 {
            let span = &spans[k];
            polls.push(
                SampledPoll {
                    worker_id: span.worker_id,
                    start_ns: span.start_ns,
                    end_ns: span.end_ns,
                    task_id: span.task_id,
                    spawn_loc: span.spawn_loc.clone(),
                    cpu_sample_count: cpu,
                    sched_sample_count: sched,
                },
            );
        }
        k = k + 1;
    }
    polls
}

// ---------------------------------------------------------------------------
// Laws
// ---------------------------------------------------------------------------

/// Every reported long poll lasted from its start to its end, which is longer
/// than the threshold.
pub proof fn law_reported_polls_exceed_the_threshold(
    events: Seq<Dial9Event>,
    n: int,
    threshold_ns: u64,
)
    ensures
        forall|i: int|
            0 <= i < long_polls(events, n, threshold_ns).len() ==> {
                let poll = #[trigger] long_polls(events, n, threshold_ns)[i];
                poll.duration_ns > threshold_ns && poll.duration_ns == poll.end_ns - poll.start_ns
            },
    decreases n,
{
    if n > 0 {
        law_reported_polls_exceed_the_threshold(events, n - 1, threshold_ns);
        let before = long_polls(events, n - 1, threshold_ns);
        assert forall|i: int| 0 <= i < long_polls(events, n, threshold_ns).len() implies {
            let poll = #[trigger] long_polls(events, n, threshold_ns)[i];
            poll.duration_ns > threshold_ns && poll.duration_ns == poll.end_ns - poll.start_ns
        } by {
            if i < before.len() {
                assert(long_polls(events, n, threshold_ns)[i] == before[i]);
            }
        }
    }
}

/// A higher threshold reports no poll that a lower one does not.
pub proof fn law_a_higher_threshold_reports_fewer_polls(
    events: Seq<Dial9Event>,
    n: int,
    low: u64,
    high: u64,
)
    requires
        low <= high,
    ensures
        forall|poll: LongPoll| #[trigger]
            long_polls(events, n, high).contains(poll) ==> long_polls(events, n, low).contains(
                poll,
            ),
    decreases n,
{
    if n > 0 {
        law_a_higher_threshold_reports_fewer_polls(events, n - 1, low, high);
        let (few, many) = (long_polls(events, n - 1, high), long_polls(events, n - 1, low));
        let (fewer, more) = (long_polls(events, n, high), long_polls(events, n, low));
        assert forall|poll: LongPoll| #[trigger] fewer.contains(poll) implies more.contains(
            poll,
        ) by {
            let i = choose|i: int| 0 <= i < fewer.len() && fewer[i] == poll;
            if i < few.len() {
                assert(few[i] == poll);
                assert(few.contains(poll));
                let k = choose|k: int| 0 <= k < many.len() && many[k] == poll;
                assert(more[k] == poll);
            } else {
                assert(more.last() == poll);
            }
        }
    }
}

/// The wake delays that are reported singly for a threshold of zero are those
/// that are collected for the distribution.
pub proof fn law_single_delays_make_up_the_distribution(events: Seq<Dial9Event>, n: int)
    ensures
        wake_delays(events, n) == wake_delays_over(events, n, 0).map_values(
            |delay: WakeDelay| delay.delay_ns,
        ),
    decreases n,
{
    if n > 0 {
        law_single_delays_make_up_the_distribution(events, n - 1);
    }
    assert(wake_delays(events, n) =~= wake_delays_over(events, n, 0).map_values(
        |delay: WakeDelay| delay.delay_ns,
    ));
}

/// Every completed poll that lasted longer than the threshold is among the
/// spans that samples are matched with.
pub proof fn law_long_polls_are_spans(events: Seq<Dial9Event>, n: int, threshold_ns: u64)
    ensures
        forall|i: int|
            0 <= i < long_polls(events, n, threshold_ns).len() ==> {
                let poll = #[trigger] long_polls(events, n, threshold_ns)[i];
                poll_spans(events, n).contains(
                    PollSpan {
                        worker_id: poll.worker_id,
                        start_ns: poll.start_ns,
                        end_ns: poll.end_ns,
                        task_id: poll.task_id,
                        spawn_loc: poll.spawn_loc,
                    },
                )
            },
    decreases n,
{
    if n > 0 {
        law_long_polls_are_spans(events, n - 1, threshold_ns);
        lemma_spans_are_sorted(events, n - 1);
        let before = long_polls(events, n - 1, threshold_ns);
        let (spans, next) = (poll_spans(events, n - 1), poll_spans(events, n));
        let completed = match events[n - 1] {
            Dial9Event::PollEndEvent(e) => match open_poll(events, n - 1, e.worker_id.0) {
                Some((start_ns, task_id, spawn_loc)) => Some(
                    PollSpan {
                        worker_id: e.worker_id,
                        start_ns,
                        end_ns: e.timestamp_ns,
                        task_id,
                        spawn_loc,
                    },
                ),
                None => None,
            },
            _ => None,
        };
        let at = match completed {
            Some(span) => spans_until(spans, span.worker_id.0, span.start_ns) as int,
            None => spans.len() as int,
        };
        if let Some(span) = completed {
            lemma_span_inserted(spans, span);
            assert(next == spans.insert(at, span));
            assert(next[at] == span);
        }
        assert forall|i: int| 0 <= i < long_polls(events, n, threshold_ns).len() implies {
            let poll = #[trigger] long_polls(events, n, threshold_ns)[i];
            next.contains(
                PollSpan {
                    worker_id: poll.worker_id,
                    start_ns: poll.start_ns,
                    end_ns: poll.end_ns,
                    task_id: poll.task_id,
                    spawn_loc: poll.spawn_loc,
                },
            )
        } by {
            if i < before.len() {
                let poll = before[i];
                let span = PollSpan {
                    worker_id: poll.worker_id,
                    start_ns: poll.start_ns,
                    end_ns: poll.end_ns,
                    task_id: poll.task_id,
                    spawn_loc: poll.spawn_loc,
                };
                assert(long_polls(events, n, threshold_ns)[i] == poll);
                assert(spans.contains(span));
                let k = choose|k: int| 0 <= k < spans.len() && spans[k] == span;
                assert(next[if k < at {
                    k
                } else {
                    k + 1
                }] == span);
            }
        }
    }
}

pub(crate) proof fn lemma_spans_are_sorted(events: Seq<Dial9Event>, n: int)
    ensures
        spans_sorted(poll_spans(events, n)),
    decreases n,
{
    if n > 0 {
        lemma_spans_are_sorted(events, n - 1);
        if let Dial9Event::PollEndEvent(e) = events[n - 1] {
            if let Some((start_ns, task_id, spawn_loc)) = open_poll(events, n - 1, e.worker_id.0) {
                lemma_span_inserted(
                    poll_spans(events, n - 1),
                    PollSpan {
                        worker_id: e.worker_id,
                        start_ns,
                        end_ns: e.timestamp_ns,
                        task_id,
                        spawn_loc,
                    },
                );
            }
        }
    }
}

} // verus!
