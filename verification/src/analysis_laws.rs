//! What the analyses of a trace say of its events.
//!
//! The laws speak of the events themselves, by their positions in the trace,
//! and of what is reported for them.
use crate::analysis::{
    active_periods, active_since, count_of, depth_at, entries_until, global_queue_of, idle_periods,
    is_analysis_of, is_park_of, is_poll_start_at, is_poll_start_of, is_queue_sample, is_sample_in,
    is_unpark_of, is_worker_account, last_poll_start, latest_wake, lemma_count_bound,
    lemma_entries_until, lemma_spans_are_sorted, lemma_spans_until, local_queue_of,
    location_poll_time, location_table_ok, location_time_at, long_polls, max_of, open_poll,
    parked_since, pending_location, poll_spans, poll_time_at, queue_timeline, sampled_polls,
    sched_delays, sched_wait_of, span_at, span_not_after, spans_until, stats_worker, sum_of,
    timeline_sorted, timestamp_of, total_poll_time, wake_delays, wake_delays_over, worker_seen,
    worker_table_ok, ActivePeriod, PollSpan, SampledPoll, TraceAnalysis,
};
use crate::analysis_events::{CpuSampleSource, Dial9Event};
use vstd::prelude::*;

verus! {

// ---------------------------------------------------------------------------
// Park and unpark
// ---------------------------------------------------------------------------

/// A worker is active from event `i` to event `j`: it is unparked by the one
/// and parks with the other, and does neither in between.
pub open spec fn is_active(events: Seq<Dial9Event>, i: int, j: int) -> bool {
    &&& 0 <= i < j < events.len()
    &&& events[i] is WorkerUnparkEvent
    &&& events[j] is WorkerParkEvent
    &&& events[i]->WorkerUnparkEvent_0.worker_id == events[j]->WorkerParkEvent_0.worker_id
    &&& forall|k: int|
        i < k < j ==> {
            &&& #[trigger] events[k] is WorkerUnparkEvent
                ==> events[k]->WorkerUnparkEvent_0.worker_id
                != events[i]->WorkerUnparkEvent_0.worker_id
            &&& events[k] is WorkerParkEvent ==> events[k]->WorkerParkEvent_0.worker_id
                != events[i]->WorkerUnparkEvent_0.worker_id
        }
}

/// A worker is parked from event `i` to event `j`: it parks with the one and
/// is unparked by the other, and is neither in between.
pub open spec fn is_parked(events: Seq<Dial9Event>, i: int, j: int) -> bool {
    &&& 0 <= i < j < events.len()
    &&& events[i] is WorkerParkEvent
    &&& events[j] is WorkerUnparkEvent
    &&& events[i]->WorkerParkEvent_0.worker_id == events[j]->WorkerUnparkEvent_0.worker_id
    &&& forall|k: int|
        i < k < j ==> {
            &&& #[trigger] events[k] is WorkerParkEvent ==> events[k]->WorkerParkEvent_0.worker_id
                != events[i]->WorkerParkEvent_0.worker_id
            &&& events[k] is WorkerUnparkEvent ==> events[k]->WorkerUnparkEvent_0.worker_id
                != events[i]->WorkerParkEvent_0.worker_id
        }
}

/// Event `i` parks or unparks worker `w`, and no event after it and before
/// event `n` does.
spec fn is_last_switch(events: Seq<Dial9Event>, i: int, n: int, w: u64) -> bool {
    &&& 0 <= i < n
    &&& switches(events[i], w)
    &&& forall|k: int| i < k < n ==> !switches(#[trigger] events[k], w)
}

spec fn switches(ev: Dial9Event, w: u64) -> bool {
    match ev {
        Dial9Event::WorkerParkEvent(e) => e.worker_id.0 == w,
        Dial9Event::WorkerUnparkEvent(e) => e.worker_id.0 == w,
        _ => false,
    }
}

/// The last event before event `n` that parks or unparks worker `w`.
spec fn last_switch(events: Seq<Dial9Event>, n: int, w: u64) -> Option<int>
    decreases n,
{
    if n <= 0 {
        None
    } else if switches(events[n - 1], w) {
        Some(n - 1)
    } else {
        last_switch(events, n - 1, w)
    }
}

proof fn lemma_last_switch(events: Seq<Dial9Event>, n: int, w: u64)
    requires
        n <= events.len(),
    ensures
        forall|i: int| is_last_switch(events, i, n, w) <==> last_switch(events, n, w) == Some(i),
        active_since(events, n, w) == (match last_switch(events, n, w) {
            Some(i) => match events[i] {
                Dial9Event::WorkerUnparkEvent(e) => Some((e.timestamp_ns, e.cpu_time_ns)),
                _ => None,
            },
            None => None,
        }),
        parked_since(events, n, w) == (match last_switch(events, n, w) {
            Some(i) => match events[i] {
                Dial9Event::WorkerParkEvent(e) => Some(e.timestamp_ns),
                _ => None,
            },
            None => None,
        }),
    decreases n,
{
    if n > 0 {
        lemma_last_switch(events, n - 1, w);
        assert forall|i: int|
            is_last_switch(events, i, n, w) <==> last_switch(events, n, w) == Some(i) by {
            if switches(events[n - 1], w) {
                if is_last_switch(events, i, n, w) && i < n - 1 {
                    assert(!switches(events[n - 1], w));
                }
            } else {
                assert(is_last_switch(events, i, n, w) <==> is_last_switch(events, i, n - 1, w));
            }
        }
    }
}

/// Where the active periods of the first `n` events begin and end.
spec fn active_at(events: Seq<Dial9Event>, n: int) -> Seq<(int, int)>
    decreases n,
{
    if n <= 0 {
        Seq::empty()
    } else {
        let before = active_at(events, n - 1);
        match events[n - 1] {
            Dial9Event::WorkerParkEvent(e) => match last_switch(events, n - 1, e.worker_id.0) {
                Some(i) => if events[i] is WorkerUnparkEvent {
                    before.push((i, n - 1))
                } else {
                    before
                },
                None => before,
            },
            _ => before,
        }
    }
}

proof fn lemma_active_at(events: Seq<Dial9Event>, n: int)
    requires
        n <= events.len(),
    ensures
        ({
            let at = active_at(events, n);
            let periods = active_periods(events, n);
            &&& at.len() == periods.len()
            &&& forall|m: int|
                0 <= m < at.len() ==> {
                    let (i, j) = #[trigger] at[m];
                    let start = events[i]->WorkerUnparkEvent_0;
                    let end = events[j]->WorkerParkEvent_0;
                    &&& is_active(events, i, j)
                    &&& j < n
                    &&& periods[m].worker_id == end.worker_id
                    &&& periods[m].start_ns == start.timestamp_ns
                    &&& periods[m].end_ns == end.timestamp_ns
                    &&& periods[m].cpu_delta_ns == if end.cpu_time_ns >= start.cpu_time_ns {
                        end.cpu_time_ns - start.cpu_time_ns
                    } else {
                        0
                    }
                }
            &&& forall|a: int, b: int|
                0 <= a < b < at.len() ==> (#[trigger] at[a]).1 < (#[trigger] at[b]).1
            &&& forall|i: int, j: int| #[trigger]
                is_active(events, i, j) && j < n ==> at.contains((i, j))
        }),
    decreases n,
{
    if n > 0 {
        lemma_active_at(events, n - 1);
        let before = active_at(events, n - 1);
        let at = active_at(events, n);
        if let Dial9Event::WorkerParkEvent(e) = events[n - 1] {
            lemma_last_switch(events, n - 1, e.worker_id.0);
            if let Some(i) = last_switch(events, n - 1, e.worker_id.0) {
                assert(is_last_switch(events, i, n - 1, e.worker_id.0));
                if events[i] is WorkerUnparkEvent {
                    assert(is_active(events, i, n - 1));
                    assert(at[before.len() as int] == (i, n - 1));
                }
            }
        }
        assert forall|i: int, j: int| #[trigger] is_active(events, i, j) && j < n implies at.contains(
            (i, j),
        ) by {
            if j < n - 1 {
                let m = choose|m: int| 0 <= m < before.len() && before[m] == (i, j);
                assert(at[m] == (i, j));
            } else {
                let w = events[j]->WorkerParkEvent_0.worker_id.0;
                assert(is_last_switch(events, i, n - 1, w));
                assert(at[before.len() as int] == (i, j));
            }
        }
    }
}

/// The active periods of a trace are exactly the times from an unpark of a
/// worker to its next park, whatever other workers do in between, in the order
/// of the parks. The law returns where each period begins and ends.
pub proof fn law_active_periods_run_from_unpark_to_park(events: Seq<Dial9Event>) -> (at: Seq<
    (int, int),
>)
    ensures
        ({
            let periods = active_periods(events, events.len() as int);
            &&& at.len() == periods.len()
            &&& forall|m: int|
                0 <= m < at.len() ==> {
                    let (i, j) = #[trigger] at[m];
                    let start = events[i]->WorkerUnparkEvent_0;
                    let end = events[j]->WorkerParkEvent_0;
                    &&& is_active(events, i, j)
                    &&& periods[m].worker_id == end.worker_id
                    &&& periods[m].start_ns == start.timestamp_ns
                    &&& periods[m].end_ns == end.timestamp_ns
                    &&& periods[m].cpu_delta_ns == if end.cpu_time_ns >= start.cpu_time_ns {
                        end.cpu_time_ns - start.cpu_time_ns
                    } else {
                        0
                    }
                }
            &&& forall|a: int, b: int|
                0 <= a < b < at.len() ==> (#[trigger] at[a]).1 < (#[trigger] at[b]).1
            &&& forall|i: int, j: int| #[trigger] is_active(events, i, j) ==> at.contains((i, j))
        }),
{
    lemma_active_at(events, events.len() as int);
    active_at(events, events.len() as int)
}

/// Where the scheduling delays of the first `n` events begin and end.
spec fn delayed_at(events: Seq<Dial9Event>, n: int, threshold_ns: u64) -> Seq<(int, int)>
    decreases n,
{
    if n <= 0 {
        Seq::empty()
    } else {
        let before = delayed_at(events, n - 1, threshold_ns);
        match events[n - 1] {
            Dial9Event::WorkerUnparkEvent(e) => match last_switch(events, n - 1, e.worker_id.0) {
                Some(i) => if events[i] is WorkerParkEvent && e.sched_wait_ns > threshold_ns {
                    before.push((i, n - 1))
                } else {
                    before
                },
                None => before,
            },
            _ => before,
        }
    }
}

proof fn lemma_delayed_at(events: Seq<Dial9Event>, n: int, threshold_ns: u64)
    requires
        n <= events.len(),
    ensures
        ({
            let at = delayed_at(events, n, threshold_ns);
            let delays = sched_delays(events, n, threshold_ns);
            &&& at.len() == delays.len()
            &&& forall|m: int|
                0 <= m < at.len() ==> {
                    let (i, j) = #[trigger] at[m];
                    let park = events[i]->WorkerParkEvent_0;
                    let unpark = events[j]->WorkerUnparkEvent_0;
                    &&& is_parked(events, i, j)
                    &&& j < n
                    &&& unpark.sched_wait_ns > threshold_ns
                    &&& delays[m].worker_id == unpark.worker_id
                    &&& delays[m].park_ns == park.timestamp_ns
                    &&& delays[m].unpark_ns == unpark.timestamp_ns
                    &&& delays[m].sched_wait_ns == unpark.sched_wait_ns
                }
            &&& forall|a: int, b: int|
                0 <= a < b < at.len() ==> (#[trigger] at[a]).1 < (#[trigger] at[b]).1
            &&& forall|i: int, j: int| #[trigger]
                is_parked(events, i, j) && j < n
                    && events[j]->WorkerUnparkEvent_0.sched_wait_ns > threshold_ns ==> at.contains(
                    (i, j),
                )
        }),
    decreases n,
{
    if n > 0 {
        lemma_delayed_at(events, n - 1, threshold_ns);
        let before = delayed_at(events, n - 1, threshold_ns);
        let at = delayed_at(events, n, threshold_ns);
        if let Dial9Event::WorkerUnparkEvent(e) = events[n - 1] {
            lemma_last_switch(events, n - 1, e.worker_id.0);
            if let Some(i) = last_switch(events, n - 1, e.worker_id.0) {
                assert(is_last_switch(events, i, n - 1, e.worker_id.0));
                if events[i] is WorkerParkEvent {
                    assert(is_parked(events, i, n - 1));
                    if e.sched_wait_ns > threshold_ns {
                        assert(at[before.len() as int] == (i, n - 1));
                    }
                }
            }
        }
        assert forall|i: int, j: int| #[trigger]
            is_parked(events, i, j) && j < n && events[j]->WorkerUnparkEvent_0.sched_wait_ns
                > threshold_ns implies at.contains((i, j)) by {
            if j < n - 1 {
                let m = choose|m: int| 0 <= m < before.len() && before[m] == (i, j);
                assert(at[m] == (i, j));
            } else {
                let w = events[j]->WorkerUnparkEvent_0.worker_id.0;
                assert(is_last_switch(events, i, n - 1, w));
                assert(at[before.len() as int] == (i, j));
            }
        }
    }
}

/// The scheduling delays of a trace are exactly the parks of a worker whose
/// unpark reports a wait over the threshold, in the order of the unparks. The
/// law returns where each of these parks begins and ends.
pub proof fn law_sched_delays_are_parks_with_a_long_wait(
    events: Seq<Dial9Event>,
    threshold_ns: u64,
) -> (at: Seq<(int, int)>)
    ensures
        ({
            let delays = sched_delays(events, events.len() as int, threshold_ns);
            &&& at.len() == delays.len()
            &&& forall|m: int|
                0 <= m < at.len() ==> {
                    let (i, j) = #[trigger] at[m];
                    let park = events[i]->WorkerParkEvent_0;
                    let unpark = events[j]->WorkerUnparkEvent_0;
                    &&& is_parked(events, i, j)
                    &&& unpark.sched_wait_ns > threshold_ns
                    &&& delays[m].worker_id == unpark.worker_id
                    &&& delays[m].park_ns == park.timestamp_ns
                    &&& delays[m].unpark_ns == unpark.timestamp_ns
                    &&& delays[m].sched_wait_ns == unpark.sched_wait_ns
                }
            &&& forall|a: int, b: int|
                0 <= a < b < at.len() ==> (#[trigger] at[a]).1 < (#[trigger] at[b]).1
            &&& forall|i: int, j: int| #[trigger]
                is_parked(events, i, j) && events[j]->WorkerUnparkEvent_0.sched_wait_ns
                    > threshold_ns ==> at.contains((i, j))
        }),
{
    lemma_delayed_at(events, events.len() as int, threshold_ns);
    delayed_at(events, events.len() as int, threshold_ns)
}

// ---------------------------------------------------------------------------
// Polls
// ---------------------------------------------------------------------------

/// A worker polls a task from event `i` to event `j`: the one begins the poll
/// and the other ends it, and the worker begins and ends none in between.
pub open spec fn is_poll(events: Seq<Dial9Event>, i: int, j: int) -> bool {
    &&& 0 <= i < j < events.len()
    &&& events[i] is PollStartEvent
    &&& events[j] is PollEndEvent
    &&& events[i]->PollStartEvent_0.worker_id == events[j]->PollEndEvent_0.worker_id
    &&& forall|k: int|
        i < k < j ==> {
            &&& #[trigger] events[k] is PollStartEvent ==> events[k]->PollStartEvent_0.worker_id
                != events[i]->PollStartEvent_0.worker_id
            &&& events[k] is PollEndEvent ==> events[k]->PollEndEvent_0.worker_id
                != events[i]->PollStartEvent_0.worker_id
        }
}

spec fn polls(ev: Dial9Event, w: u64) -> bool {
    match ev {
        Dial9Event::PollStartEvent(e) => e.worker_id.0 == w,
        Dial9Event::PollEndEvent(e) => e.worker_id.0 == w,
        _ => false,
    }
}

/// Event `i` begins or ends a poll of worker `w`, and no event after it and
/// before event `n` does.
spec fn is_last_poll(events: Seq<Dial9Event>, i: int, n: int, w: u64) -> bool {
    &&& 0 <= i < n
    &&& polls(events[i], w)
    &&& forall|k: int| i < k < n ==> !polls(#[trigger] events[k], w)
}

/// The last event before event `n` that begins or ends a poll of worker `w`.
spec fn last_poll(events: Seq<Dial9Event>, n: int, w: u64) -> Option<int>
    decreases n,
{
    if n <= 0 {
        None
    } else if polls(events[n - 1], w) {
        Some(n - 1)
    } else {
        last_poll(events, n - 1, w)
    }
}

proof fn lemma_last_poll(events: Seq<Dial9Event>, n: int, w: u64)
    requires
        n <= events.len(),
    ensures
        forall|i: int| is_last_poll(events, i, n, w) <==> last_poll(events, n, w) == Some(i),
        open_poll(events, n, w) == (match last_poll(events, n, w) {
            Some(i) => match events[i] {
                Dial9Event::PollStartEvent(e) => Some((e.timestamp_ns, e.task_id, e.spawn_loc)),
                _ => None,
            },
            None => None,
        }),
    decreases n,
{
    if n > 0 {
        lemma_last_poll(events, n - 1, w);
        assert forall|i: int|
            is_last_poll(events, i, n, w) <==> last_poll(events, n, w) == Some(i) by {
            if polls(events[n - 1], w) {
                if is_last_poll(events, i, n, w) && i < n - 1 {
                    assert(!polls(events[n - 1], w));
                }
            } else {
                assert(is_last_poll(events, i, n, w) <==> is_last_poll(events, i, n - 1, w));
            }
        }
    }
}

/// Where the long polls of the first `n` events begin and end.
spec fn long_at(events: Seq<Dial9Event>, n: int, threshold_ns: u64) -> Seq<(int, int)>
    decreases n,
{
    if n <= 0 {
        Seq::empty()
    } else {
        let before = long_at(events, n - 1, threshold_ns);
        match events[n - 1] {
            Dial9Event::PollEndEvent(e) => match last_poll(events, n - 1, e.worker_id.0) {
                Some(i) => if events[i] is PollStartEvent && e.timestamp_ns
                    - events[i]->PollStartEvent_0.timestamp_ns > threshold_ns {
                    before.push((i, n - 1))
                } else {
                    before
                },
                None => before,
            },
            _ => before,
        }
    }
}

proof fn lemma_long_at(events: Seq<Dial9Event>, n: int, threshold_ns: u64)
    requires
        n <= events.len(),
    ensures
        ({
            let at = long_at(events, n, threshold_ns);
            let found = long_polls(events, n, threshold_ns);
            &&& at.len() == found.len()
            &&& forall|m: int|
                0 <= m < at.len() ==> {
                    let (i, j) = #[trigger] at[m];
                    let start = events[i]->PollStartEvent_0;
                    let end = events[j]->PollEndEvent_0;
                    &&& is_poll(events, i, j)
                    &&& j < n
                    &&& end.timestamp_ns - start.timestamp_ns > threshold_ns
                    &&& found[m].worker_id == start.worker_id
                    &&& found[m].start_ns == start.timestamp_ns
                    &&& found[m].end_ns == end.timestamp_ns
                    &&& found[m].duration_ns == end.timestamp_ns - start.timestamp_ns
                    &&& found[m].task_id == start.task_id
                    &&& found[m].spawn_loc == start.spawn_loc
                }
            &&& forall|a: int, b: int|
                0 <= a < b < at.len() ==> (#[trigger] at[a]).1 < (#[trigger] at[b]).1
            &&& forall|i: int, j: int| #[trigger]
                is_poll(events, i, j) && j < n && events[j]->PollEndEvent_0.timestamp_ns
                    - events[i]->PollStartEvent_0.timestamp_ns > threshold_ns ==> at.contains(
                    (i, j),
                )
        }),
    decreases n,
{
    if n > 0 {
        lemma_long_at(events, n - 1, threshold_ns);
        let before = long_at(events, n - 1, threshold_ns);
        let at = long_at(events, n, threshold_ns);
        if let Dial9Event::PollEndEvent(e) = events[n - 1] {
            lemma_last_poll(events, n - 1, e.worker_id.0);
            if let Some(i) = last_poll(events, n - 1, e.worker_id.0) {
                assert(is_last_poll(events, i, n - 1, e.worker_id.0));
                if events[i] is PollStartEvent {
                    assert(is_poll(events, i, n - 1));
                    if e.timestamp_ns - events[i]->PollStartEvent_0.timestamp_ns > threshold_ns {
                        assert(at[before.len() as int] == (i, n - 1));
                    }
                }
            }
        }
        assert forall|i: int, j: int| #[trigger]
            is_poll(events, i, j) && j < n && events[j]->PollEndEvent_0.timestamp_ns
                - events[i]->PollStartEvent_0.timestamp_ns > threshold_ns implies at.contains(
            (i, j),
        ) by {
            if j < n - 1 {
                let m = choose|m: int| 0 <= m < before.len() && before[m] == (i, j);
                assert(at[m] == (i, j));
            } else {
                let w = events[j]->PollEndEvent_0.worker_id.0;
                assert(is_last_poll(events, i, n - 1, w));
                assert(at[before.len() as int] == (i, j));
            }
        }
    }
}

/// The long polls of a trace are exactly the polls that lasted longer than the
/// threshold, each with its worker, times, task and spawn location, in the
/// order in which they ended. The law returns where each begins and ends.
pub proof fn law_long_polls_are_the_polls_over_the_threshold(
    events: Seq<Dial9Event>,
    threshold_ns: u64,
) -> (at: Seq<(int, int)>)
    ensures
        ({
            let found = long_polls(events, events.len() as int, threshold_ns);
            &&& at.len() == found.len()
            &&& forall|m: int|
                0 <= m < at.len() ==> {
                    let (i, j) = #[trigger] at[m];
                    let start = events[i]->PollStartEvent_0;
                    let end = events[j]->PollEndEvent_0;
                    &&& is_poll(events, i, j)
                    &&& end.timestamp_ns - start.timestamp_ns > threshold_ns
                    &&& found[m].worker_id == start.worker_id
                    &&& found[m].start_ns == start.timestamp_ns
                    &&& found[m].end_ns == end.timestamp_ns
                    &&& found[m].duration_ns == end.timestamp_ns - start.timestamp_ns
                    &&& found[m].task_id == start.task_id
                    &&& found[m].spawn_loc == start.spawn_loc
                }
            &&& forall|a: int, b: int|
                0 <= a < b < at.len() ==> (#[trigger] at[a]).1 < (#[trigger] at[b]).1
            &&& forall|i: int, j: int| #[trigger]
                is_poll(events, i, j) && events[j]->PollEndEvent_0.timestamp_ns
                    - events[i]->PollStartEvent_0.timestamp_ns > threshold_ns ==> at.contains(
                    (i, j),
                )
        }),
{
    lemma_long_at(events, events.len() as int, threshold_ns);
    long_at(events, events.len() as int, threshold_ns)
}

// ---------------------------------------------------------------------------
// Wake-to-poll delays
// ---------------------------------------------------------------------------

/// The task that event `j` begins to poll was woken last by event `k`: no wake
/// of the task lies after it in time and not after the poll.
pub open spec fn is_woken_by(events: Seq<Dial9Event>, k: int, j: int) -> bool {
    &&& 0 <= k < events.len()
    &&& 0 <= j < events.len()
    &&& events[k] is WakeEvent
    &&& events[j] is PollStartEvent
    &&& events[k]->WakeEvent_0.woken_task_id == events[j]->PollStartEvent_0.task_id
    &&& events[k]->WakeEvent_0.timestamp_ns <= events[j]->PollStartEvent_0.timestamp_ns
    &&& forall|o: int|
        0 <= o < events.len() && #[trigger] events[o] is WakeEvent
            && events[o]->WakeEvent_0.woken_task_id == events[j]->PollStartEvent_0.task_id ==> (
        events[o]->WakeEvent_0.timestamp_ns <= events[k]->WakeEvent_0.timestamp_ns
            || events[o]->WakeEvent_0.timestamp_ns > events[j]->PollStartEvent_0.timestamp_ns)
}

proof fn lemma_latest_wake(events: Seq<Dial9Event>, n: int, task: u64, t: u64)
    requires
        0 <= n <= events.len(),
    ensures
        latest_wake(events, n, task, t) matches Some(at) ==> at <= t && exists|k: int|
            0 <= k < n && #[trigger] events[k] is WakeEvent && events[k]->WakeEvent_0.woken_task_id
                == task && events[k]->WakeEvent_0.timestamp_ns == at,
        forall|k: int|
            0 <= k < n && #[trigger] events[k] is WakeEvent && events[k]->WakeEvent_0.woken_task_id
                == task && events[k]->WakeEvent_0.timestamp_ns <= t ==> (latest_wake(
                events,
                n,
                task,
                t,
            ) matches Some(at) && events[k]->WakeEvent_0.timestamp_ns <= at),
    decreases n,
{
    if n > 0 {
        lemma_latest_wake(events, n - 1, task, t);
        if let Some(at) = latest_wake(events, n, task, t) {
            if latest_wake(events, n - 1, task, t) == Some(at) {
                let k = choose|k: int|
                    0 <= k < n - 1 && #[trigger] events[k] is WakeEvent
                        && events[k]->WakeEvent_0.woken_task_id == task
                        && events[k]->WakeEvent_0.timestamp_ns == at;
                assert(0 <= k < n && events[k] is WakeEvent);
            } else {
                assert(events[n - 1] is WakeEvent);
            }
        }
    }
}

/// A wake that woke the task of the poll last, if there is one.
spec fn waker_of(events: Seq<Dial9Event>, j: int) -> int {
    choose|k: int| is_woken_by(events, k, j)
}

/// Where the wake delays of the first `n` events are: the polls, each with the
/// wake before it.
spec fn woken_at(events: Seq<Dial9Event>, n: int, threshold_ns: u64) -> Seq<(int, int)>
    decreases n,
{
    if n <= 0 {
        Seq::empty()
    } else {
        let before = woken_at(events, n - 1, threshold_ns);
        let k = waker_of(events, n - 1);
        if is_woken_by(events, k, n - 1) && threshold_ns < events[n
            - 1]->PollStartEvent_0.timestamp_ns - events[k]->WakeEvent_0.timestamp_ns
            < 1_000_000_000 {
            before.push((k, n - 1))
        } else {
            before
        }
    }
}

proof fn lemma_woken_at(events: Seq<Dial9Event>, n: int, threshold_ns: u64)
    requires
        n <= events.len(),
    ensures
        ({
            let at = woken_at(events, n, threshold_ns);
            let delays = wake_delays_over(events, n, threshold_ns);
            &&& at.len() == delays.len()
            &&& forall|m: int|
                0 <= m < at.len() ==> {
                    let (k, j) = #[trigger] at[m];
                    let wake = events[k]->WakeEvent_0;
                    let poll = events[j]->PollStartEvent_0;
                    &&& is_woken_by(events, k, j)
                    &&& j < n
                    &&& threshold_ns < poll.timestamp_ns - wake.timestamp_ns < 1_000_000_000
                    &&& delays[m].worker_id == poll.worker_id
                    &&& delays[m].task_id == poll.task_id
                    &&& delays[m].wake_ns == wake.timestamp_ns
                    &&& delays[m].poll_ns == poll.timestamp_ns
                    &&& delays[m].wake_ns + delays[m].delay_ns == delays[m].poll_ns
                }
            &&& forall|a: int, b: int|
                0 <= a < b < at.len() ==> (#[trigger] at[a]).1 < (#[trigger] at[b]).1
            &&& forall|k: int, j: int| #[trigger]
                is_woken_by(events, k, j) && j < n && threshold_ns
                    < events[j]->PollStartEvent_0.timestamp_ns - events[k]->WakeEvent_0.timestamp_ns
                    < 1_000_000_000 ==> exists|m: int|
                    0 <= m < at.len() && (#[trigger] at[m]).1 == j
        }),
    decreases n,
{
    if n > 0 {
        lemma_woken_at(events, n - 1, threshold_ns);
        let before = woken_at(events, n - 1, threshold_ns);
        let at = woken_at(events, n, threshold_ns);
        let chosen = waker_of(events, n - 1);
        if let Dial9Event::PollStartEvent(p) = events[n - 1] {
            lemma_latest_wake(events, events.len() as int, p.task_id, p.timestamp_ns);
            if let Some(t) = latest_wake(events, events.len() as int, p.task_id, p.timestamp_ns) {
                let k = choose|k: int|
                    0 <= k < events.len() && #[trigger] events[k] is WakeEvent
                        && events[k]->WakeEvent_0.woken_task_id == p.task_id
                        && events[k]->WakeEvent_0.timestamp_ns == t;
                assert(is_woken_by(events, k, n - 1));
                assert(is_woken_by(events, chosen, n - 1));
                assert(events[chosen] is WakeEvent);
                assert(events[chosen]->WakeEvent_0.timestamp_ns == t);
            } else if is_woken_by(events, chosen, n - 1) {
                assert(events[chosen] is WakeEvent);
            }
        }
        assert forall|k: int, j: int| #[trigger]
            is_woken_by(events, k, j) && j < n && threshold_ns
                < events[j]->PollStartEvent_0.timestamp_ns - events[k]->WakeEvent_0.timestamp_ns
                < 1_000_000_000 implies exists|m: int|
            0 <= m < at.len() && (#[trigger] at[m]).1 == j by {
            if j < n - 1 {
                let m = choose|m: int| 0 <= m < before.len() && (#[trigger] before[m]).1 == j;
                assert(at[m].1 == j);
            } else {
                assert(is_woken_by(events, chosen, n - 1));
                assert(events[chosen] is WakeEvent);
                assert(events[k] is WakeEvent);
                assert(at[before.len() as int].1 == j);
            }
        }
    }
}

/// The wake delays of a trace are exactly the polls that began later than the
/// threshold, but less than a second, after the last wake of their task. Each
/// is reported with the time of that wake and that of the poll, which are the
/// delay apart, in the order of the polls. The law returns the wake and the
/// poll of each.
pub proof fn law_wake_delays_run_from_the_last_wake_to_the_poll(
    events: Seq<Dial9Event>,
    threshold_ns: u64,
) -> (at: Seq<(int, int)>)
    ensures
        ({
            let delays = wake_delays_over(events, events.len() as int, threshold_ns);
            &&& at.len() == delays.len()
            &&& forall|m: int|
                0 <= m < at.len() ==> {
                    let (k, j) = #[trigger] at[m];
                    let wake = events[k]->WakeEvent_0;
                    let poll = events[j]->PollStartEvent_0;
                    &&& is_woken_by(events, k, j)
                    &&& threshold_ns < poll.timestamp_ns - wake.timestamp_ns < 1_000_000_000
                    &&& delays[m].worker_id == poll.worker_id
                    &&& delays[m].task_id == poll.task_id
                    &&& delays[m].wake_ns == wake.timestamp_ns
                    &&& delays[m].poll_ns == poll.timestamp_ns
                    &&& delays[m].wake_ns + delays[m].delay_ns == delays[m].poll_ns
                }
            &&& forall|a: int, b: int|
                0 <= a < b < at.len() ==> (#[trigger] at[a]).1 < (#[trigger] at[b]).1
            &&& forall|k: int, j: int| #[trigger]
                is_woken_by(events, k, j) && threshold_ns
                    < events[j]->PollStartEvent_0.timestamp_ns - events[k]->WakeEvent_0.timestamp_ns
                    < 1_000_000_000 ==> exists|m: int|
                    0 <= m < at.len() && (#[trigger] at[m]).1 == j
        }),
{
    lemma_woken_at(events, events.len() as int, threshold_ns);
    woken_at(events, events.len() as int, threshold_ns)
}

/// The distribution of wake delays holds, for every poll that began up to a
/// second after the last wake of its task, but not at once, the time that
/// passed, and no other. The law returns the wake and the poll of each, in the
/// order of the polls.
pub proof fn law_the_distribution_holds_every_wake_delay(events: Seq<Dial9Event>) -> (at: Seq<
    (int, int),
>)
    ensures
        ({
            let delays = wake_delays(events, events.len() as int);
            &&& at.len() == delays.len()
            &&& forall|m: int|
                0 <= m < at.len() ==> {
                    let (k, j) = #[trigger] at[m];
                    &&& is_woken_by(events, k, j)
                    &&& delays[m] == events[j]->PollStartEvent_0.timestamp_ns
                        - events[k]->WakeEvent_0.timestamp_ns
                    &&& 0 < delays[m] < 1_000_000_000
                }
            &&& forall|a: int, b: int|
                0 <= a < b < at.len() ==> (#[trigger] at[a]).1 < (#[trigger] at[b]).1
            &&& forall|k: int, j: int| #[trigger]
                is_woken_by(events, k, j) && 0 < events[j]->PollStartEvent_0.timestamp_ns
                    - events[k]->WakeEvent_0.timestamp_ns < 1_000_000_000 ==> exists|m: int|
                    0 <= m < at.len() && (#[trigger] at[m]).1 == j
        }),
{
    crate::analysis::law_single_delays_make_up_the_distribution(events, events.len() as int);
    law_wake_delays_run_from_the_last_wake_to_the_poll(events, 0)
}

// ---------------------------------------------------------------------------
// Sampled polls
// ---------------------------------------------------------------------------

/// The event is a sample that falls into the poll from event `i` to event `j`:
/// it is of the poll's worker, not before the poll and not after it, and the
/// worker began no other completed poll since.
pub open spec fn is_sample_of(events: Seq<Dial9Event>, ev: Dial9Event, i: int, j: int) -> bool {
    let poll = events[i]->PollStartEvent_0;
    &&& ev is CpuSampleEvent
    &&& ev->CpuSampleEvent_0.worker_id == poll.worker_id
    &&& poll.timestamp_ns <= ev->CpuSampleEvent_0.timestamp_ns
        <= events[j]->PollEndEvent_0.timestamp_ns
    &&& forall|a: int, b: int| #[trigger]
        is_poll(events, a, b) && events[a]->PollStartEvent_0.worker_id == poll.worker_id
            && events[a]->PollStartEvent_0.timestamp_ns <= ev->CpuSampleEvent_0.timestamp_ns ==> {
            ||| events[a]->PollStartEvent_0.timestamp_ns < poll.timestamp_ns
            ||| events[a]->PollStartEvent_0.timestamp_ns == poll.timestamp_ns && b <= j
        }
}

/// Where the polls of the first `n` events begin and end, in the order of the
/// spans.
spec fn polled_at(events: Seq<Dial9Event>, n: int) -> Seq<(int, int)>
    decreases n,
{
    if n <= 0 {
        Seq::empty()
    } else {
        let before = polled_at(events, n - 1);
        match events[n - 1] {
            Dial9Event::PollEndEvent(e) => match last_poll(events, n - 1, e.worker_id.0) {
                Some(i) => if events[i] is PollStartEvent {
                    before.insert(
                        spans_until(
                            poll_spans(events, n - 1),
                            e.worker_id.0,
                            events[i]->PollStartEvent_0.timestamp_ns,
                        ) as int,
                        (i, n - 1),
                    )
                } else {
                    before
                },
                None => before,
            },
            _ => before,
        }
    }
}

/// The span is that of the poll from event `i` to event `j`.
spec fn spans_poll(events: Seq<Dial9Event>, span: PollSpan, i: int, j: int) -> bool {
    &&& is_poll(events, i, j)
    &&& span.worker_id == events[i]->PollStartEvent_0.worker_id
    &&& span.start_ns == events[i]->PollStartEvent_0.timestamp_ns
    &&& span.end_ns == events[j]->PollEndEvent_0.timestamp_ns
    &&& span.task_id == events[i]->PollStartEvent_0.task_id
    &&& span.spawn_loc == events[i]->PollStartEvent_0.spawn_loc
}

proof fn lemma_polled_at(events: Seq<Dial9Event>, n: int)
    requires
        n <= events.len(),
    ensures
        ({
            let at = polled_at(events, n);
            let spans = poll_spans(events, n);
            &&& at.len() == spans.len()
            &&& forall|k: int|
                0 <= k < at.len() ==> (#[trigger] at[k]).1 < n && spans_poll(
                    events,
                    spans[k],
                    at[k].0,
                    at[k].1,
                )
            &&& forall|a: int, b: int|
                0 <= a < b < at.len() ==> (#[trigger] at[a]).1 != (#[trigger] at[b]).1 && (
                spans[a].worker_id == spans[b].worker_id && spans[a].start_ns == spans[b].start_ns
                    ==> at[a].1 < at[b].1)
            &&& forall|i: int, j: int| #[trigger]
                is_poll(events, i, j) && j < n ==> exists|k: int|
                    0 <= k < at.len() && #[trigger] at[k] == (i, j)
        }),
    decreases n,
{
    if n > 0 {
        lemma_polled_at(events, n - 1);
        lemma_spans_are_sorted(events, n - 1);
        let before = polled_at(events, n - 1);
        let spans_before = poll_spans(events, n - 1);
        let at = polled_at(events, n);
        let spans = poll_spans(events, n);
        if let Dial9Event::PollEndEvent(e) = events[n - 1] {
            let w = e.worker_id.0;
            lemma_last_poll(events, n - 1, w);
            if let Some(i) = last_poll(events, n - 1, w) {
                assert(is_last_poll(events, i, n - 1, w));
                if events[i] is PollStartEvent {
                    assert(is_poll(events, i, n - 1));
                    let t = events[i]->PollStartEvent_0.timestamp_ns;
                    lemma_spans_until(spans_before, w, t);
                    let p = spans_until(spans_before, w, t) as int;
                    assert(at == before.insert(p, (i, n - 1)));
                    assert(spans.len() == spans_before.len() + 1);
                    assert(spans_poll(events, spans[p], i, n - 1));
                    assert forall|k: int| 0 <= k < at.len() implies (#[trigger] at[k]).1 < n
                        && spans_poll(events, spans[k], at[k].0, at[k].1) by {
                        if k < p {
                            assert(at[k] == before[k] && spans[k] == spans_before[k]);
                        } else if k > p {
                            assert(at[k] == before[k - 1] && spans[k] == spans_before[k - 1]);
                        }
                    }
                    assert forall|a: int, b: int| 0 <= a < b < at.len() implies (
                    #[trigger] at[a]).1 != (#[trigger] at[b]).1 && (spans[a].worker_id
                        == spans[b].worker_id && spans[a].start_ns == spans[b].start_ns ==> at[a].1
                        < at[b].1) by {
                        let x = if a < p {
                            a
                        } else {
                            a - 1
                        };
                        let y = if b < p {
                            b
                        } else {
                            b - 1
                        };
                        if a != p {
                            assert(at[a] == before[x] && spans[a] == spans_before[x]);
                        }
                        if b != p {
                            assert(at[b] == before[y] && spans[b] == spans_before[y]);
                        }
                        if a == p {
                            assert(crate::analysis::span_not_after(spans_before[y], w, t) <==> y
                                < p);
                        }
                    }
                    assert forall|c: int, d: int| #[trigger] is_poll(events, c, d) && d
                        < n implies exists|k: int| 0 <= k < at.len() && #[trigger] at[k] == (
                        c,
                        d,
                    ) by {
                        if d < n - 1 {
                            let k = choose|k: int|
                                0 <= k < before.len() && #[trigger] before[k] == (c, d);
                            assert(at[if k < p {
                                k
                            } else {
                                k + 1
                            }] == (c, d));
                        } else {
                            assert(is_last_poll(events, c, n - 1, w));
                            assert(at[p] == (c, d));
                        }
                    }
                } else {
                    assert forall|c: int, d: int| #[trigger] is_poll(events, c, d) && d
                        < n implies exists|k: int| 0 <= k < at.len() && #[trigger] at[k] == (
                        c,
                        d,
                    ) by {
                        if d == n - 1 {
                            assert(is_last_poll(events, c, n - 1, w));
                        }
                    }
                }
            } else {
                assert forall|c: int, d: int| #[trigger] is_poll(events, c, d) && d < n implies exists|
                    k: int,
                | 0 <= k < at.len() && #[trigger] at[k] == (c, d) by {
                    if d == n - 1 {
                        assert(is_last_poll(events, c, n - 1, w));
                    }
                }
            }
        }
    }
}

proof fn lemma_sample_of_span(events: Seq<Dial9Event>, ev: Dial9Event, k: int)
    requires
        ev is CpuSampleEvent,
        0 <= k < polled_at(events, events.len() as int).len(),
    ensures
        ({
            let at = polled_at(events, events.len() as int);
            let e = ev->CpuSampleEvent_0;
            span_at(poll_spans(events, events.len() as int), e.worker_id.0, e.timestamp_ns)
                == Some(k) <==> is_sample_of(events, ev, at[k].0, at[k].1)
        }),
{
    let n = events.len() as int;
    let at = polled_at(events, n);
    let spans = poll_spans(events, n);
    let w = ev->CpuSampleEvent_0.worker_id.0;
    let t = ev->CpuSampleEvent_0.timestamp_ns;
    lemma_polled_at(events, n);
    lemma_spans_are_sorted(events, n);
    lemma_spans_until(spans, w, t);
    let u = spans_until(spans, w, t) as int;
    let (i, j) = at[k];
    assert(spans_poll(events, spans[k], i, j));
    assert(span_not_after(spans[k], w, t) <==> k < u);
    if span_at(spans, w, t) == Some(k) {
        assert forall|a: int, b: int| #[trigger]
            is_poll(events, a, b) && events[a]->PollStartEvent_0.worker_id
                == events[i]->PollStartEvent_0.worker_id
                && events[a]->PollStartEvent_0.timestamp_ns <= t implies {
            ||| events[a]->PollStartEvent_0.timestamp_ns < events[i]->PollStartEvent_0.timestamp_ns
            ||| events[a]->PollStartEvent_0.timestamp_ns
                == events[i]->PollStartEvent_0.timestamp_ns && b <= j
        } by {
            let m = choose|m: int| 0 <= m < at.len() && #[trigger] at[m] == (a, b);
            assert(spans_poll(events, spans[m], at[m].0, at[m].1));
            assert(span_not_after(spans[m], w, t) <==> m < u);
            assert(span_not_after(spans[m], spans[k].worker_id.0, spans[k].start_ns));
        }
    }
    if is_sample_of(events, ev, i, j) && k < u - 1 {
        let m = u - 1;
        assert(spans_poll(events, spans[m], at[m].0, at[m].1));
        assert(span_not_after(spans[m], w, t) <==> m < u);
        assert(span_not_after(spans[k], spans[m].worker_id.0, spans[m].start_ns));
        assert(is_poll(events, at[m].0, at[m].1));
        assert(at[k].1 < at[m].1);
        assert(false);
    }
}

proof fn lemma_count_is_filter_len(
    events: Seq<Dial9Event>,
    n: int,
    p: spec_fn(Dial9Event) -> bool,
    q: spec_fn(Dial9Event) -> bool,
)
    requires
        0 <= n <= events.len(),
        forall|i: int| 0 <= i < n ==> (p(#[trigger] events[i]) <==> q(events[i])),
    ensures
        count_of(events, n, p) == events.take(n).filter(q).len(),
    decreases n,
{
    if n > 0 {
        lemma_count_is_filter_len(events, n - 1, p, q);
        assert(events.take(n) =~= events.take(n - 1).push(events[n - 1]));
        events.take(n - 1).lemma_filter_push(events[n - 1], q);
    } else {
        assert(events.take(0) =~= Seq::empty());
        reveal(Seq::filter);
    }
}

/// How many events of a trace satisfy `q`.
spec fn matching(events: Seq<Dial9Event>, q: spec_fn(Dial9Event) -> bool) -> nat {
    events.filter(q).len()
}

/// The samples of the kind that fall into a poll, as the events that they are.
spec fn sample_filter(
    events: Seq<Dial9Event>,
    i: int,
    j: int,
    source: CpuSampleSource,
) -> spec_fn(Dial9Event) -> bool {
    |ev: Dial9Event| is_sample_of(events, ev, i, j) && ev->CpuSampleEvent_0.source == source
}

/// Where the first `k` spans that have samples begin and end.
spec fn sampled_at(events: Seq<Dial9Event>, k: int) -> Seq<(int, int)>
    decreases k,
{
    if k <= 0 {
        Seq::empty()
    } else {
        let before = sampled_at(events, k - 1);
        let at = polled_at(events, events.len() as int);
        let (i, j) = at[k - 1];
        if matching(events, sample_filter(events, i, j, CpuSampleSource::CpuProfile)) > 0
            || matching(events, sample_filter(events, i, j, CpuSampleSource::SchedEvent)) > 0 {
            before.push((i, j))
        } else {
            before
        }
    }
}

/// The reported poll is that from event `i` to event `j`, with the numbers of
/// samples that fall into it.
spec fn reports(events: Seq<Dial9Event>, poll: SampledPoll, i: int, j: int) -> bool {
    let start = events[i]->PollStartEvent_0;
    &&& is_poll(events, i, j)
    &&& poll.worker_id == start.worker_id
    &&& poll.start_ns == start.timestamp_ns
    &&& poll.end_ns == events[j]->PollEndEvent_0.timestamp_ns
    &&& poll.task_id == start.task_id
    &&& poll.spawn_loc == start.spawn_loc
    &&& poll.cpu_sample_count == matching(
        events,
        sample_filter(events, i, j, CpuSampleSource::CpuProfile),
    )
    &&& poll.sched_sample_count == matching(
        events,
        sample_filter(events, i, j, CpuSampleSource::SchedEvent),
    )
    &&& poll.cpu_sample_count > 0 || poll.sched_sample_count > 0
}

proof fn lemma_span_count(events: Seq<Dial9Event>, k: int, source: CpuSampleSource)
    requires
        0 <= k < polled_at(events, events.len() as int).len(),
    ensures
        ({
            let n = events.len() as int;
            let (i, j) = polled_at(events, n)[k];
            count_of(events, n, is_sample_in(poll_spans(events, n), k, source)) == matching(
                events,
                sample_filter(events, i, j, source),
            )
        }),
{
    let n = events.len() as int;
    let (i, j) = polled_at(events, n)[k];
    let p = is_sample_in(poll_spans(events, n), k, source);
    let q = sample_filter(events, i, j, source);
    assert forall|m: int| 0 <= m < n implies (p(#[trigger] events[m]) <==> q(events[m])) by {
        if events[m] is CpuSampleEvent {
            lemma_sample_of_span(events, events[m], k);
        }
    }
    lemma_count_is_filter_len(events, n, p, q);
    assert(events.take(n) =~= events);
}

proof fn lemma_sampled_at(events: Seq<Dial9Event>, k: int)
    requires
        events.len() <= usize::MAX,
        k <= polled_at(events, events.len() as int).len(),
    ensures
        ({
            let n = events.len() as int;
            let all = polled_at(events, n);
            let at = sampled_at(events, k);
            let found = sampled_polls(events, poll_spans(events, n), k);
            &&& at.len() == found.len()
            &&& forall|m: int|
                0 <= m < at.len() ==> reports(events, found[m], (#[trigger] at[m]).0, at[m].1)
            &&& forall|m: int|
                0 <= m < at.len() ==> exists|x: int|
                    0 <= x < k && #[trigger] all[x] == #[trigger] at[m]
            &&& forall|a: int, b: int|
                0 <= a < b < at.len() ==> in_poll_order(
                    events,
                    #[trigger] at[a],
                    #[trigger] at[b],
                )
            &&& forall|x: int|
                0 <= x < k && (matching(
                    events,
                    sample_filter(
                        events,
                        (#[trigger] all[x]).0,
                        all[x].1,
                        CpuSampleSource::CpuProfile,
                    ),
                ) > 0 || matching(
                    events,
                    sample_filter(events, all[x].0, all[x].1, CpuSampleSource::SchedEvent),
                ) > 0) ==> at.contains(all[x])
        }),
    decreases k,
{
    if k > 0 {
        let n = events.len() as int;
        lemma_sampled_at(events, k - 1);
        lemma_polled_at(events, n);
        lemma_spans_are_sorted(events, n);
        let all = polled_at(events, n);
        let spans = poll_spans(events, n);
        let before = sampled_at(events, k - 1);
        let at = sampled_at(events, k);
        let (i, j) = all[k - 1];
        assert(spans_poll(events, spans[k - 1], i, j));
        lemma_span_count(events, k - 1, CpuSampleSource::CpuProfile);
        lemma_span_count(events, k - 1, CpuSampleSource::SchedEvent);
        lemma_count_bound(
            events,
            n,
            is_sample_in(spans, k - 1, CpuSampleSource::CpuProfile),
        );
        lemma_count_bound(
            events,
            n,
            is_sample_in(spans, k - 1, CpuSampleSource::SchedEvent),
        );
        assert forall|m: int| 0 <= m < at.len() implies exists|x: int|
            0 <= x < k && #[trigger] all[x] == #[trigger] at[m] by {
            if m < before.len() {
                let x = choose|x: int| 0 <= x < k - 1 && #[trigger] all[x] == #[trigger] before[m];
                assert(all[x] == at[m]);
            } else {
                assert(all[k - 1] == at[m]);
            }
        }
        assert forall|a: int, b: int| 0 <= a < b < at.len() implies in_poll_order(
            events,
            #[trigger] at[a],
            #[trigger] at[b],
        ) by {
            if b < before.len() {
                assert(in_poll_order(events, before[a], before[b]));
            } else {
                let x = choose|x: int| 0 <= x < k - 1 && #[trigger] all[x] == #[trigger] before[a];
                assert(spans_poll(events, spans[x], all[x].0, all[x].1));
                assert(span_not_after(
                    spans[x],
                    spans[k - 1].worker_id.0,
                    spans[k - 1].start_ns,
                ));
                assert(all[x].1 != all[k - 1].1);
            }
        }
        assert forall|x: int|
            0 <= x < k && (matching(
                events,
                sample_filter(
                    events,
                    (#[trigger] all[x]).0,
                    all[x].1,
                    CpuSampleSource::CpuProfile,
                ),
            ) > 0 || matching(
                events,
                sample_filter(events, all[x].0, all[x].1, CpuSampleSource::SchedEvent),
            ) > 0) implies at.contains(all[x]) by {
            if x < k - 1 {
                let m = choose|m: int| 0 <= m < before.len() && before[m] == all[x];
                assert(at[m] == all[x]);
            } else {
                assert(at[before.len() as int] == all[x]);
            }
        }
    }
}

/// The first of two polls comes before the second: by its worker, then by its
/// start, then by its end in the trace.
pub open spec fn in_poll_order(events: Seq<Dial9Event>, a: (int, int), b: (int, int)) -> bool {
    let x = events[a.0]->PollStartEvent_0;
    let y = events[b.0]->PollStartEvent_0;
    ||| x.worker_id.0 < y.worker_id.0
    ||| x.worker_id.0 == y.worker_id.0 && x.timestamp_ns < y.timestamp_ns
    ||| x.worker_id.0 == y.worker_id.0 && x.timestamp_ns == y.timestamp_ns && a.1 < b.1
}

/// The sampled polls of a trace are exactly the polls into which a CPU profile
/// sample or a scheduler sample falls, ordered by worker and start. Each is
/// reported once, with its worker, times, task and spawn location and with the
/// number of samples of either kind that fall into it. The law returns where
/// each begins and ends.
pub proof fn law_sampled_polls_are_the_polls_with_samples(events: Seq<Dial9Event>) -> (at: Seq<
    (int, int),
>)
    requires
        events.len() <= usize::MAX,
    ensures
        ({
            let spans = poll_spans(events, events.len() as int);
            let found = sampled_polls(events, spans, spans.len() as int);
            &&& at.len() == found.len()
            &&& forall|m: int|
                0 <= m < at.len() ==> {
                    let (i, j) = #[trigger] at[m];
                    let start = events[i]->PollStartEvent_0;
                    &&& is_poll(events, i, j)
                    &&& found[m].worker_id == start.worker_id
                    &&& found[m].start_ns == start.timestamp_ns
                    &&& found[m].end_ns == events[j]->PollEndEvent_0.timestamp_ns
                    &&& found[m].task_id == start.task_id
                    &&& found[m].spawn_loc == start.spawn_loc
                    &&& found[m].cpu_sample_count == events.filter(
                        |ev: Dial9Event|
                            is_sample_of(events, ev, i, j) && ev->CpuSampleEvent_0.source
                                == CpuSampleSource::CpuProfile,
                    ).len()
                    &&& found[m].sched_sample_count == events.filter(
                        |ev: Dial9Event|
                            is_sample_of(events, ev, i, j) && ev->CpuSampleEvent_0.source
                                == CpuSampleSource::SchedEvent,
                    ).len()
                    &&& found[m].cpu_sample_count + found[m].sched_sample_count > 0
                }
            &&& forall|a: int, b: int|
                0 <= a < b < at.len() ==> in_poll_order(events, #[trigger] at[a], #[trigger] at[b])
            &&& forall|i: int, j: int, s: int|
                #![trigger is_poll(events, i, j), events[s]]
                is_poll(events, i, j) && 0 <= s < events.len() && is_sample_of(
                    events,
                    events[s],
                    i,
                    j,
                ) && (events[s]->CpuSampleEvent_0.source == CpuSampleSource::CpuProfile
                    || events[s]->CpuSampleEvent_0.source == CpuSampleSource::SchedEvent)
                    ==> at.contains((i, j))
        }),
{
    let n = events.len() as int;
    let spans = poll_spans(events, n);
    let all = polled_at(events, n);
    let found = sampled_polls(events, spans, spans.len() as int);
    lemma_polled_at(events, n);
    lemma_sampled_at(events, spans.len() as int);
    let at = sampled_at(events, spans.len() as int);
    assert forall|m: int| 0 <= m < at.len() implies {
        let (i, j) = #[trigger] at[m];
        &&& found[m].cpu_sample_count == events.filter(
            |ev: Dial9Event|
                is_sample_of(events, ev, i, j) && ev->CpuSampleEvent_0.source
                    == CpuSampleSource::CpuProfile,
        ).len()
        &&& found[m].sched_sample_count == events.filter(
            |ev: Dial9Event|
                is_sample_of(events, ev, i, j) && ev->CpuSampleEvent_0.source
                    == CpuSampleSource::SchedEvent,
        ).len()
    } by {
        let (i, j) = at[m];
        assert(reports(events, found[m], i, j));
        assert(sample_filter(events, i, j, CpuSampleSource::CpuProfile) =~= (|ev: Dial9Event|
            is_sample_of(events, ev, i, j) && ev->CpuSampleEvent_0.source
                == CpuSampleSource::CpuProfile));
        assert(sample_filter(events, i, j, CpuSampleSource::SchedEvent) =~= (|ev: Dial9Event|
            is_sample_of(events, ev, i, j) && ev->CpuSampleEvent_0.source
                == CpuSampleSource::SchedEvent));
    }
    assert forall|i: int, j: int, s: int|
        #![trigger is_poll(events, i, j), events[s]]
        is_poll(events, i, j) && 0 <= s < events.len() && is_sample_of(events, events[s], i, j) && (
        events[s]->CpuSampleEvent_0.source == CpuSampleSource::CpuProfile
            || events[s]->CpuSampleEvent_0.source
            == CpuSampleSource::SchedEvent) implies at.contains((i, j)) by {
        let k = choose|k: int| 0 <= k < all.len() && #[trigger] all[k] == (i, j);
        let q = sample_filter(events, i, j, events[s]->CpuSampleEvent_0.source);
        events.lemma_filter_contains(q, s);
        assert(matching(events, q) > 0);
        assert(at.contains(all[k]));
    }
    at
}

// ---------------------------------------------------------------------------
// Trace summary
// ---------------------------------------------------------------------------

/// The event carries a time: all do but those of an unknown kind and those of
/// the application that have none.
pub open spec fn is_timed(ev: Dial9Event) -> bool {
    &&& !(ev is Other)
    &&& ev is Custom ==> ev->Custom_0.timestamp_ns is Some
}

/// The time of an event is the one that its fields hold, whatever its kind.
pub proof fn law_events_carry_their_time(ev: Dial9Event)
    ensures
        timestamp_of(ev) is Some <==> is_timed(ev),
        ev is PollStartEvent ==> timestamp_of(ev) == Some(ev->PollStartEvent_0.timestamp_ns),
        ev is PollEndEvent ==> timestamp_of(ev) == Some(ev->PollEndEvent_0.timestamp_ns),
        ev is WorkerParkEvent ==> timestamp_of(ev) == Some(ev->WorkerParkEvent_0.timestamp_ns),
        ev is WorkerUnparkEvent ==> timestamp_of(ev) == Some(
            ev->WorkerUnparkEvent_0.timestamp_ns,
        ),
        ev is QueueSampleEvent ==> timestamp_of(ev) == Some(ev->QueueSampleEvent_0.timestamp_ns),
        ev is TaskSpawnEvent ==> timestamp_of(ev) == Some(ev->TaskSpawnEvent_0.timestamp_ns),
        ev is TaskTerminateEvent ==> timestamp_of(ev) == Some(
            ev->TaskTerminateEvent_0.timestamp_ns,
        ),
        ev is CpuSampleEvent ==> timestamp_of(ev) == Some(ev->CpuSampleEvent_0.timestamp_ns),
        ev is TaskDumpEvent ==> timestamp_of(ev) == Some(ev->TaskDumpEvent_0.timestamp_ns),
        ev is WakeEvent ==> timestamp_of(ev) == Some(ev->WakeEvent_0.timestamp_ns),
        ev is SegmentMetadataEvent ==> timestamp_of(ev) == Some(
            ev->SegmentMetadataEvent_0.timestamp_ns,
        ),
        ev is ClockSyncEvent ==> timestamp_of(ev) == Some(ev->ClockSyncEvent_0.timestamp_ns),
        ev is AllocEvent ==> timestamp_of(ev) == Some(ev->AllocEvent_0.timestamp_ns),
        ev is FreeEvent ==> timestamp_of(ev) == Some(ev->FreeEvent_0.timestamp_ns),
        ev is ProcessResourceUsageEvent ==> timestamp_of(ev) == Some(
            ev->ProcessResourceUsageEvent_0.timestamp_ns,
        ),
        ev is SocketAcceptQueueEvent ==> timestamp_of(ev) == Some(
            ev->SocketAcceptQueueEvent_0.timestamp_ns,
        ),
        ev is Custom ==> timestamp_of(ev) == ev->Custom_0.timestamp_ns,
{
}

/// A summary counts all events of a trace whose first and last event carry a
/// time, and lasts from the one to the other. Of any other trace it is empty.
pub proof fn law_a_summary_covers_the_trace(a: TraceAnalysis, events: Seq<Dial9Event>)
    requires
        is_analysis_of(a, events),
    ensures
        events.len() > 0 && is_timed(events[0]) && is_timed(events.last()) ==> {
            &&& a.total_events == events.len()
            &&& timestamp_of(events.last())->0 >= timestamp_of(events[0])->0 ==> a.duration_ns
                == timestamp_of(events.last())->0 - timestamp_of(events[0])->0
            &&& timestamp_of(events.last())->0 < timestamp_of(events[0])->0 ==> a.duration_ns == 0
        },
        events.len() == 0 || !is_timed(events[0]) || !is_timed(events.last()) ==> {
            &&& a.total_events == 0 && a.duration_ns == 0
            &&& a.max_global_queue == 0 && a.global_queue_sum == 0 && a.global_queue_samples == 0
            &&& forall|w: u64| !#[trigger] a.worker_stats@.contains_key(w)
            &&& forall|loc: Seq<char>| !#[trigger] a.spawn_location_stats@.contains_key(loc)
        },
{
    if events.len() > 0 {
        law_events_carry_their_time(events[0]);
        law_events_carry_their_time(events.last());
    }
}

/// The poll that event `j` ends began last with event `i`: the worker began no
/// other in between.
pub open spec fn is_timed_from(events: Seq<Dial9Event>, i: int, j: int) -> bool {
    &&& 0 <= i < j < events.len()
    &&& events[i] is PollStartEvent
    &&& events[j] is PollEndEvent
    &&& events[i]->PollStartEvent_0.worker_id == events[j]->PollEndEvent_0.worker_id
    &&& forall|k: int|
        i < k < j && #[trigger] events[k] is PollStartEvent
            ==> events[k]->PollStartEvent_0.worker_id != events[i]->PollStartEvent_0.worker_id
}

/// The time from event `i`, which begins a poll, to event `j`, which ends one.
pub open spec fn poll_time(events: Seq<Dial9Event>, i: int, j: int) -> nat {
    if events[j]->PollEndEvent_0.timestamp_ns >= events[i]->PollStartEvent_0.timestamp_ns {
        (events[j]->PollEndEvent_0.timestamp_ns - events[i]->PollStartEvent_0.timestamp_ns) as nat
    } else {
        0
    }
}

spec fn last_start(events: Seq<Dial9Event>, n: int, w: u64) -> Option<int>
    decreases n,
{
    if n <= 0 {
        None
    } else if events[n - 1] is PollStartEvent && events[n - 1]->PollStartEvent_0.worker_id.0 == w {
        Some(n - 1)
    } else {
        last_start(events, n - 1, w)
    }
}

proof fn lemma_last_start(events: Seq<Dial9Event>, n: int, w: u64)
    requires
        n <= events.len(),
    ensures
        last_poll_start(events, n, w) == (match last_start(events, n, w) {
            Some(i) => Some(events[i]->PollStartEvent_0.timestamp_ns),
            None => None,
        }),
        last_start(events, n, w) matches Some(i) ==> {
            &&& 0 <= i < n && events[i] is PollStartEvent
            &&& events[i]->PollStartEvent_0.worker_id.0 == w
        },
        forall|k: int|
            0 <= k < n && #[trigger] events[k] is PollStartEvent
                && events[k]->PollStartEvent_0.worker_id.0 == w ==> (last_start(events, n, w)
                matches Some(i) && k <= i),
    decreases n,
{
    if n > 0 {
        lemma_last_start(events, n - 1, w);
    }
}

proof fn lemma_timed_from(events: Seq<Dial9Event>, j: int, w: u64)
    requires
        0 <= j < events.len(),
        events[j] is PollEndEvent,
        events[j]->PollEndEvent_0.worker_id.0 == w,
    ensures
        forall|i: int| #[trigger]
            is_timed_from(events, i, j) ==> poll_time_at(events, j, w) == poll_time(events, i, j),
        (forall|i: int| !#[trigger] is_timed_from(events, i, j)) ==> poll_time_at(events, j, w)
            == 0,
        last_start(events, j, w) matches Some(i) ==> is_timed_from(events, i, j),
{
    lemma_last_start(events, j, w);
    if let Some(i) = last_start(events, j, w) {
        assert(is_timed_from(events, i, j));
        assert forall|o: int| #[trigger] is_timed_from(events, o, j) implies o == i by {
            assert(events[o] is PollStartEvent);
            assert(events[i] is PollStartEvent);
        }
    } else {
        assert forall|o: int| !#[trigger] is_timed_from(events, o, j) by {
            if is_timed_from(events, o, j) {
                assert(events[o] is PollStartEvent);
            }
        }
    }
}

proof fn lemma_total_is_sum(events: Seq<Dial9Event>, n: int, w: u64)
    requires
        0 <= n,
    ensures
        total_poll_time(events, n, w) == Seq::new(
            n as nat,
            |j: int| poll_time_at(events, j, w),
        ).fold_left(0nat, |x: nat, y: nat| x + y),
    decreases n,
{
    if n > 0 {
        lemma_total_is_sum(events, n - 1, w);
        let all = Seq::new(n as nat, |j: int| poll_time_at(events, j, w));
        assert(all.drop_last() =~= Seq::new((n - 1) as nat, |j: int| poll_time_at(events, j, w)));
    }
}

proof fn lemma_sum_is_fold(events: Seq<Dial9Event>, n: int, f: spec_fn(Dial9Event) -> nat)
    requires
        0 <= n,
    ensures
        sum_of(events, n, f) == Seq::new(n as nat, |j: int| f(events[j])).fold_left(
            0nat,
            |x: nat, y: nat| x + y,
        ),
    decreases n,
{
    if n > 0 {
        lemma_sum_is_fold(events, n - 1, f);
        let all = Seq::new(n as nat, |j: int| f(events[j]));
        assert(all.drop_last() =~= Seq::new((n - 1) as nat, |j: int| f(events[j])));
    }
}

proof fn lemma_max_of(events: Seq<Dial9Event>, n: int, f: spec_fn(Dial9Event) -> nat)
    requires
        0 <= n,
    ensures
        forall|i: int| 0 <= i < n ==> f(#[trigger] events[i]) <= max_of(events, n, f),
        max_of(events, n, f) == 0 || exists|i: int|
            0 <= i < n && f(#[trigger] events[i]) == max_of(events, n, f),
    decreases n,
{
    if n > 0 {
        lemma_max_of(events, n - 1, f);
        if max_of(events, n, f) == max_of(events, n - 1, f) {
            if max_of(events, n, f) != 0 {
                let i = choose|i: int|
                    0 <= i < n - 1 && f(#[trigger] events[i]) == max_of(events, n - 1, f);
                assert(f(events[i]) == max_of(events, n, f));
            }
        } else {
            assert(f(events[n - 1]) == max_of(events, n, f));
        }
    }
}

/// The local queue depth that an event reports.
pub open spec fn queue_depth(ev: Dial9Event) -> nat {
    match ev {
        Dial9Event::PollStartEvent(e) => e.local_queue as nat,
        Dial9Event::WorkerParkEvent(e) => e.local_queue as nat,
        Dial9Event::WorkerUnparkEvent(e) => e.local_queue as nat,
        _ => 0,
    }
}

/// The event begins or ends a poll of the worker, parks or unparks it.
pub open spec fn is_work_of(ev: Dial9Event, w: u64) -> bool {
    ||| ev is PollStartEvent && ev->PollStartEvent_0.worker_id.0 == w
    ||| ev is PollEndEvent && ev->PollEndEvent_0.worker_id.0 == w
    ||| ev is WorkerParkEvent && ev->WorkerParkEvent_0.worker_id.0 == w
    ||| ev is WorkerUnparkEvent && ev->WorkerUnparkEvent_0.worker_id.0 == w
}

/// A summary has an account of exactly the workers that some event polls, parks
/// or unparks. It counts their poll starts, parks and unparks. It adds up, for
/// each end of a poll, the time since the worker last began one, and, for each
/// unpark, the wait that it reports. It gives the largest queue depth and the
/// longest wait that an event of the worker reports. The law returns what each
/// event adds to the time and to the wait.
pub proof fn law_a_summary_accounts_for_every_worker(
    a: TraceAnalysis,
    events: Seq<Dial9Event>,
    w: u64,
) -> (added: (Seq<nat>, Seq<nat>))
    requires
        is_analysis_of(a, events),
        events.len() > 0,
        is_timed(events[0]),
        is_timed(events.last()),
    ensures
        a.worker_stats@.contains_key(w) <==> exists|i: int|
            0 <= i < events.len() && is_work_of(#[trigger] events[i], w),
        a.worker_stats@.contains_key(w) ==> {
            let stats = a.worker_stats@[w];
            &&& stats.poll_count == events.filter(
                |ev: Dial9Event|
                    ev is PollStartEvent && ev->PollStartEvent_0.worker_id.0 == w,
            ).len()
            &&& stats.park_count == events.filter(
                |ev: Dial9Event|
                    ev is WorkerParkEvent && ev->WorkerParkEvent_0.worker_id.0 == w,
            ).len()
            &&& stats.unpark_count == events.filter(
                |ev: Dial9Event|
                    ev is WorkerUnparkEvent && ev->WorkerUnparkEvent_0.worker_id.0 == w,
            ).len()
            &&& stats.total_poll_time_ns == added.0.fold_left(0nat, |x: nat, y: nat| x + y)
            &&& stats.total_sched_wait_ns == added.1.fold_left(0nat, |x: nat, y: nat| x + y)
            &&& forall|i: int|
                0 <= i < events.len() && is_work_of(#[trigger] events[i], w) ==> queue_depth(
                    events[i],
                ) <= stats.max_local_queue
            &&& stats.max_local_queue == 0 || exists|i: int|
                0 <= i < events.len() && is_work_of(#[trigger] events[i], w) && queue_depth(
                    events[i],
                ) == stats.max_local_queue
            &&& forall|i: int|
                0 <= i < events.len() && #[trigger] events[i] is WorkerUnparkEvent
                    && events[i]->WorkerUnparkEvent_0.worker_id.0 == w
                    ==> events[i]->WorkerUnparkEvent_0.sched_wait_ns <= stats.max_sched_wait_ns
            &&& stats.max_sched_wait_ns == 0 || exists|i: int|
                0 <= i < events.len() && #[trigger] events[i] is WorkerUnparkEvent
                    && events[i]->WorkerUnparkEvent_0.worker_id.0 == w
                    && events[i]->WorkerUnparkEvent_0.sched_wait_ns == stats.max_sched_wait_ns
        },
        added.0.len() == events.len(),
        forall|j: int|
            0 <= j < events.len() && !(#[trigger] events[j] is PollEndEvent
                && events[j]->PollEndEvent_0.worker_id.0 == w) ==> added.0[j] == 0,
        forall|i: int, j: int| #[trigger]
            is_timed_from(events, i, j) && events[j]->PollEndEvent_0.worker_id.0 == w ==> added.0[j]
                == poll_time(events, i, j),
        forall|j: int|
            0 <= j < events.len() && #[trigger] events[j] is PollEndEvent && (forall|i: int|
                !#[trigger] is_timed_from(events, i, j)) ==> added.0[j] == 0,
        added.1.len() == events.len(),
        forall|j: int|
            0 <= j < events.len() ==> added.1[j] == if #[trigger] events[j] is WorkerUnparkEvent
                && events[j]->WorkerUnparkEvent_0.worker_id.0 == w {
                events[j]->WorkerUnparkEvent_0.sched_wait_ns as nat
            } else {
                0
            },
{
    let n = events.len() as int;
    law_events_carry_their_time(events[0]);
    law_events_carry_their_time(events.last());
    let times = Seq::new(n as nat, |j: int| poll_time_at(events, j, w));
    let waits = Seq::new(n as nat, |j: int| sched_wait_of(w)(events[j]));
    assert(worker_table_ok(a.worker_stats@, events, n));
    assert(a.worker_stats@.contains_key(w) <==> worker_seen(events, n, w));
    assert forall|i: int| 0 <= i < n implies (is_work_of(#[trigger] events[i], w)
        <==> stats_worker(events[i]) == Some(w)) by {}
    if worker_seen(events, n, w) {
        let i = choose|i: int| 0 <= i < n && #[trigger] stats_worker(events[i]) == Some(w);
        assert(is_work_of(events[i], w));
        let polled = |ev: Dial9Event|
            ev is PollStartEvent && ev->PollStartEvent_0.worker_id.0 == w;
        let parked = |ev: Dial9Event|
            ev is WorkerParkEvent && ev->WorkerParkEvent_0.worker_id.0 == w;
        let unparked = |ev: Dial9Event|
            ev is WorkerUnparkEvent && ev->WorkerUnparkEvent_0.worker_id.0 == w;
        lemma_count_is_filter_len(events, n, is_poll_start_of(w), polled);
        lemma_count_is_filter_len(events, n, is_park_of(w), parked);
        lemma_count_is_filter_len(events, n, is_unpark_of(w), unparked);
        assert(events.take(n) =~= events);
        lemma_total_is_sum(events, n, w);
        lemma_sum_is_fold(events, n, sched_wait_of(w));
        lemma_max_of(events, n, local_queue_of(w));
        lemma_max_of(events, n, sched_wait_of(w));
        let stats = a.worker_stats@[w];
        assert(is_worker_account(stats, events, n, w));
        assert forall|i: int|
            0 <= i < n && is_work_of(#[trigger] events[i], w) implies queue_depth(events[i])
            <= stats.max_local_queue by {
            assert(local_queue_of(w)(events[i]) <= stats.max_local_queue);
        }
        if stats.max_local_queue != 0 {
            let i = choose|i: int|
                0 <= i < n && local_queue_of(w)(#[trigger] events[i]) == stats.max_local_queue;
            assert(is_work_of(events[i], w) && queue_depth(events[i]) == stats.max_local_queue);
        }
        assert forall|i: int|
            0 <= i < n && #[trigger] events[i] is WorkerUnparkEvent
                && events[i]->WorkerUnparkEvent_0.worker_id.0
                == w implies events[i]->WorkerUnparkEvent_0.sched_wait_ns
            <= stats.max_sched_wait_ns by {
            assert(sched_wait_of(w)(events[i]) <= stats.max_sched_wait_ns);
        }
        if stats.max_sched_wait_ns != 0 {
            let i = choose|i: int|
                0 <= i < n && sched_wait_of(w)(#[trigger] events[i]) == stats.max_sched_wait_ns;
            assert(events[i] is WorkerUnparkEvent);
        }
    } else if exists|i: int| 0 <= i < n && is_work_of(#[trigger] events[i], w) {
        let i = choose|i: int| 0 <= i < n && is_work_of(#[trigger] events[i], w);
        assert(stats_worker(events[i]) == Some(w));
    }
    assert forall|i: int, j: int| #[trigger]
        is_timed_from(events, i, j) && events[j]->PollEndEvent_0.worker_id.0
            == w implies times[j] == poll_time(events, i, j) by {
        lemma_timed_from(events, j, w);
    }
    assert forall|j: int|
        0 <= j < n && #[trigger] events[j] is PollEndEvent && (forall|i: int|
            !#[trigger] is_timed_from(events, i, j)) implies times[j] == 0 by {
        if events[j]->PollEndEvent_0.worker_id.0 == w {
            lemma_timed_from(events, j, w);
        }
    }
    (times, waits)
}

/// The global queue depths of a summary are those of the queue samples: how
/// many there are, what they add up to, and the largest. The law returns what
/// each event adds.
pub proof fn law_a_summary_accounts_for_the_global_queue(
    a: TraceAnalysis,
    events: Seq<Dial9Event>,
) -> (added: Seq<nat>)
    requires
        is_analysis_of(a, events),
        events.len() > 0,
        is_timed(events[0]),
        is_timed(events.last()),
    ensures
        a.global_queue_samples == events.filter(|ev: Dial9Event| ev is QueueSampleEvent).len(),
        a.global_queue_sum == added.fold_left(0nat, |x: nat, y: nat| x + y),
        added.len() == events.len(),
        forall|j: int|
            0 <= j < events.len() ==> added[j] == if #[trigger] events[j] is QueueSampleEvent {
                events[j]->QueueSampleEvent_0.global_queue as nat
            } else {
                0
            },
        forall|j: int|
            0 <= j < events.len() && #[trigger] events[j] is QueueSampleEvent
                ==> events[j]->QueueSampleEvent_0.global_queue <= a.max_global_queue,
        a.max_global_queue == 0 || exists|j: int|
            0 <= j < events.len() && #[trigger] events[j] is QueueSampleEvent
                && events[j]->QueueSampleEvent_0.global_queue == a.max_global_queue,
{
    let n = events.len() as int;
    law_events_carry_their_time(events[0]);
    law_events_carry_their_time(events.last());
    lemma_count_is_filter_len(
        events,
        n,
        is_queue_sample(),
        |ev: Dial9Event| ev is QueueSampleEvent,
    );
    assert(events.take(n) =~= events);
    lemma_sum_is_fold(events, n, global_queue_of());
    lemma_max_of(events, n, global_queue_of());
    assert forall|j: int| 0 <= j < n && #[trigger] events[j] is QueueSampleEvent implies events[j]
        ->QueueSampleEvent_0.global_queue <= a.max_global_queue by {
        assert(global_queue_of()(events[j]) <= a.max_global_queue);
    }
    if a.max_global_queue != 0 {
        let i = choose|i: int|
            0 <= i < n && global_queue_of()(#[trigger] events[i]) == a.max_global_queue;
        assert(events[i] is QueueSampleEvent);
    }
    Seq::new(n as nat, |j: int| global_queue_of()(events[j]))
}

/// The poll that event `j` ends is charged to the location of event `i`: the
/// last start of the worker that has a location, unless the worker ended a poll
/// since.
pub open spec fn is_charged_to(events: Seq<Dial9Event>, i: int, j: int) -> bool {
    &&& 0 <= i < j < events.len()
    &&& events[i] is PollStartEvent
    &&& events[j] is PollEndEvent
    &&& events[i]->PollStartEvent_0.worker_id == events[j]->PollEndEvent_0.worker_id
    &&& events[i]->PollStartEvent_0.spawn_loc@.len() > 0
    &&& forall|k: int|
        i < k < j ==> {
            &&& #[trigger] events[k] is PollStartEvent && events[k]->PollStartEvent_0.worker_id
                == events[i]->PollStartEvent_0.worker_id
                ==> events[k]->PollStartEvent_0.spawn_loc@.len() == 0
            &&& events[k] is PollEndEvent ==> events[k]->PollEndEvent_0.worker_id
                != events[i]->PollStartEvent_0.worker_id
        }
}

/// The event ends a poll of worker `w`, or begins one at a location.
spec fn settles(ev: Dial9Event, w: u64) -> bool {
    match ev {
        Dial9Event::PollStartEvent(e) => e.worker_id.0 == w && e.spawn_loc@.len() > 0,
        Dial9Event::PollEndEvent(e) => e.worker_id.0 == w,
        _ => false,
    }
}

spec fn last_settled(events: Seq<Dial9Event>, n: int, w: u64) -> Option<int>
    decreases n,
{
    if n <= 0 {
        None
    } else if settles(events[n - 1], w) {
        Some(n - 1)
    } else {
        last_settled(events, n - 1, w)
    }
}

proof fn lemma_last_settled(events: Seq<Dial9Event>, n: int, w: u64)
    requires
        n <= events.len(),
    ensures
        pending_location(events, n, w) == (match last_settled(events, n, w) {
            Some(i) => match events[i] {
                Dial9Event::PollStartEvent(e) => Some(e.spawn_loc@),
                _ => None,
            },
            None => None,
        }),
        last_settled(events, n, w) matches Some(i) ==> 0 <= i < n && settles(events[i], w),
        forall|k: int|
            0 <= k < n && settles(#[trigger] events[k], w) ==> (last_settled(events, n, w)
                matches Some(i) && k <= i),
    decreases n,
{
    if n > 0 {
        lemma_last_settled(events, n - 1, w);
    }
}

proof fn lemma_charged_to(events: Seq<Dial9Event>, j: int)
    requires
        0 <= j < events.len(),
        events[j] is PollEndEvent,
    ensures
        forall|i: int| #[trigger]
            is_charged_to(events, i, j) ==> pending_location(
                events,
                j,
                events[j]->PollEndEvent_0.worker_id.0,
            ) == Some(events[i]->PollStartEvent_0.spawn_loc@),
        pending_location(events, j, events[j]->PollEndEvent_0.worker_id.0) matches Some(loc)
            ==> exists|i: int| #[trigger]
            is_charged_to(events, i, j) && events[i]->PollStartEvent_0.spawn_loc@ == loc,
{
    let w = events[j]->PollEndEvent_0.worker_id.0;
    lemma_last_settled(events, j, w);
    assert forall|i: int| #[trigger] is_charged_to(events, i, j) implies pending_location(
        events,
        j,
        w,
    ) == Some(events[i]->PollStartEvent_0.spawn_loc@) by {
        assert(settles(events[i], w));
        let last = last_settled(events, j, w)->0;
        if last > i {
            assert(settles(events[last], w));
            assert(false);
        }
    }
    if let Some(loc) = pending_location(events, j, w) {
        let last = last_settled(events, j, w)->0;
        assert forall|k: int| last < k < j implies !settles(#[trigger] events[k], w) by {}
        assert forall|k: int| last < k < j implies {
            &&& #[trigger] events[k] is PollStartEvent && events[k]->PollStartEvent_0.worker_id
                == events[last]->PollStartEvent_0.worker_id
                ==> events[k]->PollStartEvent_0.spawn_loc@.len() == 0
            &&& events[k] is PollEndEvent ==> events[k]->PollEndEvent_0.worker_id
                != events[last]->PollStartEvent_0.worker_id
        } by {
            assert(!settles(events[k], w));
        }
        assert(is_charged_to(events, last, j));
    }
}

proof fn lemma_location_total_is_sum(events: Seq<Dial9Event>, n: int, loc: Seq<char>)
    requires
        0 <= n,
    ensures
        location_poll_time(events, n, loc) == Seq::new(
            n as nat,
            |j: int| location_time_at(events, j, loc),
        ).fold_left(0nat, |x: nat, y: nat| x + y),
    decreases n,
{
    if n > 0 {
        lemma_location_total_is_sum(events, n - 1, loc);
        let all = Seq::new(n as nat, |j: int| location_time_at(events, j, loc));
        assert(all.drop_last() =~= Seq::new(
            (n - 1) as nat,
            |j: int| location_time_at(events, j, loc),
        ));
    }
}

/// A summary has an account of exactly the locations, empty ones left out, at
/// which some poll began. It counts these polls, and adds up the times of the
/// polls that are charged to the location. The law returns what each event
/// adds.
pub proof fn law_a_summary_accounts_for_every_location(
    a: TraceAnalysis,
    events: Seq<Dial9Event>,
    loc: Seq<char>,
) -> (added: Seq<nat>)
    requires
        is_analysis_of(a, events),
        events.len() > 0,
        is_timed(events[0]),
        is_timed(events.last()),
    ensures
        a.spawn_location_stats@.contains_key(loc) <==> loc.len() > 0 && exists|i: int|
            0 <= i < events.len() && #[trigger] events[i] is PollStartEvent
                && events[i]->PollStartEvent_0.spawn_loc@ == loc,
        a.spawn_location_stats@.contains_key(loc) ==> {
            let stats = a.spawn_location_stats@[loc];
            &&& stats.poll_count == events.filter(
                |ev: Dial9Event|
                    ev is PollStartEvent && ev->PollStartEvent_0.spawn_loc@ == loc,
            ).len()
            &&& stats.total_poll_time_ns == added.fold_left(0nat, |x: nat, y: nat| x + y)
        },
        added.len() == events.len(),
        forall|i: int, s: int, j: int|
            #![trigger is_charged_to(events, i, j), is_timed_from(events, s, j)]
            is_charged_to(events, i, j) && is_timed_from(events, s, j)
                && events[i]->PollStartEvent_0.spawn_loc@ == loc ==> added[j] == poll_time(
                events,
                s,
                j,
            ),
        forall|j: int|
            0 <= j < events.len() && (forall|i: int| #[trigger]
                is_charged_to(events, i, j) ==> events[i]->PollStartEvent_0.spawn_loc@ != loc)
                ==> #[trigger] added[j] == 0,
{
    let n = events.len() as int;
    law_events_carry_their_time(events[0]);
    law_events_carry_their_time(events.last());
    let added = Seq::new(n as nat, |j: int| location_time_at(events, j, loc));
    let q = |ev: Dial9Event| ev is PollStartEvent && ev->PollStartEvent_0.spawn_loc@ == loc;
    lemma_count_is_filter_len(events, n, is_poll_start_at(loc), q);
    assert(events.take(n) =~= events);
    lemma_location_total_is_sum(events, n, loc);
    assert(location_table_ok(a.spawn_location_stats@, events, n));
    assert(a.spawn_location_stats@.contains_key(loc) <==> (loc.len() > 0 && events.filter(q).len()
        > 0));
    if events.filter(q).len() > 0 {
        let first = events.filter(q)[0];
        events.lemma_filter_pred(q, 0);
        assert(events.filter(q).contains(first));
        events.lemma_filter_contains_rev(q, first);
        let i = choose|i: int| 0 <= i < events.len() && events[i] == first;
        assert(events[i] is PollStartEvent);
    }
    if exists|i: int|
        0 <= i < events.len() && #[trigger] events[i] is PollStartEvent
            && events[i]->PollStartEvent_0.spawn_loc@ == loc {
        let i = choose|i: int|
            0 <= i < events.len() && #[trigger] events[i] is PollStartEvent
                && events[i]->PollStartEvent_0.spawn_loc@ == loc;
        events.lemma_filter_contains(q, i);
    }
    assert forall|i: int, s: int, j: int|
        #![trigger is_charged_to(events, i, j), is_timed_from(events, s, j)]
        is_charged_to(events, i, j) && is_timed_from(events, s, j)
            && events[i]->PollStartEvent_0.spawn_loc@ == loc implies added[j] == poll_time(
        events,
        s,
        j,
    ) by {
        lemma_charged_to(events, j);
        lemma_timed_from(events, j, events[j]->PollEndEvent_0.worker_id.0);
    }
    assert forall|j: int|
        0 <= j < events.len() && (forall|i: int| #[trigger]
            is_charged_to(events, i, j) ==> events[i]->PollStartEvent_0.spawn_loc@
                != loc) implies #[trigger] added[j] == 0 by {
        if events[j] is PollEndEvent {
            lemma_charged_to(events, j);
        }
    }
    added
}

// ---------------------------------------------------------------------------
// Workers do not interfere
// ---------------------------------------------------------------------------

/// The events of a trace that poll, park or unpark a worker.
pub open spec fn work_of(events: Seq<Dial9Event>, w: u64) -> Seq<Dial9Event> {
    events.filter(|ev: Dial9Event| is_work_of(ev, w))
}

proof fn lemma_active_prefix(events: Seq<Dial9Event>, ev: Dial9Event, n: int, w: u64)
    requires
        n <= events.len(),
    ensures
        active_since(events.push(ev), n, w) == active_since(events, n, w),
        active_periods(events.push(ev), n) == active_periods(events, n),
        last_poll_start(events.push(ev), n, w) == last_poll_start(events, n, w),
        total_poll_time(events.push(ev), n, w) == total_poll_time(events, n, w),
    decreases n,
{
    if n > 0 {
        lemma_active_prefix(events, ev, n - 1, w);
        assert(events.push(ev)[n - 1] == events[n - 1]);
        if let Dial9Event::WorkerParkEvent(e) = events[n - 1] {
            lemma_active_prefix(events, ev, n - 1, e.worker_id.0);
        }
    }
}

proof fn lemma_prefix_folds(
    events: Seq<Dial9Event>,
    ev: Dial9Event,
    n: int,
    p: spec_fn(Dial9Event) -> bool,
    f: spec_fn(Dial9Event) -> nat,
)
    requires
        n <= events.len(),
    ensures
        count_of(events.push(ev), n, p) == count_of(events, n, p),
        sum_of(events.push(ev), n, f) == sum_of(events, n, f),
        max_of(events.push(ev), n, f) == max_of(events, n, f),
    decreases n,
{
    if n > 0 {
        lemma_prefix_folds(events, ev, n - 1, p, f);
        assert(events.push(ev)[n - 1] == events[n - 1]);
    }
}

/// The worker's part of what is reported agrees on two traces.
spec fn agree_on(a: Seq<Dial9Event>, b: Seq<Dial9Event>, w: u64) -> bool {
    let (m, n) = (a.len() as int, b.len() as int);
    &&& active_since(a, m, w) == active_since(b, n, w)
    &&& active_periods(a, m).filter(|p: ActivePeriod| p.worker_id.0 == w) == active_periods(b, n)
    &&& last_poll_start(a, m, w) == last_poll_start(b, n, w)
    &&& total_poll_time(a, m, w) == total_poll_time(b, n, w)
    &&& count_of(a, m, is_poll_start_of(w)) == count_of(b, n, is_poll_start_of(w))
    &&& count_of(a, m, is_park_of(w)) == count_of(b, n, is_park_of(w))
    &&& count_of(a, m, is_unpark_of(w)) == count_of(b, n, is_unpark_of(w))
    &&& sum_of(a, m, sched_wait_of(w)) == sum_of(b, n, sched_wait_of(w))
    &&& max_of(a, m, sched_wait_of(w)) == max_of(b, n, sched_wait_of(w))
    &&& max_of(a, m, local_queue_of(w)) == max_of(b, n, local_queue_of(w))
}

proof fn lemma_prefix_agrees(events: Seq<Dial9Event>, ev: Dial9Event, w: u64)
    ensures
        ({
            let n = events.len() as int;
            let more = events.push(ev);
            &&& active_since(more, n, w) == active_since(events, n, w)
            &&& active_periods(more, n) == active_periods(events, n)
            &&& last_poll_start(more, n, w) == last_poll_start(events, n, w)
            &&& total_poll_time(more, n, w) == total_poll_time(events, n, w)
            &&& count_of(more, n, is_poll_start_of(w)) == count_of(events, n, is_poll_start_of(w))
            &&& count_of(more, n, is_park_of(w)) == count_of(events, n, is_park_of(w))
            &&& count_of(more, n, is_unpark_of(w)) == count_of(events, n, is_unpark_of(w))
            &&& sum_of(more, n, sched_wait_of(w)) == sum_of(events, n, sched_wait_of(w))
            &&& max_of(more, n, sched_wait_of(w)) == max_of(events, n, sched_wait_of(w))
            &&& max_of(more, n, local_queue_of(w)) == max_of(events, n, local_queue_of(w))
            &&& more[n] == ev
        }),
{
    let n = events.len() as int;
    lemma_active_prefix(events, ev, n, w);
    lemma_prefix_folds(events, ev, n, is_poll_start_of(w), sched_wait_of(w));
    lemma_prefix_folds(events, ev, n, is_park_of(w), local_queue_of(w));
    lemma_prefix_folds(events, ev, n, is_unpark_of(w), local_queue_of(w));
}

proof fn lemma_work_suffices(events: Seq<Dial9Event>, w: u64)
    ensures
        agree_on(events, work_of(events, w), w),
    decreases events.len(),
{
    let mine = |p: ActivePeriod| p.worker_id.0 == w;
    let of_worker = |ev: Dial9Event| is_work_of(ev, w);
    reveal(Seq::filter);
    if events.len() == 0 {
        assert(work_of(events, w) =~= events);
        assert(active_periods(events, 0).filter(mine) =~= active_periods(events, 0));
    } else {
        let rest = events.drop_last();
        let ev = events.last();
        lemma_work_suffices(rest, w);
        assert(events =~= rest.push(ev));
        rest.lemma_filter_push(ev, of_worker);
        let n = rest.len() as int;
        let kept = work_of(rest, w);
        lemma_prefix_agrees(rest, ev, w);
        let periods = active_periods(events, n + 1);
        let before = active_periods(rest, n);
        if periods.len() > before.len() {
            before.lemma_filter_push(periods.last(), mine);
            assert(periods =~= before.push(periods.last()));
        }
        if is_work_of(ev, w) {
            lemma_prefix_agrees(kept, ev, w);
            assert(work_of(events, w) == kept.push(ev));
        } else {
            assert(work_of(events, w) == kept);
        }
    }
}

/// The active periods of a worker depend on its own events alone: they are the
/// periods of the trace without the events of all others.
pub proof fn law_active_periods_depend_on_their_worker_alone(events: Seq<Dial9Event>, w: u64)
    ensures
        active_periods(events, events.len() as int).filter(
            |p: ActivePeriod| p.worker_id.0 == w,
        ) == active_periods(
            events.filter(|ev: Dial9Event| is_work_of(ev, w)),
            events.filter(|ev: Dial9Event| is_work_of(ev, w)).len() as int,
        ),
{
    lemma_work_suffices(events, w);
}

/// The account of a worker depends on its own events alone: it is its account
/// in the summary of the trace without the events of all others.
pub proof fn law_accounts_depend_on_their_worker_alone(
    a: TraceAnalysis,
    b: TraceAnalysis,
    events: Seq<Dial9Event>,
    w: u64,
)
    requires
        is_analysis_of(a, events),
        is_analysis_of(b, events.filter(|ev: Dial9Event| is_work_of(ev, w))),
        a.worker_stats@.contains_key(w),
    ensures
        b.worker_stats@.contains_key(w),
        a.worker_stats@[w] == b.worker_stats@[w],
{
    let n = events.len() as int;
    let of_worker = |ev: Dial9Event| is_work_of(ev, w);
    let work = events.filter(of_worker);
    lemma_work_suffices(events, w);
    assert(work == work_of(events, w));
    assert(worker_seen(events, n, w));
    let i = choose|i: int| 0 <= i < n && #[trigger] stats_worker(events[i]) == Some(w);
    events.lemma_filter_contains(of_worker, i);
    let k = choose|k: int| 0 <= k < work.len() && work[k] == events[i];
    assert(stats_worker(work[k]) == Some(w));
    assert(worker_seen(work, work.len() as int, w));
    events.lemma_filter_pred(of_worker, 0);
    events.lemma_filter_pred(of_worker, work.len() - 1);
    law_events_carry_their_time(work[0]);
    law_events_carry_their_time(work.last());
    assert(worker_table_ok(b.worker_stats@, work, work.len() as int));
    assert(worker_table_ok(a.worker_stats@, events, n));
    assert(b.worker_stats@.contains_key(w));
    assert(is_worker_account(b.worker_stats@[w], work, work.len() as int, w));
    assert(is_worker_account(a.worker_stats@[w], events, n, w));
}

// ---------------------------------------------------------------------------
// Global queue depth over time
// ---------------------------------------------------------------------------

/// Event `q` is the queue sample that counts at time `t`: none of the others
/// that are not later than `t` is later in time, or in the trace at the same
/// time.
pub open spec fn is_latest_sample(events: Seq<Dial9Event>, q: int, t: u64) -> bool {
    &&& 0 <= q < events.len()
    &&& events[q] is QueueSampleEvent
    &&& events[q]->QueueSampleEvent_0.timestamp_ns <= t
    &&& forall|o: int|
        0 <= o < events.len() && #[trigger] events[o] is QueueSampleEvent
            && events[o]->QueueSampleEvent_0.timestamp_ns <= t ==> {
            ||| events[o]->QueueSampleEvent_0.timestamp_ns
                < events[q]->QueueSampleEvent_0.timestamp_ns
            ||| events[o]->QueueSampleEvent_0.timestamp_ns
                == events[q]->QueueSampleEvent_0.timestamp_ns && o <= q
        }
}

spec fn queued_at(events: Seq<Dial9Event>, n: int) -> Seq<int>
    decreases n,
{
    if n <= 0 {
        Seq::empty()
    } else {
        let before = queued_at(events, n - 1);
        match events[n - 1] {
            Dial9Event::QueueSampleEvent(q) => before.insert(
                entries_until(queue_timeline(events, n - 1), q.timestamp_ns) as int,
                n - 1,
            ),
            _ => before,
        }
    }
}

/// The first of two queue samples comes before the second, in time or else in
/// the trace.
pub open spec fn in_sample_order(events: Seq<Dial9Event>, a: int, b: int) -> bool {
    let x = events[a]->QueueSampleEvent_0.timestamp_ns;
    let y = events[b]->QueueSampleEvent_0.timestamp_ns;
    x < y || (x == y && a < b)
}

spec fn is_entry_of(events: Seq<Dial9Event>, entry: (u64, usize), q: int) -> bool {
    &&& 0 <= q < events.len()
    &&& events[q] is QueueSampleEvent
    &&& entry.0 == events[q]->QueueSampleEvent_0.timestamp_ns
    &&& entry.1 == events[q]->QueueSampleEvent_0.global_queue
}

proof fn lemma_queued_at(events: Seq<Dial9Event>, n: int)
    requires
        n <= events.len(),
    ensures
        ({
            let at = queued_at(events, n);
            let timeline = queue_timeline(events, n);
            &&& at.len() == timeline.len()
            &&& timeline_sorted(timeline)
            &&& forall|m: int|
                0 <= m < at.len() ==> #[trigger] at[m] < n && is_entry_of(
                    events,
                    timeline[m],
                    at[m],
                )
            &&& forall|a: int, b: int|
                0 <= a < b < at.len() ==> in_sample_order(
                    events,
                    #[trigger] at[a],
                    #[trigger] at[b],
                )
            &&& forall|q: int|
                0 <= q < n && #[trigger] events[q] is QueueSampleEvent ==> at.contains(q)
        }),
    decreases n,
{
    if n > 0 {
        lemma_queued_at(events, n - 1);
        let before = queued_at(events, n - 1);
        let old_line = queue_timeline(events, n - 1);
        let at = queued_at(events, n);
        let timeline = queue_timeline(events, n);
        if let Dial9Event::QueueSampleEvent(s) = events[n - 1] {
            lemma_entries_until(old_line, s.timestamp_ns);
            let p = entries_until(old_line, s.timestamp_ns) as int;
            assert(at[p] == n - 1);
            assert forall|m: int| 0 <= m < at.len() implies #[trigger] at[m] < n && is_entry_of(
                events,
                timeline[m],
                at[m],
            ) by {
                if m < p {
                    assert(at[m] == before[m] && timeline[m] == old_line[m]);
                } else if m > p {
                    assert(at[m] == before[m - 1] && timeline[m] == old_line[m - 1]);
                }
            }
            assert forall|a: int, b: int| 0 <= a < b < at.len() implies in_sample_order(
                events,
                #[trigger] at[a],
                #[trigger] at[b],
            ) by {
                let x = if a < p {
                    a
                } else {
                    a - 1
                };
                let y = if b < p {
                    b
                } else {
                    b - 1
                };
                if a != p {
                    assert(at[a] == before[x]);
                    assert(is_entry_of(events, old_line[x], before[x]));
                }
                if b != p {
                    assert(at[b] == before[y]);
                    assert(is_entry_of(events, old_line[y], before[y]));
                }
                if a != p && b != p {
                    assert(in_sample_order(events, before[x], before[y]));
                }
            }
            assert forall|q: int|
                0 <= q < n && #[trigger] events[q] is QueueSampleEvent implies at.contains(q) by {
                if q < n - 1 {
                    let m = choose|m: int| 0 <= m < before.len() && before[m] == q;
                    assert(at[if m < p {
                        m
                    } else {
                        m + 1
                    }] == q);
                }
            }
        }
    }
}

/// The queue timeline holds the time and the depth of every queue sample of
/// the trace, once, in the order of time; samples of one instant keep their
/// order. The law returns the samples.
pub proof fn law_the_queue_timeline_orders_the_samples(events: Seq<Dial9Event>) -> (at: Seq<int>)
    ensures
        ({
            let timeline = queue_timeline(events, events.len() as int);
            &&& at.len() == timeline.len()
            &&& forall|m: int|
                0 <= m < at.len() ==> {
                    let sample = events[#[trigger] at[m]];
                    &&& 0 <= at[m] < events.len()
                    &&& sample is QueueSampleEvent
                    &&& timeline[m].0 == sample->QueueSampleEvent_0.timestamp_ns
                    &&& timeline[m].1 == sample->QueueSampleEvent_0.global_queue
                }
            &&& forall|a: int, b: int|
                0 <= a < b < at.len() ==> in_sample_order(
                    events,
                    #[trigger] at[a],
                    #[trigger] at[b],
                )
            &&& forall|q: int|
                0 <= q < events.len() && #[trigger] events[q] is QueueSampleEvent ==> at.contains(q)
        }),
{
    let n = events.len() as int;
    lemma_queued_at(events, n);
    let at = queued_at(events, n);
    let timeline = queue_timeline(events, n);
    assert forall|m: int| 0 <= m < at.len() implies is_entry_of(
        events,
        timeline[m],
        #[trigger] at[m],
    ) by {}
    at
}

/// A lookup in a timeline gives the depth of the last entry that is not later,
/// and zero before the first.
pub proof fn law_a_lookup_gives_the_last_depth(timeline: Seq<(u64, usize)>, t: u64)
    requires
        timeline_sorted(timeline),
    ensures
        forall|i: int|
            0 <= i < timeline.len() && (#[trigger] timeline[i]).0 <= t && (i + 1 < timeline.len()
                ==> timeline[i + 1].0 > t) ==> depth_at(timeline, t) == timeline[i].1,
        (forall|i: int| 0 <= i < timeline.len() ==> (#[trigger] timeline[i]).0 > t) ==> depth_at(
            timeline,
            t,
        ) == 0,
{
    lemma_entries_until(timeline, t);
}

/// The depth of the global queue at a time is that of the latest sample, and
/// zero before the first.
pub proof fn law_the_depth_is_that_of_the_latest_sample(events: Seq<Dial9Event>, t: u64)
    ensures
        forall|q: int| #[trigger]
            is_latest_sample(events, q, t) ==> depth_at(
                queue_timeline(events, events.len() as int),
                t,
            ) == events[q]->QueueSampleEvent_0.global_queue,
        (forall|q: int| !#[trigger] is_latest_sample(events, q, t)) ==> depth_at(
            queue_timeline(events, events.len() as int),
            t,
        ) == 0,
{
    let n = events.len() as int;
    let timeline = queue_timeline(events, n);
    let at = queued_at(events, n);
    lemma_queued_at(events, n);
    lemma_entries_until(timeline, t);
    let u = entries_until(timeline, t) as int;
    if u > 0 {
        let last = at[u - 1];
        assert(is_entry_of(events, timeline[u - 1], last));
        assert forall|o: int|
            0 <= o < n && #[trigger] events[o] is QueueSampleEvent
                && events[o]->QueueSampleEvent_0.timestamp_ns <= t implies {
            ||| events[o]->QueueSampleEvent_0.timestamp_ns
                < events[last]->QueueSampleEvent_0.timestamp_ns
            ||| events[o]->QueueSampleEvent_0.timestamp_ns
                == events[last]->QueueSampleEvent_0.timestamp_ns && o <= last
        } by {
            let m = choose|m: int| 0 <= m < at.len() && at[m] == o;
            assert(is_entry_of(events, timeline[m], at[m]));
            if m < u - 1 {
                assert(in_sample_order(events, at[m], at[u - 1]));
            }
        }
        assert(is_latest_sample(events, last, t));
        assert forall|q: int| #[trigger] is_latest_sample(events, q, t) implies q == last by {
            assert(events[q] is QueueSampleEvent && events[last] is QueueSampleEvent);
        }
    } else {
        assert forall|q: int| !#[trigger] is_latest_sample(events, q, t) by {
            if is_latest_sample(events, q, t) {
                assert(events[q] is QueueSampleEvent);
                let m = choose|m: int| 0 <= m < at.len() && at[m] == q;
                assert(is_entry_of(events, timeline[m], at[m]));
            }
        }
    }
}

/// A worker idled from event `i` to event `j` while work was pending: it was
/// parked for more than a millisecond, and the global queue, as sampled last
/// when it was unparked, was not empty.
pub open spec fn is_idle(events: Seq<Dial9Event>, i: int, j: int, q: int) -> bool {
    &&& is_parked(events, i, j)
    &&& events[j]->WorkerUnparkEvent_0.timestamp_ns - events[i]->WorkerParkEvent_0.timestamp_ns
        > 1_000_000
    &&& is_latest_sample(events, q, events[j]->WorkerUnparkEvent_0.timestamp_ns)
    &&& events[q]->QueueSampleEvent_0.global_queue > 0
}

spec fn idle_sample(events: Seq<Dial9Event>, i: int, j: int) -> int {
    choose|q: int| is_idle(events, i, j, q)
}

spec fn idle_at(events: Seq<Dial9Event>, n: int) -> Seq<(int, int, int)>
    decreases n,
{
    if n <= 0 {
        Seq::empty()
    } else {
        let before = idle_at(events, n - 1);
        match events[n - 1] {
            Dial9Event::WorkerUnparkEvent(e) => match last_switch(events, n - 1, e.worker_id.0) {
                Some(i) => {
                    let q = idle_sample(events, i, n - 1);
                    if is_idle(events, i, n - 1, q) {
                        before.push((i, n - 1, q))
                    } else {
                        before
                    }
                },
                None => before,
            },
            _ => before,
        }
    }
}

proof fn lemma_idle_at(events: Seq<Dial9Event>, n: int)
    requires
        n <= events.len(),
    ensures
        ({
            let at = idle_at(events, n);
            let found = idle_periods(events, n);
            &&& at.len() == found.len()
            &&& forall|m: int|
                0 <= m < at.len() ==> {
                    let (i, j, q) = #[trigger] at[m];
                    &&& is_idle(events, i, j, q)
                    &&& j < n
                    &&& found[m].0 == events[j]->WorkerUnparkEvent_0.worker_id
                    &&& found[m].1 == events[j]->WorkerUnparkEvent_0.timestamp_ns
                        - events[i]->WorkerParkEvent_0.timestamp_ns
                    &&& found[m].2 == events[q]->QueueSampleEvent_0.global_queue
                }
            &&& forall|a: int, b: int|
                0 <= a < b < at.len() ==> (#[trigger] at[a]).1 < (#[trigger] at[b]).1
            &&& forall|i: int, j: int, q: int| #[trigger]
                is_idle(events, i, j, q) && j < n ==> exists|m: int|
                    0 <= m < at.len() && (#[trigger] at[m]).0 == i && at[m].1 == j
        }),
    decreases n,
{
    if n > 0 {
        lemma_idle_at(events, n - 1);
        let before = idle_at(events, n - 1);
        let at = idle_at(events, n);
        if let Dial9Event::WorkerUnparkEvent(e) = events[n - 1] {
            let w = e.worker_id.0;
            lemma_last_switch(events, n - 1, w);
            law_the_depth_is_that_of_the_latest_sample(events, e.timestamp_ns);
            if let Some(i) = last_switch(events, n - 1, w) {
                assert(is_last_switch(events, i, n - 1, w));
                let chosen = idle_sample(events, i, n - 1);
                if events[i] is WorkerParkEvent {
                    assert(is_parked(events, i, n - 1));
                }
                if is_idle(events, i, n - 1, chosen) {
                    assert(is_latest_sample(events, chosen, e.timestamp_ns));
                    assert(at[before.len() as int] == (i, n - 1, chosen));
                } else if events[i] is WorkerParkEvent {
                    let depth = depth_at(
                        queue_timeline(events, events.len() as int),
                        e.timestamp_ns,
                    );
                    if depth > 0 {
                        let q = choose|q: int| is_latest_sample(events, q, e.timestamp_ns);
                        assert(is_latest_sample(events, q, e.timestamp_ns));
                        assert(!is_idle(events, i, n - 1, q));
                    }
                }
            }
        }
        assert forall|i: int, j: int, q: int| #[trigger]
            is_idle(events, i, j, q) && j < n implies exists|m: int|
            0 <= m < at.len() && (#[trigger] at[m]).0 == i && at[m].1 == j by {
            if j < n - 1 {
                let m = choose|m: int|
                    0 <= m < before.len() && (#[trigger] before[m]).0 == i && before[m].1 == j;
                assert(at[m].0 == i && at[m].1 == j);
            } else {
                let w = events[j]->WorkerUnparkEvent_0.worker_id.0;
                assert(is_last_switch(events, i, n - 1, w));
                assert(is_idle(events, i, n - 1, idle_sample(events, i, n - 1)));
                assert(at[before.len() as int].1 == j);
            }
        }
    }
}

/// The idle periods of a trace are exactly the parks of more than a
/// millisecond after which work was pending in the global queue, in the order
/// of the unparks. Each is reported with its worker, its length and the number
/// of pending tasks. The law returns the park, the unpark and the queue sample
/// of each.
pub proof fn law_idle_periods_are_long_parks_with_pending_work(events: Seq<Dial9Event>) -> (at: Seq<
    (int, int, int),
>)
    ensures
        ({
            let found = idle_periods(events, events.len() as int);
            &&& at.len() == found.len()
            &&& forall|m: int|
                0 <= m < at.len() ==> {
                    let (i, j, q) = #[trigger] at[m];
                    &&& is_idle(events, i, j, q)
                    &&& found[m].0 == events[j]->WorkerUnparkEvent_0.worker_id
                    &&& found[m].1 == events[j]->WorkerUnparkEvent_0.timestamp_ns
                        - events[i]->WorkerParkEvent_0.timestamp_ns
                    &&& found[m].2 == events[q]->QueueSampleEvent_0.global_queue
                }
            &&& forall|a: int, b: int|
                0 <= a < b < at.len() ==> (#[trigger] at[a]).1 < (#[trigger] at[b]).1
            &&& forall|i: int, j: int, q: int| #[trigger]
                is_idle(events, i, j, q) ==> exists|m: int|
                    0 <= m < at.len() && (#[trigger] at[m]).0 == i && at[m].1 == j
        }),
{
    lemma_idle_at(events, events.len() as int);
    idle_at(events, events.len() as int)
}

} // verus!
