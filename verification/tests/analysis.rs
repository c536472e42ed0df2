//! Analysis of decoded traces.
use dial9_tokio_telemetry::analysis::{
    analyze_trace, build_global_queue_timeline, compute_active_periods,
    compute_wake_to_poll_delays, detect_idle_workers, detect_long_polls, detect_sampled_polls,
    detect_sched_delays, detect_wake_delays, event_timestamp, lookup_global_queue_depth,
};
use dial9_tokio_telemetry::analysis_events::{
    CpuSampleEvent, CpuSampleSource, Dial9Event, PollEndEvent, PollStartEvent, QueueSampleEvent,
    SegmentMetadataEvent, WakeEvent, WorkerId, WorkerParkEvent, WorkerUnparkEvent,
};

#[test]
fn test_analyze_empty() {
    let events: Vec<Dial9Event> = vec![];
    let analysis = analyze_trace(&events);
    assert_eq!(analysis.total_events, 0);
    assert_eq!(analysis.max_global_queue, 0);
}

#[test]
fn test_global_queue_from_samples_only() {
    let events = vec![
        Dial9Event::PollStartEvent(PollStartEvent {
            timestamp_ns: 1_000_000,
            worker_id: WorkerId(0),
            local_queue: 3,
            task_id: 0,
            spawn_loc: String::new(),
        }),
        Dial9Event::QueueSampleEvent(QueueSampleEvent {
            timestamp_ns: 2_000_000,
            global_queue: 42,
        }),
        Dial9Event::PollEndEvent(PollEndEvent {
            timestamp_ns: 3_000_000,
            worker_id: WorkerId(0),
        }),
    ];
    let analysis = analyze_trace(&events);
    assert_eq!(analysis.max_global_queue, 42);
    assert_eq!(analysis.total_events, 3);
    let avg_global_queue = analysis.global_queue_sum as f64 / analysis.global_queue_samples as f64;
    assert!((avg_global_queue - 42.0).abs() < f64::EPSILON);
}

#[test]
fn test_local_queue_tracked_on_all_worker_events() {
    let events = vec![
        Dial9Event::PollStartEvent(PollStartEvent {
            timestamp_ns: 1_000_000,
            worker_id: WorkerId(0),
            local_queue: 10,
            task_id: 0,
            spawn_loc: String::new(),
        }),
        Dial9Event::PollEndEvent(PollEndEvent {
            timestamp_ns: 2_000_000,
            worker_id: WorkerId(0),
        }),
    ];
    let analysis = analyze_trace(&events);
    let stats = analysis.worker_stats.get(&0).unwrap();
    assert_eq!(stats.max_local_queue, 10);
}

#[test]
fn test_lookup_global_queue_depth() {
    let timeline = vec![(1_000_000u64, 5), (3_000_000, 10), (5_000_000, 2)];
    assert_eq!(lookup_global_queue_depth(&timeline, 500_000), 0);
    assert_eq!(lookup_global_queue_depth(&timeline, 1_000_000), 5);
    assert_eq!(lookup_global_queue_depth(&timeline, 2_000_000), 5);
    assert_eq!(lookup_global_queue_depth(&timeline, 4_000_000), 10);
    assert_eq!(lookup_global_queue_depth(&timeline, 9_000_000), 2);
}

#[test]
fn test_detect_idle_workers_with_samples() {
    let events = vec![
        Dial9Event::QueueSampleEvent(QueueSampleEvent {
            timestamp_ns: 1_000_000,
            global_queue: 15,
        }),
        Dial9Event::WorkerParkEvent(WorkerParkEvent {
            timestamp_ns: 2_000_000,
            worker_id: WorkerId(0),
            local_queue: 0,
            cpu_time_ns: 0,
            tid: 0,
        }),
        Dial9Event::QueueSampleEvent(QueueSampleEvent {
            timestamp_ns: 5_000_000,
            global_queue: 20,
        }),
        Dial9Event::WorkerUnparkEvent(WorkerUnparkEvent {
            timestamp_ns: 6_000_000,
            worker_id: WorkerId(0),
            local_queue: 0,
            cpu_time_ns: 0,
            sched_wait_ns: 0,
            tid: 0,
        }),
    ];
    let idle = detect_idle_workers(&events);
    assert_eq!(idle.len(), 1);
    assert_eq!(idle[0].0, WorkerId(0));
    assert_eq!(idle[0].1, 4_000_000);
    assert_eq!(idle[0].2, 20);
}

#[test]
fn test_detect_long_polls_above_threshold() {
    let events = vec![
        Dial9Event::PollStartEvent(PollStartEvent {
            timestamp_ns: 1_000_000,
            worker_id: WorkerId(0),
            local_queue: 0,
            task_id: 1,
            spawn_loc: String::new(),
        }),
        Dial9Event::PollEndEvent(PollEndEvent {
            timestamp_ns: 3_000_000,
            worker_id: WorkerId(0),
        }),
        Dial9Event::PollStartEvent(PollStartEvent {
            timestamp_ns: 4_000_000,
            worker_id: WorkerId(0),
            local_queue: 0,
            task_id: 2,
            spawn_loc: String::new(),
        }),
        Dial9Event::PollEndEvent(PollEndEvent {
            timestamp_ns: 4_500_000,
            worker_id: WorkerId(0),
        }),
    ];
    let long = detect_long_polls(&events, 1_000_000);
    assert_eq!(long.len(), 1);
    assert_eq!(long[0].worker_id, WorkerId(0));
    assert_eq!(long[0].duration_ns, 2_000_000);
    assert_eq!(long[0].task_id, 1);
}

#[test]
fn test_detect_long_polls_none_above_threshold() {
    let events = vec![
        Dial9Event::PollStartEvent(PollStartEvent {
            timestamp_ns: 1_000_000,
            worker_id: WorkerId(0),
            local_queue: 0,
            task_id: 0,
            spawn_loc: String::new(),
        }),
        Dial9Event::PollEndEvent(PollEndEvent {
            timestamp_ns: 1_500_000,
            worker_id: WorkerId(0),
        }),
    ];
    let long = detect_long_polls(&events, 1_000_000);
    assert!(long.is_empty());
}

#[test]
fn test_detect_long_polls_multiple_workers() {
    let events = vec![
        Dial9Event::PollStartEvent(PollStartEvent {
            timestamp_ns: 1_000_000,
            worker_id: WorkerId(0),
            local_queue: 0,
            task_id: 1,
            spawn_loc: String::new(),
        }),
        Dial9Event::PollStartEvent(PollStartEvent {
            timestamp_ns: 1_000_000,
            worker_id: WorkerId(1),
            local_queue: 0,
            task_id: 2,
            spawn_loc: String::new(),
        }),
        Dial9Event::PollEndEvent(PollEndEvent {
            timestamp_ns: 5_000_000,
            worker_id: WorkerId(0),
        }),
        Dial9Event::PollEndEvent(PollEndEvent {
            timestamp_ns: 8_000_000,
            worker_id: WorkerId(1),
        }),
    ];
    let long = detect_long_polls(&events, 1_000_000);
    assert_eq!(long.len(), 2);
    assert_eq!(long[0].worker_id, WorkerId(0));
    assert_eq!(long[0].duration_ns, 4_000_000);
    assert_eq!(long[1].worker_id, WorkerId(1));
    assert_eq!(long[1].duration_ns, 7_000_000);
}

#[test]
fn test_detect_sched_delays_above_threshold() {
    let events = vec![
        Dial9Event::WorkerParkEvent(WorkerParkEvent {
            timestamp_ns: 1_000_000,
            worker_id: WorkerId(0),
            local_queue: 0,
            cpu_time_ns: 0,
            tid: 0,
        }),
        Dial9Event::WorkerUnparkEvent(WorkerUnparkEvent {
            timestamp_ns: 5_000_000,
            worker_id: WorkerId(0),
            local_queue: 0,
            cpu_time_ns: 0,
            sched_wait_ns: 200_000,
            tid: 0,
        }),
    ];
    let delays = detect_sched_delays(&events, 100_000);
    assert_eq!(delays.len(), 1);
    assert_eq!(delays[0].worker_id, WorkerId(0));
    assert_eq!(delays[0].sched_wait_ns, 200_000);
    assert_eq!(delays[0].park_ns, 1_000_000);
    assert_eq!(delays[0].unpark_ns, 5_000_000);
}

#[test]
fn test_detect_sched_delays_below_threshold() {
    let events = vec![
        Dial9Event::WorkerParkEvent(WorkerParkEvent {
            timestamp_ns: 1_000_000,
            worker_id: WorkerId(0),
            local_queue: 0,
            cpu_time_ns: 0,
            tid: 0,
        }),
        Dial9Event::WorkerUnparkEvent(WorkerUnparkEvent {
            timestamp_ns: 2_000_000,
            worker_id: WorkerId(0),
            local_queue: 0,
            cpu_time_ns: 0,
            sched_wait_ns: 50_000,
            tid: 0,
        }),
    ];
    let delays = detect_sched_delays(&events, 100_000);
    assert!(delays.is_empty());
}

#[test]
fn test_detect_sched_delays_multiple_workers() {
    let events = vec![
        Dial9Event::WorkerParkEvent(WorkerParkEvent {
            timestamp_ns: 1_000_000,
            worker_id: WorkerId(0),
            local_queue: 0,
            cpu_time_ns: 0,
            tid: 0,
        }),
        Dial9Event::WorkerParkEvent(WorkerParkEvent {
            timestamp_ns: 1_000_000,
            worker_id: WorkerId(1),
            local_queue: 0,
            cpu_time_ns: 0,
            tid: 0,
        }),
        Dial9Event::WorkerUnparkEvent(WorkerUnparkEvent {
            timestamp_ns: 3_000_000,
            worker_id: WorkerId(0),
            local_queue: 0,
            cpu_time_ns: 0,
            sched_wait_ns: 500_000,
            tid: 0,
        }),
        Dial9Event::WorkerUnparkEvent(WorkerUnparkEvent {
            timestamp_ns: 4_000_000,
            worker_id: WorkerId(1),
            local_queue: 0,
            cpu_time_ns: 0,
            sched_wait_ns: 10_000,
            tid: 0,
        }),
    ];
    let delays = detect_sched_delays(&events, 100_000);
    assert_eq!(delays.len(), 1);
    assert_eq!(delays[0].worker_id, WorkerId(0));
}

#[test]
fn test_detect_wake_delays_above_threshold() {
    let events = vec![
        Dial9Event::WakeEvent(WakeEvent {
            timestamp_ns: 1_000_000,
            waker_task_id: 0,
            woken_task_id: 1,
            target_worker: 0,
        }),
        Dial9Event::PollStartEvent(PollStartEvent {
            timestamp_ns: 1_500_000,
            worker_id: WorkerId(0),
            local_queue: 0,
            task_id: 1,
            spawn_loc: String::new(),
        }),
        Dial9Event::PollEndEvent(PollEndEvent {
            timestamp_ns: 1_600_000,
            worker_id: WorkerId(0),
        }),
    ];
    let delays = detect_wake_delays(&events, 100_000);
    assert_eq!(delays.len(), 1);
    assert_eq!(delays[0].delay_ns, 500_000);
    assert_eq!(delays[0].task_id, 1);
    assert_eq!(delays[0].worker_id, WorkerId(0));
}

#[test]
fn test_detect_wake_delays_below_threshold() {
    let events = vec![
        Dial9Event::WakeEvent(WakeEvent {
            timestamp_ns: 1_000_000,
            waker_task_id: 0,
            woken_task_id: 1,
            target_worker: 0,
        }),
        Dial9Event::PollStartEvent(PollStartEvent {
            timestamp_ns: 1_050_000,
            worker_id: WorkerId(0),
            local_queue: 0,
            task_id: 1,
            spawn_loc: String::new(),
        }),
        Dial9Event::PollEndEvent(PollEndEvent {
            timestamp_ns: 1_100_000,
            worker_id: WorkerId(0),
        }),
    ];
    let delays = detect_wake_delays(&events, 100_000);
    assert!(delays.is_empty());
}

#[test]
fn test_detect_wake_delays_discards_idle_tasks() {
    let events = vec![
        Dial9Event::WakeEvent(WakeEvent {
            timestamp_ns: 1_000_000,
            waker_task_id: 0,
            woken_task_id: 1,
            target_worker: 0,
        }),
        Dial9Event::PollStartEvent(PollStartEvent {
            timestamp_ns: 2_000_000_000,
            worker_id: WorkerId(0),
            local_queue: 0,
            task_id: 1,
            spawn_loc: String::new(),
        }),
        Dial9Event::PollEndEvent(PollEndEvent {
            timestamp_ns: 2_000_100_000,
            worker_id: WorkerId(0),
        }),
    ];
    let delays = detect_wake_delays(&events, 100_000);
    assert!(delays.is_empty());
}

#[test]
fn test_detect_sampled_polls_with_samples() {
    let events = vec![
        Dial9Event::PollStartEvent(PollStartEvent {
            timestamp_ns: 1_000_000,
            worker_id: WorkerId(0),
            local_queue: 0,
            task_id: 1,
            spawn_loc: String::new(),
        }),
        Dial9Event::CpuSampleEvent(CpuSampleEvent {
            timestamp_ns: 1_500_000,
            worker_id: WorkerId(0),
            tid: 100,
            source: CpuSampleSource::CpuProfile,
            thread_name: None,
            callchain: vec![],
            cpu: None,
        }),
        Dial9Event::CpuSampleEvent(CpuSampleEvent {
            timestamp_ns: 1_800_000,
            worker_id: WorkerId(0),
            tid: 100,
            source: CpuSampleSource::SchedEvent,
            thread_name: None,
            callchain: vec![],
            cpu: None,
        }),
        Dial9Event::PollEndEvent(PollEndEvent {
            timestamp_ns: 2_000_000,
            worker_id: WorkerId(0),
        }),
    ];
    let sampled = detect_sampled_polls(&events);
    assert_eq!(sampled.len(), 1);
    assert_eq!(sampled[0].cpu_sample_count, 1);
    assert_eq!(sampled[0].sched_sample_count, 1);
    assert_eq!(sampled[0].task_id, 1);
}

#[test]
fn test_detect_sampled_polls_no_samples() {
    let events = vec![
        Dial9Event::PollStartEvent(PollStartEvent {
            timestamp_ns: 1_000_000,
            worker_id: WorkerId(0),
            local_queue: 0,
            task_id: 0,
            spawn_loc: String::new(),
        }),
        Dial9Event::PollEndEvent(PollEndEvent {
            timestamp_ns: 2_000_000,
            worker_id: WorkerId(0),
        }),
    ];
    let sampled = detect_sampled_polls(&events);
    assert!(sampled.is_empty());
}

#[test]
fn test_detect_sampled_polls_sample_outside_poll() {
    let events = vec![
        Dial9Event::PollStartEvent(PollStartEvent {
            timestamp_ns: 1_000_000,
            worker_id: WorkerId(0),
            local_queue: 0,
            task_id: 0,
            spawn_loc: String::new(),
        }),
        Dial9Event::PollEndEvent(PollEndEvent {
            timestamp_ns: 2_000_000,
            worker_id: WorkerId(0),
        }),
        Dial9Event::CpuSampleEvent(CpuSampleEvent {
            timestamp_ns: 3_000_000,
            worker_id: WorkerId(0),
            tid: 100,
            source: CpuSampleSource::CpuProfile,
            thread_name: None,
            callchain: vec![],
            cpu: None,
        }),
    ];
    let sampled = detect_sampled_polls(&events);
    assert!(sampled.is_empty());
}

#[test]
fn test_detect_idle_workers_no_queue_pressure() {
    let events = vec![
        Dial9Event::QueueSampleEvent(QueueSampleEvent {
            timestamp_ns: 1_000_000,
            global_queue: 0,
        }),
        Dial9Event::WorkerParkEvent(WorkerParkEvent {
            timestamp_ns: 2_000_000,
            worker_id: WorkerId(0),
            local_queue: 0,
            cpu_time_ns: 0,
            tid: 0,
        }),
        Dial9Event::WorkerUnparkEvent(WorkerUnparkEvent {
            timestamp_ns: 6_000_000,
            worker_id: WorkerId(0),
            local_queue: 0,
            cpu_time_ns: 0,
            sched_wait_ns: 0,
            tid: 0,
        }),
    ];
    let idle = detect_idle_workers(&events);
    assert!(idle.is_empty());
}

fn poll_start(timestamp_ns: u64, worker: u64, task_id: u64, spawn_loc: &str) -> Dial9Event {
    Dial9Event::PollStartEvent(PollStartEvent {
        timestamp_ns,
        worker_id: WorkerId(worker),
        local_queue: 0,
        task_id,
        spawn_loc: spawn_loc.to_string(),
    })
}

fn poll_end(timestamp_ns: u64, worker: u64) -> Dial9Event {
    Dial9Event::PollEndEvent(PollEndEvent { timestamp_ns, worker_id: WorkerId(worker) })
}

fn wake(timestamp_ns: u64, woken_task_id: u64) -> Dial9Event {
    Dial9Event::WakeEvent(WakeEvent {
        timestamp_ns,
        waker_task_id: 0,
        woken_task_id,
        target_worker: 0,
    })
}

fn park(timestamp_ns: u64, worker: u64, cpu_time_ns: u64) -> Dial9Event {
    Dial9Event::WorkerParkEvent(WorkerParkEvent {
        timestamp_ns,
        worker_id: WorkerId(worker),
        local_queue: 0,
        cpu_time_ns,
        tid: 0,
    })
}

fn unpark(timestamp_ns: u64, worker: u64, cpu_time_ns: u64, sched_wait_ns: u64) -> Dial9Event {
    Dial9Event::WorkerUnparkEvent(WorkerUnparkEvent {
        timestamp_ns,
        worker_id: WorkerId(worker),
        local_queue: 4,
        cpu_time_ns,
        sched_wait_ns,
        tid: 0,
    })
}

#[test]
fn analysis_sums_polls_per_worker_and_spawn_location() {
    let events = vec![
        poll_start(1_000, 0, 1, "a.rs:1:1"),
        poll_end(1_300, 0),
        poll_start(2_000, 1, 2, "b.rs:2:2"),
        poll_end(2_050, 1),
        poll_start(3_000, 0, 1, "a.rs:1:1"),
        poll_end(3_500, 0),
        park(4_000, 0, 0),
        unpark(4_800, 0, 0, 70),
    ];
    let analysis = analyze_trace(&events);
    assert_eq!(analysis.total_events, 8);
    assert_eq!(analysis.duration_ns, 3_800);
    let worker = analysis.worker_stats.get(&0).unwrap();
    assert_eq!(worker.poll_count, 2);
    assert_eq!(worker.total_poll_time_ns, 800);
    assert_eq!(worker.park_count, 1);
    assert_eq!(worker.unpark_count, 1);
    assert_eq!(worker.max_sched_wait_ns, 70);
    assert_eq!(worker.max_local_queue, 4);
    assert_eq!(analysis.worker_stats.get(&1).unwrap().total_poll_time_ns, 50);
    let location = analysis.spawn_location_stats.get("a.rs:1:1").unwrap();
    assert_eq!(location.poll_count, 2);
    assert_eq!(location.total_poll_time_ns, 800);
}

#[test]
fn wake_delays_come_out_sorted() {
    let events = vec![
        wake(1_000, 1),
        wake(1_500, 2),
        poll_start(5_000, 0, 1, ""),
        poll_end(5_100, 0),
        poll_start(5_200, 0, 2, ""),
        poll_end(5_300, 0),
        wake(6_000, 1),
        poll_start(6_010, 0, 1, ""),
    ];
    let delays = compute_wake_to_poll_delays(&events);
    assert_eq!(delays, vec![10, 3_700, 4_000]);
}

#[test]
fn active_periods_span_unpark_to_park() {
    let events = vec![unpark(1_000, 3, 100, 0), park(5_000, 3, 2_600), park(6_000, 3, 9_000)];
    let periods = compute_active_periods(&events);
    assert_eq!(periods.len(), 1);
    assert_eq!(periods[0].worker_id, WorkerId(3));
    assert_eq!(periods[0].start_ns, 1_000);
    assert_eq!(periods[0].end_ns, 5_000);
    assert_eq!(periods[0].cpu_delta_ns, 2_500);
}

#[test]
fn queue_timeline_holds_the_samples_in_order() {
    let events = vec![
        Dial9Event::QueueSampleEvent(QueueSampleEvent { timestamp_ns: 10, global_queue: 1 }),
        poll_end(11, 0),
        Dial9Event::QueueSampleEvent(QueueSampleEvent { timestamp_ns: 20, global_queue: 7 }),
    ];
    let timeline = build_global_queue_timeline(&events);
    assert_eq!(timeline, vec![(10, 1), (20, 7)]);
    assert_eq!(lookup_global_queue_depth(&timeline, 19), 1);
}

#[test]
fn unrecognized_events_have_no_timestamp() {
    assert_eq!(event_timestamp(&Dial9Event::Other), None);
    assert_eq!(event_timestamp(&poll_end(77, 0)), Some(77));
    let metadata = SegmentMetadataEvent { timestamp_ns: 5, entries: vec![] };
    assert_eq!(event_timestamp(&Dial9Event::SegmentMetadataEvent(metadata)), Some(5));
}

#[test]
fn reports_start_just_beyond_the_threshold() {
    let events = vec![
        wake(1_000, 7),
        poll_start(3_000, 0, 7, "a.rs:1"),
        poll_end(8_000, 0),
        park(9_000, 0, 0),
        unpark(20_000, 0, 0, 400),
    ];
    assert_eq!(detect_long_polls(&events, 5_000).len(), 0);
    assert_eq!(detect_long_polls(&events, 4_999)[0].duration_ns, 5_000);
    assert_eq!(detect_wake_delays(&events, 2_000).len(), 0);
    assert_eq!(detect_wake_delays(&events, 1_999)[0].delay_ns, 2_000);
    assert_eq!(detect_sched_delays(&events, 400).len(), 0);
    assert_eq!(detect_sched_delays(&events, 399)[0].sched_wait_ns, 400);
}

#[test]
fn single_delays_make_up_the_distribution() {
    let events = vec![
        wake(1_000, 1),
        wake(1_500, 2),
        poll_start(4_000, 0, 1, ""),
        poll_end(4_100, 0),
        poll_start(4_200, 0, 2, ""),
        poll_end(4_300, 0),
        wake(5_000, 3),
        poll_start(5_000, 0, 3, ""),
        poll_end(5_100, 0),
    ];
    let mut single: Vec<u64> = detect_wake_delays(&events, 0).iter().map(|d| d.delay_ns).collect();
    single.sort();
    assert_eq!(single, vec![2_700, 3_000]);
    assert_eq!(compute_wake_to_poll_delays(&events), single);
}

#[test]
fn a_higher_threshold_reports_fewer_polls() {
    let events = vec![
        poll_start(0, 0, 1, ""),
        poll_end(100, 0),
        poll_start(200, 0, 2, ""),
        poll_end(900, 0),
    ];
    let tasks = |threshold| -> Vec<u64> {
        detect_long_polls(&events, threshold).iter().map(|p| p.task_id).collect()
    };
    assert_eq!(tasks(0), vec![1, 2]);
    assert_eq!(tasks(500), vec![2]);
    assert_eq!(tasks(700), Vec::<u64>::new());
}
