//! Events, stacks, readers and the flush loop.
use dial9_tokio_telemetry::analysis_events::{
    CpuSampleEvent, CpuSampleSource as DecodedSource, CustomEvent, Dial9Event, FieldValue,
    MissingEventName, PollStartEvent, ProcessResourceUsageEvent, SegmentMetadataEvent,
    TaskSpawnEvent, WorkerId as DecodedWorker,
};
use dial9_tokio_telemetry::buffer::{Batch, ThreadLocalBuffer, TraceEncoder};
use dial9_tokio_telemetry::event_writer::{CapturingWriter, EventWriter};
use dial9_tokio_telemetry::events::{
    clock_pair, timespec_to_ns, CpuSampleSource, PollClock, SchedStat, ThreadName,
};
use dial9_tokio_telemetry::flush_loop::{
    flush_once, ControlSignal, CycleStart, FlushLoop, SELF_DRAIN_INTERVAL,
};
use dial9_tokio_telemetry::format::{create_wake_event, queue_depth_byte, WorkerId};
use dial9_tokio_telemetry::outbox::{Outbox, StoreAction};
use dial9_tokio_telemetry::shared_state::SharedState;
use dial9_tokio_telemetry::text::{parse_number, second_of_two_numbers};
use dial9_tokio_telemetry::trace_reader::{maybe_decompress_gzip, TraceReader};
use dial9_tokio_telemetry::unwind::trim_frames;
use dial9_trace_format::schema::FieldDef;
use dial9_trace_format::types::{EventEncoder, FieldType};
use dial9_trace_format::TraceEvent;
use std::io::{Result, Write};

struct PollEnd;

impl TraceEvent for PollEnd {
    fn event_name() -> &'static str {
        "PollEndEvent"
    }

    fn field_defs() -> Vec<FieldDef> {
        vec![FieldDef::new("worker_id", FieldType::Varint)]
    }

    fn timestamp(&self) -> u64 {
        1000
    }

    fn encode_fields<W: Write>(&self, enc: &mut EventEncoder<'_, W>) -> Result<()> {
        enc.write_u64(0)
    }
}

fn write_poll_end(encoder: &mut TraceEncoder) {
    encoder.encode(&PollEnd).unwrap();
}

fn gzip(data: &[u8]) -> Vec<u8> {
    let mut encoder = flate2::write::GzEncoder::new(Vec::new(), flate2::Compression::default());
    encoder.write_all(data).unwrap();
    encoder.finish().unwrap()
}

#[test]
fn gzip_traces_are_decompressed() {
    let trace = ThreadLocalBuffer::encode_single(write_poll_end);
    assert_eq!(maybe_decompress_gzip(trace.clone()).unwrap(), trace);
    assert_eq!(maybe_decompress_gzip(gzip(&trace)).unwrap(), trace);
    assert_eq!(maybe_decompress_gzip(vec![0x1f]).unwrap(), vec![0x1f]);
    assert_eq!(maybe_decompress_gzip(Vec::new()).unwrap(), Vec::<u8>::new());
    let error = maybe_decompress_gzip(vec![0x1f, 0x8b, 0, 0]).unwrap_err();
    assert!(error.starts_with("failed to decompress gzip trace: "), "{error}");
    let mut cut = gzip(&trace);
    cut.truncate(cut.len() - 4);
    assert!(maybe_decompress_gzip(cut).is_err());
}

fn poll_start(task_id: u64, spawn_loc: &str) -> Dial9Event {
    Dial9Event::PollStartEvent(PollStartEvent {
        timestamp_ns: 1,
        worker_id: DecodedWorker(0),
        local_queue: 0,
        task_id,
        spawn_loc: spawn_loc.to_string(),
    })
}

fn task_spawn(task_id: u64, spawn_loc: &str) -> Dial9Event {
    Dial9Event::TaskSpawnEvent(TaskSpawnEvent {
        timestamp_ns: 1,
        task_id,
        spawn_loc: spawn_loc.to_string(),
        instrumented: false,
    })
}

fn cpu_sample(tid: u32, name: Option<&str>) -> Dial9Event {
    Dial9Event::CpuSampleEvent(CpuSampleEvent {
        timestamp_ns: 1,
        worker_id: DecodedWorker::unknown(),
        tid,
        source: DecodedSource::from_wire(1),
        thread_name: name.map(str::to_string),
        callchain: Vec::new(),
        cpu: None,
    })
}

fn metadata(entries: &[(&str, &str)]) -> Dial9Event {
    Dial9Event::SegmentMetadataEvent(SegmentMetadataEvent {
        timestamp_ns: 1,
        entries: entries.iter().map(|(k, v)| (k.to_string(), v.to_string())).collect(),
    })
}

fn custom(name: &str) -> CustomEvent {
    CustomEvent::from_fields(vec![("event".to_string(), FieldValue::String(name.to_string()))]).unwrap()
}

#[test]
fn readers_gather_lookup_tables() {
    let mut reader = TraceReader::empty();
    reader.accept(poll_start(1, "first.rs:1"), None);
    reader.accept(poll_start(1, "second.rs:2"), None);
    assert_eq!(reader.task_spawn_locs[&1], "first.rs:1");
    // A task spawn is authoritative.
    reader.accept(task_spawn(1, "spawn.rs:3"), None);
    assert_eq!(reader.task_spawn_locs[&1], "spawn.rs:3");
    reader.accept(poll_start(1, "later.rs:4"), None);
    assert_eq!(reader.task_spawn_locs[&1], "spawn.rs:3");
    reader.accept(cpu_sample(7, Some("worker-1")), None);
    reader.accept(cpu_sample(7, None), None);
    assert_eq!(reader.thread_names[&7], "worker-1");
    reader.accept(metadata(&[("a", "1")]), None);
    reader.accept(metadata(&[("b", "2")]), None);
    assert_eq!(reader.segment_metadata, vec![("b".to_string(), "2".to_string())]);
    assert_eq!(reader.all_events.len(), 8);
    // Task spawns and metadata do not describe the runtime.
    assert_eq!(reader.runtime_events().len(), 5);
}

#[test]
fn unknown_event_deserializes_as_other() {
    let mut reader = TraceReader::empty();
    reader.accept(Dial9Event::Other, Some(custom("RequestCompleted")));
    reader.accept(Dial9Event::Other, None);
    let usage = ProcessResourceUsageEvent {
        timestamp_ns: 1,
        user_cpu_ns: 2,
        system_cpu_ns: 3,
        max_rss_bytes: 4,
        minor_faults: 5,
        major_faults: 6,
        block_input_ops: 7,
        block_output_ops: 8,
        voluntary_context_switches: 9,
        involuntary_context_switches: 10,
    };
    reader.accept(
        Dial9Event::ProcessResourceUsageEvent(usage),
        Some(custom("ProcessResourceUsageEvent")),
    );
    assert_eq!(reader.all_events.len(), 2);
    assert!(matches!(&reader.all_events[0], Dial9Event::Custom(c) if c.name == "RequestCompleted"));
    assert!(matches!(&reader.all_events[1], Dial9Event::Custom(_)));
}

#[test]
fn custom_events_keep_their_fields() {
    let field = |name: &str, value: FieldValue| (name.to_string(), value);
    let event = CustomEvent::from_fields(vec![
        field("status", FieldValue::Varint(200)),
        field("timestamp_ns", FieldValue::Varint(77)),
        field("event", FieldValue::String("RequestCompleted".to_string())),
        field("path", FieldValue::String("/".to_string())),
    ])
    .unwrap();
    assert_eq!(event.name, "RequestCompleted");
    assert_eq!(event.timestamp_ns, Some(77));
    assert_eq!(
        event.fields,
        vec![
            field("status", FieldValue::Varint(200)),
            field("path", FieldValue::String("/".to_string())),
        ]
    );
    let untimed = CustomEvent::from_fields(vec![
        field("event", FieldValue::String("E".to_string())),
        field("timestamp_ns", FieldValue::Absent),
    ])
    .unwrap();
    assert_eq!(untimed.timestamp_ns, None);
    assert!(untimed.fields.is_empty());
    assert_eq!(
        CustomEvent::from_fields(vec![field("event", FieldValue::Bool(true))]),
        Err(MissingEventName)
    );
    assert_eq!(CustomEvent::from_fields(Vec::new()), Err(MissingEventName));
}

#[test]
fn sources_and_workers_have_wire_values() {
    assert_eq!(CpuSampleSource::from_u8(0), CpuSampleSource::CpuProfile);
    assert_eq!(CpuSampleSource::from_u8(1), CpuSampleSource::SchedEvent);
    assert_eq!(CpuSampleSource::from_u8(9), CpuSampleSource::CpuProfile);
    assert_eq!(CpuSampleSource::SchedEvent.as_u8(), 1);
    assert_eq!(DecodedSource::from_wire(0), DecodedSource::CpuProfile);
    assert_eq!(DecodedSource::from_wire(2), DecodedSource::Unknown(2));
    assert_eq!(WorkerId::unknown().as_u64(), 255);
    assert_eq!(WorkerId::blocking().as_u64(), 254);
    assert_eq!(WorkerId::from(3usize), WorkerId::from(3u8));
    assert_eq!(WorkerId::default().as_u64(), 0);
    assert_eq!(DecodedWorker::from(254u64), DecodedWorker::blocking());
    assert_eq!(DecodedWorker(8).as_u64(), 8);
    assert_eq!(ThreadName::new("w".to_string()).as_str(), "w");
}

#[test]
fn wide_numbers_are_capped_to_a_byte() {
    assert_eq!([0, 255, 256, usize::MAX].map(queue_depth_byte), [0, 255, 255, 255]);
    assert_eq!(WorkerId(253).as_wake_byte(), 253);
    assert_eq!(WorkerId(300).as_wake_byte(), 255);
    let event = create_wake_event(5, None, 6, WorkerId(1));
    assert_eq!((event.timestamp_ns, event.waker_task_id, event.woken_task_id), (5, 0, 6));
}

#[test]
fn clocks_are_paired_at_the_midpoint() {
    assert_eq!(timespec_to_ns(3, 7), 3_000_000_007);
    assert_eq!(clock_pair(100, 9, 110), (105, 9));
    assert_eq!(clock_pair(100, 9, 101), (100, 9));
    assert_eq!(clock_pair(100, 9, 50), (100, 9));
    assert_eq!(clock_pair(u64::MAX - 1, 9, u64::MAX), (u64::MAX - 1, 9));
}

#[test]
fn schedstat_gives_the_wait_time() {
    assert_eq!(SchedStat::parse("12 3456 7\n").map(|s| s.wait_time_ns), Some(3456));
    assert_eq!(SchedStat::parse_wait_time_ns("  1\t2"), Some(2));
    for bad in ["", "12", "12 x", "x 12", "-1 2", "12 18446744073709551616"] {
        assert_eq!(SchedStat::parse_wait_time_ns(bad), None, "{bad:?}");
        assert_eq!(second_of_two_numbers(bad), None);
    }
    assert_eq!(parse_number("a042b", 1, 4), Some(42));
    assert_eq!(parse_number("a042b", 1, 1), None);
}

#[test]
fn stacks_are_trimmed_between_leaf_and_root() {
    let ips = vec![1, 2, 3, 4, 5];
    let symbols = vec![10, 20, 30, 40, 50];
    assert_eq!(trim_frames(&ips, &symbols, Some(40), 10), vec![2, 3]);
    assert_eq!(trim_frames(&ips, &symbols, None, 20), vec![3, 4, 5]);
    assert_eq!(trim_frames(&ips, &symbols, Some(99), 20), vec![3, 4, 5]);
    // Nothing between them, or no leaf: the whole stack.
    assert_eq!(trim_frames(&ips, &symbols, Some(20), 10), ips);
    assert_eq!(trim_frames(&ips, &symbols, Some(40), 99), ips);
    assert_eq!(trim_frames(&ips, &symbols, None, 50), ips);
}

fn recording() -> SharedState {
    let mut shared = SharedState::new(0);
    shared.set_enabled(true);
    shared
}

#[test]
fn a_flush_writes_the_collected_batches() {
    let mut writer = EventWriter::new(CapturingWriter::new());
    let mut shared = recording();
    let mut own = ThreadLocalBuffer::new();
    shared.accept_flush(Batch::new(vec![1], 2));
    shared.accept_flush(Batch::new(vec![9], 0));
    own.record_encodable(write_poll_end);
    let stats = flush_once(&mut writer, &mut shared, &mut own, false, 4);
    assert_eq!((stats.event_count, stats.dropped_batches), (2, 4));
    assert_eq!(own.pending_events(), 1);
    let stats = flush_once(&mut writer, &mut shared, &mut own, true, 0);
    assert_eq!(stats.event_count, 1);
    assert_eq!(own.pending_events(), 0);
    // Batches without events are not written.
    let counts: Vec<u64> = writer.writer().batches().iter().map(|b| b.event_count).collect();
    assert_eq!(counts, vec![2, 1]);
    assert_eq!(writer.events_written(), 3);
    assert!(shared.is_enabled());
}

#[test]
fn a_failed_write_turns_recording_off() {
    let mut writer = EventWriter::new(CapturingWriter::with_limit(1));
    let mut shared = recording();
    for _ in 0..3 {
        shared.accept_flush(Batch::new(vec![1], 1));
    }
    let stats = flush_once(&mut writer, &mut shared, &mut ThreadLocalBuffer::new(), false, 0);
    assert_eq!(stats.event_count, 1);
    assert!(!shared.is_enabled());
    // The batch that failed is gone, the one behind it is still there.
    assert!(shared.next_batch().is_some());
    assert!(shared.next_batch().is_none());
}

#[test]
fn a_due_drain_takes_two_cycles() {
    let mut writer = EventWriter::new(CapturingWriter::new());
    writer.writer_mut().set_drain_due(true);
    let mut shared = recording();
    let mut own = ThreadLocalBuffer::new();
    let mut flush_loop = FlushLoop::new(0, Vec::new());
    shared.record_on_thread(1, write_poll_end);
    let first = flush_loop.run_cycle(false, 0, &mut writer, &mut shared, &mut own, 0);
    assert!(first.drain.is_none());
    // The drain was announced; the writer is told in the next cycle.
    assert_eq!(shared.drain_epoch(), 1);
    assert_eq!(first.flush.event_count, 0);
    assert!(!first.publish);
    let second = flush_loop.run_cycle(false, 1, &mut writer, &mut shared, &mut own, 0);
    assert_eq!(second.drain.unwrap().events_flushed, 1);
    assert_eq!(second.flush.event_count, 1);
    assert!(!second.drained_failed);
    assert!(writer.writer_mut().take_drain_note());
    assert_eq!(writer.writer_mut().take_batches().len(), 1);
    assert!(writer.writer().batches().is_empty());
    let last = flush_loop.run_cycle(true, 2, &mut writer, &mut shared, &mut own, 0);
    assert!(last.drain.is_some());
    assert!(last.publish && !last.write_metadata_failed && !last.finalize_failed);
    assert!(writer.writer().is_finalized());
    // The last cycle leaves the drain to the end of the trace.
    assert!(!writer.writer_mut().take_drain_note());
}

#[test]
fn the_flush_thread_drains_its_own_buffer_now_and_again() {
    let mut writer = EventWriter::new(CapturingWriter::new());
    let mut shared = recording();
    let mut own = ThreadLocalBuffer::new();
    let mut flush_loop = FlushLoop::new(0, Vec::new());
    own.record_encodable(write_poll_end);
    for _ in 1..SELF_DRAIN_INTERVAL {
        flush_loop.run_cycle(false, 0, &mut writer, &mut shared, &mut own, 0);
        assert_eq!(own.pending_events(), 1);
    }
    flush_loop.run_cycle(false, 0, &mut writer, &mut shared, &mut own, 0);
    assert_eq!(own.pending_events(), 0);
    assert_eq!(writer.events_written(), 1);
    assert!(!writer.writer().is_finalized());
    flush_loop.run_cycle(true, 0, &mut writer, &mut shared, &mut own, 0);
    assert!(writer.writer().is_finalized());
}

#[test]
fn cycles_start_on_time_or_command() {
    assert_eq!(FlushLoop::begin_cycle(ControlSignal::Timeout, false), CycleStart::Skip);
    assert_eq!(
        FlushLoop::begin_cycle(ControlSignal::Timeout, true),
        CycleStart::Run { exit: false, ack: false }
    );
    assert_eq!(
        FlushLoop::begin_cycle(ControlSignal::FinalizeAndStop, false),
        CycleStart::Run { exit: true, ack: true }
    );
    assert_eq!(
        FlushLoop::begin_cycle(ControlSignal::Disconnected, false),
        CycleStart::Run { exit: true, ack: false }
    );
}

#[test]
fn queue_depths_are_sampled_over_all_runtimes() {
    let mut flush_loop = FlushLoop::new(0, vec![("k".to_string(), "v".to_string())]);
    assert_eq!(flush_loop.sample_queue(9_999_999, &vec![1, 2]), None);
    assert_eq!(flush_loop.sample_queue(10_000_000, &vec![1, 2]), Some(3));
    assert_eq!(flush_loop.sample_queue(10_000_001, &vec![1, 2]), None);
    assert_eq!(flush_loop.sample_queue(20_000_000, &vec![]), None);
    assert_eq!(flush_loop.cycle_metadata(Vec::new()), None);
    let merged = flush_loop.cycle_metadata(vec![("r".to_string(), "0".to_string())]).unwrap();
    assert_eq!(merged[0].0, "k");
    assert_eq!(merged[1].0, "r");
}

#[test]
fn single_events_can_be_written() {
    let mut writer = EventWriter::new(CapturingWriter::new());
    writer.write_raw_event(write_poll_end).unwrap();
    assert_eq!(writer.events_written(), 1);
    let batch = &writer.writer().batches()[0];
    assert_eq!(batch.event_count, 1);
    assert_eq!(batch.encoded_bytes, ThreadLocalBuffer::encode_single(write_poll_end));
    assert!(writer.segment_metadata().is_empty());
    writer.update_segment_metadata(Vec::new());
    assert!(writer.write_current_segment_metadata().is_ok());
    assert!(!writer.should_drain(0));
    assert_eq!(writer.drained(0), Ok(false));
    assert!(writer.flush().is_ok());
    assert!(writer.finalize().is_ok());
}

#[test]
fn poll_start_ts_monotonic_is_strictly_increasing() {
    let epoch = std::time::Instant::now();
    let mut clock = PollClock::new();
    let mut poll_start_ts_monotonic =
        || clock.poll_start_ts_monotonic(epoch.elapsed().as_nanos() as u64);
    // Rapid-fire calls should never return the same value twice.
    let mut prev = poll_start_ts_monotonic();
    for _ in 0..10_000 {
        let next = poll_start_ts_monotonic();
        assert!(
            next > prev,
            "poll_start_ts_monotonic must be strictly increasing: got {next} after {prev}"
        );
        prev = next;
    }
    let mut stuck = PollClock::new();
    assert_eq!([5, 5, 3, 10].map(|now| stuck.poll_start_ts_monotonic(now)), [5, 6, 7, 10]);
}

#[test]
fn events_can_be_copied() {
    let event = CustomEvent {
        name: "Request".to_string(),
        timestamp_ns: Some(7),
        fields: vec![
            ("path".to_string(), FieldValue::String("/a".to_string())),
            ("body".to_string(), FieldValue::Bytes(vec![1, 2])),
            ("stack".to_string(), FieldValue::StackFrames(vec![3])),
            ("tags".to_string(), FieldValue::StringMap(vec![(vec![4], vec![5, 6])])),
            (
                "nested".to_string(),
                FieldValue::List(vec![
                    FieldValue::Pairs(vec![(FieldValue::Varint(1), FieldValue::I64(-1))]),
                    FieldValue::Bool(true),
                    FieldValue::F64Bits(0x3ff0_0000_0000_0000),
                    FieldValue::Absent,
                ]),
            ),
        ],
    };
    assert_eq!(event.clone(), event);
    let other = poll_start(1, "src/main.rs:1");
    assert_eq!(other.clone(), other);
    assert_ne!(other.clone(), poll_start(2, "src/main.rs:1"));
}

#[test]
fn a_cycle_needs_room_in_the_counters() {
    let writer = EventWriter::new(CapturingWriter::new());
    let mut shared = recording();
    let mut own = ThreadLocalBuffer::new();
    let flush_loop = FlushLoop::new(0, Vec::new());
    assert_eq!(shared.events_held(), Some(0));
    shared.record_on_thread(1, write_poll_end);
    shared.accept_flush(Batch::new(vec![1], u64::MAX - 2));
    assert_eq!(shared.events_held(), Some(u64::MAX - 1));
    assert!(flush_loop.has_room(&writer, &shared, &own));
    own.record_encodable(write_poll_end);
    assert!(flush_loop.has_room(&writer, &shared, &own));
    own.record_encodable(write_poll_end);
    assert!(!flush_loop.has_room(&writer, &shared, &own));
    shared.accept_flush(Batch::new(vec![1], 2));
    assert_eq!(shared.events_held(), None);
    assert!(!flush_loop.has_room(&writer, &shared, &ThreadLocalBuffer::new()));
}

fn run_outbox(outbox: &mut Outbox, fails: &str) -> Vec<String> {
    let mut done = Vec::new();
    let mut failed = false;
    loop {
        let name = match outbox.step(failed) {
            StoreAction::Write(batch) => format!("write {}", batch.event_count),
            StoreAction::StopRecording => "stop".to_string(),
            StoreAction::Flush => "flush".to_string(),
            StoreAction::NoteDrain => "drain".to_string(),
            StoreAction::WriteMetadata => "metadata".to_string(),
            StoreAction::Finalize => "finalize".to_string(),
            StoreAction::Rest => return done,
        };
        failed = name == fails;
        done.push(name);
    }
}

fn counted_batches(counts: &[u64]) -> Vec<Batch> {
    counts.iter().map(|n| Batch::new(vec![1], *n)).collect()
}

#[test]
fn a_cycle_is_stored_in_order() {
    let mut outbox = Outbox::new();
    assert!(run_outbox(&mut outbox, "").is_empty());
    outbox.load(counted_batches(&[3, 4]), false, false);
    assert_eq!(run_outbox(&mut outbox, ""), ["write 3", "write 4", "flush"]);
    outbox.load(Vec::new(), true, false);
    assert_eq!(run_outbox(&mut outbox, "flush"), ["flush", "drain"]);
    outbox.load(counted_batches(&[5]), true, true);
    let all = ["write 5", "flush", "drain", "metadata", "finalize"];
    assert_eq!(run_outbox(&mut outbox, "metadata"), all);
}

#[test]
fn batches_behind_a_failure_wait() {
    let mut outbox = Outbox::new();
    outbox.load(counted_batches(&[1, 2, 3]), true, false);
    // Nothing is flushed after the failure.
    assert_eq!(run_outbox(&mut outbox, "write 2"), ["write 1", "write 2", "stop", "drain"]);
    outbox.load(counted_batches(&[4]), false, true);
    let rest = ["write 3", "write 4", "flush", "metadata", "finalize"];
    assert_eq!(run_outbox(&mut outbox, ""), rest);
}
