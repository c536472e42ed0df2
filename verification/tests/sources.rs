//! Data sources that the flush thread polls.
use dial9_tokio_telemetry::buffer::{ThreadLocalBuffer, TraceEncoder};
use dial9_tokio_telemetry::custom_events::{CustomEventsConfig, CustomEventsSource};
use dial9_tokio_telemetry::custom_metrics::{CustomMetricsConfig, CustomMetricsSource};
use dial9_tokio_telemetry::shared_state::SharedState;
use dial9_tokio_telemetry::source::Pacer;
use dial9_tokio_telemetry::system_metrics::{
    snapshot_from_rusage, MetricsFlush, Platform, ResourceUsage, SystemMetricsConfig,
    SystemMetricsSource, TimeVal, UsageError, UsageField, DEFAULT_SYSTEM_METRICS_INTERVAL,
};
use dial9_trace_format::decoder::Decoder;
use dial9_trace_format::schema::FieldDef;
use dial9_trace_format::types::{EventEncoder, FieldType, FieldValueRef};
use dial9_trace_format::TraceEvent;
use std::cell::Cell;
use std::io::{Result, Write};
use std::time::Duration;

struct TestEvent {
    timestamp_ns: u64,
    value: u64,
}

impl TraceEvent for TestEvent {
    fn event_name() -> &'static str {
        "TestEvent"
    }

    fn field_defs() -> Vec<FieldDef> {
        vec![FieldDef::new("value", FieldType::Varint)]
    }

    fn timestamp(&self) -> u64 {
        self.timestamp_ns
    }

    fn encode_fields<W: Write>(&self, enc: &mut EventEncoder<'_, W>) -> Result<()> {
        enc.write_u64(self.value)
    }
}

fn write_test_event(encoder: &mut TraceEncoder, timestamp_ns: u64, value: u64) {
    encoder.encode(&TestEvent { timestamp_ns, value }).unwrap();
}

fn decode_test_events(bytes: &[u8]) -> Vec<(u64, u64)> {
    let mut decoder = Decoder::new(bytes).expect("batch should contain a valid trace");
    let mut events = Vec::new();
    decoder
        .for_each_event(|raw| {
            if raw.name == "TestEvent" {
                match raw.fields[0] {
                    FieldValueRef::Varint(value) => events.push((raw.timestamp_ns, value)),
                    ref other => panic!("unexpected field {other:?}"),
                }
            }
        })
        .expect("decode batch");
    events
}

#[test]
fn custom_events_default_minimum_interval_runs_every_flush_cycle() {
    assert_eq!(
        Duration::from_nanos(CustomEventsConfig::default().minimum_interval()),
        Duration::ZERO
    );
}

#[test]
fn custom_events_source_records_callback_events() {
    let mut shared = SharedState::new(0);
    let mut buffer = ThreadLocalBuffer::new();
    let mut source = CustomEventsSource::new(CustomEventsConfig::default());
    source.flush(5, 77, |ctx| {
        let timestamp_ns = ctx.timestamp_ns();
        ctx.record_event(&mut shared, &mut buffer, |encoder: &mut TraceEncoder| {
            write_test_event(encoder, timestamp_ns, 42)
        });
    });
    let batch = buffer.drain_to_collector().expect("source should emit a batch");
    let events = decode_test_events(&batch.encoded_bytes);
    assert_eq!(events.len(), 1);
    assert!(events[0].0 > 0);
    assert_eq!(events[0], (77, 42));
    assert_eq!(source.name(), "custom_events");
}

#[test]
fn custom_events_source_respects_minimum_interval() {
    let calls = Cell::new(0);
    let mut source = CustomEventsSource::new(CustomEventsConfig::with_minimum_interval(
        Duration::from_secs(60).as_nanos() as u64,
    ));
    source.flush(1_000, 0, |_| calls.set(calls.get() + 1));
    source.flush(1_001, 0, |_| calls.set(calls.get() + 1));
    assert_eq!(calls.get(), 1);
    assert!(!source.flush(60_000_000_999, 0, |_| calls.set(calls.get() + 1)));
    assert!(source.flush(60_000_001_000, 0, |_| calls.set(calls.get() + 1)));
    assert_eq!(calls.get(), 2);
}

#[test]
fn custom_events_zero_minimum_interval_does_not_throttle() {
    let calls = Cell::new(0);
    let mut source = CustomEventsSource::new(CustomEventsConfig::default());
    source.flush(9, 0, |_| calls.set(calls.get() + 1));
    source.flush(9, 0, |_| calls.set(calls.get() + 1));
    assert_eq!(calls.get(), 2);
}

#[test]
fn custom_metrics_default_minimum_interval_runs_every_flush_cycle() {
    assert_eq!(
        Duration::from_nanos(CustomMetricsConfig::default().minimum_interval()),
        Duration::ZERO
    );
}

#[test]
fn custom_metrics_source_records_callback_events() {
    let mut shared = SharedState::new(0);
    let mut buffer = ThreadLocalBuffer::new();
    let mut source = CustomMetricsSource::new(CustomMetricsConfig::default());
    source.flush(5, 77, |ctx| {
        let timestamp_ns = ctx.timestamp_ns();
        ctx.record_event(&mut shared, &mut buffer, |encoder: &mut TraceEncoder| {
            write_test_event(encoder, timestamp_ns, 42)
        });
    });
    let batch = buffer.drain_to_collector().expect("source should emit a batch");
    let events = decode_test_events(&batch.encoded_bytes);
    assert_eq!(events.len(), 1);
    assert!(events[0].0 > 0);
    assert_eq!(events[0], (77, 42));
    assert_eq!(source.name(), "custom_metrics");
}

#[test]
fn custom_metrics_source_respects_minimum_interval() {
    let calls = Cell::new(0);
    let mut source = CustomMetricsSource::new(CustomMetricsConfig::with_minimum_interval(
        Duration::from_secs(60).as_nanos() as u64,
    ));
    source.flush(1_000, 0, |_| calls.set(calls.get() + 1));
    source.flush(1_001, 0, |_| calls.set(calls.get() + 1));
    assert_eq!(calls.get(), 1);
    assert!(!source.flush(60_000_000_999, 0, |_| calls.set(calls.get() + 1)));
    assert!(source.flush(60_000_001_000, 0, |_| calls.set(calls.get() + 1)));
    assert_eq!(calls.get(), 2);
}

#[test]
fn custom_metrics_zero_minimum_interval_does_not_throttle() {
    let calls = Cell::new(0);
    let mut source = CustomMetricsSource::new(CustomMetricsConfig::default());
    source.flush(9, 0, |_| calls.set(calls.get() + 1));
    source.flush(9, 0, |_| calls.set(calls.get() + 1));
    assert_eq!(calls.get(), 2);
}

fn usage() -> ResourceUsage {
    ResourceUsage {
        ru_utime: TimeVal { tv_sec: 2, tv_usec: 500_000 },
        ru_stime: TimeVal { tv_sec: 0, tv_usec: 7 },
        ru_maxrss: 3,
        ru_minflt: 4,
        ru_majflt: 5,
        ru_inblock: 6,
        ru_oublock: 7,
        ru_nvcsw: 8,
        ru_nivcsw: 9,
        platform: Platform::Other,
    }
}

#[test]
fn source_emits_system_metrics_event() {
    let mut source = SystemMetricsSource::new(SystemMetricsConfig::default());
    let event = match source.flush(1, 1234, || Ok(usage())) {
        MetricsFlush::Event(event) => event,
        other => panic!("expected an event, got {other:?}"),
    };
    assert!(event.timestamp_ns > 0);
    assert_eq!(event.timestamp_ns, 1234);
    assert_eq!(event.user_cpu_ns, 2_500_000_000);
    assert_eq!(event.system_cpu_ns, 7_000);
    assert!(event.max_rss_bytes > 0);
    assert_eq!(event.max_rss_bytes, 3_072);
    assert_eq!(event.minor_faults, 4);
    assert_eq!(event.major_faults, 5);
    assert_eq!(event.block_input_ops, 6);
    assert_eq!(event.block_output_ops, 7);
    assert_eq!(event.voluntary_context_switches, 8);
    assert_eq!(event.involuntary_context_switches, 9);
    assert_eq!(source.name(), "system_metrics");
}

#[test]
fn source_respects_interval() {
    let config = SystemMetricsConfig::with_interval(Duration::from_secs(60).as_nanos() as u64);
    let mut source = SystemMetricsSource::new(config);
    let mut events = 0;
    for now in [10, 11] {
        if let MetricsFlush::Event(_) = source.flush(now, 1, || Ok(usage())) {
            events += 1;
        }
    }
    assert_eq!(events, 1);
}

#[test]
fn default_interval_is_one_second() {
    assert_eq!(SystemMetricsConfig::default().interval(), DEFAULT_SYSTEM_METRICS_INTERVAL);
    assert_eq!(Duration::from_nanos(DEFAULT_SYSTEM_METRICS_INTERVAL), Duration::from_secs(1));
}

#[test]
fn unusable_usage_records_name_the_field() {
    let mut negative = usage();
    negative.ru_majflt = -1;
    let error = snapshot_from_rusage(negative).unwrap_err();
    assert_eq!(error, UsageError::Negative(UsageField::MajorFaults));
    assert_eq!(error.message(), "getrusage returned negative ru_majflt");

    let mut huge = usage();
    huge.ru_stime = TimeVal { tv_sec: i64::MAX, tv_usec: 0 };
    let error = snapshot_from_rusage(huge).unwrap_err();
    assert_eq!(error, UsageError::Overflow(UsageField::SystemTime));
    assert_eq!(error.message(), "ru_stime overflowed u64");

    let mut resident = usage();
    resident.ru_maxrss = i64::MAX;
    assert_eq!(snapshot_from_rusage(resident), Err(UsageError::Overflow(UsageField::MaxRss)));
    // In bytes the same number fits.
    resident.platform = Platform::Apple;
    assert_eq!(snapshot_from_rusage(resident).unwrap().max_rss_bytes, i64::MAX as u64);
}

#[test]
fn failed_readings_count_as_samples() {
    let mut source = SystemMetricsSource::new(SystemMetricsConfig::with_interval(100));
    assert_eq!(source.flush(0, 1, || Err(22)), MetricsFlush::Unreadable(22));
    assert_eq!(source.flush(50, 1, || Ok(usage())), MetricsFlush::Skipped);
    let mut bad = usage();
    bad.ru_nvcsw = -3;
    assert_eq!(
        source.flush(100, 1, || Ok(bad)),
        MetricsFlush::Failed(UsageError::Negative(UsageField::VoluntarySwitches))
    );
}

#[test]
fn pacing_keeps_runs_apart() {
    let mut pacer = Pacer::new(10);
    assert!(pacer.poll(100));
    assert!(!pacer.poll(109));
    assert!(pacer.poll(110));
    // A clock that went backwards does not run the source.
    assert!(!pacer.poll(50));
    let mut always = Pacer::new(0);
    assert!(always.poll(3));
    assert!(always.poll(3));
}
