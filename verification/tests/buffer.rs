//! Thread-local buffers and the encoder behind them.
use dial9_tokio_telemetry::buffer::{
    Batch, FlushEpoch, ThreadLocalBuffer, TraceEncoder, DEFAULT_BATCH_SIZE,
};
use dial9_tokio_telemetry::events::{CpuSampleData, CpuSampleSource, ThreadName};
use dial9_tokio_telemetry::format::{CpuSampleEvent, WorkerId};
use dial9_trace_format::decoder::Decoder;
use dial9_trace_format::schema::FieldDef;
use dial9_trace_format::types::{EventEncoder, FieldType, FieldValue, FieldValueRef};
use dial9_trace_format::{InternedStackFrames, InternedString, TraceEvent};
use std::io::{Result, Write};

struct PollEnd;

impl TraceEvent for PollEnd {
    fn event_name() -> &'static str {
        "PollEndEvent"
    }

    fn field_defs() -> Vec<FieldDef> {
        vec![FieldDef::new("worker_id", FieldType::Varint)]
    }

    fn timestamp(&self) -> u64 {
        1000
    }

    fn encode_fields<W: Write>(&self, enc: &mut EventEncoder<'_, W>) -> Result<()> {
        enc.write_u64(0)
    }
}

fn write_poll_end(encoder: &mut TraceEncoder) {
    encoder.encode(&PollEnd).unwrap();
}

fn event_names(bytes: &[u8]) -> Vec<String> {
    let mut decoder = Decoder::new(bytes).expect("valid trace header");
    let mut names = Vec::new();
    decoder.for_each_event(|raw| names.push(raw.name.to_string())).expect("decode");
    names
}

#[test]
fn test_buffer_creation() {
    let buffer = ThreadLocalBuffer::new();
    assert_eq!(buffer.pending_events(), 0);
    assert_eq!(buffer.batch_size(), DEFAULT_BATCH_SIZE);
    assert_eq!(DEFAULT_BATCH_SIZE, 1023 * 1024);
    assert!(!buffer.has_pending_events());
}

#[test]
fn test_record_event() {
    let mut buffer = ThreadLocalBuffer::new();
    buffer.record_encodable(write_poll_end);
    assert_eq!(buffer.pending_events(), 1);
    assert!(buffer.encoder.bytes_written() > 0);
}

#[test]
fn test_should_flush_respects_batch_size() {
    // Use a tiny batch size so a single event triggers flush.
    let mut buffer = ThreadLocalBuffer::with_batch_size(1);
    assert!(!buffer.should_flush());
    buffer.record_encodable(write_poll_end);
    assert!(buffer.should_flush());
}

#[test]
fn test_should_flush_default_batch_size() {
    let mut buffer = ThreadLocalBuffer::new();
    assert!(!buffer.should_flush());
    buffer.record_encodable(write_poll_end);
    // A single small event should not exceed 1 MB.
    assert!(!buffer.should_flush());
}

#[test]
fn test_flush() {
    let mut buffer = ThreadLocalBuffer::new();
    buffer.record_encodable(write_poll_end);
    let batch = buffer.flush();
    assert!(!batch.encoded_bytes.is_empty());
    assert_eq!(buffer.pending_events(), 0);
}

#[test]
fn test_flush_epoch_store_load() {
    let mut epoch = FlushEpoch::new();
    assert_eq!(epoch.load(), 0);
    epoch.store(42);
    assert_eq!(epoch.load(), 42);
}

#[test]
fn test_flush_epoch_stamped_on_self_flush() {
    let mut buffer = ThreadLocalBuffer::with_batch_size(1);
    buffer.set_collector();
    buffer.record_encodable(write_poll_end);
    assert!(buffer.should_flush());
    buffer.stamp(5);
    let batch = buffer.flush();
    assert_eq!(batch.event_count, 1);
    assert_eq!(buffer.flush_epoch(), 5);
}

/// A CPU sample as the wire has it.
struct WireSample(CpuSampleEvent);

impl TraceEvent for WireSample {
    fn event_name() -> &'static str {
        "CpuSampleEvent"
    }

    fn field_defs() -> Vec<FieldDef> {
        vec![
            FieldDef::new("thread_name", FieldType::OptionalPooledString),
            FieldDef::new("callchain", FieldType::PooledStackFrames),
            FieldDef::new("cpu", FieldType::OptionalVarint),
        ]
    }

    fn timestamp(&self) -> u64 {
        self.0.timestamp_ns
    }

    fn encode_fields<W: Write>(&self, enc: &mut EventEncoder<'_, W>) -> Result<()> {
        let name = match self.0.thread_name {
            Some(id) => FieldValue::PooledString(InternedString::from_raw(id)),
            None => FieldValue::None,
        };
        enc.write_field_value(&name, FieldType::OptionalPooledString)?;
        enc.write_interned_stack_frames(InternedStackFrames::from_raw(self.0.callchain))?;
        let cpu = self.0.cpu.map_or(FieldValue::None, FieldValue::Varint);
        enc.write_field_value(&cpu, FieldType::OptionalVarint)
    }
}

fn cpu_sample_round_trip(cpu: Option<u32>, name: Option<&str>) -> (Vec<u64>, Option<u64>, Option<String>) {
    let data = CpuSampleData {
        timestamp_nanos: 12_345,
        worker_id: WorkerId::from(0usize),
        tid: 4242,
        thread_name: name.map(|n| ThreadName::new(n.to_string())),
        source: CpuSampleSource::CpuProfile,
        callchain: vec![0xdead_beef, 0xcafe_babe],
        cpu,
    };
    let bytes = ThreadLocalBuffer::encode_single(|encoder: &mut TraceEncoder| {
        let event = data.wire_event(encoder);
        assert_eq!(event.tid, 4242);
        assert_eq!(event.timestamp_ns, 12_345);
        encoder.encode(&WireSample(event)).unwrap();
    });
    let mut decoder = Decoder::new(&bytes).expect("valid trace header");
    let mut out = Vec::new();
    decoder
        .for_each_event(|raw| {
            let name = match &raw.fields[0] {
                FieldValueRef::PooledString(id) => raw.string_pool.get(*id).map(str::to_string),
                _ => None,
            };
            let chain = match &raw.fields[1] {
                FieldValueRef::PooledStackFrames(id) => raw.stack_pool.get(*id).unwrap().to_vec(),
                other => panic!("unexpected field {other:?}"),
            };
            let cpu = match &raw.fields[2] {
                FieldValueRef::Varint(v) => Some(*v),
                _ => None,
            };
            out.push((chain, cpu, name));
        })
        .expect("decode");
    assert_eq!(out.len(), 1);
    out.remove(0)
}

#[test]
fn cpu_sample_event_round_trips_with_cpu() {
    let (chain, cpu, name) = cpu_sample_round_trip(Some(7), Some("worker-3"));
    assert_eq!(cpu, Some(7));
    assert_eq!(chain, vec![0xdead_beef, 0xcafe_babe]);
    assert_eq!(name.as_deref(), Some("worker-3"));
}

#[test]
fn cpu_sample_event_round_trips_without_cpu() {
    let (_, cpu, name) = cpu_sample_round_trip(None, None);
    assert_eq!(cpu, None);
    assert_eq!(name, None);
}

#[test]
fn interned_strings_are_written_once_per_batch() {
    let mut buffer = ThreadLocalBuffer::new();
    buffer.record_encodable(|encoder: &mut TraceEncoder| {
        let first = encoder.intern_string("alpha");
        let written = encoder.bytes_written();
        assert!(written > 5);
        assert_eq!(encoder.intern_string("alpha"), first);
        assert_eq!(encoder.bytes_written(), written);
        assert_ne!(encoder.intern_string("beta"), first);
        let stack = encoder.intern_stack_frames(&[1, 2, 3]);
        assert_eq!(encoder.intern_stack_frames(&[1, 2, 3]), stack);
        assert_ne!(encoder.intern_stack_frames(&[1, 2]), stack);
    });
    buffer.flush();
    // The next batch starts with an empty pool.
    buffer.record_encodable(|encoder: &mut TraceEncoder| {
        let before = encoder.bytes_written();
        assert_eq!(before, 5);
        encoder.intern_string("alpha");
        assert!(encoder.bytes_written() > before);
    });
}

#[test]
fn a_bumped_epoch_flushes_with_the_next_event() {
    let mut buffer = ThreadLocalBuffer::new();
    let first = buffer.with_encoder(write_poll_end, 0);
    assert!(first.first);
    assert!(first.batch.is_none());
    let second = buffer.with_encoder(write_poll_end, 1);
    assert!(!second.first);
    let batch = second.batch.expect("the epoch moved on");
    assert_eq!(batch.event_count, 2);
    assert_eq!(event_names(&batch.encoded_bytes), vec!["PollEndEvent", "PollEndEvent"]);
    assert_eq!(buffer.flush_epoch(), 1);
    assert!(buffer.with_encoder(write_poll_end, 1).batch.is_none());
}

#[test]
fn closing_delivers_only_registered_buffers() {
    let mut registered = ThreadLocalBuffer::new();
    registered.with_encoder(write_poll_end, 0);
    assert_eq!(registered.close().map(|b| b.event_count), Some(1));

    let mut loose = ThreadLocalBuffer::new();
    loose.record_encodable(write_poll_end);
    assert!(loose.close().is_none());
}

#[test]
fn draining_an_empty_buffer_gives_nothing() {
    let mut buffer = ThreadLocalBuffer::default();
    assert!(buffer.drain_to_collector().is_none());
    buffer.record_encodable(write_poll_end);
    assert_eq!(buffer.drain_to_collector().map(|b| b.event_count), Some(1));
    assert!(buffer.drain_to_collector().is_none());
}

#[test]
fn a_single_event_is_a_whole_trace() {
    let bytes = ThreadLocalBuffer::encode_single(write_poll_end);
    assert_eq!(&bytes[..5], &[0x54, 0x52, 0x43, 0x00, 0x01]);
    assert_eq!(event_names(&bytes), vec!["PollEndEvent"]);
    let batch = Batch::new(bytes.clone(), 1);
    assert_eq!(batch.encoded_bytes, bytes);
}

#[test]
fn interning_without_a_bound_agrees_with_interning() {
    let mut buffer = ThreadLocalBuffer::new();
    buffer.record_encodable(|encoder| {
        assert!(encoder.can_intern());
        let name = encoder.intern_string("alpha");
        assert_eq!(encoder.try_intern_string("alpha"), Some(name));
        let stack = encoder.try_intern_stack_frames(&[1, 2]).unwrap();
        assert_eq!(encoder.intern_stack_frames(&[1, 2]), stack);
        let sample = CpuSampleData {
            timestamp_nanos: 5,
            worker_id: WorkerId::from(1usize),
            tid: 9,
            thread_name: Some(ThreadName::new("alpha".into())),
            source: CpuSampleSource::SchedEvent,
            callchain: vec![1, 2],
            cpu: Some(3),
        };
        let event = sample.try_wire_event(encoder).unwrap();
        assert_eq!(event.thread_name, Some(name));
        assert_eq!(event.callchain, stack);
        assert_eq!(event.cpu, Some(3));
    });
}

struct Conflicting;

impl TraceEvent for Conflicting {
    fn event_name() -> &'static str {
        "PollEndEvent"
    }

    fn field_defs() -> Vec<FieldDef> {
        Vec::new()
    }

    fn timestamp(&self) -> u64 {
        2000
    }

    fn encode_fields<W: Write>(&self, _enc: &mut EventEncoder<'_, W>) -> Result<()> {
        Ok(())
    }
}

#[test]
fn conflicting_schemas_are_refused() {
    let mut buffer = ThreadLocalBuffer::new();
    buffer.record_encodable(|encoder: &mut TraceEncoder| {
        encoder.encode(&PollEnd).unwrap();
        let written = encoder.bytes_written();
        let error = encoder.encode(&Conflicting).unwrap_err();
        assert!(error.contains("PollEndEvent"), "{error}");
        assert_eq!(encoder.bytes_written(), written);
        // The event before it is still there, and more can follow.
        encoder.encode(&PollEnd).unwrap();
    });
    assert_eq!(event_names(&buffer.flush().encoded_bytes), ["PollEndEvent", "PollEndEvent"]);
}

#[test]
fn handles_last_for_one_batch() {
    let mut buffer = ThreadLocalBuffer::new();
    buffer.record_encodable(|encoder: &mut TraceEncoder| {
        assert_eq!(encoder.intern_string("alpha"), 0);
        assert_eq!(encoder.intern_string("beta"), 1);
    });
    buffer.flush();
    // Handles of the next batch start over, so old ones mean something else.
    buffer.record_encodable(|encoder: &mut TraceEncoder| {
        assert_eq!(encoder.intern_string("beta"), 0);
    });
}
