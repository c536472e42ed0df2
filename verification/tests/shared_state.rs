//! Recording from several threads and draining their buffers.
use dial9_tokio_telemetry::buffer::{ThreadLocalBuffer, TraceEncoder};
use dial9_tokio_telemetry::shared_state::SharedState;
use dial9_trace_format::schema::FieldDef;
use dial9_trace_format::types::{EventEncoder, FieldType};
use dial9_trace_format::TraceEvent;
use std::io::{Result, Write};

struct PollEnd;

impl TraceEvent for PollEnd {
    fn event_name() -> &'static str {
        "PollEndEvent"
    }

    fn field_defs() -> Vec<FieldDef> {
        vec![FieldDef::new("worker_id", FieldType::Varint)]
    }

    fn timestamp(&self) -> u64 {
        1000
    }

    fn encode_fields<W: Write>(&self, enc: &mut EventEncoder<'_, W>) -> Result<()> {
        enc.write_u64(0)
    }
}

fn poll_end_event(encoder: &mut TraceEncoder) {
    encoder.encode(&PollEnd).unwrap();
}

fn enabled_shared_state() -> SharedState {
    let mut shared = SharedState::new(0);
    shared.set_enabled(true);
    shared
}

#[test]
fn record_event_registers_tl_buffer_handle() {
    let mut shared = enabled_shared_state();
    shared.record_on_thread(1, poll_end_event);
    assert_eq!(shared.registered_buffers(), 1);
}

#[test]
fn second_record_event_does_not_re_register() {
    let mut shared = enabled_shared_state();
    shared.record_on_thread(1, poll_end_event);
    shared.record_on_thread(1, poll_end_event);
    assert_eq!(shared.registered_buffers(), 1);
}

#[test]
fn drain_all_tl_buffers_flushes_idle_buffer() {
    let mut shared = enabled_shared_state();
    shared.record_on_thread(1, poll_end_event);
    // Nothing in the collector yet (buffer not full).
    assert!(shared.next_batch().is_none());
    // Bump epoch so the idle buffer (epoch 0) is stale, then drain.
    shared.bump_drain_epoch();
    shared.drain_all_tl_buffers();
    let batch = shared.next_batch().expect("expected a batch after drain");
    assert!(batch.event_count > 0);
}

#[test]
fn drain_all_tl_buffers_from_another_thread() {
    let mut shared = enabled_shared_state();
    shared.record_on_thread(2, poll_end_event);
    shared.record_on_thread(2, poll_end_event);
    shared.thread_exited(2);
    shared.bump_drain_epoch();
    shared.drain_all_tl_buffers();
    let batch = shared.next_batch().expect("expected a batch after drain");
    assert_eq!(batch.event_count, 2);
}

#[test]
fn drain_skips_busy_buffer() {
    let mut shared = enabled_shared_state();
    let mut buffer = ThreadLocalBuffer::new();
    buffer.set_collector();
    buffer.record_encodable(poll_end_event);
    // Bump epoch to 1 (simulates the tick before the drain).
    shared.bump_drain_epoch();
    // Simulate a self-flush by stamping the current epoch.
    buffer.stamp(1);
    shared.register(1, buffer);
    let stats = shared.drain_all_tl_buffers();
    assert_eq!(stats.buffers_skipped_busy, 1);
    // Buffer should NOT have been flushed.
    assert!(shared.next_batch().is_none());
}

#[test]
fn a_buffer_that_flushed_itself_is_skipped() {
    let mut shared = enabled_shared_state();
    shared.record_on_thread(1, poll_end_event);
    shared.bump_drain_epoch();
    // A self-flush stamps the current epoch.
    shared.record_on_thread(1, poll_end_event);
    assert_eq!(shared.next_batch().expect("self-flush").event_count, 2);
    shared.record_on_thread(1, poll_end_event);
    let stats = shared.drain_all_tl_buffers();
    assert_eq!(stats.buffers_skipped_busy, 1);
    assert!(shared.next_batch().is_none());
}

#[test]
fn drain_prunes_dead_handles() {
    let mut shared = enabled_shared_state();
    shared.record_on_thread(3, poll_end_event);
    shared.thread_exited(3);
    assert_eq!(shared.registered_buffers(), 1);
    let stats = shared.drain_all_tl_buffers();
    assert_eq!(stats.dead_pruned, 1);
    assert_eq!(shared.registered_buffers(), 0, "dead handle should have been pruned");
}

#[test]
fn drain_flushes_live_worker_buffer() {
    let mut shared = enabled_shared_state();
    shared.record_on_thread(4, poll_end_event);
    assert!(shared.next_batch().is_none());
    shared.bump_drain_epoch();
    let stats = shared.drain_all_tl_buffers();
    assert_eq!(stats.buffers_locked, 1);
    assert_eq!(stats.buffers_flushed, 1);
    assert_eq!(stats.events_flushed, 1);
    let batch = shared.next_batch().expect("the live buffer should have been flushed");
    assert_eq!(batch.event_count, 1);
}

#[test]
fn concurrent_record_and_drain_preserves_event_count() {
    for (threads, per_thread, drains) in [(1u64, 1u64, 0u64), (3, 40, 7), (6, 200, 10)] {
        let mut shared = enabled_shared_state();
        for event in 0..per_thread {
            for thread in 0..threads {
                shared.record_on_thread(thread, poll_end_event);
            }
            if event < drains {
                shared.bump_drain_epoch();
                shared.drain_all_tl_buffers();
            }
        }
        for thread in 0..threads {
            shared.thread_exited(thread);
        }
        shared.bump_drain_epoch();
        shared.drain_all_tl_buffers();
        let mut total = 0;
        while let Some(batch) = shared.next_batch() {
            total += batch.event_count;
        }
        assert_eq!(total, threads * per_thread);
    }
}

#[test]
fn poisoned_buffers_take_no_events_and_are_not_drained() {
    let mut shared = enabled_shared_state();
    shared.record_on_thread(1, poll_end_event);
    shared.thread_poisoned(1);
    shared.record_on_thread(1, poll_end_event);
    shared.bump_drain_epoch();
    let stats = shared.drain_all_tl_buffers();
    assert_eq!(stats.buffers_locked, 0);
    assert!(shared.next_batch().is_none());
    shared.thread_exited(1);
    assert_eq!(shared.next_batch().expect("left over at exit").event_count, 1);
}

#[test]
fn nothing_is_recorded_while_recording_is_off() {
    let mut shared = SharedState::new(7);
    assert!(!shared.is_enabled());
    assert_eq!(shared.start_time_ns(), 7);
    shared.record_on_thread(1, poll_end_event);
    assert_eq!(shared.registered_buffers(), 0);
    let mut buffer = ThreadLocalBuffer::new();
    assert!(!shared.record_event(&mut buffer, poll_end_event));
    assert_eq!(buffer.pending_events(), 0);
    shared.set_enabled(true);
    assert!(shared.record_event(&mut buffer, poll_end_event));
    assert!(!shared.record_event(&mut buffer, poll_end_event));
    assert_eq!(buffer.pending_events(), 2);
}

#[test]
fn a_second_drain_in_the_same_epoch_is_idle() {
    let mut shared = enabled_shared_state();
    shared.record_on_thread(1, poll_end_event);
    shared.bump_drain_epoch();
    assert_eq!(shared.drain_all_tl_buffers().events_flushed, 1);
    shared.record_on_thread(1, poll_end_event);
    assert_eq!(shared.drain_all_tl_buffers().events_flushed, 0);
}

#[test]
fn worker_ids_are_reserved_in_blocks() {
    let mut shared = SharedState::new(0);
    assert_eq!(shared.reserve_worker_ids(4), 0);
    assert_eq!(shared.reserve_worker_ids(2), 4);
    assert_eq!(shared.reserve_worker_ids(1), 6);
}
