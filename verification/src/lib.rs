//! Runtime telemetry for Tokio: recording, buffering, segment rotation and
//! offline analysis.

pub mod analysis;
pub mod analysis_events;
pub mod analysis_laws;
pub mod trace_reader;
pub mod segment_metadata;
pub mod mode_sealed;
pub mod writer;
pub mod writer_laws;
pub mod buffer;
pub mod shared_state;
pub mod event_writer;
pub mod flush_loop;
pub mod custom_events;
pub mod custom_metrics;
pub mod discovery;
pub mod events;
pub mod source;
pub mod text;
pub mod format;
pub mod system_metrics;
pub mod sock_diag;
pub mod socket_accept_queues;
pub mod unwind;
pub mod handle;
pub mod tokio_hooks;
pub mod traced;
pub mod guard;
pub mod runtime_hooks;
pub mod builder;
pub mod outbox;
pub mod pipeline;
