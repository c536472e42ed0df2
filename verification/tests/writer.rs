//! The segment writer on a disk that is kept in memory.
use dial9_tokio_telemetry::buffer::Batch;
use dial9_tokio_telemetry::discovery::{compressed_file_name, discover_existing, sealed_index};
use dial9_tokio_telemetry::segment_metadata::{SegmentMetadata, DIAL9_VERSION_KEY, DIAL9_VERSION_VALUE};
use dial9_tokio_telemetry::writer::{
    active_file_name, derive_max_file_size, pick_segment_size, sealed_file_name, Appended,
    ClosedSegment, Disk, DiskWriter, InMemoryWriter, Memory, OpenOutcome, RemoveOutcome,
    SealOutcome, SegmentPaths, SegmentWriter, WriterError, WriterMode, WriterState,
    DEFAULT_DRAIN_INTERVAL_NS, DEFAULT_ROTATION_PERIOD_NS, ROTATION_DISABLED,
};
use dial9_trace_format::decoder::Decoder;
use dial9_trace_format::encoder::{Encoder, Schema};
use dial9_trace_format::schema::FieldDef;
use dial9_trace_format::types::{FieldType, FieldValue, FieldValueRef};
use std::cell::{Cell, RefCell};
use std::collections::{BTreeMap, VecDeque};

const BYTES_PER_MIB: u64 = 1024 * 1024;
const SECOND: u64 = 1_000_000_000;

fn test_batch() -> Vec<u8> {
    let schema = Schema::new(
        "WorkerParkEvent",
        vec![
            FieldDef::new("worker_id", FieldType::Varint),
            FieldDef::new("local_queue", FieldType::Varint),
            FieldDef::new("cpu_time_ns", FieldType::Varint),
            FieldDef::new("tid", FieldType::Varint),
        ],
    );
    let mut enc = Encoder::new_to(Vec::new()).unwrap();
    let values = [0, 2, 0, 0].map(FieldValue::Varint);
    enc.write_event(&schema, 1000, &values).unwrap();
    enc.into_inner()
}

fn clock_sync(enc: &mut Encoder<Vec<u8>>) {
    let schema = Schema::new("ClockSyncEvent", vec![FieldDef::new("realtime_ns", FieldType::Varint)]);
    enc.write_event(&schema, 1, &[FieldValue::Varint(2)]).unwrap();
}

fn segment_head() -> Vec<u8> {
    let mut enc = Encoder::new_to(Vec::new()).unwrap();
    clock_sync(&mut enc);
    enc.into_inner()
}

fn metadata_bytes(entries: &[(String, String)]) -> Vec<u8> {
    let schema = Schema::new(
        "SegmentMetadataEvent",
        vec![FieldDef::new("entries", FieldType::StringMap)],
    );
    let map = entries
        .iter()
        .map(|(k, v)| (k.clone().into_bytes(), v.clone().into_bytes()))
        .collect();
    let mut enc = Encoder::new_to(Vec::new()).unwrap();
    enc.write_event(&schema, 1, &[FieldValue::StringMap(map)]).unwrap();
    clock_sync(&mut enc);
    enc.into_inner()
}

fn count_events(bytes: &[u8]) -> usize {
    let mut decoder = Decoder::new(bytes).expect("valid header");
    let mut events = 0;
    decoder
        .for_each_event(|raw| {
            if raw.name != "SegmentMetadataEvent" && raw.name != "ClockSyncEvent" {
                events += 1;
            }
        })
        .expect("decode");
    events
}

type Files = BTreeMap<String, Vec<u8>>;

/// A writer and the files that it has caused.
struct Rig<M: WriterMode> {
    writer: SegmentWriter<M>,
    files: RefCell<Files>,
    now: u64,
    active: String,
    refuse_open: bool,
}

fn remove_all(files: &mut Files, removed: Vec<ClosedSegment>) {
    for (index, _) in removed {
        files.remove(&sealed_file_name("trace", index));
        files.remove(&compressed_file_name("trace", index));
    }
}

impl Rig<Disk> {
    fn build(
        mut files: Files,
        max_file_size: Option<u64>,
        max_total_size: u64,
        rotation_period: Option<u64>,
    ) -> Self {
        let listing = files.iter().map(|(name, bytes)| (name.clone(), bytes.len() as u64)).collect();
        let found = discover_existing("trace", &listing).expect("an index is left");
        for name in found.stale {
            files.remove(&name);
        }
        let (closed, first_index) = (found.closed, found.first_index);
        let active = active_file_name("trace", first_index);
        files.insert(active.clone(), segment_head());
        let (writer, removed) = DiskWriter::builder(
            max_total_size,
            max_file_size,
            rotation_period,
            None,
            closed,
            first_index,
            segment_head().len() as u64,
            0,
        )
        .expect("valid configuration");
        remove_all(&mut files, removed);
        Rig { writer, files: RefCell::new(files), now: 0, active, refuse_open: false }
    }

    fn new(max_file_size: u64, max_total_size: u64) -> Self {
        Rig::build(Files::new(), Some(max_file_size), max_total_size, None)
    }

    fn with_metadata(
        max_file_size: u64,
        max_total_size: u64,
        entries: Vec<(String, String)>,
    ) -> Self {
        let mut rig = Rig::new(max_file_size, max_total_size);
        let (writer, _) = DiskWriter::builder(
            max_total_size,
            Some(max_file_size),
            None,
            Some(entries),
            VecDeque::new(),
            0,
            segment_head().len() as u64,
            0,
        )
        .expect("valid configuration");
        rig.writer = writer;
        rig
    }

    fn single() -> Self {
        let head = segment_head();
        let writer = DiskWriter::single_file(head.len() as u64, 0);
        let active = active_file_name("trace", 0);
        let files = RefCell::new(Files::from([(active.clone(), head)]));
        Rig { writer, files, now: 0, active, refuse_open: false }
    }
}

impl Rig<Memory> {
    fn in_memory(max_total_size: u64, max_segment_size: Option<u64>) -> Self {
        let head = segment_head();
        let writer =
            InMemoryWriter::builder(max_total_size, max_segment_size, None, None, head.len() as u64, 0)
                .unwrap();
        let active = active_file_name("trace", 0);
        let files = RefCell::new(Files::from([(active.clone(), head)]));
        Rig { writer, files, now: 0, active, refuse_open: false }
    }
}

impl<M: WriterMode> Rig<M> {
    fn seal(files: &RefCell<Files>, index: u32) -> SealOutcome {
        let mut files = files.borrow_mut();
        match files.remove(&active_file_name("trace", index)) {
            Some(bytes) => {
                files.insert(sealed_file_name("trace", index), bytes);
                SealOutcome::Sealed
            }
            None => SealOutcome::Missing,
        }
    }

    fn open(files: &RefCell<Files>, refuse: bool, index: u32) -> OpenOutcome {
        if refuse {
            return OpenOutcome::CreateFailed;
        }
        let head = segment_head();
        let bytes_written = head.len() as u64;
        files.borrow_mut().insert(active_file_name("trace", index), head);
        OpenOutcome::Opened { bytes_written }
    }

    fn append(files: &RefCell<Files>, active: &str, bytes: &[u8]) -> Appended {
        let mut files = files.borrow_mut();
        let file = files.get_mut(active).expect("active file");
        file.extend_from_slice(bytes);
        Appended { ok: true, bytes_written: file.len() as u64 }
    }

    fn write_events(&mut self, event_count: u64) {
        let next = self.writer.next_index();
        let (files, active, refuse) = (&self.files, self.active.as_str(), self.refuse_open);
        let removed = self
            .writer
            .write_encoded_batch(
                &Batch::new(test_batch(), event_count),
                self.now,
                |entries| Self::append(files, active, &metadata_bytes(entries)),
                |bytes| Self::append(files, active, bytes),
                |request| Self::seal(files, request.index),
                |index| Self::open(files, refuse, index),
                |_| panic!("no header fails here"),
            )
            .expect("write");
        remove_all(&mut self.files.borrow_mut(), removed);
        if self.writer.next_index() > next {
            self.active = active_file_name("trace", next);
        }
    }

    /// Whether metadata is due; if so it is written.
    fn describe(&mut self) -> bool {
        let (files, active) = (&self.files, self.active.as_str());
        let due = Cell::new(false);
        self.writer
            .write_current_segment_metadata(|entries| {
                due.set(true);
                Self::append(files, active, &metadata_bytes(entries))
            })
            .expect("metadata");
        due.get()
    }

    fn write(&mut self) {
        self.write_events(1);
    }

    fn rotate(&mut self) {
        let next = self.writer.next_index();
        let (files, refuse) = (&self.files, self.refuse_open);
        let removed = self
            .writer
            .rotate(
                self.now,
                |request| Self::seal(files, request.index),
                |index| Self::open(files, refuse, index),
                |_| panic!("no header fails here"),
            )
            .expect("rotate");
        remove_all(&mut self.files.borrow_mut(), removed);
        self.active = active_file_name("trace", next);
    }

    fn drained(&mut self) -> Result<bool, WriterError> {
        let next = self.writer.next_index();
        let (files, refuse) = (&self.files, self.refuse_open);
        let (rotated, removed) = self.writer.drained(
            self.now,
            |request| Self::seal(files, request.index),
            |index| Self::open(files, refuse, index),
            |_| panic!("no header fails here"),
        )?;
        remove_all(&mut self.files.borrow_mut(), removed);
        if rotated {
            self.active = active_file_name("trace", next);
        }
        Ok(rotated)
    }

    fn finalize(&mut self) {
        let files = &self.files;
        let removed = self
            .writer
            .finalize(
                |request| Self::seal(files, request.index),
                |index| match files.borrow_mut().remove(&active_file_name("trace", index)) {
                    Some(_) => RemoveOutcome::Removed,
                    None => RemoveOutcome::Missing,
                },
            )
            .expect("finalize");
        remove_all(&mut self.files.borrow_mut(), removed);
    }

    fn advance(&mut self, seconds: u64) {
        self.now += seconds * SECOND;
    }

    fn has(&self, name: &str) -> bool {
        self.files.borrow().contains_key(name)
    }

    fn file(&self, name: &str) -> Vec<u8> {
        self.files.borrow()[name].clone()
    }

    /// The sealed segments, oldest first.
    fn sealed(&self) -> Vec<Vec<u8>> {
        (0..self.writer.next_index())
            .filter_map(|i| self.files.borrow().get(&sealed_file_name("trace", i)).cloned())
            .collect()
    }

    fn usage(&self) -> u64 {
        self.files.borrow().values().map(|bytes| bytes.len() as u64).sum()
    }

    fn sealed_events(&self) -> usize {
        self.files
            .borrow()
            .iter()
            .filter(|(name, _)| name.ends_with(".bin"))
            .map(|(_, bytes)| count_events(bytes))
            .sum()
    }
}

fn single_event_file_size() -> u64 {
    let mut rig = Rig::single();
    rig.write();
    rig.usage()
}

#[test]
fn test_writer_creation() {
    let writer = DiskWriter::single_file(5, 0);
    assert_eq!(writer.flush(|| Ok(())), Ok(()));
    assert_eq!(writer.max_file_size(), u64::MAX);
}

#[test]
fn derive_max_file_size_caps_large_budgets_at_100_mib() {
    assert_eq!(derive_max_file_size(1024 * BYTES_PER_MIB), 100 * BYTES_PER_MIB);
}

#[test]
fn derive_max_file_size_uses_quarter_of_small_budgets() {
    assert_eq!(derive_max_file_size(64 * BYTES_PER_MIB), 16 * BYTES_PER_MIB);
}

#[test]
fn builder_defaults_max_file_size_from_total_size() {
    let total = 64 * BYTES_PER_MIB;
    let rig = Rig::build(Files::new(), None, total, None);
    assert_eq!(rig.writer.max_file_size(), derive_max_file_size(total));
}

#[test]
fn builder_honors_explicit_max_file_size() {
    let rig = Rig::build(Files::new(), Some(7 * BYTES_PER_MIB), 64 * BYTES_PER_MIB, None);
    assert_eq!(rig.writer.max_file_size(), 7 * BYTES_PER_MIB);
}

#[test]
fn test_write_event() {
    let mut rig = Rig::single();
    let before = rig.usage();
    rig.write();
    assert!(rig.usage() > before);
}

#[test]
fn test_write_batch_sizes() {
    let mut rig = Rig::single();
    let one_event_size = single_event_file_size();
    for _ in 0..2 {
        rig.write();
    }
    // Two events should be larger than one event.
    assert!(rig.usage() > one_event_size);
}

#[test]
fn test_rotating_writer_creation() {
    let mut rig = Rig::new(1024, 4096);
    rig.finalize();
    // No real events were written, so finalize removes the empty segment.
    assert!(!rig.has("trace.0.bin"), "empty segment should not be sealed");
    assert!(!rig.has("trace.0.bin.active"), "active file should be removed");
}

#[test]
fn test_rotating_writer_rotation() {
    // Set max_file_size to fit ~1 event so rotation triggers quickly.
    let mut rig = Rig::new(single_event_file_size(), 100_000);
    for _ in 0..3 {
        rig.write();
    }
    rig.finalize();
    assert_eq!(rig.sealed_events(), 3);
}

#[test]
fn test_rotating_writer_eviction() {
    let max_file_size = single_event_file_size();
    let max_total_size = max_file_size * 3;
    let mut rig = Rig::new(max_file_size, max_total_size);
    for _ in 0..10 {
        rig.write();
    }
    rig.finalize();
    // Key invariant: total disk usage stays within budget.
    assert!(rig.usage() <= max_total_size);
    // Oldest files should be evicted.
    assert!(!rig.has("trace.0.bin"));
}

#[test]
fn test_rotating_writer_stops_when_over_budget() {
    let one_event = single_event_file_size();
    let mut rig = Rig::new(one_event, one_event + 5);
    for _ in 0..100 {
        rig.write();
    }
    rig.finalize();
    let total = rig.sealed_events();
    assert!(total < 100, "should have stopped writing, got {total} events");
}

#[test]
fn test_writer_stops_on_tiny_overshoot_after_eviction() {
    let max_file_size = 200;
    let num_files = 100u64;
    let max_total_size = max_file_size * num_files;
    let mut rig = Rig::new(max_file_size, max_total_size);
    for i in 0..5000 {
        rig.write();
        if matches!(rig.writer.state(), WriterState::Finished) {
            panic!(
                "Writer stopped at batch {i}! total_size={}, max_total_size={}, closed_files={}",
                rig.writer.total_size(),
                max_total_size,
                rig.writer.closed_segments().len()
            );
        }
    }
}

#[test]
fn test_rotating_writer_file_naming() {
    let mut rig = Rig::new(single_event_file_size(), 100_000);
    for _ in 0..5 {
        rig.write();
    }
    rig.finalize();
    assert!(rig.has("trace.0.bin"), "File 0 should exist");
    assert_eq!(rig.sealed_events(), 5);
}

#[test]
fn test_write_batch_across_rotation_boundary() {
    let mut rig = Rig::new(single_event_file_size(), 100_000);
    for _ in 0..3 {
        rig.write();
    }
    rig.finalize();
    assert_eq!(rig.sealed_events(), 3);
}

#[test]
fn test_rotated_files_have_valid_headers() {
    let mut rig = Rig::new(single_event_file_size(), 100_000);
    for _ in 0..3 {
        rig.write();
    }
    rig.finalize();
    for bytes in rig.files.borrow().values() {
        assert_eq!(&bytes[..4], b"TRC\0");
    }
    assert_eq!(rig.sealed_events(), 3);
}

#[test]
fn test_flush_after_stop() {
    // Total budget smaller than one file: stops immediately.
    let mut rig = Rig::new(10_000, 50);
    for _ in 0..5 {
        rig.write();
    }
    // Repeated flush after stop should not error.
    assert!(rig.writer.flush(|| Ok(())).is_ok());
    assert!(rig.writer.flush(|| Ok(())).is_ok());
    // Nor does it touch the storage.
    rig.finalize();
    assert!(rig.writer.flush(|| Err(WriterError::Storage)).is_ok());
}

#[test]
fn test_mixed_event_sizes() {
    let mut rig = Rig::new(single_event_file_size(), 100_000);
    for _ in 0..3 {
        rig.write();
    }
    rig.finalize();
    assert_eq!(rig.sealed_events(), 3);
}

#[test]
fn test_event_exactly_on_max_file_size_boundary() {
    // Exactly fits one event file: the second event triggers rotation.
    let mut rig = Rig::new(single_event_file_size(), 100_000);
    rig.write();
    assert_eq!(rig.writer.next_index(), 1);
    rig.write();
    assert_eq!(rig.writer.next_index(), 2);
    rig.finalize();
    assert_eq!(rig.sealed_events(), 2);
}

#[test]
fn test_active_suffix_while_writing() {
    let mut rig = Rig::new(1024, 100_000);
    rig.write();
    assert!(rig.has("trace.0.bin.active"), "active file should exist while writing");
    assert!(!rig.has("trace.0.bin"), "sealed file should not exist yet");
}

#[test]
fn test_rotation_seals_previous_file() {
    let mut rig = Rig::new(single_event_file_size(), 100_000);
    rig.write();
    rig.write();
    assert!(rig.has("trace.0.bin"), "rotated file should be sealed");
    assert!(!rig.has("trace.0.bin.active"), "rotated file should not be active");
    assert!(rig.has("trace.1.bin.active"), "current file should be active");
    assert!(!rig.has("trace.1.bin"), "current file should not be sealed");
}

#[test]
fn test_finalize_renames_current_file() {
    let mut rig = Rig::new(1024, 100_000);
    rig.write();
    rig.finalize();
    assert!(rig.has("trace.0.bin"), "file should be sealed after finalize()");
    assert!(!rig.has("trace.0.bin.active"), "active file should be gone after finalize()");
}

#[test]
fn test_finalize_removes_empty_segment_after_rotation() {
    // Small max_file_size so one event triggers rotation.
    let mut rig = Rig::new(1, 100_000);
    rig.write();
    assert!(rig.has("trace.0.bin"));
    assert!(rig.has("trace.1.bin.active"));
    rig.finalize();
    assert!(!rig.has("trace.1.bin"), "empty segment should not be sealed");
    assert!(!rig.has("trace.1.bin.active"), "empty active file should be removed");
    assert!(rig.has("trace.0.bin"));
}

#[test]
fn test_single_file_no_active_suffix() {
    let mut rig = Rig::single();
    rig.write();
    rig.finalize();
    assert!(rig.has("trace.0.bin"));
    assert!(!rig.has("trace.0.bin.active"));
}

#[test]
fn test_eviction_keeps_most_recent_segment_when_over_budget() {
    let one_event = single_event_file_size();
    let max_total_size = one_event / 2;
    assert!(max_total_size < one_event, "budget must be smaller than a single segment");
    let mut rig = Rig::new(u64::MAX, max_total_size);
    rig.write();
    assert!(rig.writer.total_size() > max_total_size as u128);
    let removed = rig.writer.evict_oldest();
    assert!(removed.is_empty());
    assert!(
        matches!(rig.writer.state(), WriterState::Finished),
        "writer should stop once even the most-recent segment exceeds budget"
    );
    assert!(rig.has("trace.0.bin.active"), "the most-recent segment must not be evicted");
    assert!(rig.usage() > max_total_size);
}

#[test]
fn test_time_rotation_triggers_on_expired_boundary() {
    let mut rig = Rig::build(Files::new(), Some(u64::MAX), 100_000, Some(60 * SECOND));
    rig.write();
    let initial_index = rig.writer.next_index();
    // Advance past the 60s boundary.
    rig.advance(61);
    rig.write();
    assert_eq!(rig.drained(), Ok(true));
    assert!(rig.writer.next_index() > initial_index, "expected time-based rotation to trigger");
    rig.finalize();
    assert_eq!(rig.sealed_events(), 2);
}

#[test]
fn test_first_rotation_uses_monotonic_period_not_wallclock_alignment() {
    let mut rig = Rig::build(Files::new(), Some(u64::MAX), 100_000, Some(60 * SECOND));
    rig.write();
    let initial_index = rig.writer.next_index();
    rig.advance(50);
    rig.write();
    assert_eq!(rig.drained(), Ok(false));
    assert_eq!(rig.writer.next_index(), initial_index);
    // After the period does elapse, rotation fires.
    rig.advance(11);
    rig.write();
    assert_eq!(rig.drained(), Ok(true));
    assert!(rig.writer.next_index() > initial_index);
    rig.finalize();
}

#[test]
fn test_time_rotation_skips_when_no_real_events() {
    let mut rig = Rig::build(Files::new(), Some(u64::MAX), 100_000, Some(60 * SECOND));
    rig.advance(120);
    rig.write_events(0);
    assert_eq!(rig.writer.next_index(), 1, "should not rotate when no real events exist");
    assert!(!rig.writer.should_drain(rig.now));
    assert_eq!(rig.drained(), Ok(false));
    rig.finalize();
}

#[test]
fn test_size_rotation_still_works_with_time_disabled() {
    let one_event = single_event_file_size();
    let mut rig = Rig::build(Files::new(), Some(one_event), 100_000, Some(ROTATION_DISABLED));
    for _ in 0..3 {
        rig.write();
    }
    rig.finalize();
    assert_eq!(rig.sealed_events(), 3);
}

#[test]
fn test_time_rotation_respects_eviction_budget() {
    let one_event = single_event_file_size();
    let mut rig = Rig::build(Files::new(), Some(u64::MAX), one_event * 3, Some(60 * SECOND));
    rig.write();
    for _ in 0..5 {
        rig.advance(61);
        rig.write();
        rig.drained().unwrap();
    }
    rig.finalize();
    assert!(rig.usage() <= one_event * 3, "disk usage should stay within budget");
}

#[test]
fn test_builder_rotation_period_default() {
    let rig = Rig::build(Files::new(), Some(1024), 100_000, None);
    assert_eq!(rig.writer.rotation_period(), DEFAULT_ROTATION_PERIOD_NS);
}

#[test]
fn test_new_uses_default_rotation_period() {
    let (writer, _) = DiskWriter::new(1024, 100_000, VecDeque::new(), 0, 5, 0).unwrap();
    assert_eq!(writer.rotation_period(), DEFAULT_ROTATION_PERIOD_NS);
}

#[test]
fn test_finalize_after_time_rotation() {
    let mut rig = Rig::build(Files::new(), Some(u64::MAX), 100_000, Some(60 * SECOND));
    rig.write();
    rig.advance(61);
    rig.write();
    rig.drained().unwrap();
    rig.finalize();
    assert_eq!(rig.sealed_events(), 2);
}

#[test]
fn test_stale_boundary_does_not_rotate_first_event() {
    let mut rig = Rig::build(Files::new(), Some(u64::MAX), 100_000, Some(60 * SECOND));
    // Advance well past the boundary with no events.
    rig.advance(300);
    rig.write();
    assert_eq!(rig.writer.next_index(), 1, "first event should not trigger rotation");
    rig.write();
    assert_eq!(rig.writer.next_index(), 1, "second event should be in the same segment");
    rig.finalize();
    assert_eq!(count_events(&rig.files.borrow()["trace.0.bin"]), 2);
}

#[test]
fn test_drained_recovers_when_active_file_deleted() {
    let mut rig = Rig::build(Files::new(), Some(u64::MAX), 100_000, Some(60 * SECOND));
    rig.write();
    let active = rig.active.clone();
    rig.files.borrow_mut().remove(&active).expect("active file");
    rig.advance(61);
    assert!(rig.writer.should_drain(rig.now), "should_drain should fire");
    rig.drained().expect("drained() must recover from missing .active file");
    assert!(!rig.writer.should_drain(rig.now), "should_drain must return false after recovery");
    // The writer must still be usable.
    rig.write();
    assert!(rig.has(&rig.active));
    rig.finalize();
}

#[test]
fn test_drained_recovers_when_parent_dir_deleted() {
    let mut rig = Rig::build(Files::new(), Some(u64::MAX), 100_000, Some(60 * SECOND));
    rig.write();
    rig.files.borrow_mut().clear();
    rig.refuse_open = true;
    rig.advance(61);
    assert!(rig.writer.should_drain(rig.now));
    assert_eq!(rig.drained(), Err(WriterError::Storage));
    assert!(matches!(rig.writer.state(), WriterState::Finished));
    assert!(!rig.writer.should_drain(rig.now), "a failed rotation must not fire again at once");
    rig.now += 5_000_000;
    let _ = rig.drained();
    assert!(!rig.writer.should_drain(rig.now));
}

#[test]
fn test_restart_seeds_closed_files_and_evicts() {
    let one_event = single_event_file_size();
    // Lifetime 1: write a few sealed segments.
    let mut first = Rig::new(one_event, 100_000);
    for _ in 0..4 {
        first.write();
    }
    first.finalize();
    let files = first.files.into_inner();
    assert!(files.len() >= 2, "lifetime 1 should leave multiple sealed segments");
    let newest = files.keys().last().unwrap().clone();
    // Lifetime 2: shrink the budget so existing artifacts must be evicted.
    let new_budget = one_event + 1;
    let second = Rig::build(files, Some(one_event), new_budget, None);
    assert!(second.usage() <= new_budget, "{} exceeds the shrunk budget", second.usage());
    // Next active index must not collide with retained segments.
    assert!(second.has(&second.active));
    assert!(second.active.ends_with(".bin.active"));
    assert_ne!(second.active, format!("{newest}.active"));
}

#[test]
fn test_restart_discards_stale_active_files() {
    let orphan = "trace.99.bin.active".to_string();
    let files = Files::from([(orphan.clone(), b"orphaned".to_vec())]);
    let rig = Rig::build(files, Some(1024), 100_000, None);
    assert!(!rig.has(&orphan), "stale .active should be discarded on construction");
    assert_eq!(rig.active, "trace.0.bin.active");
}

#[test]
fn test_restart_counts_gz_siblings_toward_budget() {
    let files = Files::from([
        ("trace.0.bin".to_string(), vec![0u8; 4096]),
        ("trace.0.bin.gz".to_string(), vec![0u8; 1024]),
    ]);
    // Budget too small for both. Restart must evict the whole family.
    let rig = Rig::build(files, Some(100_000), 100, None);
    assert!(!rig.has("trace.0.bin"), ".bin should be evicted under restart budget");
    assert!(!rig.has("trace.0.bin.gz"), ".bin.gz must be evicted with its .bin family");
}

#[test]
fn discovery_reads_names_and_adds_up_families() {
    let listing = vec![
        ("trace.10.bin".to_string(), 7),
        ("trace.2.bin.gz".to_string(), 100),
        ("other.3.bin".to_string(), 1),
        ("trace.2.bin".to_string(), 5),
        ("trace.007.bin".to_string(), 1),
        ("trace.11.bin.active".to_string(), 9),
        ("trace..bin".to_string(), 1),
        ("trace.4294967296.bin".to_string(), 1),
    ];
    let found = discover_existing("trace", &listing).unwrap();
    assert_eq!(found.closed, VecDeque::from([(2, 105), (10, 7)]));
    assert_eq!(found.first_index, 11);
    assert_eq!(found.stale, vec!["trace.11.bin.active".to_string()]);
    assert_eq!(sealed_index("trace", &"trace.5.bin.gz".to_string()), Some(5));
    assert_eq!(sealed_index("trace", &"trace.5.bin.tmp".to_string()), None);
    let last = vec![("trace.4294967295.bin".to_string(), 1)];
    assert!(matches!(discover_existing("trace", &last), Err(WriterError::IndexOverflow)));
    let full = vec![("trace.0.bin".to_string(), u64::MAX), ("trace.0.bin.gz".to_string(), 1)];
    assert_eq!(discover_existing("trace", &full).unwrap().closed[0], (0, u64::MAX));
}

#[test]
fn test_finalize_evicts_to_budget() {
    let one_event = single_event_file_size();
    let max_total_size = one_event * 2;
    let mut rig = Rig::new(one_event, max_total_size);
    for _ in 0..10 {
        rig.write();
    }
    rig.finalize();
    assert!(rig.usage() <= max_total_size, "finalize must leave disk usage within budget");
}

#[test]
fn in_memory_builder_wires_custom_options() {
    let writer = InMemoryWriter::builder(
        8 * 1024 * 1024,
        Some(64 * 1024),
        Some(30 * SECOND),
        Some(vec![("svc".into(), "test".into())]),
        5,
        0,
    )
    .unwrap();
    assert_eq!(writer.max_file_size(), 64 * 1024);
    assert_eq!(writer.rotation_period(), 30 * SECOND);
    assert!(writer.segment_metadata().iter().any(|(k, v)| k == "svc" && v == "test"));
}

#[test]
fn in_memory_rejects_zero_total_size() {
    let error = InMemoryWriter::new(0, 5, 0).err();
    assert_eq!(error, Some(WriterError::ZeroTotalSize));
}

#[test]
fn in_memory_builder_enforces_3x_segment_min_total_size() {
    let seg: u64 = 2048;
    // Below the boundary: rejected (no room for even one ring slot).
    let error = InMemoryWriter::builder(3 * seg - 1, Some(seg), None, None, 5, 0).err();
    assert_eq!(error, Some(WriterError::TotalSizeTooSmall { min_total: 3 * seg }));
    // At boundary: accepted (1 active + 1 in-flight + 1 ring slot).
    assert!(InMemoryWriter::builder(3 * seg, Some(seg), None, None, 5, 0).is_ok());
}

#[test]
fn mem_writer_e2e_delivers_all_events() {
    let mut rig = Rig::in_memory(1 << 20, None);
    for _ in 0..25 {
        rig.write();
    }
    rig.finalize();
    assert_eq!(rig.sealed_events(), 25);
    assert!(rig.writer.is_done());
}

#[test]
fn mem_writer_e2e_delivers_all_events_across_rotations() {
    let mut rig = Rig::in_memory(16 * 1024 * 1024, Some(256));
    for _ in 0..60 {
        rig.write();
    }
    rig.finalize();
    assert!(rig.files.borrow().len() >= 2, "tiny segments must force rotation");
    assert_eq!(rig.sealed_events(), 60);
    assert_eq!(rig.writer.total_size(), 0);
    assert!(rig.writer.closed_segments().is_empty());
}

#[test]
fn unusable_configurations_are_refused() {
    let disk = |period, first| DiskWriter::builder(10, None, Some(period), None, VecDeque::new(), first, 5, 0).err();
    assert_eq!(disk(0, 0), Some(WriterError::ZeroRotationPeriod));
    assert_eq!(disk(1, u32::MAX), Some(WriterError::IndexOverflow));
    let memory = |total, segment, period| InMemoryWriter::builder(total, segment, Some(period), None, 5, 0).err();
    assert_eq!(memory(8, Some(0), 1), Some(WriterError::ZeroSegmentSize));
    assert_eq!(memory(8, Some(1), 0), Some(WriterError::ZeroRotationPeriod));
    assert_eq!(
        memory(u64::MAX - 1, Some(u64::MAX / 2), 1),
        Some(WriterError::TotalSizeTooSmall { min_total: u64::MAX })
    );
    assert_eq!(pick_segment_size(800), 100);
    assert_eq!(pick_segment_size(7), 1);
}

#[test]
fn a_finished_writer_drops_and_counts_events() {
    let mut rig = Rig::new(1024, 100_000);
    rig.write();
    rig.finalize();
    assert!(rig.writer.is_done());
    let before = rig.files.borrow().clone();
    rig.write_events(3);
    rig.write_events(4);
    assert_eq!(rig.writer.dropped_events(), 7);
    assert_eq!(*rig.files.borrow(), before);
    // Finalizing again changes nothing.
    rig.finalize();
    assert_eq!(*rig.files.borrow(), before);
}

#[test]
fn a_segment_without_a_header_is_discarded() {
    let mut rig = Rig::new(1, 100_000);
    let files = &rig.files;
    let discarded = RefCell::new(Vec::new());
    let outcome = rig.writer.rotate(
        0,
        |request| {
            assert_eq!(request.index, 0);
            Rig::<Disk>::seal(files, request.index)
        },
        |index| {
            assert_eq!(index, 1);
            OpenOutcome::PrepareFailed
        },
        |index| discarded.borrow_mut().push(index),
    );
    assert_eq!(outcome, Err(WriterError::Storage));
    assert_eq!(*discarded.borrow(), vec![1]);
    assert!(matches!(rig.writer.state(), WriterState::Finished));
    assert_eq!(rig.writer.closed_segments().len(), 1);
}

#[test]
fn failures_of_the_storage_are_reported() {
    let mut rig = Rig::new(1024, 100_000);
    rig.write();
    let sealed = rig.writer.finalize(|_| SealOutcome::Failed, |_| RemoveOutcome::Removed);
    assert_eq!(sealed, Err(WriterError::Storage));
    assert!(rig.writer.is_done());
    let mut empty = Rig::new(1024, 100_000);
    let removed = empty.writer.finalize(|_| SealOutcome::Sealed, |_| RemoveOutcome::Failed);
    assert_eq!(removed, Err(WriterError::Storage));
    let mut rotating = Rig::new(1024, 100_000);
    let rotated = rotating.writer.rotate(0, |_| SealOutcome::Failed, |_| panic!("not reached"), |_| ());
    assert_eq!(rotated, Err(WriterError::Storage));
}

fn metadata_in(bytes: &[u8]) -> Vec<BTreeMap<String, String>> {
    let mut found = Vec::new();
    Decoder::new(bytes)
        .expect("valid header")
        .for_each_event(|raw| {
            if raw.name == "SegmentMetadataEvent" {
                if let FieldValueRef::StringMap(entries) = &raw.fields[0] {
                    found.push(
                        entries.iter().map(|(k, v)| (k.to_string(), v.to_string())).collect(),
                    );
                }
            }
        })
        .expect("decode");
    found
}

fn value<'a>(entries: &'a BTreeMap<String, String>, key: &str) -> Option<&'a str> {
    entries.get(key).map(String::as_str)
}

#[test]
fn test_segment_metadata_roundtrip() {
    let mut rig = Rig::with_metadata(
        100_000,
        100_000,
        vec![
            ("service".into(), "checkout-api".into()),
            ("host".into(), "i-0abc123".into()),
        ],
    );
    rig.write();
    rig.finalize();
    let metadata = metadata_in(&rig.file("trace.0.bin"));
    assert_eq!(metadata.len(), 1);
    assert_eq!(value(&metadata[0], "service"), Some("checkout-api"));
    assert_eq!(value(&metadata[0], "host"), Some("i-0abc123"));
    assert_eq!(value(&metadata[0], DIAL9_VERSION_KEY), Some(DIAL9_VERSION_VALUE));
}

#[test]
fn test_segment_metadata_written_in_every_rotated_file() {
    let one_event = single_event_file_size();
    let mut rig = Rig::with_metadata(one_event, 100_000, vec![("k".into(), "v".into())]);
    for _ in 0..5 {
        rig.write();
    }
    rig.finalize();
    let files = rig.sealed();
    assert!(files.len() >= 2, "expected at least 2 files from rotation");
    for file in &files {
        let found = metadata_in(file).iter().any(|entries| value(entries, "k") == Some("v"));
        assert!(found, "expected SegmentMetadata");
    }
}

#[test]
fn test_dynamic_metadata_merged_on_rotation() {
    let one_event = single_event_file_size();
    let mut rig =
        Rig::with_metadata(one_event, 100_000, vec![("service".into(), "myapp".into())]);
    let mut merged = rig.writer.segment_metadata().clone();
    merged.push(("runtime.main".into(), "0,1,2,3".into()));
    rig.writer.update_segment_metadata(merged);
    for _ in 0..4 {
        rig.write();
    }
    rig.finalize();
    let files = rig.sealed();
    assert!(files.len() >= 2, "expected at least 2 files from rotation");
    for file in &files[1..] {
        let meta = metadata_in(file);
        assert_eq!(meta.len(), 1, "expected 1 metadata event");
        assert_eq!(value(&meta[0], "service"), Some("myapp"));
        assert_eq!(value(&meta[0], "runtime.main"), Some("0,1,2,3"));
    }
}

#[test]
fn test_segment_metadata_empty_entries() {
    let mut rig = Rig::single();
    rig.write();
    let file = rig.file("trace.0.bin.active");
    assert_eq!(count_events(&file), 1);
    // Only the built-in version entry: there are no entries of the user.
    let metadata = metadata_in(&file);
    assert_eq!(metadata.len(), 1);
    assert_eq!(value(&metadata[0], DIAL9_VERSION_KEY), Some(DIAL9_VERSION_VALUE));
    assert_eq!(metadata[0].len(), 1);
}

#[test]
fn test_update_segment_metadata_appears_in_trace() {
    let mut rig = Rig::new(100_000, 100_000);
    rig.writer.update_segment_metadata(vec![
        ("bucket".into(), "my-bucket".into()),
        ("service_name".into(), "my-svc".into()),
    ]);
    rig.write();
    rig.finalize();
    let metadata = metadata_in(&rig.file("trace.0.bin"));
    assert!(!metadata.is_empty(), "expected SegmentMetadata event");
    let last = metadata.last().unwrap();
    assert_eq!(value(last, "bucket"), Some("my-bucket"));
    assert_eq!(value(last, "service_name"), Some("my-svc"));
}

#[test]
fn test_merge_preserves_s3_metadata_across_runtime_updates() {
    let mut rig = Rig::new(single_event_file_size(), 100_000);
    rig.writer.update_segment_metadata(vec![
        ("bucket".into(), "my-bucket".into()),
        ("service_name".into(), "my-svc".into()),
    ]);
    rig.writer.update_segment_metadata(vec![("runtime.main".into(), "0,1".into())]);
    for _ in 0..4 {
        rig.write();
    }
    rig.finalize();
    let files = rig.sealed();
    assert!(files.len() >= 2, "expected rotation");
    for file in &files[1..] {
        let meta = metadata_in(file);
        let last = meta.last().expect("expected SegmentMetadata");
        assert_eq!(value(last, "bucket"), Some("my-bucket"));
        assert_eq!(value(last, "runtime.main"), Some("0,1"));
    }
}

#[test]
fn test_update_segment_metadata_no_op_when_unchanged() {
    let mut rig = Rig::new(100_000, 100_000);
    let entries = vec![("k".to_string(), "v".to_string())];
    rig.writer.update_segment_metadata(entries.clone());
    rig.write();
    // The same entries again need no second write.
    rig.writer.update_segment_metadata(entries.clone());
    assert!(!rig.describe());
    rig.write();
    rig.finalize();
    assert_eq!(metadata_in(&rig.file("trace.0.bin")).len(), 1);
}

#[test]
fn test_dial9_version_in_segment_metadata() {
    let mut rig = Rig::single();
    rig.write();
    rig.finalize();
    let metadata = metadata_in(&rig.file("trace.0.bin"));
    let version = metadata.iter().find_map(|entries| value(entries, DIAL9_VERSION_KEY));
    assert_eq!(version, Some(DIAL9_VERSION_VALUE));
}

#[test]
fn test_dial9_version_user_override_wins() {
    let override_entry = vec![(DIAL9_VERSION_KEY.into(), "builder-override".into())];
    let mut rig = Rig::with_metadata(100_000, 100_000, override_entry);
    rig.write();
    rig.rotate();
    rig.writer
        .update_segment_metadata(vec![(DIAL9_VERSION_KEY.into(), "runtime-override".into())]);
    rig.write();
    rig.finalize();
    let version = |name: &str| {
        let metadata = metadata_in(&rig.file(name));
        metadata.iter().find_map(|m| value(m, DIAL9_VERSION_KEY).map(String::from)).unwrap()
    };
    assert_eq!(version("trace.0.bin"), "builder-override");
    assert_eq!(version("trace.1.bin"), "runtime-override");
}

#[test]
fn pending_metadata_is_written_once_per_segment() {
    let mut rig = Rig::new(1024, 100_000);
    assert!(rig.describe());
    assert!(!rig.describe());
    rig.write();
    assert!(!rig.describe());
    rig.writer.update_segment_metadata(vec![("runtime.main".into(), "0,1".into())]);
    assert!(rig.describe());
    assert_eq!(rig.writer.segment_metadata().len(), 2);
    rig.write();
    rig.rotate();
    assert!(rig.describe());
}

#[test]
fn merging_prefers_incoming_entries() {
    let mut metadata = SegmentMetadata::new(vec![("a".into(), "1".into()), ("b".into(), "2".into())]);
    assert!(metadata.merge(vec![("b".into(), "3".into()), ("c".into(), "4".into())]));
    let get = |key: &str| {
        metadata.entries().iter().find(|(k, _)| k == key).map(|(_, v)| v.clone())
    };
    assert_eq!(get("a").as_deref(), Some("1"));
    assert_eq!(get("b").as_deref(), Some("3"));
    assert_eq!(get("c").as_deref(), Some("4"));
    assert_eq!(get(DIAL9_VERSION_KEY).as_deref(), Some(DIAL9_VERSION_VALUE));
    let same = metadata.entries().clone();
    assert!(!metadata.merge(same));
}

#[test]
fn segment_names_carry_the_index() {
    assert_eq!(active_file_name("trace", 0), "trace.0.bin.active");
    assert_eq!(sealed_file_name("trace", 1207), "trace.1207.bin");
    assert_eq!(sealed_file_name("", u32::MAX), ".4294967295.bin");
}

#[test]
fn segments_live_next_to_the_base_path() {
    let mut paths = SegmentPaths::new("/tmp/t/trace.bin".into(), "/tmp/t".into(), "trace".into());
    assert_eq!(paths.base_path(), "/tmp/t/trace.bin");
    assert_eq!(paths.trace_dir(), "/tmp/t");
    assert_eq!(paths.active_name(3), "trace.3.bin.active");
    assert_eq!(paths.sealed_name(3), "trace.3.bin");
    assert_eq!(paths.boot_id(), None);
    paths.set_namespace("boot-1".into());
    assert_eq!(paths.boot_id(), Some("boot-1"));
    let bare = SegmentPaths::new("trace.bin".into(), String::new(), "trace".into());
    assert_eq!(bare.trace_dir(), ".");
}

#[test]
fn a_finished_writer_that_is_told_of_a_drain_moves_its_deadlines() {
    let mut rig = Rig::build(Files::new(), Some(u64::MAX), 100_000, Some(60 * SECOND));
    rig.write();
    rig.refuse_open = true;
    rig.advance(61);
    assert_eq!(rig.drained(), Err(WriterError::Storage));
    assert!(matches!(rig.writer.state(), WriterState::Finished));
    // A whole period later the deadline has passed again.
    rig.advance(61);
    assert!(rig.writer.should_drain(rig.now));
    let files = rig.files.borrow().len();
    let (rotated, removed) = rig
        .writer
        .drained(
            rig.now,
            |_| panic!("nothing is sealed"),
            |_| panic!("nothing is opened"),
            |_| panic!("nothing is discarded"),
        )
        .unwrap();
    assert!(rotated);
    assert!(removed.is_empty());
    assert_eq!(rig.files.borrow().len(), files);
    assert!(!rig.writer.should_drain(rig.now), "the flush loop would spin");
    assert!(!rig.writer.should_drain(rig.now + DEFAULT_DRAIN_INTERVAL_NS - 1));
    assert!(rig.writer.should_drain(rig.now + DEFAULT_DRAIN_INTERVAL_NS));
}

#[test]
fn a_flush_reports_what_the_storage_says() {
    let writer = DiskWriter::single_file(5, 0);
    assert_eq!(writer.flush(|| Err(WriterError::Storage)), Err(WriterError::Storage));
}

#[test]
fn nothing_is_appended_after_a_failed_write() {
    let mut rig = Rig::new(1024, 100_000);
    let batch = Batch::new(test_batch(), 1);
    let write = |rig: &mut Rig<Disk>, metadata: Appended, events: Option<Appended>| {
        rig.writer.write_encoded_batch(
            &batch,
            0,
            |_| metadata,
            |bytes| {
                assert_eq!(bytes, &test_batch());
                events.expect("the metadata could not be written")
            },
            |_| panic!("nothing is sealed"),
            |_| panic!("nothing is opened"),
            |_| panic!("nothing is discarded"),
        )
    };
    let size = |rig: &Rig<Disk>| match rig.writer.state() {
        WriterState::Active(segment) => segment.bytes_written,
        WriterState::Finished => panic!("the segment stays open"),
    };
    // The metadata fails: it stays due, and the events are not written.
    let failed = Appended { ok: false, bytes_written: 40 };
    assert_eq!(write(&mut rig, failed, None), Err(WriterError::Storage));
    assert_eq!(size(&rig), 40);
    assert!(!rig.writer.should_drain(u64::MAX));
    // The events fail, even if the segment is over its limit now.
    let fine = Appended { ok: true, bytes_written: 50 };
    let torn = Appended { ok: false, bytes_written: 5_000 };
    assert_eq!(write(&mut rig, fine, Some(torn)), Err(WriterError::Storage));
    assert_eq!(size(&rig), 5_000);
    assert!(!rig.writer.should_drain(u64::MAX));
    // The metadata was written before: it is not written again.
    let events = Appended { ok: true, bytes_written: 60 };
    assert_eq!(write(&mut rig, failed, Some(events)), Ok(Vec::new()));
    assert!(rig.writer.should_drain(u64::MAX));
}
