//! Decoded trace events with owned, resolved field types.
//!
//! These mirror the events a trace file holds: strings are owned `String`s and
//! stack traces are plain vectors of addresses.
use vstd::prelude::*;

verus! {

/// Worker thread identifier.
#[derive(Debug, Clone, Copy, PartialEq, Eq, Structural, PartialOrd, Ord, Hash)]
pub struct WorkerId(pub u64);

impl WorkerId {
    /// Sentinel for events from non-worker threads.
    pub fn unknown() -> (r: WorkerId)
        ensures
            r == WorkerId(255),
    {
        WorkerId(255)
    }

    /// Sentinel for events from Tokio's blocking thread pool.
    pub fn blocking() -> (r: WorkerId)
        ensures
            r == WorkerId(254),
    {
        WorkerId(254)
    }

    /// Returns the raw `u64` value.
    pub fn as_u64(self) -> (r: u64)
        ensures
            r == self.0,
    {
        self.0
    }
}

impl From<u64> for WorkerId {
    fn from(v: u64) -> (r: Self) {
        WorkerId(v)
    }
}

impl vstd::std_specs::convert::FromSpecImpl<u64> for WorkerId {
    open spec fn obeys_from_spec() -> bool {
        true
    }

    open spec fn from_spec(v: u64) -> Self {
        WorkerId(v)
    }
}

/// Task identifier (decoded as a plain `u64`).
pub type TaskId = u64;

/// What triggered a CPU sample.
#[derive(Debug, Clone, Copy, PartialEq, Eq, Structural)]
pub enum CpuSampleSource {
    /// Periodic CPU profiling sample (frequency-based).
    CpuProfile,
    /// Context switch captured by per-thread sched event tracking.
    SchedEvent,
    /// Unknown variant from a newer trace format.
    Unknown(u64),
}

impl CpuSampleSource {
    /// Decodes the wire value of a sample source.
    pub fn from_wire(value: u64) -> (r: Self)
        ensures
            value == 0 <==> r is CpuProfile,
            value == 1 <==> r is SchedEvent,
            value > 1 <==> r == CpuSampleSource::Unknown(value),
    {
        if value == 0 {
            CpuSampleSource::CpuProfile
        } else if value == 1 {
            CpuSampleSource::SchedEvent
        } else {
            CpuSampleSource::Unknown(value)
        }
    }
}

/// A task poll began on a worker thread.
#[derive(Debug, Clone, PartialEq)]
pub struct PollStartEvent {
    pub timestamp_ns: u64,
    pub worker_id: WorkerId,
    pub local_queue: u8,
    pub task_id: TaskId,
    pub spawn_loc: String,
}

/// A task poll completed on a worker thread.
#[derive(Debug, Clone, PartialEq)]
pub struct PollEndEvent {
    pub timestamp_ns: u64,
    pub worker_id: WorkerId,
}

/// A worker thread parked (went idle).
#[derive(Debug, Clone, PartialEq)]
pub struct WorkerParkEvent {
    pub timestamp_ns: u64,
    pub worker_id: WorkerId,
    pub local_queue: u8,
    pub cpu_time_ns: u64,
    pub tid: u32,
}

/// A worker thread unparked (resumed).
#[derive(Debug, Clone, PartialEq)]
pub struct WorkerUnparkEvent {
    pub timestamp_ns: u64,
    pub worker_id: WorkerId,
    pub local_queue: u8,
    pub cpu_time_ns: u64,
    pub sched_wait_ns: u64,
    pub tid: u32,
}

/// Periodic sample of the global task queue depth.
#[derive(Debug, Clone, PartialEq)]
pub struct QueueSampleEvent {
    pub timestamp_ns: u64,
    pub global_queue: u8,
}

/// A new task was spawned.
#[derive(Debug, Clone, PartialEq)]
pub struct TaskSpawnEvent {
    pub timestamp_ns: u64,
    pub task_id: TaskId,
    pub spawn_loc: String,
    pub instrumented: bool,
}

/// A task terminated.
#[derive(Debug, Clone, PartialEq)]
pub struct TaskTerminateEvent {
    pub timestamp_ns: u64,
    pub task_id: TaskId,
}

/// A CPU stack trace sample.
#[derive(Debug, Clone, PartialEq)]
pub struct CpuSampleEvent {
    pub timestamp_ns: u64,
    pub worker_id: WorkerId,
    pub tid: u32,
    pub source: CpuSampleSource,
    pub thread_name: Option<String>,
    pub callchain: Vec<u64>,
    pub cpu: Option<u64>,
}

/// Async backtrace captured at a yield point.
#[derive(Debug, Clone, PartialEq)]
pub struct TaskDumpEvent {
    pub timestamp_ns: u64,
    pub task_id: TaskId,
    pub callchain: Vec<u64>,
}

/// One task woke another task.
#[derive(Debug, Clone, PartialEq)]
pub struct WakeEvent {
    pub timestamp_ns: u64,
    pub waker_task_id: TaskId,
    pub woken_task_id: TaskId,
    pub target_worker: u8,
}

/// Key-value metadata written at the start of each segment.
#[derive(Debug, Clone, PartialEq)]
pub struct SegmentMetadataEvent {
    pub timestamp_ns: u64,
    pub entries: Vec<(String, String)>,
}

/// Clock-correlation anchor.
#[derive(Debug, Clone, PartialEq)]
pub struct ClockSyncEvent {
    pub timestamp_ns: u64,
    pub realtime_ns: u64,
}

/// A sampled memory allocation event.
#[derive(Debug, Clone, PartialEq)]
pub struct AllocEvent {
    pub timestamp_ns: u64,
    pub tid: u32,
    pub size: u64,
    pub addr: u64,
    pub callchain: Vec<u64>,
}

/// A deallocation paired with a previously-sampled allocation.
#[derive(Debug, Clone, PartialEq)]
pub struct FreeEvent {
    pub timestamp_ns: u64,
    pub tid: u32,
    pub addr: u64,
    pub size: u64,
    pub alloc_timestamp_ns: u64,
}

/// Process resource usage sampled from `getrusage(RUSAGE_SELF)`.
#[derive(Debug, Clone, PartialEq)]
pub struct ProcessResourceUsageEvent {
    pub timestamp_ns: u64,
    pub user_cpu_ns: u64,
    pub system_cpu_ns: u64,
    pub max_rss_bytes: u64,
    pub minor_faults: u64,
    pub major_faults: u64,
    pub block_input_ops: u64,
    pub block_output_ops: u64,
    pub voluntary_context_switches: u64,
    pub involuntary_context_switches: u64,
}

/// TCP listen socket accept queue sample.
#[derive(Debug, Clone, PartialEq)]
pub struct SocketAcceptQueueEvent {
    pub timestamp_ns: u64,
    pub address_family: u8,
    pub protocol: u8,
    pub local_addr: String,
    pub local_port: u16,
    pub socket_inode: u64,
    pub pending_connections: u64,
    pub backlog_limit: u64,
}

/// The value of a field, with strings and stacks resolved.
#[derive(Debug, PartialEq)]
pub enum FieldValue {
    I64(i64),
    /// A floating-point number, by its bits.
    F64Bits(u64),
    Bool(bool),
    String(String),
    Bytes(Vec<u8>),
    StackFrames(Vec<u64>),
    Varint(u64),
    StringMap(Vec<(Vec<u8>, Vec<u8>)>),
    List(Vec<FieldValue>),
    Pairs(Vec<(FieldValue, FieldValue)>),
    /// An optional field without a value.
    Absent,
}

/// Two values hold the same, down to the texts, bytes and nested values.
pub open spec fn same_value(a: FieldValue, b: FieldValue) -> bool
    decreases a,
{
    match (a, b) {
        (FieldValue::I64(x), FieldValue::I64(y)) => x == y,
        (FieldValue::F64Bits(x), FieldValue::F64Bits(y)) => x == y,
        (FieldValue::Bool(x), FieldValue::Bool(y)) => x == y,
        (FieldValue::String(x), FieldValue::String(y)) => x@ == y@,
        (FieldValue::Bytes(x), FieldValue::Bytes(y)) => x@ == y@,
        (FieldValue::StackFrames(x), FieldValue::StackFrames(y)) => x@ == y@,
        (FieldValue::Varint(x), FieldValue::Varint(y)) => x == y,
        (FieldValue::StringMap(x), FieldValue::StringMap(y)) => {
            &&& x@.len() == y@.len()
            &&& forall|i: int|
                #![trigger x@[i]]
                #![trigger y@[i]]
                0 <= i < x@.len() ==> x@[i].0@ == y@[i].0@ && x@[i].1@ == y@[i].1@
        },
        (FieldValue::List(x), FieldValue::List(y)) => {
            &&& x@.len() == y@.len()
            &&& forall|i: int|
                #![trigger x@[i]]
                #![trigger y@[i]]
                0 <= i < x@.len() ==> same_value(x@[i], y@[i])
        },
        (FieldValue::Pairs(x), FieldValue::Pairs(y)) => {
            &&& x@.len() == y@.len()
            &&& forall|i: int|
                #![trigger x@[i]]
                #![trigger y@[i]]
                0 <= i < x@.len() ==> same_value(x@[i].0, y@[i].0) && same_value(
                    x@[i].1,
                    y@[i].1,
                )
        },
        (FieldValue::Absent, FieldValue::Absent) => true,
        _ => false,
    }
}

/// A copy of a list of numbers.
fn copy_of<T: Copy>(items: &Vec<T>) -> (r: Vec<T>)
    ensures
        r@ == items@,
{
    let mut copy: Vec<T> = Vec::new();
    let mut i: usize = 0;
    while i < items.len()
        invariant
            i <= items@.len(),
            copy@ == items@.take(i as int),
        decreases items@.len() - i,
    {
        copy.push(items[i]);
        assert(items@.take(i + 1) =~= items@.take(i as int).push(items@[i as int]));
        i += 1;
    }
    assert(items@.take(i as int) =~= items@);
    copy
}

/// A copy of a value, with copies of all it holds.
fn copy_value(value: &FieldValue) -> (r: FieldValue)
    ensures
        same_value(*value, r),
    decreases *value,
{
    match value {
        FieldValue::I64(x) => FieldValue::I64(*x),
        FieldValue::F64Bits(x) => FieldValue::F64Bits(*x),
        FieldValue::Bool(x) => FieldValue::Bool(*x),
        FieldValue::String(x) => FieldValue::String(x.clone()),
        FieldValue::Bytes(x) => FieldValue::Bytes(copy_of(x)),
        FieldValue::StackFrames(x) => FieldValue::StackFrames(copy_of(x)),
        FieldValue::Varint(x) => FieldValue::Varint(*x),
        FieldValue::StringMap(x) => {
            let mut copy: Vec<(Vec<u8>, Vec<u8>)> = Vec::new();
            let mut i: usize = 0;
            while i < x.len()
                invariant
                    i <= x@.len(),
                    copy@.len() == i,
                    forall|j: int|
                        0 <= j < i ==> x@[j].0@ == (#[trigger] copy@[j]).0@ && x@[j].1@
                            == copy@[j].1@,
                decreases x@.len() - i,
            {
                copy.push((copy_of(&x[i].0), copy_of(&x[i].1)));
                i += 1;
            }
            FieldValue::StringMap(copy)
        },
        FieldValue::List(x) => {
            let mut copy: Vec<FieldValue> = Vec::new();
            let mut i: usize = 0;
            while i < x.len()
                invariant
                    i <= x@.len(),
                    copy@.len() == i,
                    *value == FieldValue::List(*x),
                    forall|j: int| 0 <= j < i ==> same_value(x@[j], #[trigger] copy@[j]),
                decreases x@.len() - i,
            {
                assert(decreases_to!(*value => (*value)->List_0));
                assert(decreases_to!(*x => x@));
                assert(decreases_to!(x@ => x@[i as int]));
                copy.push(copy_value(&x[i]));
                i += 1;
            }
            FieldValue::List(copy)
        },
        FieldValue::Pairs(x) => {
            let mut copy: Vec<(FieldValue, FieldValue)> = Vec::new();
            let mut i: usize = 0;
            while i < x.len()
                invariant
                    i <= x@.len(),
                    copy@.len() == i,
                    *value == FieldValue::Pairs(*x),
                    forall|j: int|
                        0 <= j < i ==> same_value(x@[j].0, (#[trigger] copy@[j]).0) && same_value(
                            x@[j].1,
                            copy@[j].1,
                        ),
                decreases x@.len() - i,
            {
                assert(decreases_to!(*value => (*value)->Pairs_0));
                assert(decreases_to!(*x => x@));
                assert(decreases_to!(x@ => x@[i as int]));
                assert(decreases_to!(x@[i as int] => x@[i as int].0));
                assert(decreases_to!(x@[i as int] => x@[i as int].1));
                copy.push((copy_value(&x[i].0), copy_value(&x[i].1)));
                i += 1;
            }
            FieldValue::Pairs(copy)
        },
        FieldValue::Absent => FieldValue::Absent,
    }
}

impl Clone for FieldValue {
    fn clone(&self) -> (r: Self)
        ensures
            same_value(*self, r),
    {
        copy_value(self)
    }
}

/// An application-defined event: its schema name, its timestamp if the schema
/// has one, and its other fields by name.
#[derive(Debug, Clone, PartialEq)]
pub struct CustomEvent {
    pub name: String,
    pub timestamp_ns: Option<u64>,
    pub fields: Vec<(String, FieldValue)>,
}

/// The fields lack the schema name of the event.
#[derive(Debug, Clone, Copy, PartialEq, Eq, Structural)]
pub struct MissingEventName;

/// The value of the first field with the name.
pub open spec fn field_value(fields: Seq<(String, FieldValue)>, name: Seq<char>) -> Option<
    FieldValue,
>
    decreases fields.len(),
{
    if fields.len() == 0 {
        None
    } else if fields[0].0@ == name {
        Some(fields[0].1)
    } else {
        field_value(fields.skip(1), name)
    }
}

/// The fields that describe neither the event's name nor its timestamp, in
/// order.
pub open spec fn payload(fields: Seq<(String, FieldValue)>) -> Seq<(String, FieldValue)>
    decreases fields.len(),
{
    if fields.len() == 0 {
        Seq::empty()
    } else if fields[0].0@ == "event"@ || fields[0].0@ == "timestamp_ns"@ {
        payload(fields.skip(1))
    } else {
        seq![fields[0]] + payload(fields.skip(1))
    }
}

/// The result of making an event of the fields.
pub open spec fn is_event_of(
    fields: Seq<(String, FieldValue)>,
    r: Result<CustomEvent, MissingEventName>,
) -> bool {
    match field_value(fields, "event"@) {
        Some(FieldValue::String(name)) => {
            &&& r matches Ok(event)
            &&& event.name == name
            &&& event.timestamp_ns == (match field_value(fields, "timestamp_ns"@) {
                Some(FieldValue::Varint(t)) => Some(t),
                _ => None,
            })
            &&& event.fields@ == payload(fields)
        },
        _ => r is Err,
    }
}

impl CustomEvent {
    /// Makes an event of the fields that a decoder presents: the schema name
    /// as `event`, the timestamp as `timestamp_ns`, and the fields of the
    /// schema. Fails if there is no schema name.
    pub fn from_fields(fields: Vec<(String, FieldValue)>) -> (r: Result<Self, MissingEventName>)
        ensures
            is_event_of(fields@, r),
    {
        let ghost all = fields@;
        let name_field: String = "event".to_owned();
        let time_field: String = "timestamp_ns".to_owned();
        let mut rest: Vec<(String, FieldValue)> = fields;
        let mut name: Option<FieldValue> = None;
        let mut timestamp: Option<FieldValue> = None;
        let mut backwards: Vec<(String, FieldValue)> = Vec::new();
        assert(all.skip(all.len() as int) =~= Seq::empty());
        while rest.len() > 0
            invariant
                rest@.len() <= all.len(),
                rest@ == all.take(rest@.len() as int),
                name_field@ == "event"@,
                time_field@ == "timestamp_ns"@,
                name == field_value(all.skip(rest@.len() as int), "event"@),
                timestamp == field_value(all.skip(rest@.len() as int), "timestamp_ns"@),
                backwards@.reverse() =~= payload(all.skip(rest@.len() as int)),
            decreases rest@.len(),
        {
            let ghost n = rest@.len() as int;
            let ghost before = backwards@;
            proof {
                reveal_strlit("event");
                reveal_strlit("timestamp_ns");
                assert("event"@.len() != "timestamp_ns"@.len());
                assert(all.skip(n - 1).skip(1) =~= all.skip(n));
                assert(all.skip(n - 1)[0] == all[n - 1]);
                assert(all.take(n).drop_last() =~= all.take(n - 1));
            }
            if let Some(field) = rest.pop() {
                if field.0 == name_field {
                    name = Some(field.1);
                } else if field.0 == time_field {
                    timestamp = Some(field.1);
                } else {
                    backwards.push(field);
                    assert(backwards@.reverse() =~= seq![field] + before.reverse());
                }
            }
        }
        assert(all.skip(0) =~= all);
        let mut ordered: Vec<(String, FieldValue)> = Vec::new();
        while backwards.len() > 0
            invariant
                ordered@ + backwards@.reverse() =~= payload(all),
            decreases backwards@.len(),
        {
            if let Some(field) = backwards.pop() {
                ordered.push(field);
            }
        }
        assert(ordered@ =~= payload(all));
        let timestamp_ns: Option<u64> = match timestamp {
            Some(FieldValue::Varint(t)) => Some(t),
            _ => None,
        };
        match name {
            Some(FieldValue::String(name)) => Ok(CustomEvent { name, timestamp_ns, fields: ordered }),
            _ => Err(MissingEventName),
        }
    }
}

/// All event kinds a trace can hold.
#[derive(Debug, Clone, PartialEq)]
pub enum Dial9Event {
    PollStartEvent(PollStartEvent),
    PollEndEvent(PollEndEvent),
    WorkerParkEvent(WorkerParkEvent),
    WorkerUnparkEvent(WorkerUnparkEvent),
    QueueSampleEvent(QueueSampleEvent),
    TaskSpawnEvent(TaskSpawnEvent),
    TaskTerminateEvent(TaskTerminateEvent),
    CpuSampleEvent(CpuSampleEvent),
    TaskDumpEvent(TaskDumpEvent),
    WakeEvent(WakeEvent),
    SegmentMetadataEvent(SegmentMetadataEvent),
    ClockSyncEvent(ClockSyncEvent),
    AllocEvent(AllocEvent),
    FreeEvent(FreeEvent),
    ProcessResourceUsageEvent(ProcessResourceUsageEvent),
    SocketAcceptQueueEvent(SocketAcceptQueueEvent),
    Custom(CustomEvent),
    Other,
}

/// The field names the event or tells its time.
pub open spec fn is_header_field(field: (String, FieldValue)) -> bool {
    field.0@ == "event"@ || field.0@ == "timestamp_ns"@
}

proof fn lemma_payload(fields: Seq<(String, FieldValue)>) -> (at: Seq<int>)
    ensures
        payload(fields).len() == at.len(),
        forall|k: int|
            0 <= k < at.len() ==> 0 <= #[trigger] at[k] < fields.len() && payload(fields)[k]
                == fields[at[k]],
        forall|j: int, k: int| 0 <= j < k < at.len() ==> #[trigger] at[j] < #[trigger] at[k],
        forall|i: int|
            0 <= i < fields.len() ==> (#[trigger] at.contains(i) <==> !is_header_field(fields[i])),
    decreases fields.len(),
{
    if fields.len() == 0 {
        Seq::empty()
    } else {
        let rest = fields.skip(1);
        let tail = lemma_payload(rest);
        let moved = Seq::new(tail.len(), |k: int| tail[k] + 1);
        let head: Seq<int> = if is_header_field(fields[0]) {
            Seq::empty()
        } else {
            seq![0]
        };
        let at = head + moved;
        let n = head.len();
        assert forall|i: int| 0 <= i < fields.len() implies (#[trigger] at.contains(i)
            <==> !is_header_field(fields[i])) by {
            if i == 0 {
                if at.contains(0) {
                    let k = choose|k: int| 0 <= k < at.len() && at[k] == 0;
                    if k >= n {
                        assert(at[k] == tail[k - n] + 1);
                    }
                } else if !is_header_field(fields[0]) {
                    assert(at[0] == 0);
                }
            } else {
                assert(fields[i] == rest[i - 1]);
                assert(tail.contains(i - 1) <==> !is_header_field(rest[i - 1]));
                if tail.contains(i - 1) {
                    let k = choose|k: int| 0 <= k < tail.len() && tail[k] == i - 1;
                    assert(at[n + k] == i);
                }
                if at.contains(i) {
                    let k = choose|k: int| 0 <= k < at.len() && at[k] == i;
                    assert(tail[k - n] == i - 1);
                }
            }
        }
        at
    }
}

proof fn lemma_field_value(fields: Seq<(String, FieldValue)>, name: Seq<char>, at: int)
    requires
        0 <= at < fields.len(),
        fields[at].0@ == name,
        forall|i: int| 0 <= i < at ==> (#[trigger] fields[i]).0@ != name,
    ensures
        field_value(fields, name) == Some(fields[at].1),
    decreases at,
{
    if at > 0 {
        let rest = fields.skip(1);
        assert(forall|i: int| 0 <= i < rest.len() ==> rest[i] == fields[i + 1]);
        lemma_field_value(rest, name, at - 1);
    }
}

proof fn lemma_no_field_value(fields: Seq<(String, FieldValue)>, name: Seq<char>)
    requires
        forall|i: int| 0 <= i < fields.len() ==> (#[trigger] fields[i]).0@ != name,
    ensures
        field_value(fields, name) is None,
    decreases fields.len(),
{
    if fields.len() > 0 {
        let rest = fields.skip(1);
        assert(forall|i: int| 0 <= i < rest.len() ==> rest[i] == fields[i + 1]);
        lemma_no_field_value(rest, name);
    }
}

/// `at` is the first field with the name.
pub open spec fn is_first_field(
    fields: Seq<(String, FieldValue)>,
    name: Seq<char>,
    at: int,
) -> bool {
    &&& 0 <= at < fields.len()
    &&& fields[at].0@ == name
    &&& forall|i: int| 0 <= i < at ==> (#[trigger] fields[i]).0@ != name
}

/// An event made of fields has the text of the first field `event` as its
/// name and keeps, in order, all fields but those of its header: the ones at
/// the positions `at`.
pub proof fn law_a_custom_event_keeps_its_fields(
    fields: Seq<(String, FieldValue)>,
    r: Result<CustomEvent, MissingEventName>,
    name_at: int,
    name: String,
) -> (at: Seq<int>)
    requires
        is_event_of(fields, r),
        is_first_field(fields, "event"@, name_at),
        fields[name_at].1 == FieldValue::String(name),
    ensures
        r matches Ok(event) && event.name == name && {
            &&& event.fields@.len() == at.len()
            &&& forall|k: int|
                0 <= k < at.len() ==> 0 <= #[trigger] at[k] < fields.len() && event.fields@[k]
                    == fields[at[k]]
        },
        forall|j: int, k: int| 0 <= j < k < at.len() ==> #[trigger] at[j] < #[trigger] at[k],
        forall|i: int|
            0 <= i < fields.len() ==> (#[trigger] at.contains(i) <==> !is_header_field(fields[i])),
{
    lemma_field_value(fields, "event"@, name_at);
    lemma_payload(fields)
}

/// An event made of fields has the time of the first field `timestamp_ns`, if
/// that is a number, and else none.
pub proof fn law_a_custom_event_keeps_its_time(
    fields: Seq<(String, FieldValue)>,
    event: CustomEvent,
    time_at: int,
)
    requires
        is_event_of(fields, Ok(event)),
    ensures
        is_first_field(fields, "timestamp_ns"@, time_at) ==> event.timestamp_ns == (
        match fields[time_at].1 {
            FieldValue::Varint(time) => Some(time),
            _ => None::<u64>,
        }),
        (forall|i: int|
            0 <= i < fields.len() ==> (#[trigger] fields[i]).0@ != "timestamp_ns"@)
            ==> event.timestamp_ns is None,
{
    if is_first_field(fields, "timestamp_ns"@, time_at) {
        lemma_field_value(fields, "timestamp_ns"@, time_at);
    }
    if forall|i: int| 0 <= i < fields.len() ==> (#[trigger] fields[i]).0@ != "timestamp_ns"@ {
        lemma_no_field_value(fields, "timestamp_ns"@);
    }
}

/// No event is made of fields whose first field `event` is no text, or which
/// have none.
pub proof fn law_a_custom_event_needs_a_name(
    fields: Seq<(String, FieldValue)>,
    r: Result<CustomEvent, MissingEventName>,
    name_at: int,
)
    requires
        is_event_of(fields, r),
        (is_first_field(fields, "event"@, name_at) && fields[name_at].1 !is String) || forall|
            i: int,
        |
            0 <= i < fields.len() ==> (#[trigger] fields[i]).0@ != "event"@,
    ensures
        r is Err,
{
    if is_first_field(fields, "event"@, name_at) {
        lemma_field_value(fields, "event"@, name_at);
    } else {
        lemma_no_field_value(fields, "event"@);
    }
}

} // verus!
