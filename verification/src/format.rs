//! Events as they are recorded into a trace.
use crate::events::CpuSampleSource;
use vstd::prelude::*;

verus! {

/// Identifies a Tokio worker thread.
#[derive(Debug, Clone, Copy, PartialEq, Eq, PartialOrd, Ord, Hash, Structural)]
pub struct WorkerId(pub u64);

impl Default for WorkerId {
    fn default() -> (r: Self)
        ensures
            r == WorkerId(0),
    {
        WorkerId(0)
    }
}

/// A worker in the one byte that a wake event has for it.
pub open spec fn wake_byte(worker: WorkerId) -> u8 {
    if worker.0 <= 254 {
        worker.0 as u8
    } else {
        255
    }
}

impl WorkerId {
    /// Sentinel for events from non-worker threads.
    pub fn unknown() -> (r: Self)
        ensures
            r == WorkerId(255),
    {
        WorkerId(255)
    }

    /// Sentinel for events from the runtime's blocking thread pool.
    pub fn blocking() -> (r: Self)
        ensures
            r == WorkerId(254),
    {
        WorkerId(254)
    }

    /// The raw value.
    pub fn as_u64(self) -> (r: u64)
        ensures
            r == self.0,
    {
        self.0
    }

    /// The value in the one byte that a wake event has for it. A worker that
    /// does not fit is recorded as unknown.
    pub fn as_wake_byte(self) -> (r: u8)
        ensures
            r == wake_byte(self),
    {
        if self.0 <= 254 {
            self.0 as u8
        } else {
            255
        }
    }
}

impl From<u8> for WorkerId {
    fn from(v: u8) -> Self {
        WorkerId(v as u64)
    }
}

impl vstd::std_specs::convert::FromSpecImpl<u8> for WorkerId {
    open spec fn obeys_from_spec() -> bool {
        true
    }

    open spec fn from_spec(v: u8) -> Self {
        WorkerId(v as u64)
    }
}

impl From<usize> for WorkerId {
    fn from(v: usize) -> Self {
        WorkerId(v as u64)
    }
}

impl vstd::std_specs::convert::FromSpecImpl<usize> for WorkerId {
    open spec fn obeys_from_spec() -> bool {
        true
    }

    open spec fn from_spec(v: usize) -> Self {
        WorkerId(v as u64)
    }
}

/// A task poll started.
#[derive(Debug, Clone, Copy, PartialEq, Eq, Structural)]
pub struct PollStartEvent {
    pub timestamp_ns: u64,
    pub worker_id: WorkerId,
    /// Local queue depth, capped to a byte.
    pub local_queue: u8,
    /// Task being polled.
    pub task_id: u64,
    /// Interned spawn location.
    pub spawn_loc: u32,
}

/// A task was spawned.
#[derive(Debug, Clone, Copy, PartialEq, Eq, Structural)]
pub struct TaskSpawnEvent {
    pub timestamp_ns: u64,
    pub task_id: u64,
    /// Interned spawn location.
    pub spawn_loc: u32,
    /// Whether the task was spawned through an instrumented handle.
    pub instrumented: bool,
}

/// A task terminated.
#[derive(Debug, Clone, Copy, PartialEq, Eq, Structural)]
pub struct TaskTerminateEvent {
    pub timestamp_ns: u64,
    pub task_id: u64,
}

/// A CPU stack trace sample.
#[derive(Debug, Clone, Copy, PartialEq, Eq, Structural)]
pub struct CpuSampleEvent {
    pub timestamp_ns: u64,
    pub worker_id: WorkerId,
    pub tid: u32,
    pub source: CpuSampleSource,
    /// Interned thread name.
    pub thread_name: Option<u32>,
    /// Interned stack.
    pub callchain: u32,
    /// CPU the sample was taken on, if known.
    pub cpu: Option<u64>,
}

/// A sampled allocation.
#[derive(Debug, Clone, Copy, PartialEq, Eq, Structural)]
pub struct AllocEvent {
    pub timestamp_ns: u64,
    /// OS thread ID of the allocating thread.
    pub tid: u32,
    /// Requested size in bytes.
    pub size: u64,
    /// Returned pointer.
    pub addr: u64,
    /// Interned stack of the allocation site.
    pub callchain: u32,
}

/// A task poll ended.
#[derive(Debug, Clone, Copy, PartialEq, Eq, Structural)]
pub struct PollEndEvent {
    pub timestamp_ns: u64,
    pub worker_id: WorkerId,
}

/// A worker parked.
#[derive(Debug, Clone, Copy, PartialEq, Eq, Structural)]
pub struct WorkerParkEvent {
    pub timestamp_ns: u64,
    pub worker_id: WorkerId,
    /// Local queue depth, capped to a byte.
    pub local_queue: u8,
    /// Thread CPU time in nanoseconds.
    pub cpu_time_ns: u64,
    /// OS thread ID of the parking thread.
    pub tid: u32,
}

/// A worker unparked.
#[derive(Debug, Clone, Copy, PartialEq, Eq, Structural)]
pub struct WorkerUnparkEvent {
    pub timestamp_ns: u64,
    pub worker_id: WorkerId,
    /// Local queue depth, capped to a byte.
    pub local_queue: u8,
    /// Thread CPU time in nanoseconds.
    pub cpu_time_ns: u64,
    /// Scheduling wait since the park, in nanoseconds.
    pub sched_wait_ns: u64,
    /// OS thread ID of the unparking thread.
    pub tid: u32,
}

/// Depth of the runtime's global queues.
#[derive(Debug, Clone, Copy, PartialEq, Eq, Structural)]
pub struct QueueSampleEvent {
    pub timestamp_ns: u64,
    /// Total depth, capped to a byte.
    pub global_queue: u8,
}

/// Process resource usage sampled from the operating system.
#[derive(Debug, Clone, Copy, PartialEq, Eq, Structural)]
pub struct ProcessResourceUsageEvent {
    pub timestamp_ns: u64,
    /// Cumulative user CPU time used by this process.
    pub user_cpu_ns: u64,
    /// Cumulative system CPU time used by this process.
    pub system_cpu_ns: u64,
    /// Maximum resident set size in bytes.
    pub max_rss_bytes: u64,
    /// Page faults serviced without disk I/O.
    pub minor_faults: u64,
    /// Page faults serviced with disk I/O.
    pub major_faults: u64,
    /// Block input operations performed by the process.
    pub block_input_ops: u64,
    /// Block output operations performed by the process.
    pub block_output_ops: u64,
    /// Voluntary context switches performed by the process.
    pub voluntary_context_switches: u64,
    /// Involuntary context switches performed by the process.
    pub involuntary_context_switches: u64,
}

/// Accept queue of one TCP listener.
#[derive(Debug)]
pub struct SocketAcceptQueueEvent {
    pub timestamp_ns: u64,
    /// Linux socket cookie.
    pub socket_cookie: u64,
    /// Linux socket inode.
    pub socket_inode: u64,
    /// IP version of the local address: 4 or 6.
    pub ip_version: u8,
    /// IP protocol number. TCP is 6.
    pub protocol: u8,
    /// Local listener address.
    pub local_addr: String,
    /// Local listener port.
    pub local_port: u16,
    /// Completed connections waiting to be accepted.
    pub pending_connections: u32,
    /// Effective accept backlog limit.
    pub backlog_limit: u32,
}

/// A sampled allocation was freed.
#[derive(Debug, Clone, Copy, PartialEq, Eq, Structural)]
pub struct FreeEvent {
    pub timestamp_ns: u64,
    /// OS thread ID of the freeing thread.
    pub tid: u32,
    /// Pointer that was freed.
    pub addr: u64,
    /// Size of the allocation being freed.
    pub size: u64,
    /// Timestamp of the allocation.
    pub alloc_timestamp_ns: u64,
}

/// A task was woken.
#[derive(Debug, Clone, Copy, PartialEq, Eq, Structural)]
pub struct WakeEventEvent {
    pub timestamp_ns: u64,
    /// Task that issued the wake, 0 if it was no task.
    pub waker_task_id: u64,
    /// Task that was woken.
    pub woken_task_id: u64,
    /// Worker that issued the wake. 255 is unknown.
    pub target_worker: u8,
}

/// The wake event for a wake that `waker` issued on `worker`.
pub open spec fn wake_event_of(
    timestamp_ns: u64,
    waker: Option<u64>,
    woken_task_id: u64,
    worker: WorkerId,
) -> WakeEventEvent {
    WakeEventEvent {
        timestamp_ns,
        waker_task_id: match waker {
            Some(task) => task,
            None => 0,
        },
        woken_task_id,
        target_worker: wake_byte(worker),
    }
}

/// A wake event names the woken task and the waker, or no waker, and the worker
/// if it is one of the first two hundred and fifty-five.
pub proof fn law_a_wake_event_names_both_tasks(
    timestamp_ns: u64,
    waker: Option<u64>,
    woken_task_id: u64,
    worker: WorkerId,
)
    ensures
        ({
            let event = wake_event_of(timestamp_ns, waker, woken_task_id, worker);
            &&& event.timestamp_ns == timestamp_ns
            &&& event.woken_task_id == woken_task_id
            &&& waker matches Some(task) ==> event.waker_task_id == task
            &&& waker is None ==> event.waker_task_id == 0
            &&& worker.0 < 255 ==> event.target_worker == worker.0
            &&& worker.0 >= 255 ==> event.target_worker == 255
        }),
{
}

/// The wake event for a wake that `waker` issued on `worker`.
pub fn create_wake_event(
    timestamp_ns: u64,
    waker: Option<u64>,
    woken_task_id: u64,
    worker: WorkerId,
) -> (r: WakeEventEvent)
    ensures
        r == wake_event_of(timestamp_ns, waker, woken_task_id, worker),
{
    let waker_task_id: u64 = match waker {
        Some(task) => task,
        None => 0,
    };
    WakeEventEvent {
        timestamp_ns,
        waker_task_id,
        woken_task_id,
        target_worker: worker.as_wake_byte(),
    }
}

/// A queue depth in the one byte that events have for it.
pub open spec fn depth_byte(depth: usize) -> u8 {
    if depth > 255 {
        255
    } else {
        depth as u8
    }
}

/// A recorded depth is the largest byte that is not over the depth: short
/// queues are recorded exactly, and a longer queue never as a shorter one.
pub proof fn law_recorded_depths_are_capped(depth: usize, longer: usize, byte: u8)
    ensures
        depth_byte(depth) <= depth,
        byte <= depth ==> byte <= depth_byte(depth),
        depth <= longer ==> depth_byte(depth) <= depth_byte(longer),
{
}

/// A queue depth in the one byte that events have for it: depths over 255 are
/// recorded as 255.
pub fn queue_depth_byte(depth: usize) -> (r: u8)
    ensures
        r == depth_byte(depth),
{
    if depth > 255 {
        255
    } else {
        depth as u8
    }
}

} // verus!
