//! Wrapping of futures for task instrumentation.
use crate::format::{WakeEventEvent, WorkerId};
use crate::shared_state::SharedState;
use vstd::prelude::*;

verus! {

/// Lets instrumented futures emit events into one telemetry session.
#[derive(Debug, Clone, Copy, PartialEq, Eq, Structural)]
pub struct TracedHandle {
    /// The session.
    pub session: u64,
}

/// How a wrapped future is polled.
#[derive(Debug)]
pub enum TracedFutureState<F> {
    /// Not polled yet.
    Init { inner: F, handle: Option<TracedHandle> },
    /// Polled as it is.
    Passthrough { inner: F },
    /// Polled with wake tracking, as the given task.
    Instrumented { inner: F, handle: TracedHandle, task_id: u64 },
}

impl<F> TracedFutureState<F> {
    /// The state in which the future is polled, if the surrounding task is
    /// `task_id`.
    pub open spec fn resolved(self, task_id: Option<u64>) -> TracedFutureState<F> {
        match self {
            TracedFutureState::Init { inner, handle } => match (handle, task_id) {
                (Some(handle), Some(task_id)) => TracedFutureState::Instrumented {
                    inner,
                    handle,
                    task_id,
                },
                _ => TracedFutureState::Passthrough { inner },
            },
            _ => self,
        }
    }

    /// The surrounding task is looked up to resolve this state.
    pub open spec fn needs_task(self) -> bool {
        self matches TracedFutureState::Init { handle: Some(_), .. }
    }

    /// The wrapped future.
    pub open spec fn future(self) -> F {
        match self {
            TracedFutureState::Init { inner, .. } => inner,
            TracedFutureState::Passthrough { inner } => inner,
            TracedFutureState::Instrumented { inner, .. } => inner,
        }
    }
}

impl<F> TracedFutureState<F> {
    /// Whether wakes are recorded during the coming poll: those of an
    /// instrumented future, while recording is on. Else the future is polled
    /// with the waker of its task.
    pub fn tracks_wakes(&self, shared: &SharedState) -> (r: bool)
        ensures
            r == (self is Instrumented && shared@.enabled),
    {
        match self {
            TracedFutureState::Instrumented { .. } => shared.is_enabled(),
            _ => false,
        }
    }
}

/// A future with optional task instrumentation.
///
/// The first poll decides: within a task of the runtime, a future with a
/// handle is instrumented. Any other runs as it is from then on.
#[derive(Debug)]
pub struct TracedFuture<F> {
    pub state: TracedFutureState<F>,
}

impl<F> TracedFuture<F> {
    pub fn new(inner: F, handle: Option<TracedHandle>) -> (r: Self)
        ensures
            r.state == (TracedFutureState::Init { inner, handle }),
    {
        TracedFuture { state: TracedFutureState::Init { inner, handle } }
    }

    /// Decides how the future is polled. `try_id` looks up the surrounding
    /// task; it is called at most on the first poll, and only if there is a
    /// handle.
    pub fn resolve<T: FnOnce() -> Option<u64>>(self, try_id: T) -> (r: Self)
        requires
            self.state.needs_task() ==> call_requires(try_id, ()),
        ensures
            self.state.needs_task() ==> exists|id: Option<u64>| #[trigger]
                call_ensures(try_id, (), id) && r.state == self.state.resolved(id),
            !self.state.needs_task() ==> r.state == self.state.resolved(None),
    {
        match self.state {
            TracedFutureState::Init { inner, handle } => match handle {
                Some(handle) => {
                    let id: Option<u64> = try_id();
                    match id {
                        Some(task_id) => TracedFuture {
                            state: TracedFutureState::Instrumented { inner, handle, task_id },
                        },
                        None => TracedFuture { state: TracedFutureState::Passthrough { inner } },
                    }
                },
                None => TracedFuture { state: TracedFutureState::Passthrough { inner } },
            },
            state => TracedFuture { state },
        }
    }
}

/// The first poll decides for good: what was resolved once stays as it is,
/// whatever task the future is polled in later, and the task is not looked up
/// again.
pub proof fn law_the_first_poll_decides<F>(
    state: TracedFutureState<F>,
    first: Option<u64>,
    later: Option<u64>,
)
    ensures
        state.resolved(first).resolved(later) == state.resolved(first),
        !state.resolved(first).needs_task(),
{
}

/// Wrapping never replaces the future.
pub proof fn law_resolving_keeps_the_future<F>(state: TracedFutureState<F>, id: Option<u64>)
    ensures
        state.resolved(id).future() == state.future(),
{
}

/// The wake event to record when `waker` wakes a task on `worker`: none while
/// recording is off.
pub fn record_wake_event(
    shared: &SharedState,
    timestamp_ns: u64,
    waker: Option<u64>,
    woken_task_id: u64,
    worker: WorkerId,
) -> (r: Option<WakeEventEvent>)
    ensures
        !shared@.enabled ==> r is None,
        shared@.enabled ==> r == Some(
            crate::format::wake_event_of(timestamp_ns, waker, woken_task_id, worker),
        ),
{
    if !shared.is_enabled() {
        return None;
    }
    Some(crate::format::create_wake_event(timestamp_ns, waker, woken_task_id, worker))
}

/// A future is instrumented exactly if it has a handle and its first poll
/// happens in a task; it then carries that handle and that task.
pub proof fn law_a_future_with_a_handle_is_instrumented_in_a_task<F>(
    inner: F,
    handle: Option<TracedHandle>,
    task_id: Option<u64>,
)
    ensures
        ({
            let state = TracedFutureState::Init { inner, handle }.resolved(task_id);
            &&& state is Instrumented <==> handle is Some && task_id is Some
            &&& state is Passthrough <==> handle is None || task_id is None
            &&& state matches TracedFutureState::Instrumented { handle: h, task_id: t, .. }
                ==> handle == Some(h) && task_id == Some(t)
            &&& TracedFutureState::Init { inner, handle }.needs_task() <==> handle is Some
        }),
{
}

} // verus!
