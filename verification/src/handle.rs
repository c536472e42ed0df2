//! Handles for recording events and for spawning instrumented tasks.
use crate::buffer::{ThreadLocalBuffer, TraceEncoder};
use crate::shared_state::{SharedModel, SharedState};
use crate::traced::{TracedFuture, TracedFutureState, TracedHandle};
use vstd::prelude::*;

verus! {

/// Handle for recording events and controlling telemetry.
///
/// A handle is either enabled, for one telemetry session, or disabled. All
/// methods of a disabled handle do nothing.
#[derive(Debug, Clone, Copy, PartialEq, Eq, Structural)]
pub struct Dial9Handle {
    /// The session of an enabled handle.
    pub session: Option<u64>,
}

impl Dial9Handle {
    /// The session after this handle turned recording on or off.
    pub open spec fn switched(self, shared: SharedModel, enabled: bool) -> SharedModel {
        if self.session is Some {
            SharedModel { enabled, ..shared }
        } else {
            shared
        }
    }

    /// A handle for a session.
    pub fn enabled(session: u64) -> (r: Self)
        ensures
            r.session == Some(session),
    {
        Dial9Handle { session: Some(session) }
    }

    /// A handle that is not connected to any session.
    pub fn disabled() -> (r: Self)
        ensures
            r.session is None,
    {
        Dial9Handle { session: None }
    }

    /// Whether this handle is connected to a session.
    pub fn is_enabled(&self) -> (r: bool)
        ensures
            r == self.session is Some,
    {
        self.session.is_some()
    }

    /// The handle of the current thread, a disabled one if no runtime has
    /// claimed the thread.
    pub fn current(thread: &ThreadContext) -> (r: Self)
        ensures
            r == (match thread@.current {
                Some(handle) => handle,
                None => Dial9Handle { session: None },
            }),
    {
        match thread.current {
            Some(handle) => handle,
            None => Dial9Handle::disabled(),
        }
    }

    /// The handle installed for the current thread, if a runtime has claimed
    /// the thread.
    pub fn try_current(thread: &ThreadContext) -> (r: Option<Self>)
        ensures
            r == thread@.current,
    {
        thread.current
    }

    /// Turns recording on. Does nothing on a disabled handle.
    pub fn enable(&self, shared: &mut SharedState)
        ensures
            final(shared)@ == self.switched(old(shared)@, true),
    {
        if self.session.is_some() {
            shared.set_enabled(true);
        }
    }

    /// Turns recording off. Does nothing on a disabled handle.
    pub fn disable(&self, shared: &mut SharedState)
        ensures
            final(shared)@ == self.switched(old(shared)@, false),
    {
        if self.session.is_some() {
            shared.set_enabled(false);
        }
    }

    /// The handle for wrapping futures, none on a disabled handle.
    pub fn traced_handle(&self) -> (r: Option<TracedHandle>)
        ensures
            r == (match self.session {
                Some(session) => Some(TracedHandle { session }),
                None => None,
            }),
    {
        match self.session {
            Some(session) => Some(TracedHandle { session }),
            None => None,
        }
    }

    /// Records an event, which `encode` writes, into the thread's buffer.
    /// Does nothing on a disabled handle or while recording is off. Returns
    /// whether the buffer is to be registered.
    pub fn record_event<F: FnOnce(&mut TraceEncoder)>(
        &self,
        shared: &mut SharedState,
        buffer: &mut ThreadLocalBuffer,
        encode: F,
    ) -> (register: bool)
        requires
            old(buffer)@.event_count < usize::MAX,
            old(buffer)@.batch_size <= isize::MAX,
            self.session is Some && old(shared)@.enabled ==> forall|e: &mut TraceEncoder|
                (*e)@ == old(buffer)@.encoder ==> #[trigger] call_requires(encode, (e,)),
        ensures
            self.session is None || !old(shared)@.enabled ==> !register && final(shared)@
                == old(shared)@ && final(buffer)@ == old(buffer)@,
            self.session is Some && old(shared)@.enabled ==> {
                &&& register == !old(buffer)@.registered
                &&& exists|e: &mut TraceEncoder| #[trigger]
                    call_ensures(encode, (e,), ()) && (*e)@ == old(buffer)@.encoder && {
                        let step = old(buffer)@.record((*final(e))@, old(shared)@.drain_epoch);
                        &&& final(buffer)@ == step.0
                        &&& final(shared)@ == old(shared)@.collecting(step.1)
                    }
            },
    {
        if self.session.is_none() {
            return false;
        }
        shared.record_event(buffer, encode)
    }
}

/// What a [`ThreadContext`] holds.
#[verifier::ext_equal]
pub struct ThreadModel {
    /// The handle installed for the thread.
    pub current: Option<Dial9Handle>,
    /// How many instrumented spawns are under way on the thread.
    pub instrumented_spawns: u32,
}

impl ThreadModel {
    /// The handle for wrapping futures that the thread has installed.
    pub open spec fn traced(self) -> Option<TracedHandle> {
        match self.current {
            Some(Dial9Handle { session: Some(session) }) => Some(TracedHandle { session }),
            _ => None,
        }
    }

    /// The thread inside one more instrumented spawn.
    pub open spec fn entered(self) -> ThreadModel {
        ThreadModel {
            instrumented_spawns: if self.instrumented_spawns == u32::MAX {
                u32::MAX
            } else {
                (self.instrumented_spawns + 1) as u32
            },
            ..self
        }
    }

    /// The thread after one instrumented spawn ended.
    pub open spec fn left(self) -> ThreadModel {
        ThreadModel {
            instrumented_spawns: if self.instrumented_spawns == 0 {
                0
            } else {
                (self.instrumented_spawns - 1) as u32
            },
            ..self
        }
    }
}

/// What telemetry keeps for one thread.
#[derive(Debug)]
pub struct ThreadContext {
    current: Option<Dial9Handle>,
    instrumented_spawns: u32,
}

impl View for ThreadContext {
    type V = ThreadModel;

    closed spec fn view(&self) -> ThreadModel {
        ThreadModel { current: self.current, instrumented_spawns: self.instrumented_spawns }
    }
}

impl ThreadContext {
    /// A thread that no runtime has claimed.
    pub fn new() -> (r: Self)
        ensures
            r@ == (ThreadModel { current: None, instrumented_spawns: 0 }),
    {
        ThreadContext { current: None, instrumented_spawns: 0 }
    }

    /// Installs the thread's handle.
    pub fn install(&mut self, handle: Dial9Handle)
        ensures
            final(self)@ == (ThreadModel { current: Some(handle), ..old(self)@ }),
    {
        self.current = Some(handle);
    }

    /// Removes the thread's handle.
    pub fn clear(&mut self)
        ensures
            final(self)@ == (ThreadModel { current: None, ..old(self)@ }),
    {
        self.current = None;
    }

    /// Marks the start of an instrumented spawn.
    pub fn enter(&mut self)
        ensures
            final(self)@ == old(self)@.entered(),
    {
        self.instrumented_spawns = self.instrumented_spawns.saturating_add(1);
    }

    /// Marks the end of an instrumented spawn.
    pub fn leave(&mut self)
        ensures
            final(self)@ == old(self)@.left(),
    {
        self.instrumented_spawns = self.instrumented_spawns.saturating_sub(1);
    }

    /// Whether a task that is spawned now counts as instrumented.
    pub fn is_instrumented(&self) -> (r: bool)
        ensures
            r == (self@.instrumented_spawns > 0),
    {
        self.instrumented_spawns > 0
    }
}

/// Leaving an instrumented spawn undoes entering it, unless as many spawns
/// are under way as can be counted; within it, tasks count as instrumented.
pub proof fn law_spawns_nest(thread: ThreadModel)
    requires
        thread.instrumented_spawns < u32::MAX,
    ensures
        thread.entered().left() == thread,
        thread.entered().instrumented_spawns > 0,
{
}

/// Where a task is spawned.
#[derive(Debug, Clone, Copy, PartialEq, Eq, Structural)]
pub enum SpawnTarget {
    /// On the runtime of the current thread.
    Current,
    /// On the given runtime, from any thread.
    Runtime(u64),
}

/// Handle for spawning instrumented tasks.
#[derive(Debug, Clone, Copy, PartialEq, Eq, Structural)]
pub struct Dial9TokioHandle {
    /// Where tasks are spawned.
    pub target: SpawnTarget,
    /// Wraps futures with wake tracking, if telemetry is live.
    pub traced: Option<TracedHandle>,
}

/// What a spawn function gets for a future: the wrapped future, and the thread
/// inside an instrumented spawn if wakes are tracked.
pub open spec fn handed_over<F>(
    traced: Option<TracedHandle>,
    future: F,
    before: ThreadModel,
    wrapped: TracedFuture<F>,
    inside: ThreadModel,
) -> bool {
    &&& wrapped.state == (TracedFutureState::Init { inner: future, handle: traced })
    &&& inside == if traced is Some {
        before.entered()
    } else {
        before
    }
}

impl Dial9TokioHandle {
    /// A handle that spawns on the current runtime, with wake tracking if the
    /// thread belongs to a runtime with telemetry.
    pub fn current(thread: &ThreadContext) -> (r: Self)
        ensures
            r.target == SpawnTarget::Current,
            r.traced == (match thread@.current {
                Some(Dial9Handle { session: Some(session) }) => Some(TracedHandle { session }),
                _ => None,
            }),
    {
        Dial9TokioHandle {
            target: SpawnTarget::Current,
            traced: Dial9Handle::current(thread).traced_handle(),
        }
    }

    /// A handle that spawns on the current runtime without wake tracking.
    pub fn disabled() -> (r: Self)
        ensures
            r.target == SpawnTarget::Current,
            r.traced is None,
    {
        Dial9TokioHandle { target: SpawnTarget::Current, traced: None }
    }

    /// A handle for a specific runtime.
    pub fn for_runtime(runtime: u64, traced: Option<TracedHandle>) -> (r: Self)
        ensures
            r.target == SpawnTarget::Runtime(runtime),
            r.traced == traced,
    {
        Dial9TokioHandle { target: SpawnTarget::Runtime(runtime), traced }
    }

    /// Spawns a future through the given spawn function, which gets the
    /// wrapped future and runs inside an instrumented spawn if this handle
    /// tracks wakes.
    pub fn spawn_with<F, S, G: FnOnce(TracedFuture<F>, &mut ThreadContext) -> S>(
        &self,
        thread: &mut ThreadContext,
        future: F,
        spawn_fn: G,
    ) -> (r: S)
        requires
            forall|f: TracedFuture<F>, t: &mut ThreadContext|
                handed_over(self.traced, future, old(thread)@, f, t@) ==> #[trigger] call_requires(
                    spawn_fn,
                    (f, t),
                ),
        ensures
            exists|f: TracedFuture<F>, t: &mut ThreadContext| #[trigger]
                call_ensures(spawn_fn, (f, t), r) && handed_over(
                    self.traced,
                    future,
                    old(thread)@,
                    f,
                    t@,
                ) && final(thread)@ == (if self.traced is Some {
                    final(t)@.left()
                } else {
                    final(t)@
                }),
    {
        let future = TracedFuture::new(future, self.traced);
        if self.traced.is_some() {
            thread.enter();
            let r: S = spawn_fn(future, thread);
            thread.leave();
            r
        } else {
            spawn_fn(future, thread)
        }
    }

    /// Spawns a future on this handle's runtime through `run`: wrapped if this
    /// handle tracks wakes, plainly otherwise.
    pub fn spawn<F, S, G: FnOnce(SpawnTarget, TracedFuture<F>, &mut ThreadContext) -> S>(
        &self,
        thread: &mut ThreadContext,
        future: F,
        run: G,
    ) -> (r: S)
        requires
            forall|f: TracedFuture<F>, t: &mut ThreadContext|
                handed_over(self.traced, future, old(thread)@, f, t@) ==> #[trigger] call_requires(
                    run,
                    (self.target, f, t),
                ),
        ensures
            exists|f: TracedFuture<F>, t: &mut ThreadContext| #[trigger]
                call_ensures(run, (self.target, f, t), r) && handed_over(
                    self.traced,
                    future,
                    old(thread)@,
                    f,
                    t@,
                ) && final(thread)@ == (if self.traced is Some {
                    final(t)@.left()
                } else {
                    final(t)@
                }),
    {
        let future = TracedFuture::new(future, self.traced);
        if self.traced.is_some() {
            thread.enter();
            let r: S = run(self.target, future, thread);
            thread.leave();
            r
        } else {
            run(self.target, future, thread)
        }
    }
}

/// Another name of [`Dial9Handle`].
pub type TelemetryHandle = Dial9Handle;

/// Another name of [`Dial9TokioHandle`].
pub type RuntimeTelemetryHandle = Dial9TokioHandle;

/// Spawns a future on the current runtime through `run`: wrapped if the thread
/// belongs to a runtime with telemetry, plainly otherwise.
pub fn spawn<F, S, G: FnOnce(SpawnTarget, TracedFuture<F>, &mut ThreadContext) -> S>(
    thread: &mut ThreadContext,
    future: F,
    run: G,
) -> (r: S)
    requires
        forall|f: TracedFuture<F>, t: &mut ThreadContext|
            handed_over(old(thread)@.traced(), future, old(thread)@, f, t@) ==> #[trigger]
                call_requires(run, (SpawnTarget::Current, f, t)),
    ensures
        ({
            let traced = old(thread)@.traced();
            exists|f: TracedFuture<F>, t: &mut ThreadContext| #[trigger]
                call_ensures(run, (SpawnTarget::Current, f, t), r) && handed_over(
                    traced,
                    future,
                    old(thread)@,
                    f,
                    t@,
                ) && final(thread)@ == (if traced is Some {
                    final(t)@.left()
                } else {
                    final(t)@
                })
        }),
{
    let handle = Dial9TokioHandle::current(thread);
    handle.spawn(thread, future, run)
}

/// Inside a spawn through a handle that tracks wakes, the thread counts one
/// more instrumented spawn and the future carries the handle; through another
/// handle, neither. The future itself is the one that was given.
pub proof fn law_tracked_spawns_are_instrumented<F>(
    traced: Option<TracedHandle>,
    future: F,
    before: ThreadModel,
    wrapped: TracedFuture<F>,
    inside: ThreadModel,
)
    requires
        handed_over(traced, future, before, wrapped, inside),
    ensures
        wrapped.state.future() == future,
        wrapped.state.needs_task() <==> traced is Some,
        traced is None ==> inside == before,
        traced is Some ==> inside.instrumented_spawns > 0 && inside.current == before.current,
        traced is Some && before.instrumented_spawns < u32::MAX ==> inside.instrumented_spawns
            == before.instrumented_spawns + 1 && inside.left() == before,
{
}

/// A thread tracks wakes exactly if the handle that is installed on it is one
/// of a session, and then for that session.
pub proof fn law_a_thread_tracks_wakes_for_its_session(thread: ThreadModel, session: u64)
    ensures
        thread.traced() == Some(TracedHandle { session }) <==> (
        thread.current matches Some(handle) && handle.session == Some(session)),
        thread.current is None ==> thread.traced() is None,
{
}

/// A handle of a session turns recording on and off, as it was told last, and
/// touches nothing that was recorded; a disabled handle does nothing.
pub proof fn law_the_last_switch_counts(
    handle: Dial9Handle,
    shared: SharedModel,
    first: bool,
    last: bool,
)
    ensures
        handle.session is Some ==> handle.switched(shared, last).enabled == last,
        handle.session is None ==> handle.switched(shared, last) == shared,
        handle.switched(handle.switched(shared, first), last) == handle.switched(shared, last),
        handle.switched(shared, last).slots == shared.slots,
        handle.switched(shared, last).collected == shared.collected,
        handle.switched(shared, last).drain_epoch == shared.drain_epoch,
        handle.switched(shared, last).next_worker_id == shared.next_worker_id,
        handle.switched(shared, last).start_time_ns == shared.start_time_ns,
{
}

} // verus!
