//! Ownership and shutdown of a telemetry session.
use crate::handle::Dial9Handle;
use crate::shared_state::{SharedModel, SharedState};
use vstd::prelude::*;

verus! {

/// One step of a shutdown.
#[derive(Debug, Clone, Copy, PartialEq, Eq, Structural)]
pub enum ShutdownStep {
    /// Drop the runtime, so that its threads exit and flush their buffers.
    DropRuntime,
    /// Drain the calling thread's buffer.
    DrainOwnBuffer,
    /// Tell the flush thread to flush, finalize the writer and stop, and wait
    /// for its answer.
    FinalizeAndStop,
    /// Wait for the flush thread to exit.
    JoinFlushThread,
    /// Let the background worker drain for up to this many nanoseconds.
    DrainWorker(u64),
    /// Wait for the background worker to exit.
    JoinWorker,
    /// Let the background worker stop without draining.
    AbandonWorker,
}

/// Owns a telemetry session, or nothing if telemetry is disabled.
#[derive(Debug)]
pub struct TelemetryGuard {
    /// The handle of the session.
    pub handle: Option<Dial9Handle>,
    /// Whether a background worker runs.
    pub worker: bool,
}

impl TelemetryGuard {
    /// The session after this guard turned recording on or off.
    pub open spec fn switched(self, shared: SharedModel, enabled: bool) -> SharedModel {
        match self.handle {
            Some(Dial9Handle { session: Some(_) }) => SharedModel { enabled, ..shared },
            _ => shared,
        }
    }

    /// The steps that stop the flush thread.
    pub open spec fn stop_steps(self) -> Seq<ShutdownStep> {
        if self.handle is Some {
            seq![
                ShutdownStep::DrainOwnBuffer,
                ShutdownStep::FinalizeAndStop,
                ShutdownStep::JoinFlushThread,
            ]
        } else {
            Seq::empty()
        }
    }

    /// The steps of a graceful shutdown.
    pub open spec fn graceful_steps(self, timeout: u64) -> Seq<ShutdownStep> {
        if self.handle is Some && self.worker {
            self.stop_steps().push(ShutdownStep::DrainWorker(timeout)).push(
                ShutdownStep::JoinWorker,
            )
        } else {
            self.stop_steps()
        }
    }

    /// The steps of dropping the guard.
    pub open spec fn drop_steps(self) -> Seq<ShutdownStep> {
        if self.handle is Some && self.worker {
            self.stop_steps().push(ShutdownStep::AbandonWorker)
        } else {
            self.stop_steps()
        }
    }

    pub fn enabled(handle: Dial9Handle, worker: bool) -> (r: Self)
        ensures
            r.handle == Some(handle),
            r.worker == worker,
    {
        TelemetryGuard { handle: Some(handle), worker }
    }

    pub fn disabled() -> (r: Self)
        ensures
            r.handle is None,
            !r.worker,
    {
        TelemetryGuard { handle: None, worker: false }
    }

    /// Whether this guard owns a session.
    pub fn is_enabled(&self) -> (r: bool)
        ensures
            r == self.handle is Some,
    {
        self.handle.is_some()
    }

    /// A handle for controlling telemetry, a disabled one on a disabled guard.
    pub fn handle(&self) -> (r: Dial9Handle)
        ensures
            r == (match self.handle {
                Some(handle) => handle,
                None => Dial9Handle { session: None },
            }),
    {
        match self.handle {
            Some(handle) => handle,
            None => Dial9Handle::disabled(),
        }
    }

    /// When the session started, if there is one.
    pub fn start_time(&self, shared: &SharedState) -> (r: Option<u64>)
        ensures
            r == (match self.handle {
                Some(Dial9Handle { session: Some(_) }) => Some(shared@.start_time_ns),
                _ => None,
            }),
    {
        if self.handle().is_enabled() {
            Some(shared.start_time_ns())
        } else {
            None
        }
    }

    /// Turns recording on. Does nothing on a disabled guard.
    pub fn enable(&self, shared: &mut SharedState)
        ensures
            final(shared)@ == self.switched(old(shared)@, true),
    {
        self.handle().enable(shared);
    }

    /// Turns recording off. Does nothing on a disabled guard.
    pub fn disable(&self, shared: &mut SharedState)
        ensures
            final(shared)@ == self.switched(old(shared)@, false),
    {
        self.handle().disable(shared);
    }

    fn stop_flush_thread(&self) -> (steps: Vec<ShutdownStep>)
        ensures
            steps@ == self.stop_steps(),
    {
        let mut steps: Vec<ShutdownStep> = Vec::new();
        if self.handle.is_some() {
            steps.push(ShutdownStep::DrainOwnBuffer);
            steps.push(ShutdownStep::FinalizeAndStop);
            steps.push(ShutdownStep::JoinFlushThread);
        }
        assert(steps@ =~= self.stop_steps());
        steps
    }

    /// The steps that flush what is left, seal the last segment and let the
    /// background worker drain, in order. None on a disabled guard.
    pub fn graceful_shutdown(self, timeout: u64) -> (steps: Vec<ShutdownStep>)
        ensures
            steps@ == self.graceful_steps(timeout),
    {
        let mut steps: Vec<ShutdownStep> = self.stop_flush_thread();
        if self.handle.is_some() && self.worker {
            steps.push(ShutdownStep::DrainWorker(timeout));
            steps.push(ShutdownStep::JoinWorker);
        }
        steps
    }

    /// The steps of a guard that goes without a graceful shutdown: the last
    /// segment is sealed, but the background worker does not drain.
    pub fn hard_shutdown(self) -> (steps: Vec<ShutdownStep>)
        ensures
            steps@ == self.drop_steps(),
    {
        let mut steps: Vec<ShutdownStep> = self.stop_flush_thread();
        if self.handle.is_some() && self.worker {
            steps.push(ShutdownStep::AbandonWorker);
        }
        steps
    }
}

/// The last segment is sealed before the background worker is told to stop,
/// whichever way the session ends.
pub proof fn law_the_last_segment_is_sealed_first(guard: TelemetryGuard, timeout: u64)
    requires
        guard.handle is Some,
    ensures
        guard.graceful_steps(timeout)[1] == ShutdownStep::FinalizeAndStop,
        guard.drop_steps()[1] == ShutdownStep::FinalizeAndStop,
        forall|i: int|
            0 <= i <= 2 ==> {
                let step = #[trigger] guard.graceful_steps(timeout)[i];
                !(step is DrainWorker) && !(step is JoinWorker) && !(step is AbandonWorker)
            },
        forall|i: int|
            0 <= i < guard.drop_steps().len() ==> !(#[trigger] guard.drop_steps()[i] is JoinWorker)
                && !(guard.drop_steps()[i] is DrainWorker),
{
}

/// Shutting down a disabled guard takes no steps.
pub proof fn law_a_disabled_guard_has_nothing_to_stop(guard: TelemetryGuard, timeout: u64)
    requires
        guard.handle is None,
    ensures
        guard.graceful_steps(timeout) == Seq::<ShutdownStep>::empty(),
        guard.drop_steps() == Seq::<ShutdownStep>::empty(),
{
}

/// A session ends step by step: the own buffer is drained, the flush thread is
/// told to stop, and it is waited for. Then the background worker, if there is
/// one, drains for the given time and is waited for; dropping the guard
/// abandons it instead.
pub proof fn law_shutdown_goes_step_by_step(guard: TelemetryGuard, timeout: u64)
    requires
        guard.handle is Some,
    ensures
        ({
            let graceful = guard.graceful_steps(timeout);
            let dropped = guard.drop_steps();
            &&& graceful.len() == 3 + if guard.worker {
                2int
            } else {
                0
            }
            &&& dropped.len() == 3 + if guard.worker {
                1int
            } else {
                0
            }
            &&& graceful[0] == ShutdownStep::DrainOwnBuffer && dropped[0] == graceful[0]
            &&& graceful[1] == ShutdownStep::FinalizeAndStop && dropped[1] == graceful[1]
            &&& graceful[2] == ShutdownStep::JoinFlushThread && dropped[2] == graceful[2]
            &&& guard.worker ==> {
                &&& graceful[3] == ShutdownStep::DrainWorker(timeout)
                &&& graceful[4] == ShutdownStep::JoinWorker
                &&& dropped[3] == ShutdownStep::AbandonWorker
            }
        }),
{
}

/// A guard switches recording as its handle does, and a disabled guard does
/// nothing.
pub proof fn law_a_guard_switches_as_its_handle(
    guard: TelemetryGuard,
    handle: Dial9Handle,
    shared: SharedModel,
    enabled: bool,
)
    ensures
        guard.handle == Some(handle) ==> guard.switched(shared, enabled) == handle.switched(
            shared,
            enabled,
        ),
        guard.handle is None ==> guard.switched(shared, enabled) == shared,
{
}

} // verus!
