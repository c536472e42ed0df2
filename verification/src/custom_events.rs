//! User-provided custom event callbacks.
use crate::buffer::{ThreadLocalBuffer, TraceEncoder};
use crate::shared_state::SharedState;
use crate::source::Pacer;
use vstd::prelude::*;

verus! {

/// Configuration for custom event callbacks.
#[derive(Debug, Clone, Copy, PartialEq, Eq, Structural)]
pub struct CustomEventsConfig {
    minimum_interval: u64,
}

impl Default for CustomEventsConfig {
    /// No minimum interval: the callback runs during every flush cycle.
    fn default() -> (r: Self)
        ensures
            r.interval() == 0,
    {
        CustomEventsConfig { minimum_interval: 0 }
    }
}

impl CustomEventsConfig {
    pub closed spec fn interval(&self) -> u64 {
        self.minimum_interval
    }

    /// A configuration with the given minimum interval in nanoseconds.
    pub fn with_minimum_interval(minimum_interval: u64) -> (r: Self)
        ensures
            r.interval() == minimum_interval,
    {
        CustomEventsConfig { minimum_interval }
    }

    /// Minimum time between callback invocations, in nanoseconds. Zero means
    /// that the callback runs during every flush cycle.
    pub fn minimum_interval(&self) -> (r: u64)
        ensures
            r == self.interval(),
    {
        self.minimum_interval
    }
}

/// Context passed to a custom event callback.
#[derive(Debug, Clone, Copy, PartialEq, Eq, Structural)]
pub struct CustomEventsContext {
    timestamp_ns: u64,
}

impl CustomEventsContext {
    pub closed spec fn timestamp(&self) -> u64 {
        self.timestamp_ns
    }

    /// Monotonic timestamp captured for this callback invocation.
    pub fn timestamp_ns(&self) -> (r: u64)
        ensures
            r == self.timestamp(),
    {
        self.timestamp_ns
    }
}

impl CustomEventsContext {
    /// Records an event of the callback into the flush thread's buffer.
    /// Returns whether the buffer is to be registered.
    pub fn record_event<F: FnOnce(&mut TraceEncoder)>(
        &mut self,
        shared: &mut SharedState,
        buffer: &mut ThreadLocalBuffer,
        encode: F,
    ) -> (register: bool)
        requires
            old(buffer)@.event_count < usize::MAX,
            old(buffer)@.batch_size <= isize::MAX,
            forall|e: &mut TraceEncoder|
                (*e)@ == old(buffer)@.encoder ==> #[trigger] call_requires(encode, (e,)),
        ensures
            *final(self) == *old(self),
            register == !old(buffer)@.registered,
            exists|e: &mut TraceEncoder| #[trigger]
                call_ensures(encode, (e,), ()) && (*e)@ == old(buffer)@.encoder && {
                    let step = old(buffer)@.record((*final(e))@, old(shared)@.drain_epoch);
                    &&& final(buffer)@ == step.0
                    &&& final(shared)@ == old(shared)@.collecting(step.1)
                },
    {
        shared.record_encodable_event(buffer, encode)
    }
}

/// Runs a callback from the flush thread, at most once per interval.
#[derive(Debug)]
pub struct CustomEventsSource {
    pacer: Pacer,
}

impl CustomEventsSource {
    pub closed spec fn pacing(&self) -> Pacer {
        self.pacer
    }

    pub fn new(config: CustomEventsConfig) -> (r: Self)
        ensures
            r.pacing() == (Pacer { interval_ns: config.interval(), last_run_ns: None }),
    {
        CustomEventsSource { pacer: Pacer::new(config.minimum_interval) }
    }

    /// Polls the source at `now`: runs the callback with a context of the
    /// given timestamp if the minimum interval has passed. Returns whether it
    /// ran.
    pub fn flush<F: FnOnce(&mut CustomEventsContext)>(
        &mut self,
        now: u64,
        timestamp_ns: u64,
        callback: F,
    ) -> (ran: bool)
        requires
            old(self).pacing().due(now) ==> forall|ctx: &mut CustomEventsContext|
                ctx.timestamp() == timestamp_ns ==> #[trigger] call_requires(callback, (ctx,)),
        ensures
            ran == old(self).pacing().due(now),
            final(self).pacing() == old(self).pacing().polled(now),
            ran ==> exists|ctx: &mut CustomEventsContext| #[trigger]
                call_ensures(callback, (ctx,), ()) && ctx.timestamp() == timestamp_ns,
    {
        if !self.pacer.poll(now) {
            return false;
        }
        let mut context = CustomEventsContext { timestamp_ns };
        callback(&mut context);
        true
    }

    /// Diagnostic name.
    pub fn name(&self) -> (r: &'static str)
        ensures
            r@ == "custom_events"@,
    {
        "custom_events"
    }
}

} // verus!
