//! Pacing of data sources that the flush thread polls.
use vstd::prelude::*;

verus! {

/// Lets a source run at most once per interval.
#[derive(Debug, Clone, Copy, PartialEq, Eq, Structural)]
pub struct Pacer {
    /// Minimum time between runs, in nanoseconds.
    pub interval_ns: u64,
    /// When the source last ran.
    pub last_run_ns: Option<u64>,
}

impl Pacer {
    /// Whether the source runs at `now`.
    pub open spec fn due(self, now: u64) -> bool {
        self.last_run_ns matches Some(last) ==> crate::analysis::elapsed(now, last)
            >= self.interval_ns
    }

    /// The pacer after the source was polled at `now`.
    pub open spec fn polled(self, now: u64) -> Pacer {
        if self.due(now) {
            Pacer { last_run_ns: Some(now), ..self }
        } else {
            self
        }
    }

    /// A pacer for a source that has not run yet.
    pub fn new(interval_ns: u64) -> (r: Self)
        ensures
            r == (Pacer { interval_ns, last_run_ns: None }),
    {
        Pacer { interval_ns, last_run_ns: None }
    }

    /// Polls the source at `now`: returns whether it runs.
    pub fn poll(&mut self, now: u64) -> (run: bool)
        ensures
            run == old(self).due(now),
            *final(self) == old(self).polled(now),
    {
        if let Some(last) = self.last_run_ns {
            if now.saturating_sub(last) < self.interval_ns {
                return false;
            }
        }
        self.last_run_ns = Some(now);
        true
    }
}

/// With a zero interval the source runs on every poll.
pub proof fn law_zero_interval_never_throttles(pacer: Pacer, now: u64)
    requires
        pacer.interval_ns == 0,
    ensures
        pacer.due(now),
{
}

/// Two runs are never closer together than the interval: after a run at
/// `now`, the source does not run before the interval has passed.
pub proof fn law_runs_keep_their_distance(pacer: Pacer, now: u64, later: u64)
    requires
        pacer.due(now),
        now <= later < now + pacer.interval_ns,
    ensures
        !pacer.polled(now).due(later),
{
}

/// A source that has not run yet runs on its first poll.
pub proof fn law_first_poll_runs(interval_ns: u64, now: u64)
    ensures
        (Pacer { interval_ns, last_run_ns: None }).due(now),
{
}

/// A source runs again exactly from the end of its interval on, counted from
/// its last run; polled before that, it does not run and the count goes on.
pub proof fn law_a_source_runs_again_after_its_interval(pacer: Pacer, last: u64, now: u64)
    requires
        pacer.last_run_ns == Some(last),
        last <= now,
    ensures
        pacer.due(now) <==> now >= last + pacer.interval_ns,
        now >= last + pacer.interval_ns ==> pacer.polled(now).last_run_ns == Some(now),
        now < last + pacer.interval_ns ==> pacer.polled(now) == pacer,
        pacer.polled(now).interval_ns == pacer.interval_ns,
{
}

} // verus!
