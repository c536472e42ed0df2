//! Event building blocks: sample sources, clocks and scheduler statistics.
use crate::buffer::{encoded, interned, stack_pool, string_pool, TraceEncoder};
use crate::format::{CpuSampleEvent, WorkerId};
use vstd::prelude::*;

verus! {

/// What triggered a CPU sample.
#[derive(Debug, Clone, Copy, PartialEq, Eq, Structural)]
pub enum CpuSampleSource {
    /// Periodic CPU profiling sample (frequency-based).
    CpuProfile,
    /// Context switch captured by per-thread sched event tracking.
    SchedEvent,
}

impl CpuSampleSource {
    /// Decodes a raw wire value.
    pub fn from_u8(v: u8) -> (r: Self)
        ensures
            r == source_of(v),
    {
        match v {
            1 => CpuSampleSource::SchedEvent,
            _ => CpuSampleSource::CpuProfile,
        }
    }

    /// The raw wire value.
    pub fn as_u8(self) -> (r: u8)
        ensures
            r == wire_value(self),
    {
        match self {
            CpuSampleSource::CpuProfile => 0,
            CpuSampleSource::SchedEvent => 1,
        }
    }
}

/// The sample source that a raw wire value stands for.
pub open spec fn source_of(v: u8) -> CpuSampleSource {
    if v == 1 {
        CpuSampleSource::SchedEvent
    } else {
        CpuSampleSource::CpuProfile
    }
}

/// The raw wire value of a sample source.
pub open spec fn wire_value(source: CpuSampleSource) -> u8 {
    match source {
        CpuSampleSource::CpuProfile => 0,
        CpuSampleSource::SchedEvent => 1,
    }
}

/// A sample source is read back as it was written, the two have the wire values
/// zero and one, and any other value is taken for a periodic sample.
pub proof fn law_sample_sources_are_read_back(source: CpuSampleSource, v: u8)
    ensures
        source_of(wire_value(source)) == source,
        v <= 1 ==> wire_value(source_of(v)) == v,
        v != 1 ==> source_of(v) == CpuSampleSource::CpuProfile,
{
}

/// Name of an OS thread.
#[derive(Debug)]
pub struct ThreadName(String);

impl ThreadName {
    pub closed spec fn name(&self) -> Seq<char> {
        self.0@
    }

    pub fn new(name: String) -> (r: Self)
        ensures
            r.name() == name@,
    {
        ThreadName(name)
    }

    pub fn as_str(&self) -> (r: &str)
        ensures
            r@ == self.name(),
    {
        self.0.as_str()
    }
}

/// A CPU stack trace sample, as a profiler gives it.
#[derive(Debug)]
pub struct CpuSampleData {
    pub timestamp_nanos: u64,
    pub worker_id: WorkerId,
    pub tid: u32,
    pub thread_name: Option<ThreadName>,
    pub source: CpuSampleSource,
    pub callchain: Vec<u64>,
    /// CPU the sample was taken on, if known.
    pub cpu: Option<u32>,
}

impl CpuSampleData {
    /// The event records this sample, with its thread name and stack interned.
    pub open spec fn is_recorded_by(
        &self,
        event: CpuSampleEvent,
        before: TraceEncoder,
        after: TraceEncoder,
    ) -> bool {
        &&& event.timestamp_ns == self.timestamp_nanos
        &&& event.worker_id == self.worker_id
        &&& event.tid == self.tid
        &&& event.source == self.source
        &&& event.cpu == (match self.cpu {
            Some(cpu) => Some(cpu as u64),
            None => None,
        })
        &&& interned(
            stack_pool(before),
            self.callchain@,
            event.callchain,
            stack_pool(after),
        )
        &&& match self.thread_name {
            Some(name) => event.thread_name matches Some(id) && interned(
                string_pool(before),
                name.name(),
                id,
                string_pool(after),
            ),
            None => event.thread_name is None && string_pool(after) == string_pool(before),
        }
        &&& encoded(before).is_prefix_of(encoded(after))
    }

    /// The event that records this sample, with its thread name and stack
    /// interned in the encoder.
    pub fn wire_event(&self, encoder: &mut TraceEncoder) -> (r: CpuSampleEvent)
        requires
            string_pool(*old(encoder)).len() < u32::MAX,
            stack_pool(*old(encoder)).len() < u32::MAX,
        ensures
            self.is_recorded_by(r, *old(encoder), *final(encoder)),
    {
        let thread_name: Option<u32> = match &self.thread_name {
            Some(name) => Some(encoder.intern_string(name.as_str())),
            None => None,
        };
        let callchain: u32 = encoder.intern_stack_frames(self.callchain.as_slice());
        let cpu: Option<u64> = match self.cpu {
            Some(cpu) => Some(cpu as u64),
            None => None,
        };
        CpuSampleEvent {
            timestamp_ns: self.timestamp_nanos,
            worker_id: self.worker_id,
            tid: self.tid,
            source: self.source,
            thread_name,
            callchain,
            cpu,
        }
    }

    /// The event that records this sample, unless the batch is so large that
    /// handles may have run out.
    pub fn try_wire_event(&self, encoder: &mut TraceEncoder) -> (r: Option<CpuSampleEvent>)
        ensures
            r is Some <==> encoded(*old(encoder)).len() < u32::MAX,
            match r {
                Some(event) => self.is_recorded_by(event, *old(encoder), *final(encoder)),
                None => *final(encoder) == *old(encoder),
            },
    {
        if encoder.can_intern() {
            Some(self.wire_event(encoder))
        } else {
            None
        }
    }
}

/// Nanoseconds of a `timespec`.
pub fn timespec_to_ns(tv_sec: u64, tv_nsec: u64) -> (r: u64)
    requires
        tv_sec * 1_000_000_000 + tv_nsec <= u64::MAX,
    ensures
        r == tv_sec * 1_000_000_000 + tv_nsec,
{
    tv_sec * 1_000_000_000 + tv_nsec
}

/// A wall-clock reading with the midpoint of the monotonic readings around it.
pub open spec fn paired(before: u64, realtime: u64, after: u64) -> (u64, u64) {
    if after >= before {
        ((before + (after - before) / 2) as u64, realtime)
    } else {
        (before, realtime)
    }
}

/// Pairs a wall-clock reading with the midpoint of the monotonic readings
/// taken before and after it, so that the error is half their distance. If
/// the clock went backwards, the first reading is used.
pub fn clock_pair(before: u64, realtime: u64, after: u64) -> (r: (u64, u64))
    ensures
        r == paired(before, realtime, after),
{
    let mono: u64 = before + after.saturating_sub(before) / 2;
    (mono, realtime)
}

/// The paired monotonic time lies between the two readings, as far from the one
/// as from the other, to within a nanosecond; the wall-clock reading is kept.
pub proof fn law_clock_pair_is_between_the_readings(before: u64, realtime: u64, after: u64)
    ensures
        ({
            let (mono, wall) = paired(before, realtime, after);
            &&& wall == realtime
            &&& before <= after ==> before <= mono <= after && 0 <= (after - mono) - (mono
                - before) <= 1
            &&& after < before ==> mono == before
        }),
{
}

/// Per-thread scheduler statistics.
#[derive(Debug, Clone, Copy, PartialEq, Eq, Structural)]
pub struct SchedStat {
    pub wait_time_ns: u64,
}

impl SchedStat {
    /// Reads the text of a `schedstat` file: run time, wait time and number of
    /// time slices, separated by whitespace. Nothing if the first two fields
    /// are not numbers.
    pub fn parse(text: &str) -> (r: Option<Self>)
        ensures
            (match r {
                Some(stat) => Some(stat.wait_time_ns),
                None => None,
            }) == crate::text::second_number(text@),
    {
        match SchedStat::parse_wait_time_ns(text) {
            Some(wait_time_ns) => Some(SchedStat { wait_time_ns }),
            None => None,
        }
    }

    /// The wait time field of a `schedstat` text.
    pub fn parse_wait_time_ns(text: &str) -> (r: Option<u64>)
        ensures
            r == crate::text::second_number(text@),
    {
        crate::text::second_of_two_numbers(text)
    }
}

/// The start time of a poll after the one handed out `last`.
pub open spec fn next_poll_time(last: u64, now: u64) -> u64 {
    if now > last {
        now
    } else {
        (last + 1) as u64
    }
}

/// Start times of polls are never the same and never go back, and are the
/// clock's own reading unless it has not moved on: a start time is the least
/// one after the last that is no earlier than the clock's reading.
pub proof fn law_poll_times_move_on(last: u64, now: u64, other: u64)
    requires
        last < u64::MAX,
    ensures
        next_poll_time(last, now) > last,
        next_poll_time(last, now) >= now,
        other > last && other >= now ==> next_poll_time(last, now) <= other,
{
}

/// Hands out the start times of polls on one thread.
#[derive(Debug)]
pub struct PollClock {
    last: u64,
}

impl PollClock {
    /// The time handed out last, in nanoseconds.
    pub closed spec fn last(&self) -> u64 {
        self.last
    }

    pub fn new() -> (r: Self)
        ensures
            r.last() == 0,
    {
        PollClock { last: 0 }
    }

    /// The start time of a poll, given the clock's reading: later than every
    /// time handed out before, by one nanosecond if the clock has not moved.
    pub fn poll_start_ts_monotonic(&mut self, now: u64) -> (r: u64)
        requires
            old(self).last() < u64::MAX,
        ensures
            r == next_poll_time(old(self).last(), now),
            r > old(self).last(),
            final(self).last() == r,
    {
        if now > self.last {
            self.last = now;
        } else {
            self.last = self.last + 1;
        }
        self.last
    }
}

/// An event keeps the numbers of its sample. Of two samples recorded one after
/// the other, those with the same stack get the same handle for it and those
/// with different stacks get different ones; so it is with thread names.
pub proof fn law_samples_share_handles_of_what_they_share(
    first: CpuSampleData,
    second: CpuSampleData,
    one: CpuSampleEvent,
    two: CpuSampleEvent,
    before: TraceEncoder,
    between: TraceEncoder,
    after: TraceEncoder,
)
    requires
        crate::buffer::distinct_handles(stack_pool(before)),
        crate::buffer::distinct_handles(string_pool(before)),
        first.is_recorded_by(one, before, between),
        second.is_recorded_by(two, between, after),
    ensures
        one.timestamp_ns == first.timestamp_nanos,
        one.worker_id == first.worker_id,
        one.tid == first.tid,
        one.source == first.source,
        one.cpu is Some <==> first.cpu is Some,
        first.cpu matches Some(cpu) ==> one.cpu == Some(cpu as u64),
        one.thread_name is Some <==> first.thread_name is Some,
        one.callchain == two.callchain <==> first.callchain@ == second.callchain@,
        first.thread_name matches Some(a) ==> second.thread_name matches Some(b) ==> (
        one.thread_name == two.thread_name <==> a.name() == b.name()),
{
    crate::buffer::law_interning_keeps_handles(
        stack_pool(before),
        first.callchain@,
        one.callchain,
        stack_pool(between),
        first.callchain@,
    );
    crate::buffer::law_interning_keeps_handles(
        stack_pool(between),
        second.callchain@,
        two.callchain,
        stack_pool(after),
        first.callchain@,
    );
    assert(stack_pool(after)[first.callchain@] == one.callchain);
    assert(stack_pool(after)[second.callchain@] == two.callchain);
    if let (Some(a), Some(b)) = (first.thread_name, second.thread_name) {
        crate::buffer::law_interning_keeps_handles(
            string_pool(before),
            a.name(),
            one.thread_name->0,
            string_pool(between),
            a.name(),
        );
        crate::buffer::law_interning_keeps_handles(
            string_pool(between),
            b.name(),
            two.thread_name->0,
            string_pool(after),
            a.name(),
        );
        assert(string_pool(after)[a.name()] == one.thread_name->0);
        assert(string_pool(after)[b.name()] == two.thread_name->0);
    }
}

} // verus!
