//! Process-level system metrics sampled from the operating system.
use crate::format::ProcessResourceUsageEvent;
use crate::source::Pacer;
use vstd::prelude::*;
use vstd::string::StringExecFns;

verus! {

/// Default time between samples: one second, in nanoseconds.
pub const DEFAULT_SYSTEM_METRICS_INTERVAL: u64 = 1_000_000_000;

/// The operating system that a usage record comes from.
#[derive(Debug, Clone, Copy, PartialEq, Eq, Structural)]
pub enum Platform {
    /// Apple's systems, which report the resident set size in bytes.
    Apple,
    /// The others, which report it in kibibytes.
    Other,
}

impl Platform {
    /// The unit in which the resident set size is reported, in bytes.
    pub open spec fn max_rss_unit(self) -> u64 {
        match self {
            Platform::Apple => 1,
            Platform::Other => 1024,
        }
    }

    /// The unit in which the resident set size is reported, in bytes.
    pub fn ru_maxrss_multiplier(self) -> (r: u64)
        ensures
            r == self.max_rss_unit(),
    {
        match self {
            Platform::Apple => 1,
            Platform::Other => 1024,
        }
    }
}

/// Configuration for process-level system metrics.
#[derive(Debug, Clone, Copy, PartialEq, Eq, Structural)]
pub struct SystemMetricsConfig {
    interval: u64,
}

impl Default for SystemMetricsConfig {
    fn default() -> (r: Self)
        ensures
            r.interval_ns() == DEFAULT_SYSTEM_METRICS_INTERVAL,
    {
        SystemMetricsConfig { interval: DEFAULT_SYSTEM_METRICS_INTERVAL }
    }
}

impl SystemMetricsConfig {
    pub closed spec fn interval_ns(&self) -> u64 {
        self.interval
    }

    /// A configuration with the given minimum time between samples in
    /// nanoseconds.
    pub fn with_interval(interval: u64) -> (r: Self)
        ensures
            r.interval_ns() == interval,
    {
        SystemMetricsConfig { interval }
    }

    /// Minimum time between samples, in nanoseconds.
    pub fn interval(&self) -> (r: u64)
        ensures
            r == self.interval_ns(),
    {
        self.interval
    }
}

/// A field of the operating system's resource usage record.
#[derive(Debug, Clone, Copy, PartialEq, Eq, Structural)]
pub enum UsageField {
    UserTime,
    SystemTime,
    MaxRss,
    MinorFaults,
    MajorFaults,
    BlockInput,
    BlockOutput,
    VoluntarySwitches,
    InvoluntarySwitches,
}

impl UsageField {
    pub open spec fn spec_name(self) -> Seq<char> {
        match self {
            UsageField::UserTime => "ru_utime"@,
            UsageField::SystemTime => "ru_stime"@,
            UsageField::MaxRss => "ru_maxrss"@,
            UsageField::MinorFaults => "ru_minflt"@,
            UsageField::MajorFaults => "ru_majflt"@,
            UsageField::BlockInput => "ru_inblock"@,
            UsageField::BlockOutput => "ru_oublock"@,
            UsageField::VoluntarySwitches => "ru_nvcsw"@,
            UsageField::InvoluntarySwitches => "ru_nivcsw"@,
        }
    }

    /// The field's name in the operating system's record.
    pub fn name(self) -> (r: &'static str)
        ensures
            r@ == self.spec_name(),
    {
        match self {
            UsageField::UserTime => "ru_utime",
            UsageField::SystemTime => "ru_stime",
            UsageField::MaxRss => "ru_maxrss",
            UsageField::MinorFaults => "ru_minflt",
            UsageField::MajorFaults => "ru_majflt",
            UsageField::BlockInput => "ru_inblock",
            UsageField::BlockOutput => "ru_oublock",
            UsageField::VoluntarySwitches => "ru_nvcsw",
            UsageField::InvoluntarySwitches => "ru_nivcsw",
        }
    }
}

/// Why a resource usage record cannot be used.
#[derive(Debug, Clone, Copy, PartialEq, Eq, Structural)]
pub enum UsageError {
    /// The field is negative.
    Negative(UsageField),
    /// The field does not fit in 64 bits after conversion.
    Overflow(UsageField),
}

impl UsageError {
    /// The message shown to users.
    pub fn message(self) -> (r: String)
        ensures
            r@ == (match self {
                UsageError::Negative(field) => "getrusage returned negative "@ + field.spec_name(),
                UsageError::Overflow(field) => field.spec_name() + " overflowed u64"@,
            }),
    {
        match self {
            UsageError::Negative(field) => "getrusage returned negative ".to_owned().concat(
                field.name(),
            ),
            UsageError::Overflow(field) => field.name().to_owned().concat(" overflowed u64"),
        }
    }
}

/// Seconds and microseconds, as the operating system reports a duration.
#[derive(Debug, Clone, Copy, PartialEq, Eq, Structural)]
pub struct TimeVal {
    pub tv_sec: i64,
    pub tv_usec: i64,
}

/// The operating system's resource usage record.
#[derive(Debug, Clone, Copy, PartialEq, Eq, Structural)]
pub struct ResourceUsage {
    pub ru_utime: TimeVal,
    pub ru_stime: TimeVal,
    pub ru_maxrss: i64,
    pub ru_minflt: i64,
    pub ru_majflt: i64,
    pub ru_inblock: i64,
    pub ru_oublock: i64,
    pub ru_nvcsw: i64,
    pub ru_nivcsw: i64,
    /// Where the record comes from.
    pub platform: Platform,
}

/// One sample of the process's resource usage.
#[derive(Debug, Clone, Copy, PartialEq, Eq, Structural)]
pub struct SystemMetricsSnapshot {
    pub user_cpu_ns: u64,
    pub system_cpu_ns: u64,
    pub max_rss_bytes: u64,
    pub minor_faults: u64,
    pub major_faults: u64,
    pub block_input_ops: u64,
    pub block_output_ops: u64,
    pub voluntary_context_switches: u64,
    pub involuntary_context_switches: u64,
}

impl SystemMetricsSnapshot {
    /// The event that records this sample.
    pub fn into_event(self, timestamp_ns: u64) -> (r: ProcessResourceUsageEvent)
        ensures
            r == event_of(self, timestamp_ns),
    {
        ProcessResourceUsageEvent {
            timestamp_ns,
            user_cpu_ns: self.user_cpu_ns,
            system_cpu_ns: self.system_cpu_ns,
            max_rss_bytes: self.max_rss_bytes,
            minor_faults: self.minor_faults,
            major_faults: self.major_faults,
            block_input_ops: self.block_input_ops,
            block_output_ops: self.block_output_ops,
            voluntary_context_switches: self.voluntary_context_switches,
            involuntary_context_switches: self.involuntary_context_switches,
        }
    }
}

/// The event that records a sample.
pub open spec fn event_of(
    snapshot: SystemMetricsSnapshot,
    timestamp_ns: u64,
) -> ProcessResourceUsageEvent {
    ProcessResourceUsageEvent {
        timestamp_ns,
        user_cpu_ns: snapshot.user_cpu_ns,
        system_cpu_ns: snapshot.system_cpu_ns,
        max_rss_bytes: snapshot.max_rss_bytes,
        minor_faults: snapshot.minor_faults,
        major_faults: snapshot.major_faults,
        block_input_ops: snapshot.block_input_ops,
        block_output_ops: snapshot.block_output_ops,
        voluntary_context_switches: snapshot.voluntary_context_switches,
        involuntary_context_switches: snapshot.involuntary_context_switches,
    }
}

/// A count in the record: it must not be negative.
pub open spec fn count_of(value: i64, field: UsageField) -> Result<u64, UsageError> {
    if value < 0 {
        Err(UsageError::Negative(field))
    } else {
        Ok(value as u64)
    }
}

/// A value that must fit in 64 bits.
pub open spec fn fitting(value: int, field: UsageField) -> Result<u64, UsageError> {
    if value > u64::MAX {
        Err(UsageError::Overflow(field))
    } else {
        Ok(value as u64)
    }
}

/// Nanoseconds of a duration in the record.
pub open spec fn nanoseconds_of(tv: TimeVal, field: UsageField) -> Result<u64, UsageError> {
    if tv.tv_sec < 0 || tv.tv_usec < 0 {
        Err(UsageError::Negative(field))
    } else {
        fitting(tv.tv_sec * 1_000_000_000 + tv.tv_usec * 1_000, field)
    }
}

/// Bytes of the resident set size in the record.
pub open spec fn resident_bytes_of(value: i64, platform: Platform) -> Result<u64, UsageError> {
    if value < 0 {
        Err(UsageError::Negative(UsageField::MaxRss))
    } else {
        fitting(value * platform.max_rss_unit(), UsageField::MaxRss)
    }
}

pub fn nonnegative(value: i64, field: UsageField) -> (r: Result<u64, UsageError>)
    ensures
        r == count_of(value, field),
{
    if value < 0 {
        Err(UsageError::Negative(field))
    } else {
        Ok(value as u64)
    }
}

pub fn checked_mul(value: u64, multiplier: u64, field: UsageField) -> (r: Result<u64, UsageError>)
    ensures
        r == fitting(value * multiplier, field),
{
    match value.checked_mul(multiplier) {
        Some(product) => Ok(product),
        None => Err(UsageError::Overflow(field)),
    }
}

pub fn timeval_to_ns(tv: TimeVal, field: UsageField) -> (r: Result<u64, UsageError>)
    ensures
        r == nanoseconds_of(tv, field),
{
    let seconds: u64 = match nonnegative(tv.tv_sec, field) {
        Ok(value) => value,
        Err(e) => return Err(e),
    };
    let micros: u64 = match nonnegative(tv.tv_usec, field) {
        Ok(value) => value,
        Err(e) => return Err(e),
    };
    let second_ns: u64 = match checked_mul(seconds, 1_000_000_000, field) {
        Ok(value) => value,
        Err(e) => return Err(e),
    };
    let micro_ns: u64 = match checked_mul(micros, 1_000, field) {
        Ok(value) => value,
        Err(e) => return Err(e),
    };
    match second_ns.checked_add(micro_ns) {
        Some(sum) => Ok(sum),
        None => Err(UsageError::Overflow(field)),
    }
}

pub fn max_rss_to_bytes(max_rss: i64, platform: Platform) -> (r: Result<u64, UsageError>)
    ensures
        r == resident_bytes_of(max_rss, platform),
{
    match nonnegative(max_rss, UsageField::MaxRss) {
        Ok(value) => checked_mul(value, platform.ru_maxrss_multiplier(), UsageField::MaxRss),
        Err(e) => Err(e),
    }
}

/// The error that the record's first unusable field gives, in the order in
/// which the fields are read.
pub open spec fn first_error(usage: ResourceUsage) -> Option<UsageError> {
    if let Err(e) = nanoseconds_of(usage.ru_utime, UsageField::UserTime) {
        Some(e)
    } else if let Err(e) = nanoseconds_of(usage.ru_stime, UsageField::SystemTime) {
        Some(e)
    } else if let Err(e) = resident_bytes_of(usage.ru_maxrss, usage.platform) {
        Some(e)
    } else if let Err(e) = count_of(usage.ru_minflt, UsageField::MinorFaults) {
        Some(e)
    } else if let Err(e) = count_of(usage.ru_majflt, UsageField::MajorFaults) {
        Some(e)
    } else if let Err(e) = count_of(usage.ru_inblock, UsageField::BlockInput) {
        Some(e)
    } else if let Err(e) = count_of(usage.ru_oublock, UsageField::BlockOutput) {
        Some(e)
    } else if let Err(e) = count_of(usage.ru_nvcsw, UsageField::VoluntarySwitches) {
        Some(e)
    } else if let Err(e) = count_of(usage.ru_nivcsw, UsageField::InvoluntarySwitches) {
        Some(e)
    } else {
        None
    }
}

/// What a usage record gives: its first error, or each field converted.
pub open spec fn snapshot_of(usage: ResourceUsage) -> Result<SystemMetricsSnapshot, UsageError> {
    match first_error(usage) {
        Some(e) => Err(e),
        None => Ok(
            SystemMetricsSnapshot {
                user_cpu_ns: (usage.ru_utime.tv_sec * 1_000_000_000 + usage.ru_utime.tv_usec
                    * 1_000) as u64,
                system_cpu_ns: (usage.ru_stime.tv_sec * 1_000_000_000 + usage.ru_stime.tv_usec
                    * 1_000) as u64,
                max_rss_bytes: (usage.ru_maxrss * usage.platform.max_rss_unit()) as u64,
                minor_faults: usage.ru_minflt as u64,
                major_faults: usage.ru_majflt as u64,
                block_input_ops: usage.ru_inblock as u64,
                block_output_ops: usage.ru_oublock as u64,
                voluntary_context_switches: usage.ru_nvcsw as u64,
                involuntary_context_switches: usage.ru_nivcsw as u64,
            },
        ),
    }
}

/// Converts the operating system's record, or names the first field that
/// cannot be converted.
pub fn snapshot_from_rusage(usage: ResourceUsage) -> (r: Result<SystemMetricsSnapshot, UsageError>)
    ensures
        r == snapshot_of(usage),
{
    let user_cpu_ns: u64 = match timeval_to_ns(usage.ru_utime, UsageField::UserTime) {
        Ok(value) => value,
        Err(e) => return Err(e),
    };
    let system_cpu_ns: u64 = match timeval_to_ns(usage.ru_stime, UsageField::SystemTime) {
        Ok(value) => value,
        Err(e) => return Err(e),
    };
    let max_rss_bytes: u64 = match max_rss_to_bytes(usage.ru_maxrss, usage.platform) {
        Ok(value) => value,
        Err(e) => return Err(e),
    };
    let minor_faults: u64 = match nonnegative(usage.ru_minflt, UsageField::MinorFaults) {
        Ok(value) => value,
        Err(e) => return Err(e),
    };
    let major_faults: u64 = match nonnegative(usage.ru_majflt, UsageField::MajorFaults) {
        Ok(value) => value,
        Err(e) => return Err(e),
    };
    let block_input_ops: u64 = match nonnegative(usage.ru_inblock, UsageField::BlockInput) {
        Ok(value) => value,
        Err(e) => return Err(e),
    };
    let block_output_ops: u64 = match nonnegative(usage.ru_oublock, UsageField::BlockOutput) {
        Ok(value) => value,
        Err(e) => return Err(e),
    };
    let voluntary_context_switches: u64 = match nonnegative(
        usage.ru_nvcsw,
        UsageField::VoluntarySwitches,
    ) {
        Ok(value) => value,
        Err(e) => return Err(e),
    };
    let involuntary_context_switches: u64 = match nonnegative(
        usage.ru_nivcsw,
        UsageField::InvoluntarySwitches,
    ) {
        Ok(value) => value,
        Err(e) => return Err(e),
    };
    Ok(
        SystemMetricsSnapshot {
            user_cpu_ns,
            system_cpu_ns,
            max_rss_bytes,
            minor_faults,
            major_faults,
            block_input_ops,
            block_output_ops,
            voluntary_context_switches,
            involuntary_context_switches,
        },
    )
}

/// A sample succeeds exactly when no field is negative and every conversion
/// fits.
pub proof fn law_snapshot_succeeds_exactly_on_usable_records(usage: ResourceUsage)
    ensures
        snapshot_of(usage) is Ok <==> {
            &&& usage.ru_utime.tv_sec >= 0 && usage.ru_utime.tv_usec >= 0
            &&& usage.ru_utime.tv_sec * 1_000_000_000 + usage.ru_utime.tv_usec * 1_000 <= u64::MAX
            &&& usage.ru_stime.tv_sec >= 0 && usage.ru_stime.tv_usec >= 0
            &&& usage.ru_stime.tv_sec * 1_000_000_000 + usage.ru_stime.tv_usec * 1_000 <= u64::MAX
            &&& 0 <= usage.ru_maxrss && usage.ru_maxrss * usage.platform.max_rss_unit() <= u64::MAX
            &&& usage.ru_minflt >= 0 && usage.ru_majflt >= 0
            &&& usage.ru_inblock >= 0 && usage.ru_oublock >= 0
            &&& usage.ru_nvcsw >= 0 && usage.ru_nivcsw >= 0
        },
{
}

/// What polling the metrics source gives.
#[derive(Debug, Clone, Copy, PartialEq, Eq, Structural)]
pub enum MetricsFlush {
    /// The interval has not passed.
    Skipped,
    /// The event to record.
    Event(ProcessResourceUsageEvent),
    /// The record could not be converted.
    Failed(UsageError),
    /// The operating system gave no record, but this error code.
    Unreadable(i32),
}

/// What a due sample gives for a reading.
pub open spec fn flush_of(usage: Result<ResourceUsage, i32>, timestamp_ns: u64) -> MetricsFlush {
    match usage {
        Ok(usage) => match snapshot_of(usage) {
            Ok(snapshot) => MetricsFlush::Event(event_of(snapshot, timestamp_ns)),
            Err(e) => MetricsFlush::Failed(e),
        },
        Err(code) => MetricsFlush::Unreadable(code),
    }
}

/// Samples the process's resource usage, at most once per interval.
#[derive(Debug)]
pub struct SystemMetricsSource {
    pacer: Pacer,
}

impl SystemMetricsSource {
    pub closed spec fn pacing(&self) -> Pacer {
        self.pacer
    }

    pub fn new(config: SystemMetricsConfig) -> (r: Self)
        ensures
            r.pacing() == (Pacer { interval_ns: config.interval_ns(), last_run_ns: None }),
    {
        SystemMetricsSource { pacer: Pacer::new(config.interval) }
    }

    /// Polls the source at `now`: reads the record if a sample is due, and
    /// returns the event to record.
    pub fn flush<F: FnOnce() -> Result<ResourceUsage, i32>>(
        &mut self,
        now: u64,
        timestamp_ns: u64,
        read: F,
    ) -> (r: MetricsFlush)
        requires
            old(self).pacing().due(now) ==> call_requires(read, ()),
        ensures
            final(self).pacing() == old(self).pacing().polled(now),
            !old(self).pacing().due(now) ==> r == MetricsFlush::Skipped,
            old(self).pacing().due(now) ==> exists|usage: Result<ResourceUsage, i32>| #[trigger]
                call_ensures(read, (), usage) && r == flush_of(usage, timestamp_ns),
    {
        if !self.pacer.poll(now) {
            return MetricsFlush::Skipped;
        }
        match read() {
            Ok(usage) => match snapshot_from_rusage(usage) {
                Ok(snapshot) => MetricsFlush::Event(snapshot.into_event(timestamp_ns)),
                Err(e) => MetricsFlush::Failed(e),
            },
            Err(code) => MetricsFlush::Unreadable(code),
        }
    }

    /// Diagnostic name.
    pub fn name(&self) -> (r: &'static str)
        ensures
            r@ == "system_metrics"@,
    {
        "system_metrics"
    }
}

/// The field that an error is about.
pub open spec fn field_of(error: UsageError) -> UsageField {
    match error {
        UsageError::Negative(field) => field,
        UsageError::Overflow(field) => field,
    }
}

/// The position of a field in the record.
pub open spec fn position_of(field: UsageField) -> int {
    match field {
        UsageField::UserTime => 0,
        UsageField::SystemTime => 1,
        UsageField::MaxRss => 2,
        UsageField::MinorFaults => 3,
        UsageField::MajorFaults => 4,
        UsageField::BlockInput => 5,
        UsageField::BlockOutput => 6,
        UsageField::VoluntarySwitches => 7,
        UsageField::InvoluntarySwitches => 8,
    }
}

/// The values of a field in the record: a duration has two.
pub open spec fn values_of(usage: ResourceUsage, field: UsageField) -> (int, int) {
    match field {
        UsageField::UserTime => (usage.ru_utime.tv_sec as int, usage.ru_utime.tv_usec as int),
        UsageField::SystemTime => (usage.ru_stime.tv_sec as int, usage.ru_stime.tv_usec as int),
        UsageField::MaxRss => (usage.ru_maxrss as int, 0),
        UsageField::MinorFaults => (usage.ru_minflt as int, 0),
        UsageField::MajorFaults => (usage.ru_majflt as int, 0),
        UsageField::BlockInput => (usage.ru_inblock as int, 0),
        UsageField::BlockOutput => (usage.ru_oublock as int, 0),
        UsageField::VoluntarySwitches => (usage.ru_nvcsw as int, 0),
        UsageField::InvoluntarySwitches => (usage.ru_nivcsw as int, 0),
    }
}

/// What a field amounts to: nanoseconds for a duration, bytes for the resident
/// set size, a plain count for the others.
pub open spec fn amount_of(usage: ResourceUsage, field: UsageField) -> int {
    let (a, b) = values_of(usage, field);
    match field {
        UsageField::UserTime => a * 1_000_000_000 + b * 1_000,
        UsageField::SystemTime => a * 1_000_000_000 + b * 1_000,
        UsageField::MaxRss => if usage.platform is Apple {
            a
        } else {
            a * 1024
        },
        _ => a,
    }
}

proof fn lemma_resident_bytes(usage: ResourceUsage)
    ensures
        usage.ru_maxrss * usage.platform.max_rss_unit() == amount_of(usage, UsageField::MaxRss),
{
    match usage.platform {
        Platform::Apple => {
            assert(usage.ru_maxrss * 1 == usage.ru_maxrss);
        },
        Platform::Other => {},
    }
}

/// A due sample of a usable record gives an event with the time of the sample
/// and, for each field, what the field amounts to.
pub proof fn law_a_sample_records_every_field(
    usage: ResourceUsage,
    timestamp_ns: u64,
    event: ProcessResourceUsageEvent,
)
    requires
        flush_of(Ok(usage), timestamp_ns) == MetricsFlush::Event(event),
    ensures
        event.timestamp_ns == timestamp_ns,
        event.user_cpu_ns == amount_of(usage, UsageField::UserTime),
        event.system_cpu_ns == amount_of(usage, UsageField::SystemTime),
        event.max_rss_bytes == amount_of(usage, UsageField::MaxRss),
        event.minor_faults == amount_of(usage, UsageField::MinorFaults),
        event.major_faults == amount_of(usage, UsageField::MajorFaults),
        event.block_input_ops == amount_of(usage, UsageField::BlockInput),
        event.block_output_ops == amount_of(usage, UsageField::BlockOutput),
        event.voluntary_context_switches == amount_of(usage, UsageField::VoluntarySwitches),
        event.involuntary_context_switches == amount_of(usage, UsageField::InvoluntarySwitches),
{
    lemma_resident_bytes(usage);
}

/// A sample that fails names the first field of the record that is negative or
/// amounts to more than 64 bits hold, and tells which of the two it is.
pub proof fn law_a_failed_sample_names_the_first_bad_field(
    usage: ResourceUsage,
    timestamp_ns: u64,
    error: UsageError,
    other: UsageField,
)
    requires
        flush_of(Ok(usage), timestamp_ns) == MetricsFlush::Failed(error),
    ensures
        ({
            let (a, b) = values_of(usage, field_of(error));
            &&& error is Negative <==> a < 0 || b < 0
            &&& error is Overflow ==> amount_of(usage, field_of(error)) > u64::MAX
        }),
        position_of(other) < position_of(field_of(error)) ==> {
            let (a, b) = values_of(usage, other);
            a >= 0 && b >= 0 && amount_of(usage, other) <= u64::MAX
        },
{
    lemma_resident_bytes(usage);
}

/// An unreadable record gives the system's error code, and no sample is taken
/// for anything but an unusable record.
pub proof fn law_a_usable_record_gives_an_event(usage: ResourceUsage, timestamp_ns: u64, code: i32)
    requires
        forall|field: UsageField| #[trigger]
            values_of(usage, field).0 >= 0 && values_of(usage, field).1 >= 0 && amount_of(
                usage,
                field,
            ) <= u64::MAX,
    ensures
        flush_of(Ok(usage), timestamp_ns) is Event,
        flush_of(Err(code), timestamp_ns) == MetricsFlush::Unreadable(code),
{
    lemma_resident_bytes(usage);
    let bad = first_error(usage);
    if let Some(e) = bad {
        let f = field_of(e);
        assert(values_of(usage, f).0 >= 0 && values_of(usage, f).1 >= 0 && amount_of(usage, f)
            <= u64::MAX);
    }
}

} // verus!
