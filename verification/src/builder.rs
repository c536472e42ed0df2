//! Configuration of telemetry sessions and traced runtimes.
use crate::custom_events::CustomEventsConfig;
use crate::guard::{ShutdownStep, TelemetryGuard};
use crate::pipeline::{PipelineBuilder, PipelineConfig, Processor, S3Config, S3PipelineUploader};
use crate::socket_accept_queues::SocketAcceptQueuesConfig;
use crate::system_metrics::SystemMetricsConfig;
use crate::handle::Dial9Handle;
use crate::tokio_hooks::{HookKind, TokioHooks};
use crate::traced::TracedHandle;
use crate::writer::{Disk, WriterMode};
use std::marker::PhantomData;
use vstd::prelude::*;
use vstd::string::StringExecFns;

verus! {

/// Marker: no trace path has been set yet.
#[derive(Debug)]
pub struct NoTracePath;

/// Marker: a trace path has been set.
#[derive(Debug)]
pub struct HasTracePath;

/// Marker: no pipeline has been chosen yet.
#[derive(Debug)]
pub struct PipelineUnset;

/// Marker: the upload preset has been chosen.
#[derive(Debug)]
pub struct PipelineS3;

/// Marker: a custom pipeline has been chosen.
#[derive(Debug)]
pub struct PipelineCustom;

/// When async backtraces of idle tasks are captured.
#[derive(Debug, Clone, Copy, PartialEq, Eq, Structural)]
pub struct TaskDumpConfig {
    /// How long a task must be idle, in nanoseconds.
    pub idle_threshold: u64,
    /// Seed of the sampling, for reproducible runs.
    pub rng_seed: Option<u64>,
}

/// A custom event callback, by its number.
#[derive(Debug, Clone, Copy, PartialEq, Eq, Structural)]
pub struct CustomEventsCallback {
    pub config: CustomEventsConfig,
    pub callback: u64,
}

/// A data source of the flush thread.
#[derive(Debug, Clone, Copy, PartialEq, Eq, Structural)]
pub enum SourceConfig {
    /// The attached runtimes.
    TokioRuntimes,
    /// Process resource usage.
    ProcessResourceUsage(SystemMetricsConfig),
    /// Accept queues of TCP listeners.
    SocketAcceptQueues(SocketAcceptQueuesConfig),
    /// The CPU profiler, by the number of its configuration.
    CpuProfiler(u64),
    /// The scheduler event profiler, by the number of its configuration.
    SchedProfiler(u64),
    /// A custom event callback.
    CustomEvents(CustomEventsCallback),
}

/// Everything that can be configured for a traced runtime.
#[derive(Debug)]
pub struct RuntimeSettings {
    pub enabled: bool,
    pub tokio_instrumentation: bool,
    pub task_tracking: bool,
    pub task_dumps: Option<TaskDumpConfig>,
    pub trace_path: Option<String>,
    pub runtime_name: Option<String>,
    /// The CPU profiler's configuration, by its number.
    pub cpu_profiling: Option<u64>,
    /// The scheduler event profiler's configuration, by its number.
    pub sched_events: Option<u64>,
    pub process_resource_usage: Option<SystemMetricsConfig>,
    pub socket_accept_queues: Option<SocketAcceptQueuesConfig>,
    pub custom_events: Vec<CustomEventsCallback>,
    pub pipeline: PipelineConfig,
    /// Entries to write into every segment.
    pub segment_metadata: Vec<(String, String)>,
    pub worker_poll_interval: Option<u64>,
    /// The metrics sink of the background worker, by its number.
    pub worker_metrics_sink: Option<u64>,
    pub tokio_hooks: TokioHooks,
}

/// Configures a traced runtime.
#[derive(Debug)]
pub struct TracedRuntimeBuilder<P, M, Mode: WriterMode> {
    pub settings: RuntimeSettings,
    pub marker: PhantomData<(P, M, Mode)>,
}

impl<P, M, Mode: WriterMode> TracedRuntimeBuilder<P, M, Mode> {
    /// Whether telemetry is installed at all. On by default.
    pub fn install(self, enabled: bool) -> (r: Self)
        ensures
            r.settings == (RuntimeSettings { enabled, ..self.settings }),
    {
        let mut next = self;
        next.settings.enabled = enabled;
        next
    }

    /// Whether task spawns and terminations are recorded.
    pub fn with_task_tracking(self, enabled: bool) -> (r: Self)
        ensures
            r.settings == (RuntimeSettings { task_tracking: enabled, ..self.settings }),
    {
        let mut next = self;
        next.settings.task_tracking = enabled;
        next
    }

    /// Whether the runtime's hooks are instrumented. On by default.
    pub fn with_tokio_instrumentation(self, enabled: bool) -> (r: Self)
        ensures
            r.settings == (RuntimeSettings { tokio_instrumentation: enabled, ..self.settings }),
    {
        let mut next = self;
        next.settings.tokio_instrumentation = enabled;
        next
    }

    /// Captures async backtraces of tasks that stay idle.
    pub fn with_task_dumps(self, config: TaskDumpConfig) -> (r: Self)
        ensures
            r.settings == (RuntimeSettings { task_dumps: Some(config), ..self.settings }),
    {
        let mut next = self;
        next.settings.task_dumps = Some(config);
        next
    }

    /// A name for the runtime, shown in the trace.
    pub fn with_runtime_name(self, name: String) -> (r: Self)
        ensures
            r.settings == (RuntimeSettings { runtime_name: Some(name), ..self.settings }),
    {
        let mut next = self;
        next.settings.runtime_name = Some(name);
        next
    }

    /// Entries to write into every segment. Replaces all entries set before,
    /// those of the upload preset too.
    pub fn with_segment_metadata(self, entries: Vec<(String, String)>) -> (r: Self)
        ensures
            r.settings == (RuntimeSettings { segment_metadata: entries, ..self.settings }),
    {
        let mut next = self;
        next.settings.segment_metadata = entries;
        next
    }

    /// Profiles the CPU, with the configuration of the given number.
    pub fn with_cpu_profiling(self, config: u64) -> (r: Self)
        ensures
            r.settings == (RuntimeSettings { cpu_profiling: Some(config), ..self.settings }),
    {
        let mut next = self;
        next.settings.cpu_profiling = Some(config);
        next
    }

    /// Captures scheduler events, with the configuration of the given number.
    pub fn with_sched_events(self, config: u64) -> (r: Self)
        ensures
            r.settings == (RuntimeSettings { sched_events: Some(config), ..self.settings }),
    {
        let mut next = self;
        next.settings.sched_events = Some(config);
        next
    }

    /// Samples the process's resource usage.
    pub fn with_process_resource_usage(self, config: SystemMetricsConfig) -> (r: Self)
        ensures
            r.settings == (RuntimeSettings {
                process_resource_usage: Some(config),
                ..self.settings
            }),
    {
        let mut next = self;
        next.settings.process_resource_usage = Some(config);
        next
    }

    /// Samples the accept queues of the process's listeners.
    pub fn with_socket_accept_queues(self, config: SocketAcceptQueuesConfig) -> (r: Self)
        ensures
            r.settings == (RuntimeSettings {
                socket_accept_queues: Some(config),
                ..self.settings
            }),
    {
        let mut next = self;
        next.settings.socket_accept_queues = Some(config);
        next
    }

    /// Adds a custom event callback to those added before.
    pub fn with_custom_events(self, config: CustomEventsConfig, callback: u64) -> (r: Self)
        ensures
            r.settings.custom_events@ == self.settings.custom_events@.push(
                CustomEventsCallback { config, callback },
            ),
            r.settings == (RuntimeSettings {
                custom_events: r.settings.custom_events,
                ..self.settings
            }),
    {
        let mut next = self;
        next.settings.custom_events.push(CustomEventsCallback { config, callback });
        next
    }

    /// How often the background worker looks for sealed segments, in
    /// nanoseconds.
    pub fn with_worker_poll_interval(self, interval: u64) -> (r: Self)
        ensures
            r.settings == (RuntimeSettings {
                worker_poll_interval: Some(interval),
                ..self.settings
            }),
    {
        let mut next = self;
        next.settings.worker_poll_interval = Some(interval);
        next
    }

    /// The metrics sink of the background worker, by its number.
    pub fn with_worker_metrics_sink(self, sink: u64) -> (r: Self)
        ensures
            r.settings == (RuntimeSettings { worker_metrics_sink: Some(sink), ..self.settings }),
    {
        let mut next = self;
        next.settings.worker_metrics_sink = Some(sink);
        next
    }

    /// Lets `configure` add callbacks to those added before.
    pub fn with_tokio_hooks<F: FnOnce(&mut TokioHooks)>(self, configure: F) -> (r: Self)
        requires
            forall|hooks: &mut TokioHooks|
                *hooks == self.settings.tokio_hooks ==> #[trigger] call_requires(
                    configure,
                    (hooks,),
                ),
        ensures
            exists|hooks: &mut TokioHooks| #[trigger]
                call_ensures(configure, (hooks,), ()) && *hooks == self.settings.tokio_hooks
                    && r.settings == (RuntimeSettings {
                    tokio_hooks: *final(hooks),
                    ..self.settings
                }),
    {
        let mut next = self;
        configure(&mut next.settings.tokio_hooks);
        next
    }

    /// The same settings under other markers.
    pub fn into_state<Q, N, NewMode: WriterMode>(self) -> (r: TracedRuntimeBuilder<Q, N, NewMode>)
        ensures
            r.settings == self.settings,
    {
        TracedRuntimeBuilder { settings: self.settings, marker: PhantomData }
    }
}

impl<P> TracedRuntimeBuilder<P, PipelineUnset, Disk> {
    /// Chooses the upload preset. The segments' entries are replaced by those
    /// of the configuration.
    pub fn with_s3_uploader<Mode: WriterMode>(self, config: S3Config) -> (r: TracedRuntimeBuilder<
        P,
        PipelineS3,
        Mode,
    >)
        ensures
            r.settings.segment_metadata@ == config.metadata@,
            r.settings.pipeline == PipelineConfig::S3(S3PipelineUploader { config, client: None }),
            r.settings == (RuntimeSettings {
                segment_metadata: r.settings.segment_metadata,
                pipeline: r.settings.pipeline,
                ..self.settings
            }),
    {
        let mut next = self;
        next.settings.segment_metadata = config.as_metadata();
        next.settings.pipeline = PipelineConfig::S3(S3PipelineUploader { config, client: None });
        next.into_state()
    }

    /// Chooses exactly the processors that `build` builds. The segments'
    /// entries are left as they are.
    pub fn with_custom_pipeline<F, Mode: WriterMode>(self, build: F) -> (r: TracedRuntimeBuilder<
        P,
        PipelineCustom,
        Mode,
    >) where F: FnOnce(PipelineBuilder<Mode>) -> PipelineBuilder<Mode>
        requires
            forall|start: PipelineBuilder<Mode>|
                start.processors@ == Seq::<Processor>::empty() ==> #[trigger] call_requires(
                    build,
                    (start,),
                ),
        ensures
            exists|start: PipelineBuilder<Mode>, built: PipelineBuilder<Mode>| #[trigger]
                call_ensures(build, (start,), built) && start.processors@
                    == Seq::<Processor>::empty() && r.settings == (RuntimeSettings {
                    pipeline: PipelineConfig::Custom(built.processors),
                    ..self.settings
                }),
    {
        let built = build(PipelineBuilder::new());
        let mut next = self;
        next.settings.pipeline = PipelineConfig::Custom(built.into_processors());
        next.into_state()
    }
}

/// The pipeline with another client, if it uploads.
pub open spec fn with_client(pipeline: PipelineConfig, client: Option<u64>) -> PipelineConfig {
    match pipeline {
        PipelineConfig::S3(uploader) => PipelineConfig::S3(
            S3PipelineUploader { client, ..uploader },
        ),
        other => other,
    }
}

/// The client that a pipeline uploads with.
pub open spec fn client_of(pipeline: PipelineConfig) -> Option<u64> {
    match pipeline {
        PipelineConfig::S3(uploader) => uploader.client,
        _ => None,
    }
}

impl<P, Mode: WriterMode> TracedRuntimeBuilder<P, PipelineS3, Mode> {
    /// Uploads with the client of the given number, in place of any other.
    pub fn with_s3_client(self, client: u64) -> (r: Self)
        ensures
            r.settings == (RuntimeSettings {
                pipeline: with_client(self.settings.pipeline, Some(client)),
                ..self.settings
            }),
    {
        let mut next = self;
        next.settings.pipeline = match next.settings.pipeline {
            PipelineConfig::S3(uploader) => PipelineConfig::S3(
                S3PipelineUploader { config: uploader.config, client: Some(client) },
            ),
            other => other,
        };
        next
    }

    /// Replaces the upload configuration, and the segments' entries with it. A
    /// client that was given before is carried over.
    pub fn with_s3_uploader(self, config: S3Config) -> (r: Self)
        ensures
            r.settings.segment_metadata@ == config.metadata@,
            r.settings.pipeline == PipelineConfig::S3(
                S3PipelineUploader { config, client: client_of(self.settings.pipeline) },
            ),
            r.settings == (RuntimeSettings {
                segment_metadata: r.settings.segment_metadata,
                pipeline: r.settings.pipeline,
                ..self.settings
            }),
    {
        let mut next = self;
        next.settings.segment_metadata = config.as_metadata();
        let client: Option<u64> = match next.settings.pipeline {
            PipelineConfig::S3(uploader) => uploader.client,
            _ => None,
        };
        next.settings.pipeline = PipelineConfig::S3(S3PipelineUploader { config, client });
        next
    }
}

/// Giving a client and giving an upload configuration can be done in either
/// order: the pipeline is the same.
pub proof fn law_client_and_uploader_commute(
    before: S3PipelineUploader,
    config: S3Config,
    client: u64,
)
    ensures
        ({
            let start = PipelineConfig::S3(before);
            let client_first = PipelineConfig::S3(
                S3PipelineUploader { config, client: client_of(with_client(start, Some(client))) },
            );
            let config_first = with_client(
                PipelineConfig::S3(S3PipelineUploader { config, client: client_of(start) }),
                Some(client),
            );
            client_first == config_first
        }),
{
}

impl<M, Mode: WriterMode> TracedRuntimeBuilder<NoTracePath, M, Mode> {
    /// Sets the path of the trace.
    pub fn with_trace_path(self, path: String) -> (r: TracedRuntimeBuilder<HasTracePath, M, Mode>)
        ensures
            r.settings == (RuntimeSettings { trace_path: Some(path), ..self.settings }),
    {
        let mut next = self;
        next.settings.trace_path = Some(path);
        next.into_state()
    }
}

impl<M, Mode: WriterMode> TracedRuntimeBuilder<HasTracePath, M, Mode> {
    /// Keeps the path that was set first.
    pub fn with_trace_path(self, path: String) -> (r: Self)
        ensures
            r.settings == self.settings,
    {
        self
    }
}

/// What a telemetry session is made of.
#[derive(Debug)]
pub struct SessionSettings {
    pub pipeline: PipelineConfig,
    /// Entries to write into every segment.
    pub segment_metadata: Vec<(String, String)>,
    pub trace_path: Option<String>,
    pub task_dumps: Option<TaskDumpConfig>,
    pub cpu_profiling: Option<u64>,
    pub sched_events: Option<u64>,
    pub process_resource_usage: Option<SystemMetricsConfig>,
    pub socket_accept_queues: Option<SocketAcceptQueuesConfig>,
    pub worker_poll_interval: Option<u64>,
    pub worker_metrics_sink: Option<u64>,
}

/// How the background worker runs.
#[derive(Debug)]
pub struct WorkerPlan {
    pub trace_path: Option<String>,
    /// How often it looks for sealed segments; its own default if none.
    pub poll_interval: Option<u64>,
    /// Where its metrics go; nowhere if none.
    pub metrics_sink: Option<u64>,
    pub processors: Vec<Processor>,
}

/// How a session starts.
#[derive(Debug)]
pub struct SessionPlan {
    pub task_dumps: Option<TaskDumpConfig>,
    /// Entries to merge into the writer's, if there are any.
    pub segment_metadata: Option<Vec<(String, String)>>,
    /// The sources of the flush thread, in order.
    pub sources: Vec<SourceConfig>,
    /// Where the flush thread's metrics go; nowhere if none.
    pub metrics_sink: Option<u64>,
    /// The background worker, if there is one.
    pub worker: Option<WorkerPlan>,
}

/// The sources of a session, in the order in which the flush thread polls
/// them.
pub open spec fn session_sources(settings: SessionSettings) -> Seq<SourceConfig> {
    seq![SourceConfig::TokioRuntimes] + (match settings.process_resource_usage {
        Some(config) => seq![SourceConfig::ProcessResourceUsage(config)],
        None => Seq::empty(),
    }) + (match settings.socket_accept_queues {
        Some(config) => seq![SourceConfig::SocketAcceptQueues(config)],
        None => Seq::empty(),
    }) + (match settings.cpu_profiling {
        Some(config) => seq![SourceConfig::CpuProfiler(config)],
        None => Seq::empty(),
    }) + (match settings.sched_events {
        Some(config) => seq![SourceConfig::SchedProfiler(config)],
        None => Seq::empty(),
    })
}

/// The plan of a session with the given settings and kind of writer: a
/// background worker runs exactly if there are processors.
pub open spec fn is_session_plan(settings: SessionSettings, disk: bool, plan: SessionPlan) -> bool {
    let processors = crate::pipeline::assembled(
        settings.cpu_profiling is Some,
        disk,
        settings.pipeline,
    );
    &&& plan.task_dumps == settings.task_dumps
    &&& plan.sources@ == session_sources(settings)
    &&& plan.metrics_sink == settings.worker_metrics_sink
    &&& plan.segment_metadata == (if settings.segment_metadata@.len() == 0 {
        None
    } else {
        Some(settings.segment_metadata)
    })
    &&& if processors.len() == 0 {
        plan.worker is None
    } else {
        &&& plan.worker matches Some(worker)
        &&& worker.processors@ == processors
        &&& worker.trace_path == settings.trace_path
        &&& worker.poll_interval == settings.worker_poll_interval
        &&& worker.metrics_sink == settings.worker_metrics_sink
    }
}

/// Plans a session.
pub fn plan_session(settings: SessionSettings, disk: bool) -> (plan: SessionPlan)
    ensures
        is_session_plan(settings, disk, plan),
{
    let ghost given = settings;
    let mut sources: Vec<SourceConfig> = Vec::new();
    sources.push(SourceConfig::TokioRuntimes);
    if let Some(config) = settings.process_resource_usage {
        sources.push(SourceConfig::ProcessResourceUsage(config));
    }
    if let Some(config) = settings.socket_accept_queues {
        sources.push(SourceConfig::SocketAcceptQueues(config));
    }
    if let Some(config) = settings.cpu_profiling {
        sources.push(SourceConfig::CpuProfiler(config));
    }
    if let Some(config) = settings.sched_events {
        sources.push(SourceConfig::SchedProfiler(config));
    }
    assert(sources@ =~= session_sources(given));
    let processors: Vec<Processor> = crate::pipeline::assemble_processors(
        settings.cpu_profiling.is_some(),
        disk,
        settings.pipeline,
    );
    let segment_metadata: Option<Vec<(String, String)>> = if settings.segment_metadata.len() == 0 {
        None
    } else {
        Some(settings.segment_metadata)
    };
    let worker: Option<WorkerPlan> = if processors.len() == 0 {
        None
    } else {
        Some(
            WorkerPlan {
                trace_path: settings.trace_path,
                poll_interval: settings.worker_poll_interval,
                metrics_sink: settings.worker_metrics_sink,
                processors,
            },
        )
    };
    SessionPlan {
        task_dumps: settings.task_dumps,
        segment_metadata,
        sources,
        metrics_sink: settings.worker_metrics_sink,
        worker,
    }
}

/// Entry point for a telemetry session without a runtime.
#[derive(Debug)]
pub struct TelemetryCore;

/// Configures a telemetry session without a runtime.
#[derive(Debug)]
pub struct TelemetryCoreBuilder<M: WriterMode> {
    pub processors: Vec<Processor>,
    pub segment_metadata: Vec<(String, String)>,
    pub s3_config: Option<S3Config>,
    /// The upload client, by its number.
    pub s3_client: Option<u64>,
    pub trace_path: Option<String>,
    pub task_dumps: Option<TaskDumpConfig>,
    pub cpu_profiling: Option<u64>,
    pub sched_events: Option<u64>,
    pub process_resource_usage: Option<SystemMetricsConfig>,
    pub socket_accept_queues: Option<SocketAcceptQueuesConfig>,
    pub worker_poll_interval: Option<u64>,
    pub worker_metrics_sink: Option<u64>,
    pub mode: PhantomData<M>,
}

impl<M: WriterMode> TelemetryCoreBuilder<M> {
    /// The choice of processors: the given ones if there are any, else the
    /// upload preset if it is configured.
    pub open spec fn strategy(self) -> PipelineConfig {
        if self.processors@.len() > 0 {
            PipelineConfig::Custom(self.processors)
        } else {
            match self.s3_config {
                Some(config) => PipelineConfig::S3(
                    S3PipelineUploader { config, client: self.s3_client },
                ),
                None => PipelineConfig::Unset,
            }
        }
    }

    /// The segments' entries: those of the upload preset if it is chosen and
    /// none were given.
    pub open spec fn entries(self) -> Seq<(String, String)> {
        if self.processors@.len() == 0 && self.segment_metadata@.len() == 0 {
            match self.s3_config {
                Some(config) => config.metadata@,
                None => self.segment_metadata@,
            }
        } else {
            self.segment_metadata@
        }
    }

    /// Uploads sealed segments.
    pub fn s3_config(self, config: S3Config) -> (r: Self)
        ensures
            r == (TelemetryCoreBuilder { s3_config: Some(config), ..self }),
    {
        let mut next = self;
        next.s3_config = Some(config);
        next
    }

    /// Uploads with the client of the given number.
    pub fn s3_client(self, client: u64) -> (r: Self)
        ensures
            r == (TelemetryCoreBuilder { s3_client: Some(client), ..self }),
    {
        let mut next = self;
        next.s3_client = Some(client);
        next
    }

    /// Sets the processors.
    pub fn processors(self, processors: Vec<Processor>) -> (r: Self)
        ensures
            r == (TelemetryCoreBuilder { processors, ..self }),
    {
        let mut next = self;
        next.processors = processors;
        next
    }

    /// Sets the segments' entries.
    pub fn segment_metadata(self, entries: Vec<(String, String)>) -> (r: Self)
        ensures
            r == (TelemetryCoreBuilder { segment_metadata: entries, ..self }),
    {
        let mut next = self;
        next.segment_metadata = entries;
        next
    }

    /// Plans the session.
    pub fn build(self) -> (plan: SessionPlan)
        ensures
            exists|metadata: Vec<(String, String)>|
                metadata@ == self.entries() && #[trigger] is_session_plan(
                    SessionSettings {
                        pipeline: self.strategy(),
                        segment_metadata: metadata,
                        trace_path: self.trace_path,
                        task_dumps: self.task_dumps,
                        cpu_profiling: self.cpu_profiling,
                        sched_events: self.sched_events,
                        process_resource_usage: self.process_resource_usage,
                        socket_accept_queues: self.socket_accept_queues,
                        worker_poll_interval: self.worker_poll_interval,
                        worker_metrics_sink: self.worker_metrics_sink,
                    },
                    M::disk(),
                    plan,
                ),
    {
        let mut segment_metadata: Vec<(String, String)> = self.segment_metadata;
        let pipeline: PipelineConfig = if self.processors.len() > 0 {
            PipelineConfig::Custom(self.processors)
        } else {
            match self.s3_config {
                Some(config) => {
                    if segment_metadata.len() == 0 {
                        segment_metadata = config.as_metadata();
                    }
                    PipelineConfig::S3(S3PipelineUploader { config, client: self.s3_client })
                },
                None => PipelineConfig::Unset,
            }
        };
        let settings = SessionSettings {
            pipeline,
            segment_metadata,
            trace_path: self.trace_path,
            task_dumps: self.task_dumps,
            cpu_profiling: self.cpu_profiling,
            sched_events: self.sched_events,
            process_resource_usage: self.process_resource_usage,
            socket_accept_queues: self.socket_accept_queues,
            worker_poll_interval: self.worker_poll_interval,
            worker_metrics_sink: self.worker_metrics_sink,
        };
        plan_session(settings, M::is_disk())
    }
}

impl TelemetryCore {
    /// A configuration in which nothing is set.
    pub fn builder<M: WriterMode>() -> (r: TelemetryCoreBuilder<M>)
        ensures
            r.processors@.len() == 0,
            r.segment_metadata@.len() == 0,
            r.s3_config is None,
            r.s3_client is None,
            r.trace_path is None,
            r.task_dumps is None,
            r.cpu_profiling is None,
            r.sched_events is None,
            r.process_resource_usage is None,
            r.socket_accept_queues is None,
            r.worker_poll_interval is None,
            r.worker_metrics_sink is None,
    {
        TelemetryCoreBuilder {
            processors: Vec::new(),
            segment_metadata: Vec::new(),
            s3_config: None,
            s3_client: None,
            trace_path: None,
            task_dumps: None,
            cpu_profiling: None,
            sched_events: None,
            process_resource_usage: None,
            socket_accept_queues: None,
            worker_poll_interval: None,
            worker_metrics_sink: None,
            mode: PhantomData,
        }
    }
}

/// How a runtime is attached to a session.
#[derive(Debug)]
pub struct AttachPlan {
    pub runtime_name: Option<String>,
    pub task_tracking: bool,
    pub tokio_hooks: TokioHooks,
}

/// What is to be built.
#[derive(Debug)]
pub enum BuildPlan {
    /// A plain runtime and a disabled guard.
    Disabled,
    /// A session and a runtime.
    Traced {
        session: SessionPlan,
        /// Further sources, added once the session runs.
        custom_events: Vec<CustomEventsCallback>,
        /// How the runtime is attached; plain if none.
        attach: Option<AttachPlan>,
        /// Recording starts at once.
        start: bool,
    },
}

impl RuntimeSettings {
    /// The part of the settings that concerns the session.
    pub open spec fn session(self) -> SessionSettings {
        SessionSettings {
            pipeline: self.pipeline,
            segment_metadata: self.segment_metadata,
            trace_path: self.trace_path,
            task_dumps: self.task_dumps,
            cpu_profiling: self.cpu_profiling,
            sched_events: self.sched_events,
            process_resource_usage: self.process_resource_usage,
            socket_accept_queues: self.socket_accept_queues,
            worker_poll_interval: self.worker_poll_interval,
            worker_metrics_sink: self.worker_metrics_sink,
        }
    }

    /// How the runtime is attached: not at all without instrumentation.
    pub open spec fn attach(self) -> Option<AttachPlan> {
        if self.tokio_instrumentation {
            Some(
                AttachPlan {
                    runtime_name: self.runtime_name,
                    task_tracking: self.task_tracking,
                    tokio_hooks: self.tokio_hooks,
                },
            )
        } else {
            None
        }
    }

    /// The plan for these settings and kind of writer.
    pub open spec fn is_plan(self, disk: bool, start: bool, plan: BuildPlan) -> bool {
        if !self.enabled {
            plan is Disabled
        } else {
            &&& plan matches BuildPlan::Traced { session, custom_events, attach, start: started }
            &&& is_session_plan(self.session(), disk, session)
            &&& custom_events == self.custom_events
            &&& attach == self.attach()
            &&& started == start
        }
    }

    fn plan(self, disk: bool, start: bool) -> (plan: BuildPlan)
        ensures
            self.is_plan(disk, start, plan),
    {
        if !self.enabled {
            return BuildPlan::Disabled;
        }
        let session: SessionPlan = plan_session(
            SessionSettings {
                pipeline: self.pipeline,
                segment_metadata: self.segment_metadata,
                trace_path: self.trace_path,
                task_dumps: self.task_dumps,
                cpu_profiling: self.cpu_profiling,
                sched_events: self.sched_events,
                process_resource_usage: self.process_resource_usage,
                socket_accept_queues: self.socket_accept_queues,
                worker_poll_interval: self.worker_poll_interval,
                worker_metrics_sink: self.worker_metrics_sink,
            },
            disk,
        );
        let attach: Option<AttachPlan> = if self.tokio_instrumentation {
            Some(
                AttachPlan {
                    runtime_name: self.runtime_name,
                    task_tracking: self.task_tracking,
                    tokio_hooks: self.tokio_hooks,
                },
            )
        } else {
            None
        };
        BuildPlan::Traced { session, custom_events: self.custom_events, attach, start }
    }
}

impl<P, B: WriterMode> TracedRuntimeBuilder<P, PipelineUnset, B> {
    /// Plans the runtime, for any kind of writer. Recording starts off.
    pub fn build<Mode: WriterMode>(self) -> (plan: BuildPlan)
        ensures
            self.settings.is_plan(Mode::disk(), false, plan),
    {
        self.settings.plan(Mode::is_disk(), false)
    }

    /// Plans the runtime, for any kind of writer. Recording starts at once.
    pub fn build_and_start<Mode: WriterMode>(self) -> (plan: BuildPlan)
        ensures
            self.settings.is_plan(Mode::disk(), true, plan),
    {
        self.settings.plan(Mode::is_disk(), true)
    }
}

impl<P, Mode: WriterMode> TracedRuntimeBuilder<P, PipelineCustom, Mode> {
    /// Plans the runtime, for the kind of writer that the pipeline is for.
    /// Recording starts off.
    pub fn build(self) -> (plan: BuildPlan)
        ensures
            self.settings.is_plan(Mode::disk(), false, plan),
    {
        self.settings.plan(Mode::is_disk(), false)
    }

    /// Plans the runtime, for the kind of writer that the pipeline is for.
    /// Recording starts at once.
    pub fn build_and_start(self) -> (plan: BuildPlan)
        ensures
            self.settings.is_plan(Mode::disk(), true, plan),
    {
        self.settings.plan(Mode::is_disk(), true)
    }
}

impl<P, Mode: WriterMode> TracedRuntimeBuilder<P, PipelineS3, Mode> {
    /// Plans the runtime, for the kind of writer that the pipeline is for.
    /// Recording starts off.
    pub fn build(self) -> (plan: BuildPlan)
        ensures
            self.settings.is_plan(Mode::disk(), false, plan),
    {
        self.settings.plan(Mode::is_disk(), false)
    }

    /// Plans the runtime, for the kind of writer that the pipeline is for.
    /// Recording starts at once.
    pub fn build_and_start(self) -> (plan: BuildPlan)
        ensures
            self.settings.is_plan(Mode::disk(), true, plan),
    {
        self.settings.plan(Mode::is_disk(), true)
    }
}

/// A plain build starts no background worker: without a chosen pipeline and
/// without CPU profiling there is none.
pub proof fn law_a_plain_build_has_no_worker(
    settings: RuntimeSettings,
    disk: bool,
    start: bool,
    plan: BuildPlan,
)
    requires
        settings.is_plan(disk, start, plan),
        settings.pipeline is Unset,
        settings.cpu_profiling is None,
    ensures
        plan matches BuildPlan::Traced { session, .. } ==> session.worker is None,
{
}

/// A custom pipeline is run exactly as it was built, whatever else is
/// configured; without processors there is no background worker.
pub proof fn law_a_custom_pipeline_is_run_verbatim(
    settings: RuntimeSettings,
    user: Vec<Processor>,
    disk: bool,
    start: bool,
    plan: BuildPlan,
)
    requires
        settings.is_plan(disk, start, plan),
        settings.pipeline == PipelineConfig::Custom(user),
    ensures
        plan matches BuildPlan::Traced { session, .. } ==> match session.worker {
            Some(worker) => worker.processors@ == user@,
            None => user@.len() == 0,
        },
{
}

/// How a runtime joins a session that runs already.
#[derive(Debug)]
pub struct JoinPlan {
    /// How the runtime is attached; plain if none.
    pub attach: Option<AttachPlan>,
    /// Sources to add to the session, in order.
    pub sources: Vec<SourceConfig>,
}

/// The sources of the first `n` callbacks.
pub open spec fn callback_sources(callbacks: Seq<CustomEventsCallback>, n: int) -> Seq<
    SourceConfig,
>
    decreases n,
{
    if n <= 0 {
        Seq::empty()
    } else {
        callback_sources(callbacks, n - 1).push(SourceConfig::CustomEvents(callbacks[n - 1]))
    }
}

/// The sources that a runtime brings into a session.
pub open spec fn joining_sources(settings: RuntimeSettings) -> Seq<SourceConfig> {
    (match settings.socket_accept_queues {
        Some(config) => seq![SourceConfig::SocketAcceptQueues(config)],
        None => Seq::empty(),
    }) + callback_sources(settings.custom_events@, settings.custom_events@.len() as int)
}

impl<P, M, Mode: WriterMode> TracedRuntimeBuilder<P, M, Mode> {
    /// Plans how the runtime joins the guard's session: as a plain runtime
    /// that brings no sources if the guard is disabled, and unattached without
    /// instrumentation.
    pub fn build_and_attach_to_telemetry(self, guard: &TelemetryGuard) -> (plan: JoinPlan)
        ensures
            guard.handle is None ==> plan.attach is None && plan.sources@.len() == 0,
            guard.handle is Some ==> plan.attach == self.settings.attach() && plan.sources@
                == joining_sources(self.settings),
    {
        let mut sources: Vec<SourceConfig> = Vec::new();
        if !guard.is_enabled() {
            return JoinPlan { attach: None, sources };
        }
        if let Some(config) = self.settings.socket_accept_queues {
            sources.push(SourceConfig::SocketAcceptQueues(config));
        }
        let ghost first = sources@;
        let mut i: usize = 0;
        while i < self.settings.custom_events.len()
            invariant
                i <= self.settings.custom_events@.len(),
                sources@ =~= first + callback_sources(self.settings.custom_events@, i as int),
            decreases self.settings.custom_events@.len() - i,
        {
            sources.push(SourceConfig::CustomEvents(self.settings.custom_events[i]));
            i = i + 1;
        }
        assert(sources@ =~= joining_sources(self.settings));
        let attach: Option<AttachPlan> = if self.settings.tokio_instrumentation {
            Some(
                AttachPlan {
                    runtime_name: self.settings.runtime_name,
                    task_tracking: self.settings.task_tracking,
                    tokio_hooks: self.settings.tokio_hooks,
                },
            )
        } else {
            None
        };
        JoinPlan { attach, sources }
    }
}

/// Configures a further runtime of a session.
#[derive(Debug)]
pub struct TraceRuntimeCoreBuilder {
    pub name: String,
    pub task_tracking: bool,
}

impl TraceRuntimeCoreBuilder {
    /// A runtime of the given name, without task tracking.
    pub fn new(name: String) -> (r: Self)
        ensures
            r == (TraceRuntimeCoreBuilder { name, task_tracking: false }),
    {
        TraceRuntimeCoreBuilder { name, task_tracking: false }
    }

    /// Whether task spawns and terminations are recorded. Off by default.
    pub fn task_tracking(self, enabled: bool) -> (r: Self)
        ensures
            r == (TraceRuntimeCoreBuilder { task_tracking: enabled, ..self }),
    {
        let mut next = self;
        next.task_tracking = enabled;
        next
    }

    /// Plans how the runtime joins the guard's session, and with which handle
    /// its tasks are wrapped. On a disabled guard the runtime is plain and its
    /// tasks are not wrapped.
    pub fn build(self, guard: &TelemetryGuard) -> (r: (Option<AttachPlan>, Option<TracedHandle>))
        ensures
            match guard.handle {
                Some(Dial9Handle { session: Some(session) }) => {
                    &&& r.1 == Some(TracedHandle { session })
                    &&& r.0 matches Some(attach)
                    &&& attach.runtime_name == Some(self.name)
                    &&& attach.task_tracking == self.task_tracking
                    &&& forall|kind: HookKind| #[trigger]
                        attach.tokio_hooks.callbacks(kind) == Seq::<u64>::empty()
                },
                _ => r.0 is None && r.1 is None,
            },
    {
        match guard.handle().traced_handle() {
            Some(traced) => (
                Some(
                    AttachPlan {
                        runtime_name: Some(self.name),
                        task_tracking: self.task_tracking,
                        tokio_hooks: TokioHooks::default(),
                    },
                ),
                Some(traced),
            ),
            None => (None, None),
        }
    }
}

/// Why a traced runtime could not be built.
#[derive(Debug)]
pub enum TelemetryRuntimeError {
    /// The runtime could not be built.
    TokioRuntimeBuilder(String),
    /// The telemetry session could not be started.
    TelemetryCore(String),
}

impl TelemetryRuntimeError {
    /// The message shown to users.
    pub fn message(&self) -> (r: String)
        ensures
            r@ == (match self {
                TelemetryRuntimeError::TokioRuntimeBuilder(e) => "tokio runtime builder: "@ + e@,
                TelemetryRuntimeError::TelemetryCore(e) => "telemetry core: "@ + e@,
            }),
    {
        match self {
            TelemetryRuntimeError::TokioRuntimeBuilder(e) => "tokio runtime builder: ".to_owned().concat(
                e.as_str(),
            ),
            TelemetryRuntimeError::TelemetryCore(e) => "telemetry core: ".to_owned().concat(
                e.as_str(),
            ),
        }
    }

    /// The message of the underlying error.
    pub fn source(&self) -> (r: &String)
        ensures
            *r == (match self {
                TelemetryRuntimeError::TokioRuntimeBuilder(e) => *e,
                TelemetryRuntimeError::TelemetryCore(e) => *e,
            }),
    {
        match self {
            TelemetryRuntimeError::TokioRuntimeBuilder(e) => e,
            TelemetryRuntimeError::TelemetryCore(e) => e,
        }
    }
}

/// A runtime with its telemetry guard.
#[derive(Debug)]
pub struct TracedRuntime<R> {
    pub runtime: R,
    pub guard: TelemetryGuard,
    /// How long a graceful shutdown may take, in nanoseconds; none if it is
    /// not wanted.
    pub graceful_shutdown_timeout: Option<u64>,
}

/// How building a runtime and its guard can go.
pub open spec fn is_assembly<R, S, T>(
    enabled: bool,
    start: S,
    plain: T,
    r: Result<(R, TelemetryGuard), TelemetryRuntimeError>,
) -> bool where
    S: FnOnce() -> Result<(R, TelemetryGuard), String>,
    T: FnOnce() -> Result<R, String>,
 {
    &&& enabled ==> exists|built: Result<(R, TelemetryGuard), String>| #[trigger]
        call_ensures(start, (), built) && r == (match built {
            Ok(pair) => Ok::<(R, TelemetryGuard), TelemetryRuntimeError>(pair),
            Err(e) => Err::<(R, TelemetryGuard), TelemetryRuntimeError>(
                TelemetryRuntimeError::TelemetryCore(e),
            ),
        })
    &&& !enabled ==> exists|built: Result<R, String>| #[trigger]
        call_ensures(plain, (), built) && match built {
            Ok(runtime) => r matches Ok(pair) && pair.0 == runtime && pair.1.handle is None
                && !pair.1.worker,
            Err(e) => r == Err::<(R, TelemetryGuard), TelemetryRuntimeError>(
                TelemetryRuntimeError::TokioRuntimeBuilder(e),
            ),
        }
}

/// Builds a runtime and its guard. With telemetry the start function builds
/// both; without, the plain build function builds the runtime and the guard is
/// disabled. Errors say which of the two failed.
pub fn try_assemble_dial9_config<R, S, T>(enabled: bool, start: S, plain: T) -> (r: Result<
    (R, TelemetryGuard),
    TelemetryRuntimeError,
>) where
    S: FnOnce() -> Result<(R, TelemetryGuard), String>,
    T: FnOnce() -> Result<R, String>,

    requires
        enabled ==> call_requires(start, ()),
        !enabled ==> call_requires(plain, ()),
    ensures
        is_assembly(enabled, start, plain, r),
{
    if enabled {
        let built: Result<(R, TelemetryGuard), String> = start();
        match built {
            Ok(pair) => Ok(pair),
            Err(e) => Err(TelemetryRuntimeError::TelemetryCore(e)),
        }
    } else {
        let built: Result<R, String> = plain();
        match built {
            Ok(runtime) => Ok((runtime, TelemetryGuard::disabled())),
            Err(e) => Err(TelemetryRuntimeError::TokioRuntimeBuilder(e)),
        }
    }
}

/// Telemetry is installed and the runtime instrumented; nothing else is set.
pub open spec fn is_default(settings: RuntimeSettings) -> bool {
    &&& settings.enabled
    &&& settings.tokio_instrumentation
    &&& !settings.task_tracking
    &&& settings.task_dumps is None
    &&& settings.trace_path is None
    &&& settings.runtime_name is None
    &&& settings.cpu_profiling is None
    &&& settings.sched_events is None
    &&& settings.process_resource_usage is None
    &&& settings.socket_accept_queues is None
    &&& settings.custom_events@.len() == 0
    &&& settings.pipeline is Unset
    &&& settings.segment_metadata@.len() == 0
    &&& settings.worker_poll_interval is None
    &&& settings.worker_metrics_sink is None
    &&& forall|kind: HookKind| #[trigger]
        settings.tokio_hooks.callbacks(kind) == Seq::<u64>::empty()
}

/// The plan that the default settings give.
pub open spec fn is_default_plan(disk: bool, start: bool, plan: BuildPlan) -> bool {
    exists|settings: RuntimeSettings|
        is_default(settings) && #[trigger] settings.is_plan(disk, start, plan)
}

impl<R> TracedRuntime<R> {
    /// The default settings of a traced runtime.
    pub fn builder() -> (r: TracedRuntimeBuilder<NoTracePath, PipelineUnset, Disk>)
        ensures
            is_default(r.settings),
    {
        TracedRuntimeBuilder {
            settings: RuntimeSettings {
                enabled: true,
                tokio_instrumentation: true,
                task_tracking: false,
                task_dumps: None,
                trace_path: None,
                runtime_name: None,
                cpu_profiling: None,
                sched_events: None,
                process_resource_usage: None,
                socket_accept_queues: None,
                custom_events: Vec::new(),
                pipeline: PipelineConfig::Unset,
                segment_metadata: Vec::new(),
                worker_poll_interval: None,
                worker_metrics_sink: None,
                tokio_hooks: TokioHooks::default(),
            },
            marker: PhantomData,
        }
    }

    /// Builds a runtime from a configuration.
    pub fn try_new<S, T>(
        enabled: bool,
        graceful_shutdown_timeout: Option<u64>,
        start: S,
        plain: T,
    ) -> (r: Result<Self, TelemetryRuntimeError>) where
        S: FnOnce() -> Result<(R, TelemetryGuard), String>,
        T: FnOnce() -> Result<R, String>,

        requires
            enabled ==> call_requires(start, ()),
            !enabled ==> call_requires(plain, ()),
        ensures
            r matches Ok(t) ==> t.graceful_shutdown_timeout == graceful_shutdown_timeout,
            enabled ==> exists|built: Result<(R, TelemetryGuard), String>| #[trigger]
                call_ensures(start, (), built) && match built {
                    Ok(pair) => r matches Ok(t) && t.runtime == pair.0 && t.guard == pair.1,
                    Err(e) => r == Err::<TracedRuntime<R>, TelemetryRuntimeError>(
                        TelemetryRuntimeError::TelemetryCore(e),
                    ),
                },
            !enabled ==> exists|built: Result<R, String>| #[trigger]
                call_ensures(plain, (), built) && match built {
                    Ok(runtime) => r matches Ok(t) && t.runtime == runtime && t.guard.handle is None
                        && !t.guard.worker,
                    Err(e) => r == Err::<TracedRuntime<R>, TelemetryRuntimeError>(
                        TelemetryRuntimeError::TokioRuntimeBuilder(e),
                    ),
                },
    {
        match try_assemble_dial9_config(enabled, start, plain) {
            Ok((runtime, guard)) => Ok(TracedRuntime { runtime, guard, graceful_shutdown_timeout }),
            Err(e) => Err(e),
        }
    }

    /// The runtime.
    pub fn runtime(&self) -> (r: &R)
        ensures
            *r == self.runtime,
    {
        &self.runtime
    }

    /// The guard, present whether or not telemetry is enabled.
    pub fn guard(&self) -> (r: &TelemetryGuard)
        ensures
            *r == self.guard,
    {
        &self.guard
    }

    /// The steps that shut the runtime down, in order: the runtime goes first,
    /// so that its threads flush, then the session, gracefully if a timeout
    /// was configured.
    pub open spec fn shutdown(self) -> Seq<ShutdownStep> {
        seq![ShutdownStep::DropRuntime] + match self.graceful_shutdown_timeout {
            Some(timeout) => self.guard.graceful_steps(timeout),
            None => self.guard.drop_steps(),
        }
    }

    /// The steps that shut the runtime down, in order.
    pub fn graceful_shutdown(self) -> (steps: Vec<ShutdownStep>)
        ensures
            steps@ == self.shutdown(),
    {
        let rest: Vec<ShutdownStep> = match self.graceful_shutdown_timeout {
            Some(timeout) => self.guard.graceful_shutdown(timeout),
            None => self.guard.hard_shutdown(),
        };
        let mut steps: Vec<ShutdownStep> = Vec::new();
        steps.push(ShutdownStep::DropRuntime);
        let mut i: usize = 0;
        while i < rest.len()
            invariant
                i <= rest@.len(),
                steps@ =~= seq![ShutdownStep::DropRuntime] + rest@.take(i as int),
            decreases rest@.len() - i,
        {
            steps.push(rest[i]);
            i = i + 1;
        }
        assert(rest@.take(i as int) =~= rest@);
        steps
    }
}
impl<R> TracedRuntime<R> {
    /// Builds a runtime without telemetry, with a disabled guard.
    pub fn build_disabled<T: FnOnce() -> Result<R, String>>(plain: T) -> (r: Result<
        (R, TelemetryGuard),
        String,
    >)
        requires
            call_requires(plain, ()),
        ensures
            exists|built: Result<R, String>| #[trigger]
                call_ensures(plain, (), built) && match built {
                    Ok(runtime) => r matches Ok(pair) && pair.0 == runtime && pair.1.handle is None
                        && !pair.1.worker,
                    Err(e) => r == Err::<(R, TelemetryGuard), String>(e),
                },
    {
        let built: Result<R, String> = plain();
        match built {
            Ok(runtime) => Ok((runtime, TelemetryGuard::disabled())),
            Err(e) => Err(e),
        }
    }

    /// Plans a runtime with the default settings. Recording starts off.
    pub fn build<Mode: WriterMode>() -> (plan: BuildPlan)
        ensures
            is_default_plan(Mode::disk(), false, plan),
    {
        let settings = TracedRuntime::<R>::builder().settings;
        let plan = settings.plan(Mode::is_disk(), false);
        assert(is_default(settings) && settings.is_plan(Mode::disk(), false, plan));
        plan
    }

    /// Plans a runtime with the default settings. Recording starts at once.
    pub fn build_and_start<Mode: WriterMode>() -> (plan: BuildPlan)
        ensures
            is_default_plan(Mode::disk(), true, plan),
    {
        let settings = TracedRuntime::<R>::builder().settings;
        let plan = settings.plan(Mode::is_disk(), true);
        assert(is_default(settings) && settings.is_plan(Mode::disk(), true, plan));
        plan
    }
}


proof fn lemma_callback_sources(callbacks: Seq<CustomEventsCallback>, n: int)
    requires
        0 <= n <= callbacks.len(),
    ensures
        callback_sources(callbacks, n).len() == n,
        forall|i: int|
            0 <= i < n ==> #[trigger] callback_sources(callbacks, n)[i]
                == SourceConfig::CustomEvents(callbacks[i]),
    decreases n,
{
    if n > 0 {
        lemma_callback_sources(callbacks, n - 1);
    }
}

/// A session polls the runtimes, and each source that is configured, with its
/// configuration, and no other: of each kind at most one, and the runtimes
/// first.
pub proof fn law_a_session_polls_what_is_configured(
    settings: SessionSettings,
    disk: bool,
    plan: SessionPlan,
    source: SourceConfig,
)
    requires
        is_session_plan(settings, disk, plan),
    ensures
        plan.sources@.no_duplicates(),
        plan.sources@[0] is TokioRuntimes,
        plan.sources@.contains(source) <==> match source {
            SourceConfig::TokioRuntimes => true,
            SourceConfig::ProcessResourceUsage(config) => settings.process_resource_usage == Some(
                config,
            ),
            SourceConfig::SocketAcceptQueues(config) => settings.socket_accept_queues == Some(
                config,
            ),
            SourceConfig::CpuProfiler(config) => settings.cpu_profiling == Some(config),
            SourceConfig::SchedProfiler(config) => settings.sched_events == Some(config),
            SourceConfig::CustomEvents(_) => false,
        },
{
    let sources = plan.sources@;
    let a: int = 1;
    let b: int = a + if settings.process_resource_usage is Some {
        1int
    } else {
        0
    };
    let c: int = b + if settings.socket_accept_queues is Some {
        1int
    } else {
        0
    };
    let d: int = c + if settings.cpu_profiling is Some {
        1int
    } else {
        0
    };
    let e: int = d + if settings.sched_events is Some {
        1int
    } else {
        0
    };
    assert(sources.len() == e);
    assert(sources[0] == SourceConfig::TokioRuntimes);
    if let Some(config) = settings.process_resource_usage {
        assert(sources[a] == SourceConfig::ProcessResourceUsage(config));
    }
    if let Some(config) = settings.socket_accept_queues {
        assert(sources[b] == SourceConfig::SocketAcceptQueues(config));
    }
    if let Some(config) = settings.cpu_profiling {
        assert(sources[c] == SourceConfig::CpuProfiler(config));
    }
    if let Some(config) = settings.sched_events {
        assert(sources[d] == SourceConfig::SchedProfiler(config));
    }
}

/// A background worker runs exactly if there is something to do for it, with
/// the settings for it; entries of the user are handed on as they are, if there
/// are any.
pub proof fn law_a_worker_runs_for_processors(
    settings: SessionSettings,
    disk: bool,
    plan: SessionPlan,
)
    requires
        is_session_plan(settings, disk, plan),
    ensures
        settings.pipeline is S3 || (settings.pipeline is Unset && settings.cpu_profiling is Some)
            ==> plan.worker is Some,
        settings.pipeline is Unset && settings.cpu_profiling is None ==> plan.worker is None,
        settings.pipeline matches PipelineConfig::Custom(list) ==> (plan.worker is Some
            <==> list@.len() > 0),
        plan.worker matches Some(worker) ==> worker.processors@.len() > 0 && worker.trace_path
            == settings.trace_path && worker.poll_interval == settings.worker_poll_interval
            && worker.metrics_sink == settings.worker_metrics_sink,
        plan.segment_metadata is Some <==> settings.segment_metadata@.len() > 0,
        plan.segment_metadata matches Some(entries) ==> entries == settings.segment_metadata,
        plan.task_dumps == settings.task_dumps,
        plan.metrics_sink == settings.worker_metrics_sink,
{
}

/// A runtime that joins a session brings its socket source, if it has one, and
/// then its callbacks in order.
pub proof fn law_a_joining_runtime_brings_its_sources(settings: RuntimeSettings, i: int)
    requires
        0 <= i < settings.custom_events@.len(),
    ensures
        ({
            let sources = joining_sources(settings);
            let first: int = if settings.socket_accept_queues is Some {
                1
            } else {
                0
            };
            &&& sources.len() == first + settings.custom_events@.len()
            &&& settings.socket_accept_queues matches Some(config) ==> sources[0]
                == SourceConfig::SocketAcceptQueues(config)
            &&& sources[first + i] == SourceConfig::CustomEvents(settings.custom_events@[i])
        }),
{
    lemma_callback_sources(settings.custom_events@, settings.custom_events@.len() as int);
}

/// Settings that are not enabled plan nothing. Enabled ones hand every setting
/// on, attach the runtime exactly if it is instrumented, and start recording as
/// asked.
pub proof fn law_a_build_hands_every_setting_on(
    settings: RuntimeSettings,
    disk: bool,
    start: bool,
    plan: BuildPlan,
)
    requires
        settings.is_plan(disk, start, plan),
    ensures
        plan is Disabled <==> !settings.enabled,
        plan matches BuildPlan::Traced { session, custom_events, attach, start: started } ==> {
            &&& started == start
            &&& custom_events == settings.custom_events
            &&& attach is Some <==> settings.tokio_instrumentation
            &&& attach matches Some(a) ==> a.runtime_name == settings.runtime_name
                && a.task_tracking == settings.task_tracking && a.tokio_hooks
                == settings.tokio_hooks
            &&& session.task_dumps == settings.task_dumps
            &&& session.metrics_sink == settings.worker_metrics_sink
            &&& session.segment_metadata matches Some(entries) ==> entries
                == settings.segment_metadata
            &&& session.worker matches Some(worker) ==> worker.trace_path == settings.trace_path
                && worker.poll_interval == settings.worker_poll_interval
        },
{
}

/// Given processors are used as they are. Else an upload configuration chooses
/// the upload preset, with the given client; without it nothing is chosen.
pub proof fn law_given_processors_come_before_the_upload_preset<M: WriterMode>(
    builder: TelemetryCoreBuilder<M>,
)
    ensures
        builder.processors@.len() > 0 ==> builder.strategy() == PipelineConfig::Custom(
            builder.processors,
        ),
        builder.processors@.len() == 0 && builder.s3_config is None ==> builder.strategy()
            is Unset,
        builder.processors@.len() == 0 && builder.s3_config is Some ==> (
        builder.strategy() matches PipelineConfig::S3(uploader) && uploader.config
            == builder.s3_config->0 && uploader.client == builder.s3_client),
{
}

/// Entries that were given are used. Those of the upload configuration take
/// their place only if none were given and the upload preset is chosen.
pub proof fn law_given_entries_come_before_those_of_the_upload<M: WriterMode>(
    builder: TelemetryCoreBuilder<M>,
)
    ensures
        builder.segment_metadata@.len() > 0 || !(builder.strategy() is S3) ==> builder.entries()
            == builder.segment_metadata@,
        builder.segment_metadata@.len() == 0 ==> (builder.strategy() matches PipelineConfig::S3(
            uploader,
        ) ==> builder.entries() == uploader.config.metadata@),
{
}

/// A client goes to the upload of a pipeline and changes nothing else of it; a
/// pipeline without an upload has no use for it.
pub proof fn law_a_client_goes_to_the_upload(pipeline: PipelineConfig, client: Option<u64>)
    ensures
        pipeline matches PipelineConfig::S3(uploader) ==> (with_client(
            pipeline,
            client,
        ) matches PipelineConfig::S3(after) && after.config == uploader.config && after.client
            == client) && client_of(pipeline) == uploader.client,
        !(pipeline is S3) ==> with_client(pipeline, client) == pipeline && client_of(pipeline)
            is None,
{
}

/// The runtime is dropped before its session is ended: gracefully, with the
/// timeout, if one was configured.
pub proof fn law_the_runtime_is_dropped_first<R>(traced: TracedRuntime<R>)
    ensures
        traced.shutdown()[0] is DropRuntime,
        traced.graceful_shutdown_timeout matches Some(timeout) ==> traced.shutdown().skip(1)
            == traced.guard.graceful_steps(timeout),
        traced.graceful_shutdown_timeout is None ==> traced.shutdown().skip(1)
            == traced.guard.drop_steps(),
{
    let rest = match traced.graceful_shutdown_timeout {
        Some(timeout) => traced.guard.graceful_steps(timeout),
        None => traced.guard.drop_steps(),
    };
    assert(traced.shutdown().skip(1) =~= rest);
}

/// By default a runtime is traced and instrumented without task tracking, and
/// nothing runs in the background.
pub proof fn law_the_default_plan_is_plain(disk: bool, start: bool, plan: BuildPlan)
    requires
        is_default_plan(disk, start, plan),
    ensures
        plan matches BuildPlan::Traced { session, custom_events, attach, start: started } && {
            &&& started == start
            &&& session.worker is None
            &&& session.sources@ == seq![SourceConfig::TokioRuntimes]
            &&& session.segment_metadata is None
            &&& custom_events@.len() == 0
            &&& attach matches Some(a) && a.runtime_name is None && !a.task_tracking
        },
{
    let settings = choose|settings: RuntimeSettings|
        is_default(settings) && #[trigger] settings.is_plan(disk, start, plan);
    if let BuildPlan::Traced { session, .. } = plan {
        assert(session.sources@ =~= seq![SourceConfig::TokioRuntimes]);
    }
}

/// With telemetry, what starting it gave is what comes out, and its failure is
/// reported as one of telemetry. Without, the runtime is the plain one, its
/// guard is disabled, and its failure is reported as one of the runtime.
pub proof fn law_a_runtime_comes_from_the_path_that_is_enabled<R, S, T>(
    enabled: bool,
    start: S,
    plain: T,
    r: Result<(R, TelemetryGuard), TelemetryRuntimeError>,
    traced: Result<(R, TelemetryGuard), String>,
    untraced: Result<R, String>,
) where S: FnOnce() -> Result<(R, TelemetryGuard), String>, T: FnOnce() -> Result<R, String>
    requires
        is_assembly(enabled, start, plain, r),
        forall|built: Result<(R, TelemetryGuard), String>| #[trigger]
            call_ensures(start, (), built) ==> built == traced,
        forall|built: Result<R, String>| #[trigger]
            call_ensures(plain, (), built) ==> built == untraced,
    ensures
        enabled ==> match traced {
            Ok(pair) => r matches Ok(got) && got == pair,
            Err(e) => r matches Err(TelemetryRuntimeError::TelemetryCore(got)) && got == e,
        },
        !enabled ==> match untraced {
            Ok(runtime) => r matches Ok(got) && got.0 == runtime && got.1.handle is None
                && !got.1.worker,
            Err(e) => r matches Err(TelemetryRuntimeError::TokioRuntimeBuilder(got)) && got == e,
        },
{
}

} // verus!
