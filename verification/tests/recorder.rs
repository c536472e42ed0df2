//! Configuring and running a telemetry session.
use dial9_tokio_telemetry::buffer::{ThreadLocalBuffer, TraceEncoder};
use dial9_tokio_telemetry::builder::{
    BuildPlan, NoTracePath, PipelineUnset, SourceConfig, TaskDumpConfig, TelemetryCore,
    TelemetryRuntimeError, TraceRuntimeCoreBuilder, TracedRuntime, TracedRuntimeBuilder,
};
use dial9_tokio_telemetry::custom_events::CustomEventsConfig;
use dial9_tokio_telemetry::format::WorkerId;
use dial9_tokio_telemetry::guard::{ShutdownStep, TelemetryGuard};
use dial9_tokio_telemetry::handle::{
    spawn, Dial9Handle, Dial9TokioHandle, SpawnTarget, TelemetryHandle, ThreadContext,
};
use dial9_tokio_telemetry::pipeline::{
    assemble_processors, PipelineBuilder, PipelineConfig, Processor, S3Config, S3PipelineUploader,
};
use dial9_tokio_telemetry::runtime_hooks::{
    attach_runtime, hook_steps, registers_hook, runtime_entries, task_spawned, task_terminated,
    RuntimeContext, ThreadRole, ThreadRoles,
};
use dial9_tokio_telemetry::shared_state::SharedState;
use dial9_tokio_telemetry::socket_accept_queues::SocketAcceptQueuesConfig;
use dial9_tokio_telemetry::system_metrics::SystemMetricsConfig;
use dial9_tokio_telemetry::tokio_hooks::{HookKind, HookStep, TokioHooks};
use dial9_tokio_telemetry::traced::{
    record_wake_event, TracedFuture, TracedFutureState, TracedHandle,
};
use dial9_tokio_telemetry::writer::{Disk, Memory};
use std::cell::Cell;

type Unconfigured = TracedRuntimeBuilder<NoTracePath, PipelineUnset, Disk>;

fn builder() -> Unconfigured {
    TracedRuntime::<()>::builder()
}

fn pair(key: &str, value: &str) -> (String, String) {
    (key.to_string(), value.to_string())
}

fn s3_cfg() -> S3Config {
    S3Config {
        metadata: vec![
            pair("bucket", "test-bucket"),
            pair("service_name", "checkout-api"),
            pair("instance_path", "us-east-1/i-0abc123"),
            pair("boot_id", "test-boot"),
        ],
    }
}

fn get<'a>(entries: &'a [(String, String)], key: &str) -> Option<&'a str> {
    entries.iter().find(|(k, _)| k == key).map(|(_, v)| v.as_str())
}

fn client_of(pipeline: &PipelineConfig) -> Option<u64> {
    match pipeline {
        PipelineConfig::S3(uploader) => uploader.client,
        other => panic!("expected S3 pipeline, got {other:?}"),
    }
}

fn names(processors: &[Processor]) -> Vec<&'static str> {
    processors
        .iter()
        .map(|p| match p {
            Processor::Symbolize => "symbolize",
            Processor::Gzip => "gzip",
            Processor::WriteBack => "write_back",
            Processor::S3(_) => "s3",
            Processor::User(_) => "user",
        })
        .collect()
}

#[test]
fn try_new_enabled_path_returns_value_and_exposes_guard() {
    let rt = TracedRuntime::try_new(
        true,
        Some(5),
        || Ok((5u32, TelemetryGuard::enabled(Dial9Handle::enabled(1), false))),
        || Ok(0),
    )
    .expect("runtime should build");
    assert!(rt.guard().is_enabled(), "enabled config must install a live guard");
    assert_eq!(*rt.runtime(), 5);
}

#[test]
fn try_new_disabled_path_returns_value_no_guard() {
    let rt = TracedRuntime::try_new(false, None, || Err("unused".to_string()), || Ok(11u32))
        .expect("disabled runtime should build");
    assert!(!rt.guard().is_enabled(), "disabled config must yield an inert guard");
    assert_eq!(*rt.runtime(), 11);
}

#[test]
fn failures_say_what_could_not_be_built() {
    let core = TracedRuntime::<()>::try_new(true, None, || Err("disk full".to_string()), || Ok(()));
    assert_eq!(core.unwrap_err().message(), "telemetry core: disk full");
    let plain = TracedRuntime::<()>::try_new(
        false,
        None,
        || Err("unused".to_string()),
        || Err("no threads".to_string()),
    );
    assert_eq!(plain.unwrap_err().message(), "tokio runtime builder: no threads");
}

#[test]
fn telemetry_runtime_error_display_and_source_chain() {
    let err = TelemetryRuntimeError::TelemetryCore("boom".to_string());
    let display = err.message();
    assert!(display.contains("telemetry core:"), "got: {display}");
    assert!(display.contains("boom"), "got: {display}");
    assert_eq!(err.source(), "boom");
}

#[test]
fn telemetry_handle_current_off_runtime_returns_inert_handle() {
    let thread = ThreadContext::new();
    let mut shared = SharedState::new(0);
    let handle = TelemetryHandle::current(&thread);
    assert!(!handle.is_enabled(), "off-runtime current() must return an inert handle");
    assert!(Dial9Handle::try_current(&thread).is_none());
    // No-op control methods must not change anything.
    handle.enable(&mut shared);
    assert!(!shared.is_enabled());
    handle.disable(&mut shared);
    assert!(!shared.is_enabled());
}

#[test]
fn telemetry_handle_disabled_constructor_is_inert() {
    let handle = TelemetryHandle::disabled();
    assert!(!handle.is_enabled());
    assert!(handle.traced_handle().is_none());
}

#[test]
fn disabled_handle_spawn_falls_through_to_tokio_spawn() {
    let mut thread = ThreadContext::new();
    let result = Dial9TokioHandle::disabled().spawn(&mut thread, 17u32, |target, future, thread| {
        assert_eq!(target, SpawnTarget::Current);
        assert!(!thread.is_instrumented());
        match future.state {
            TracedFutureState::Init { inner, handle } => {
                assert!(handle.is_none());
                inner
            }
            other => panic!("unexpected state {other:?}"),
        }
    });
    assert_eq!(result, 17);
}

#[test]
fn spawns_on_a_traced_thread_are_instrumented() {
    let mut thread = ThreadContext::new();
    thread.install(Dial9Handle::enabled(9));
    spawn(&mut thread, "task", |target, future, thread| {
        assert_eq!(target, SpawnTarget::Current);
        assert!(thread.is_instrumented());
        match future.state {
            TracedFutureState::Init { inner, handle } => {
                assert_eq!(inner, "task");
                assert_eq!(handle, Some(TracedHandle { session: 9 }));
            }
            other => panic!("unexpected state {other:?}"),
        }
        // A spawn within a spawn leaves the outer one in place.
        Dial9TokioHandle::current(thread).spawn_with(thread, (), |_, thread| {
            assert!(thread.is_instrumented());
        });
        assert!(thread.is_instrumented());
    });
    assert!(!thread.is_instrumented());
    let bound = Dial9TokioHandle::for_runtime(4, Some(TracedHandle { session: 9 }));
    bound.spawn(&mut thread, (), |target, _, _| assert_eq!(target, SpawnTarget::Runtime(4)));
}

#[test]
fn disabled_guard_graceful_shutdown_is_noop_ok() {
    let guard = TelemetryGuard::disabled();
    assert!(!guard.is_enabled());
    assert!(guard.graceful_shutdown(1_000_000_000).is_empty());
    assert!(TelemetryGuard::disabled().hard_shutdown().is_empty());
}

#[test]
fn disabled_dial9_config_yields_inert_guard() {
    let rt = TracedRuntime::try_new(false, None, || Err("unused".to_string()), || Ok(21u32)).unwrap();
    let guard = rt.guard();
    assert!(!guard.is_enabled());
    assert!(!guard.handle().is_enabled());
    // start_time is None on a disabled guard.
    assert!(guard.start_time(&SharedState::new(3)).is_none());
    assert_eq!(*rt.runtime(), 21);
}

#[test]
fn an_enabled_guard_controls_its_session() {
    let mut shared = SharedState::new(33);
    let guard = TelemetryGuard::enabled(Dial9Handle::enabled(1), true);
    assert_eq!(guard.start_time(&shared), Some(33));
    guard.enable(&mut shared);
    assert!(shared.is_enabled());
    guard.disable(&mut shared);
    assert!(!shared.is_enabled());
    assert_eq!(
        guard.graceful_shutdown(7),
        vec![
            ShutdownStep::DrainOwnBuffer,
            ShutdownStep::FinalizeAndStop,
            ShutdownStep::JoinFlushThread,
            ShutdownStep::DrainWorker(7),
            ShutdownStep::JoinWorker,
        ]
    );
    let dropped = TelemetryGuard::enabled(Dial9Handle::enabled(1), true).hard_shutdown();
    assert_eq!(dropped[3], ShutdownStep::AbandonWorker);
    let workerless = TelemetryGuard::enabled(Dial9Handle::enabled(1), false).graceful_shutdown(7);
    assert_eq!(workerless.len(), 3);
}

#[test]
fn the_runtime_goes_before_its_session() {
    let runtime = |timeout| TracedRuntime {
        runtime: (),
        guard: TelemetryGuard::enabled(Dial9Handle::enabled(1), true),
        graceful_shutdown_timeout: timeout,
    };
    let graceful = runtime(Some(3)).graceful_shutdown();
    assert_eq!(graceful[0], ShutdownStep::DropRuntime);
    assert_eq!(graceful[4], ShutdownStep::DrainWorker(3));
    let hard = runtime(None).graceful_shutdown();
    assert_eq!(hard[0], ShutdownStep::DropRuntime);
    assert_eq!(hard[4], ShutdownStep::AbandonWorker);
}

#[test]
fn with_s3_client_then_with_s3_uploader_preserves_client() {
    // Order A: client set after the uploader.
    let built = builder().with_s3_uploader::<Disk>(s3_cfg()).with_s3_client(1);
    assert!(client_of(&built.settings.pipeline).is_some(), "client must be present in order A");
    // Order B: client set first, then a follow-up `with_s3_uploader`.
    let built = builder()
        .with_s3_uploader::<Disk>(s3_cfg())
        .with_s3_client(1)
        .with_s3_uploader(s3_cfg());
    assert_eq!(client_of(&built.settings.pipeline), Some(1));
}

#[test]
fn s3_preset_populates_from_config() {
    let built = builder().with_s3_uploader::<Disk>(s3_cfg());
    let entries = &built.settings.segment_metadata;
    assert_eq!(get(entries, "bucket"), Some("test-bucket"));
    assert_eq!(get(entries, "service_name"), Some("checkout-api"));
    assert_eq!(get(entries, "instance_path"), Some("us-east-1/i-0abc123"));
    assert_eq!(get(entries, "boot_id"), Some("test-boot"));
}

#[test]
fn s3_preset_replace_overwrites_metadata() {
    let cfg2 = S3Config {
        metadata: vec![
            pair("bucket", "other-bucket"),
            pair("service_name", "other-svc"),
            pair("boot_id", "other-boot"),
        ],
    };
    let built = builder().with_s3_uploader::<Disk>(s3_cfg()).with_s3_uploader(cfg2);
    let entries = &built.settings.segment_metadata;
    // The second configuration wins; nothing leaks from the first call.
    assert_eq!(get(entries, "bucket"), Some("other-bucket"));
    assert_eq!(get(entries, "service_name"), Some("other-svc"));
    assert_eq!(get(entries, "boot_id"), Some("other-boot"));
    assert_eq!(get(entries, "instance_path"), None);
}

#[test]
fn custom_pipeline_with_s3_does_not_auto_populate() {
    let built = builder().with_custom_pipeline(|b: PipelineBuilder<Disk>| b.gzip().s3(s3_cfg()));
    assert!(built.settings.segment_metadata.is_empty());
}

#[test]
fn custom_pipeline_without_s3_is_empty() {
    let built = builder().with_custom_pipeline(|b: PipelineBuilder<Disk>| b.gzip().write_back());
    assert!(built.settings.segment_metadata.is_empty());
}

#[test]
fn unset_pipeline_is_empty() {
    assert!(builder().settings.segment_metadata.is_empty());
}

#[test]
fn with_segment_metadata_recovers_parity_in_custom_pipeline() {
    let preset_entries = s3_cfg().as_metadata();
    let built = builder()
        .with_custom_pipeline(|b: PipelineBuilder<Disk>| b.gzip().s3(s3_cfg()))
        .with_segment_metadata(preset_entries.clone());
    assert_eq!(built.settings.segment_metadata, preset_entries);
}

#[test]
fn with_segment_metadata_after_s3_overrides_preset() {
    let custom = vec![pair("env", "prod")];
    let built = builder().with_s3_uploader::<Disk>(s3_cfg()).with_segment_metadata(custom.clone());
    assert_eq!(built.settings.segment_metadata, custom);
}

#[test]
fn s3_after_with_segment_metadata_overwrites() {
    let built = builder()
        .with_segment_metadata(vec![pair("env", "prod")])
        .with_s3_uploader::<Disk>(s3_cfg());
    let entries = &built.settings.segment_metadata;
    assert_eq!(get(entries, "bucket"), Some("test-bucket"));
    assert_eq!(get(entries, "env"), None, "with_s3_uploader should overwrite, not merge");
}

#[test]
fn presets_assemble_their_processors() {
    let uploader = || PipelineConfig::S3(S3PipelineUploader { config: s3_cfg(), client: None });
    assert!(assemble_processors(false, true, PipelineConfig::Unset).is_empty());
    let disk = assemble_processors(true, true, PipelineConfig::Unset);
    assert_eq!(names(&disk), ["symbolize", "gzip", "write_back"]);
    let memory = assemble_processors(true, false, PipelineConfig::Unset);
    assert_eq!(names(&memory), ["symbolize", "gzip"]);
    assert_eq!(names(&assemble_processors(false, true, uploader())), ["gzip", "s3"]);
    assert_eq!(names(&assemble_processors(true, false, uploader())), ["symbolize", "gzip", "s3"]);
    let custom = PipelineBuilder::<Memory>::new().pipe(4).symbolize().into_processors();
    let assembled = assemble_processors(true, false, PipelineConfig::Custom(custom));
    assert_eq!(names(&assembled), ["user", "symbolize"]);
}

#[test]
fn settings_reach_the_plan() {
    let plan = builder()
        .with_trace_path("first.bin".to_string())
        .with_trace_path("trace.bin".to_string())
        .with_runtime_name("main".to_string())
        .with_task_tracking(true)
        .with_task_dumps(TaskDumpConfig { idle_threshold: 10, rng_seed: Some(1) })
        .with_cpu_profiling(100)
        .with_sched_events(200)
        .with_process_resource_usage(SystemMetricsConfig::default())
        .with_socket_accept_queues(SocketAcceptQueuesConfig::default())
        .with_custom_events(CustomEventsConfig::default(), 7)
        .with_worker_poll_interval(50)
        .with_worker_metrics_sink(60)
        .with_segment_metadata(vec![pair("env", "prod")])
        .with_tokio_hooks(|hooks: &mut TokioHooks| {
            hooks.on_thread_start(3);
        })
        .build_and_start::<Disk>();
    match plan {
        BuildPlan::Traced { session, custom_events, attach, start } => {
            assert!(start);
            assert_eq!(session.sources.len(), 5);
            assert!(matches!(session.sources[0], SourceConfig::TokioRuntimes));
            assert!(matches!(session.sources[1], SourceConfig::ProcessResourceUsage(_)));
            assert!(matches!(session.sources[2], SourceConfig::SocketAcceptQueues(_)));
            assert!(matches!(session.sources[3], SourceConfig::CpuProfiler(100)));
            assert!(matches!(session.sources[4], SourceConfig::SchedProfiler(200)));
            assert_eq!(session.segment_metadata, Some(vec![pair("env", "prod")]));
            assert_eq!(session.metrics_sink, Some(60));
            let worker = session.worker.expect("CPU profiling needs a worker");
            assert_eq!(worker.trace_path.as_deref(), Some("first.bin"));
            assert_eq!(worker.poll_interval, Some(50));
            assert_eq!(names(&worker.processors), ["symbolize", "gzip", "write_back"]);
            assert_eq!(custom_events.len(), 1);
            assert_eq!(custom_events[0].callback, 7);
            let attach = attach.expect("instrumented");
            assert_eq!(attach.runtime_name.as_deref(), Some("main"));
            assert!(attach.task_tracking);
            assert_eq!(attach.tokio_hooks.execute(HookKind::ThreadStart), vec![3]);
        }
        other => panic!("expected a traced plan, got {other:?}"),
    }
}

#[test]
fn telemetry_can_be_switched_off() {
    assert!(matches!(builder().install(false).build_and_start::<Disk>(), BuildPlan::Disabled));
    match builder().with_tokio_instrumentation(false).build::<Memory>() {
        BuildPlan::Traced { session, attach, start, .. } => {
            assert!(attach.is_none());
            assert!(!start);
            assert!(session.worker.is_none());
            assert!(session.segment_metadata.is_none());
        }
        other => panic!("expected a traced plan, got {other:?}"),
    }
}

#[test]
fn a_custom_pipeline_is_taken_as_it_is() {
    let plan = builder()
        .with_cpu_profiling(1)
        .with_custom_pipeline(|b: PipelineBuilder<Memory>| b.pipe(9))
        .build();
    match plan {
        BuildPlan::Traced { session, .. } => {
            assert_eq!(names(&session.worker.unwrap().processors), ["user"]);
        }
        other => panic!("expected a traced plan, got {other:?}"),
    }
    let empty = builder()
        .with_cpu_profiling(1)
        .with_custom_pipeline(|b: PipelineBuilder<Memory>| b)
        .build_and_start();
    match empty {
        BuildPlan::Traced { session, .. } => assert!(session.worker.is_none()),
        other => panic!("expected a traced plan, got {other:?}"),
    }
}

#[test]
fn telemetry_core_builds_guard_without_runtime() {
    let plan = TelemetryCore::builder::<Disk>().build();
    assert_eq!(plan.sources.len(), 1);
    assert!(plan.worker.is_none());
    // The upload preset brings its entries unless others are given.
    let preset = TelemetryCore::builder::<Disk>().s3_config(s3_cfg()).s3_client(3).build();
    assert_eq!(preset.segment_metadata, Some(s3_cfg().metadata));
    assert_eq!(names(&preset.worker.unwrap().processors), ["gzip", "s3"]);
    let given = TelemetryCore::builder::<Disk>()
        .s3_config(s3_cfg())
        .segment_metadata(vec![pair("env", "prod")])
        .build();
    assert_eq!(given.segment_metadata, Some(vec![pair("env", "prod")]));
    let processors = TelemetryCore::builder::<Disk>()
        .s3_config(s3_cfg())
        .processors(vec![Processor::Gzip])
        .build();
    assert_eq!(names(&processors.worker.unwrap().processors), ["gzip"]);
    assert!(processors.segment_metadata.is_none());
}

#[test]
fn build_and_attach_to_telemetry_attaches_second_runtime() {
    let guard = TelemetryGuard::enabled(Dial9Handle::enabled(1), false);
    let second = || {
        builder()
            .with_runtime_name("second".to_string())
            .with_socket_accept_queues(SocketAcceptQueuesConfig::default())
            .with_custom_events(CustomEventsConfig::default(), 1)
            .with_custom_events(CustomEventsConfig::default(), 2)
    };
    let plan = second().build_and_attach_to_telemetry(&guard);
    assert_eq!(plan.attach.unwrap().runtime_name.as_deref(), Some("second"));
    assert_eq!(plan.sources.len(), 3);
    assert!(matches!(plan.sources[0], SourceConfig::SocketAcceptQueues(_)));
    assert!(matches!(&plan.sources[2], SourceConfig::CustomEvents(c) if c.callback == 2));
    let plain = second().build_and_attach_to_telemetry(&TelemetryGuard::disabled());
    assert!(plain.attach.is_none());
    assert!(plain.sources.is_empty());
}

#[test]
fn build_and_attach_to_telemetry_produces_unique_worker_ids() {
    let mut shared = SharedState::new(0);
    let mut contexts: Vec<RuntimeContext> = Vec::new();
    attach_runtime(&mut shared, &mut contexts, Some("a".to_string()), 2);
    attach_runtime(&mut shared, &mut contexts, None, 3);
    assert_eq!(contexts[0].worker_ids, vec![0, 1]);
    assert_eq!(contexts[1].worker_ids, vec![2, 3, 4]);
    assert_eq!(contexts[0].runtime_name.as_deref(), Some("a"));
}

#[test]
fn trace_runtime_build_returns_telemetry_handle() {
    let guard = TelemetryGuard::enabled(Dial9Handle::enabled(5), false);
    let (attach, traced) =
        TraceRuntimeCoreBuilder::new("io".to_string()).task_tracking(true).build(&guard);
    let attach = attach.expect("an enabled guard attaches");
    assert_eq!(attach.runtime_name.as_deref(), Some("io"));
    assert!(attach.task_tracking);
    assert_eq!(traced, Some(TracedHandle { session: 5 }));
    let (attach, traced) =
        TraceRuntimeCoreBuilder::new("io".to_string()).build(&TelemetryGuard::disabled());
    assert!(attach.is_none());
    assert!(traced.is_none());
}

#[test]
fn traced_future_falls_back_after_missing_task_context() {
    let handle = Dial9Handle::enabled(1).traced_handle().expect("enabled handle yields TracedHandle");
    let lookups = Cell::new(0);
    let future = TracedFuture::new((), Some(handle)).resolve(|| {
        lookups.set(lookups.get() + 1);
        None
    });
    assert!(matches!(future.state, TracedFutureState::Passthrough { .. }));
    // Later polls go straight through without retrying the lookup.
    let future = future.resolve(|| {
        lookups.set(lookups.get() + 1);
        Some(1)
    });
    assert!(matches!(future.state, TracedFutureState::Passthrough { .. }));
    assert_eq!(lookups.get(), 1);
}

#[test]
fn the_first_poll_decides_how_a_future_runs() {
    let handle = TracedHandle { session: 2 };
    let traced = TracedFuture::new('x', Some(handle)).resolve(|| Some(7)).resolve(|| Some(8));
    match traced.state {
        TracedFutureState::Instrumented { inner, handle, task_id } => {
            assert_eq!((inner, handle.session, task_id), ('x', 2, 7));
        }
        other => panic!("unexpected state {other:?}"),
    }
    let plain = TracedFuture::new('y', None).resolve(|| panic!("no lookup without a handle"));
    assert!(matches!(plain.state, TracedFutureState::Passthrough { inner: 'y' }));
}

#[test]
fn wakes_are_recorded_while_recording_is_on() {
    let mut shared = SharedState::new(0);
    assert!(record_wake_event(&shared, 1, None, 2, WorkerId(3)).is_none());
    shared.set_enabled(true);
    let event = record_wake_event(&shared, 1, None, 2, WorkerId(3)).unwrap();
    assert_eq!((event.timestamp_ns, event.waker_task_id, event.woken_task_id), (1, 0, 2));
    assert_eq!(event.target_worker, 3);
    let event = record_wake_event(&shared, 1, Some(9), 2, WorkerId(255)).unwrap();
    assert_eq!((event.waker_task_id, event.target_worker), (9, 255));
    let event = record_wake_event(&shared, 1, Some(9), 2, WorkerId::unknown()).unwrap();
    assert_eq!(event.target_worker, 255);
}

#[test]
fn hooks_run_in_registration_order() {
    let mut hooks = TokioHooks::default();
    let kinds = [
        HookKind::ThreadStart,
        HookKind::ThreadStop,
        HookKind::ThreadPark,
        HookKind::ThreadUnpark,
        HookKind::TaskSpawn,
        HookKind::TaskTerminate,
        HookKind::BeforeTaskPoll,
        HookKind::AfterTaskPoll,
    ];
    for kind in kinds {
        assert!(hooks.execute(kind).is_empty());
    }
    for round in [10u64, 20, 30] {
        hooks.on_thread_start(round);
        hooks.on_thread_stop(round + 1);
        hooks.on_thread_park(round + 2);
        hooks.on_thread_unpark(round + 3);
        hooks.on_task_spawn(round + 4);
        hooks.on_task_terminate(round + 5);
        hooks.on_before_task_poll(round + 6);
        hooks.on_after_task_poll(round + 7);
    }
    for (i, kind) in kinds.into_iter().enumerate() {
        let i = i as u64;
        assert_eq!(hooks.execute(kind), vec![10 + i, 20 + i, 30 + i]);
    }
}

#[test]
fn threads_have_roles_while_they_run() {
    let mut roles = ThreadRoles::new();
    let mut thread = ThreadContext::new();
    roles.thread_started(&mut thread, Dial9Handle::enabled(1), 77);
    assert_eq!(roles.role(77), Some(ThreadRole::Blocking));
    assert!(Dial9Handle::current(&thread).is_enabled());
    roles.resolve_worker(77, 3);
    assert_eq!(roles.role(77), Some(ThreadRole::Worker(3)));
    roles.thread_stopped(&mut thread, 77);
    assert_eq!(roles.role(77), None);
    assert!(!Dial9Handle::current(&thread).is_enabled());
}

#[test]
fn task_events_follow_the_switches() {
    let mut shared = SharedState::new(0);
    let mut thread = ThreadContext::new();
    assert!(task_spawned(&shared, &thread, 1, 2, 3).is_none());
    assert!(task_terminated(&shared, 1, 2).is_none());
    shared.set_enabled(true);
    assert!(!task_spawned(&shared, &thread, 1, 2, 3).unwrap().instrumented);
    thread.enter();
    let event = task_spawned(&shared, &thread, 1, 2, 3).unwrap();
    assert!(event.instrumented);
    assert_eq!((event.timestamp_ns, event.task_id, event.spawn_loc), (1, 2, 3));
    let event = task_terminated(&shared, 4, 5).unwrap();
    assert_eq!((event.timestamp_ns, event.task_id), (4, 5));
    assert!(registers_hook(HookKind::ThreadPark, false));
    assert!(!registers_hook(HookKind::TaskSpawn, false));
    assert!(registers_hook(HookKind::TaskTerminate, true));
}

#[test]
fn a_disabled_handle_records_nothing() {
    let mut shared = SharedState::new(0);
    shared.set_enabled(true);
    let mut buffer = ThreadLocalBuffer::new();
    let encode = |_: &mut TraceEncoder| ();
    assert!(!Dial9Handle::disabled().record_event(&mut shared, &mut buffer, encode));
    assert_eq!(buffer.pending_events(), 0);
    assert!(Dial9Handle::enabled(1).record_event(&mut shared, &mut buffer, encode));
    assert_eq!(buffer.pending_events(), 1);
}

#[test]
fn build_disabled_produces_working_runtime_with_noop_guard() {
    let (runtime, guard) = TracedRuntime::build_disabled(|| Ok(7u32)).unwrap();
    assert_eq!(runtime, 7);
    assert!(!guard.is_enabled());
    assert!(!guard.handle().is_enabled());
    assert!(guard.graceful_shutdown(1).is_empty());
    let failed = TracedRuntime::<u32>::build_disabled(|| Err("no threads".to_string()));
    assert_eq!(failed.unwrap_err(), "no threads");
}

#[test]
fn default_runtimes_are_instrumented() {
    match TracedRuntime::<()>::build::<Disk>() {
        BuildPlan::Traced { session, attach, start, custom_events } => {
            assert!(attach.is_some());
            assert!(!start);
            assert!(custom_events.is_empty());
            assert!(session.worker.is_none());
        }
        other => panic!("expected a traced plan, got {other:?}"),
    }
    let started = TracedRuntime::<()>::build_and_start::<Memory>();
    assert!(matches!(started, BuildPlan::Traced { start: true, .. }));
}

#[test]
fn telemetry_runs_before_the_callbacks_of_the_user() {
    let mut hooks = TokioHooks::default();
    hooks.on_thread_stop(1).on_task_spawn(2).on_thread_stop(3);
    let stop = [HookStep::Telemetry, HookStep::User(1), HookStep::User(3)];
    assert_eq!(hook_steps(&hooks, HookKind::ThreadStop, false), stop);
    let copy = hooks.clone();
    hooks.on_thread_stop(4);
    assert_eq!(copy.execute(HookKind::ThreadStop), [1, 3]);
    assert_eq!(hooks.execute(HookKind::ThreadStop), [1, 3, 4]);
    // Without task tracking only the user has something to do.
    assert_eq!(hook_steps(&hooks, HookKind::TaskSpawn, false), [HookStep::User(2)]);
    let spawn = [HookStep::Telemetry, HookStep::User(2)];
    assert_eq!(hook_steps(&hooks, HookKind::TaskSpawn, true), spawn);
    assert_eq!(hook_steps(&hooks, HookKind::ThreadPark, true), [HookStep::Telemetry]);
    assert!(hook_steps(&hooks, HookKind::TaskTerminate, false).is_empty());
}

#[test]
fn the_first_trace_path_stays() {
    let plan = builder()
        .with_trace_path("first.bin".to_string())
        .with_trace_path("second.bin".to_string())
        .with_cpu_profiling(100)
        .build::<Disk>();
    match plan {
        BuildPlan::Traced { session, .. } => {
            let worker = session.worker.expect("CPU profiling needs a worker");
            assert_eq!(worker.trace_path.as_deref(), Some("first.bin"));
        }
        other => panic!("expected a traced plan, got {other:?}"),
    }
}

#[test]
fn named_runtimes_are_listed_with_their_workers() {
    let mut shared = SharedState::new(0);
    let mut contexts: Vec<RuntimeContext> = Vec::new();
    assert!(runtime_entries(&contexts).is_empty());
    attach_runtime(&mut shared, &mut contexts, Some("main".to_string()), 2);
    attach_runtime(&mut shared, &mut contexts, None, 1);
    attach_runtime(&mut shared, &mut contexts, Some("io".to_string()), 9);
    attach_runtime(&mut shared, &mut contexts, Some("idle".to_string()), 0);
    let expected = [
        pair("runtime.main", "0,1"),
        pair("runtime.io", "3,4,5,6,7,8,9,10,11"),
        pair("runtime.idle", ""),
    ];
    assert_eq!(runtime_entries(&contexts), expected);
}

#[test]
fn wakes_are_tracked_only_while_recording() {
    let mut shared = SharedState::new(0);
    let handle = Some(TracedHandle { session: 1 });
    let traced = TracedFuture::new((), handle).resolve(|| Some(7));
    let plain = TracedFuture::new((), None).resolve(|| panic!("there is no handle"));
    assert!(!traced.state.tracks_wakes(&shared));
    shared.set_enabled(true);
    assert!(traced.state.tracks_wakes(&shared));
    assert!(!plain.state.tracks_wakes(&shared));
    assert!(!TracedFuture::new((), handle).state.tracks_wakes(&shared));
}
