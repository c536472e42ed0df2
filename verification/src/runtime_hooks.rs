//! What telemetry does in the runtime's hooks, and how runtimes join a session.
use crate::format::{TaskSpawnEvent, TaskTerminateEvent};
use crate::handle::{Dial9Handle, ThreadContext, ThreadModel};
use crate::segment_metadata::{entries_view, Entries};
use crate::shared_state::{SharedModel, SharedState};
use crate::tokio_hooks::{hook_order, HookKind, HookStep, TokioHooks};
use crate::writer::decimal;
use std::collections::HashMap;
use vstd::prelude::*;
use vstd::string::{StrSliceExecFns, StringExecFns};

verus! {

broadcast use vstd::std_specs::hash::group_hash_axioms;

/// Which kind of runtime thread a CPU sample came from.
#[derive(Debug, Clone, Copy, PartialEq, Eq, Structural)]
pub enum ThreadRole {
    /// A worker, by its id.
    Worker(u64),
    /// A thread of the blocking pool.
    Blocking,
}

/// The hooks that telemetry registers with a runtime: those on threads and
/// polls always, those on tasks only if tasks are tracked.
pub open spec fn registers(kind: HookKind, task_tracking: bool) -> bool {
    match kind {
        HookKind::TaskSpawn | HookKind::TaskTerminate => task_tracking,
        _ => true,
    }
}

/// Whether telemetry registers a hook with a runtime.
pub fn registers_hook(kind: HookKind, task_tracking: bool) -> (r: bool)
    ensures
        r == registers(kind, task_tracking),
{
    match kind {
        HookKind::TaskSpawn => task_tracking,
        HookKind::TaskTerminate => task_tracking,
        _ => true,
    }
}

/// What runs when a hook of a runtime fires, in order: telemetry always first,
/// where it registers the hook, then the user's callbacks in registration
/// order.
pub fn hook_steps(hooks: &TokioHooks, kind: HookKind, task_tracking: bool) -> (r: Vec<HookStep>)
    ensures
        r@ == hook_order(registers(kind, task_tracking), hooks.callbacks(kind)),
{
    hooks.steps(kind, registers_hook(kind, task_tracking))
}

/// The role of a thread, if it is one of a traced runtime.
pub open spec fn role_of(roles: Map<u32, ThreadRole>, tid: u32) -> Option<ThreadRole> {
    if roles.contains_key(tid) {
        Some(roles[tid])
    } else {
        None
    }
}

/// The roles after a thread started.
pub open spec fn started(roles: Map<u32, ThreadRole>, tid: u32) -> Map<u32, ThreadRole> {
    roles.insert(tid, ThreadRole::Blocking)
}

/// The roles after a thread turned out to be a worker.
pub open spec fn resolved_to(
    roles: Map<u32, ThreadRole>,
    tid: u32,
    worker: u64,
) -> Map<u32, ThreadRole> {
    roles.insert(tid, ThreadRole::Worker(worker))
}

/// The roles after a thread stopped.
pub open spec fn stopped(roles: Map<u32, ThreadRole>, tid: u32) -> Map<u32, ThreadRole> {
    roles.remove(tid)
}

/// Maps OS threads to their roles.
#[derive(Debug)]
pub struct ThreadRoles {
    roles: HashMap<u32, ThreadRole>,
}

impl View for ThreadRoles {
    type V = Map<u32, ThreadRole>;

    closed spec fn view(&self) -> Map<u32, ThreadRole> {
        self.roles@
    }
}

impl ThreadRoles {
    pub fn new() -> (r: Self)
        ensures
            r@ == Map::<u32, ThreadRole>::empty(),
    {
        ThreadRoles { roles: HashMap::new() }
    }

    /// The role of a thread.
    pub fn role(&self, tid: u32) -> (r: Option<ThreadRole>)
        ensures
            r == role_of(self@, tid),
    {
        match self.roles.get(&tid) {
            Some(role) => Some(*role),
            None => None,
        }
    }

    /// A thread turned out to be a worker.
    pub fn resolve_worker(&mut self, tid: u32, worker: u64)
        ensures
            final(self)@ == resolved_to(old(self)@, tid, worker),
    {
        self.roles.insert(tid, ThreadRole::Worker(worker));
    }

    /// A thread of a traced runtime starts: its handle is installed, and it
    /// counts as a thread of the blocking pool until it turns out to be a
    /// worker.
    pub fn thread_started(&mut self, thread: &mut ThreadContext, handle: Dial9Handle, tid: u32)
        ensures
            final(thread)@ == (ThreadModel { current: Some(handle), ..old(thread)@ }),
            final(self)@ == started(old(self)@, tid),
    {
        thread.install(handle);
        self.roles.insert(tid, ThreadRole::Blocking);
    }

    /// A thread of a traced runtime stops: its handle and its role are
    /// removed.
    pub fn thread_stopped(&mut self, thread: &mut ThreadContext, tid: u32)
        ensures
            final(thread)@ == (ThreadModel { current: None, ..old(thread)@ }),
            final(self)@ == stopped(old(self)@, tid),
    {
        thread.clear();
        self.roles.remove(&tid);
        assert(self@ =~= old(self)@.remove(tid));
    }
}

/// A thread that stops leaves nothing behind: the roles are what they were
/// before it started, if its thread ID was not in use.
pub proof fn law_stopping_undoes_starting(roles: Map<u32, ThreadRole>, tid: u32, worker: u64)
    requires
        !roles.contains_key(tid),
    ensures
        stopped(started(roles, tid), tid) == roles,
        stopped(resolved_to(started(roles, tid), tid, worker), tid) == roles,
{
    assert(stopped(started(roles, tid), tid) =~= roles);
    assert(stopped(resolved_to(started(roles, tid), tid, worker), tid) =~= roles);
}

/// A thread is one of the blocking pool from its start until it turns out to be
/// a worker, and has no role once it stopped; other threads keep theirs.
pub proof fn law_a_thread_has_the_role_it_was_last_seen_in(
    roles: Map<u32, ThreadRole>,
    tid: u32,
    worker: u64,
    other: u32,
)
    ensures
        role_of(started(roles, tid), tid) == Some(ThreadRole::Blocking),
        role_of(resolved_to(roles, tid, worker), tid) == Some(ThreadRole::Worker(worker)),
        role_of(stopped(roles, tid), tid) is None,
        other != tid ==> {
            &&& role_of(started(roles, tid), other) == role_of(roles, other)
            &&& role_of(resolved_to(roles, tid, worker), other) == role_of(roles, other)
            &&& role_of(stopped(roles, tid), other) == role_of(roles, other)
        },
{
}

/// The event for a task that was spawned on this thread.
pub open spec fn spawn_event_of(
    shared: SharedModel,
    thread: ThreadModel,
    timestamp_ns: u64,
    task_id: u64,
    spawn_loc: u32,
) -> Option<TaskSpawnEvent> {
    if shared.enabled {
        Some(
            TaskSpawnEvent {
                timestamp_ns,
                task_id,
                spawn_loc,
                instrumented: thread.instrumented_spawns > 0,
            },
        )
    } else {
        None
    }
}

/// A spawned task is recorded exactly while recording is on, and as
/// instrumented exactly if it was spawned inside an instrumented spawn, however
/// deep.
pub proof fn law_tasks_are_instrumented_inside_instrumented_spawns(
    shared: SharedModel,
    thread: ThreadModel,
    timestamp_ns: u64,
    task_id: u64,
    spawn_loc: u32,
)
    ensures
        spawn_event_of(shared, thread, timestamp_ns, task_id, spawn_loc) is Some
            <==> shared.enabled,
        spawn_event_of(
            shared,
            thread,
            timestamp_ns,
            task_id,
            spawn_loc,
        ) matches Some(event) ==> {
            &&& event.timestamp_ns == timestamp_ns
            &&& event.task_id == task_id
            &&& event.spawn_loc == spawn_loc
            &&& event.instrumented <==> thread.instrumented_spawns > 0
        },
        spawn_event_of(
            shared,
            thread.entered(),
            timestamp_ns,
            task_id,
            spawn_loc,
        ) matches Some(event) ==> event.instrumented,
{
}

/// The event for a task that was spawned on this thread: none while recording
/// is off.
pub fn task_spawned(
    shared: &SharedState,
    thread: &ThreadContext,
    timestamp_ns: u64,
    task_id: u64,
    spawn_loc: u32,
) -> (r: Option<TaskSpawnEvent>)
    ensures
        r == spawn_event_of(shared@, thread@, timestamp_ns, task_id, spawn_loc),
{
    if shared.is_enabled() {
        Some(
            TaskSpawnEvent {
                timestamp_ns,
                task_id,
                spawn_loc,
                instrumented: thread.is_instrumented(),
            },
        )
    } else {
        None
    }
}

/// The event for a task that terminated: none while recording is off.
pub fn task_terminated(shared: &SharedState, timestamp_ns: u64, task_id: u64) -> (r: Option<
    TaskTerminateEvent,
>)
    ensures
        r == (if shared@.enabled {
            Some(TaskTerminateEvent { timestamp_ns, task_id })
        } else {
            None
        }),
{
    if shared.is_enabled() {
        Some(TaskTerminateEvent { timestamp_ns, task_id })
    } else {
        None
    }
}

/// What telemetry keeps for one runtime.
#[derive(Debug)]
pub struct RuntimeContext {
    pub runtime_name: Option<String>,
    /// The worker ids of the runtime's workers, by index in the runtime.
    pub worker_ids: Vec<u64>,
}

/// Worker ids in decimal notation, separated by commas.
pub open spec fn joined(ids: Seq<u64>) -> Seq<char>
    decreases ids.len(),
{
    if ids.len() == 0 {
        Seq::empty()
    } else if ids.len() == 1 {
        decimal(ids[0] as nat)
    } else {
        joined(ids.drop_last()) + ","@ + decimal(ids.last() as nat)
    }
}

/// The metadata entries of the named runtimes, in order: for each the ids of
/// its workers, under `runtime.{name}`.
pub open spec fn named_entries(contexts: Seq<RuntimeContext>) -> Entries
    decreases contexts.len(),
{
    if contexts.len() == 0 {
        Seq::empty()
    } else {
        let before = named_entries(contexts.drop_last());
        match contexts.last().runtime_name {
            Some(name) => before.push(
                ("runtime."@ + name@, joined(contexts.last().worker_ids@)),
            ),
            None => before,
        }
    }
}

/// The ids in decimal notation, separated by commas.
fn join_ids(ids: &Vec<u64>) -> (r: String)
    ensures
        r@ == joined(ids@),
{
    let mut text: String = String::new();
    let mut i: usize = 0;
    while i < ids.len()
        invariant
            i <= ids@.len(),
            text@ == joined(ids@.take(i as int)),
        decreases ids@.len() - i,
    {
        let number = crate::writer::decimal_string(ids[i]);
        proof {
            assert(ids@.take(i + 1).drop_last() =~= ids@.take(i as int));
            assert(ids@.take(i + 1).last() == ids@[i as int]);
        }
        text = if i == 0 {
            number
        } else {
            text.concat(",").concat(number.as_str())
        };
        i += 1;
    }
    assert(ids@.take(i as int) =~= ids@);
    text
}

/// The metadata entries of the named runtimes: which workers are theirs.
pub fn runtime_entries(contexts: &Vec<RuntimeContext>) -> (r: Vec<(String, String)>)
    ensures
        entries_view(r@) == named_entries(contexts@),
{
    let mut entries: Vec<(String, String)> = Vec::new();
    let mut i: usize = 0;
    assert(entries_view(entries@) =~= named_entries(contexts@.take(0)));
    while i < contexts.len()
        invariant
            i <= contexts@.len(),
            entries_view(entries@) == named_entries(contexts@.take(i as int)),
        decreases contexts@.len() - i,
    {
        let ghost before = entries@;
        proof {
            assert(contexts@.take(i + 1).drop_last() =~= contexts@.take(i as int));
            assert(contexts@.take(i + 1).last() == contexts@[i as int]);
        }
        if let Some(name) = &contexts[i].runtime_name {
            let key = "runtime.".to_owned().concat(name.as_str());
            let ids = join_ids(&contexts[i].worker_ids);
            entries.push((key, ids));
            assert(entries_view(entries@) =~= entries_view(before).push((key@, ids@)));
        }
        i += 1;
    }
    assert(contexts@.take(i as int) =~= contexts@);
    entries
}

/// The ids of `n` workers, from `base` on.
pub open spec fn ids_from(base: u64, n: nat) -> Seq<u64> {
    Seq::new(n, |i: int| (base + i) as u64)
}

/// What attaching a runtime does to the session and to the contexts of its
/// runtimes.
pub open spec fn attaches(
    shared: SharedModel,
    contexts: Seq<RuntimeContext>,
    runtime_name: Option<String>,
    num_workers: usize,
    shared_after: SharedModel,
    contexts_after: Seq<RuntimeContext>,
) -> bool {
    &&& shared_after == (SharedModel {
        next_worker_id: (shared.next_worker_id + num_workers) as u64,
        ..shared
    })
    &&& contexts_after.len() == contexts.len() + 1
    &&& contexts_after.drop_last() == contexts
    &&& contexts_after.last().runtime_name == runtime_name
    &&& contexts_after.last().worker_ids@ == ids_from(shared.next_worker_id, num_workers as nat)
}

/// Two runtimes that join a session one after the other are remembered in that
/// order, each by its name and with as many workers as it has, and share no
/// worker with each other.
pub proof fn law_attached_runtimes_are_kept_apart(
    shared: SharedModel,
    contexts: Seq<RuntimeContext>,
    name: Option<String>,
    workers: usize,
    between: SharedModel,
    contexts_between: Seq<RuntimeContext>,
    other_name: Option<String>,
    other_workers: usize,
    after: SharedModel,
    contexts_after: Seq<RuntimeContext>,
    i: int,
    j: int,
)
    requires
        shared.next_worker_id + workers + other_workers <= u64::MAX,
        attaches(shared, contexts, name, workers, between, contexts_between),
        attaches(between, contexts_between, other_name, other_workers, after, contexts_after),
        0 <= i < workers,
        0 <= j < other_workers,
    ensures
        contexts_after.len() == contexts.len() + 2,
        ({
            let one = contexts_after[contexts.len() as int];
            let two = contexts_after[contexts.len() as int + 1];
            &&& one.runtime_name == name && two.runtime_name == other_name
            &&& one.worker_ids@.len() == workers && two.worker_ids@.len() == other_workers
            &&& one.worker_ids@[i] != two.worker_ids@[j]
            &&& one.worker_ids@[i] == shared.next_worker_id + i
        }),
        forall|k: int| 0 <= k < contexts.len() ==> contexts_after[k] == #[trigger] contexts[k],
        after.slots == shared.slots && after.collected == shared.collected && after.enabled
            == shared.enabled,
{
    let n = contexts.len() as int;
    assert(contexts_after.drop_last()[n] == contexts_between[n]);
    assert(contexts_between.last() == contexts_between[n]);
    assert forall|k: int| 0 <= k < n implies contexts_after[k] == #[trigger] contexts[k] by {
        assert(contexts_between.drop_last()[k] == contexts[k]);
        assert(contexts_after.drop_last()[k] == contexts_between[k]);
    }
}

/// Attaches a runtime with `num_workers` workers to the session: reserves its
/// worker ids and remembers its context.
pub fn attach_runtime(
    shared: &mut SharedState,
    contexts: &mut Vec<RuntimeContext>,
    runtime_name: Option<String>,
    num_workers: usize,
)
    requires
        old(shared)@.next_worker_id + num_workers <= u64::MAX,
    ensures
        attaches(
            old(shared)@,
            old(contexts)@,
            runtime_name,
            num_workers,
            final(shared)@,
            final(contexts)@,
        ),
{
    let base: u64 = shared.reserve_worker_ids(num_workers as u64);
    let mut worker_ids: Vec<u64> = Vec::new();
    let mut i: usize = 0;
    while i < num_workers
        invariant
            i <= num_workers,
            base + num_workers <= u64::MAX,
            worker_ids@ =~= ids_from(base, i as nat),
        decreases num_workers - i,
    {
        worker_ids.push(base + i as u64);
        i = i + 1;
    }
    contexts.push(RuntimeContext { runtime_name, worker_ids });
    assert(contexts@.drop_last() =~= old(contexts)@);
}

/// Runtimes of one session never share a worker id: the ids of a runtime come
/// after those of every runtime attached before.
pub proof fn law_runtimes_have_distinct_workers(
    base: u64,
    first: nat,
    second: nat,
    i: int,
    j: int,
)
    requires
        base + first + second <= u64::MAX,
        0 <= i < first,
        0 <= j < second,
    ensures
        ids_from(base, first)[i] != ids_from((base + first) as u64, second)[j],
{
}

/// Each named runtime has one metadata entry, in the order in which they were
/// attached: those at the positions `at`. Its key is the name behind
/// `runtime.`, its value lists the runtime's workers.
pub proof fn law_named_runtimes_have_an_entry(contexts: Seq<RuntimeContext>) -> (at: Seq<int>)
    ensures
        named_entries(contexts).len() == at.len(),
        forall|k: int|
            0 <= k < at.len() ==> 0 <= #[trigger] at[k] < contexts.len() && (
            contexts[at[k]].runtime_name matches Some(name) && named_entries(contexts)[k].0
                == "runtime."@ + name@) && named_entries(contexts)[k].1 == joined(
                contexts[at[k]].worker_ids@,
            ),
        forall|j: int, k: int| 0 <= j < k < at.len() ==> #[trigger] at[j] < #[trigger] at[k],
        forall|i: int|
            0 <= i < contexts.len() ==> (#[trigger] at.contains(i)
                <==> contexts[i].runtime_name is Some),
    decreases contexts.len(),
{
    if contexts.len() == 0 {
        Seq::empty()
    } else {
        let rest = contexts.drop_last();
        let last = contexts.len() - 1;
        let before = law_named_runtimes_have_an_entry(rest);
        let named = contexts.last().runtime_name is Some;
        let at = if named {
            before.push(last)
        } else {
            before
        };
        assert forall|i: int| 0 <= i < contexts.len() implies (#[trigger] at.contains(i)
            <==> contexts[i].runtime_name is Some) by {
            if at.contains(i) {
                let k = choose|k: int| 0 <= k < at.len() && at[k] == i;
                if k < before.len() {
                    assert(before[k] == i);
                    assert(before.contains(i));
                    assert(rest[i] == contexts[i]);
                }
            }
            if i < last {
                assert(rest[i] == contexts[i]);
                assert(before.contains(i) <==> rest[i].runtime_name is Some);
                if before.contains(i) {
                    let k = choose|k: int| 0 <= k < before.len() && before[k] == i;
                    assert(at[k] == i);
                }
            } else if named {
                assert(at[before.len() as int] == i);
            }
        }
        at
    }
}

/// Lists of workers are joined by a comma, and a single worker is listed by
/// its number alone.
pub proof fn law_worker_lists_are_joined_by_commas(a: Seq<u64>, b: Seq<u64>, id: u64)
    requires
        a.len() > 0,
        b.len() > 0,
    ensures
        joined(a + b) == joined(a) + ","@ + joined(b),
        joined(seq![id]) == decimal(id as nat),
    decreases b.len(),
{
    assert((a + b).last() == b.last());
    if b.len() == 1 {
        assert((a + b).drop_last() =~= a);
    } else {
        law_worker_lists_are_joined_by_commas(a, b.drop_last(), id);
        assert((a + b).drop_last() =~= a + b.drop_last());
        assert(joined(a + b) =~= joined(a) + ","@ + joined(b));
    }
}

/// The ids of a runtime's workers are consecutive, from the first free one on.
pub proof fn law_worker_ids_are_consecutive(base: u64, n: nat, i: int)
    requires
        base + n <= u64::MAX,
        0 <= i < n,
    ensures
        ids_from(base, n).len() == n,
        ids_from(base, n)[i] == base + i,
{
}

/// Telemetry has work in every hook on threads and polls, and in those on tasks
/// exactly if tasks are tracked. A hook without such work runs the user's
/// callbacks alone, in order.
pub proof fn law_task_hooks_are_for_tracked_tasks(
    kind: HookKind,
    task_tracking: bool,
    callbacks: Seq<u64>,
    i: int,
)
    requires
        0 <= i < callbacks.len(),
    ensures
        registers(kind, task_tracking) <==> task_tracking || !(kind is TaskSpawn || kind
            is TaskTerminate),
        hook_order(false, callbacks).len() == callbacks.len(),
        hook_order(false, callbacks)[i] == HookStep::User(callbacks[i]),
        hook_order(true, callbacks).len() == callbacks.len() + 1,
{
}

} // verus!
