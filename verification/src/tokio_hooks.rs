//! User callbacks that run alongside the runtime's own hooks.
use smallvec::SmallVec;
use vstd::prelude::*;

verus! {

/// A `smallvec` of callback numbers, with room for one callback inline.
#[verifier::external_body]
#[derive(Debug)]
pub struct HookList {
    inner: SmallVec<[u64; 1]>,
}

/// The callback numbers in a list, in order.
pub uninterp spec fn hook_ids(list: HookList) -> Seq<u64>;

/// `SmallVec::from_buf_and_len` with a length of one: a list of the one given
/// callback.
#[verifier::external_body]
fn list_of_one(id: u64) -> (list: HookList)
    ensures
        hook_ids(list) == seq![id],
{
    HookList { inner: SmallVec::from_buf_and_len([id], 1) }
}

/// `SmallVec::push`: appends a callback to the list.
#[verifier::external_body]
fn list_push(list: &mut HookList, id: u64)
    ensures
        hook_ids(*final(list)) == hook_ids(*old(list)).push(id),
{
    list.inner.push(id);
}

/// `SmallVec::len`: how many callbacks the list has.
#[verifier::external_body]
fn list_len(list: &HookList) -> (n: usize)
    ensures
        n == hook_ids(*list).len(),
{
    list.inner.len()
}

/// The slice that a `SmallVec` dereferences to, copied: the callbacks of the
/// list, in order.
#[verifier::external_body]
fn list_to_vec(list: &HookList) -> (ids: Vec<u64>)
    ensures
        ids@ == hook_ids(*list),
{
    list.inner.to_vec()
}

impl Clone for HookList {
    /// `SmallVec::clone`: the items in the same order.
    #[verifier::external_body]
    fn clone(&self) -> (r: Self)
        ensures
            hook_ids(r) == hook_ids(*self),
    {
        HookList { inner: self.inner.clone() }
    }
}

/// The callbacks stacked on one runtime hook. They fire in registration order.
#[derive(Debug)]
pub struct TokioHook {
    callbacks: HookList,
}

impl Clone for TokioHook {
    fn clone(&self) -> (r: Self)
        ensures
            r.callbacks() == self.callbacks(),
    {
        TokioHook { callbacks: self.callbacks.clone() }
    }
}

impl TokioHook {
    /// The registered callbacks, in registration order.
    pub closed spec fn callbacks(&self) -> Seq<u64> {
        hook_ids(self.callbacks)
    }

    pub fn new(id: u64) -> (r: Self)
        ensures
            r.callbacks() == seq![id],
    {
        TokioHook { callbacks: list_of_one(id) }
    }

    pub fn push(&mut self, id: u64)
        ensures
            final(self).callbacks() == old(self).callbacks().push(id),
    {
        list_push(&mut self.callbacks, id);
    }

    /// Number of registered callbacks.
    pub fn len(&self) -> (r: usize)
        ensures
            r == self.callbacks().len(),
    {
        list_len(&self.callbacks)
    }

    /// The callbacks to call when the hook fires, in order.
    pub fn execute(&self) -> (r: Vec<u64>)
        ensures
            r@ == self.callbacks(),
    {
        list_to_vec(&self.callbacks)
    }
}

/// What runs when a hook fires.
#[derive(Debug, Clone, Copy, PartialEq, Eq, Structural)]
pub enum HookStep {
    /// What telemetry does in the hook.
    Telemetry,
    /// A callback of the user.
    User(u64),
}

/// The user's callbacks as steps, in the same order.
pub open spec fn user_steps(callbacks: Seq<u64>) -> Seq<HookStep> {
    Seq::new(callbacks.len(), |i: int| HookStep::User(callbacks[i]))
}

/// What runs when a hook fires, in order: telemetry first, if it has work in
/// the hook, then the user's callbacks.
pub open spec fn hook_order(registered: bool, callbacks: Seq<u64>) -> Seq<HookStep> {
    if registered {
        seq![HookStep::Telemetry] + user_steps(callbacks)
    } else {
        user_steps(callbacks)
    }
}

/// A hook of the runtime.
#[derive(Debug, Clone, Copy, PartialEq, Eq, Structural)]
pub enum HookKind {
    ThreadStart,
    ThreadStop,
    ThreadPark,
    ThreadUnpark,
    TaskSpawn,
    TaskTerminate,
    BeforeTaskPoll,
    AfterTaskPoll,
}

/// User callbacks to run alongside the runtime's own hooks: the runtime's own
/// run first, then the callbacks in registration order. Registering a hook
/// several times stacks the callbacks.
#[derive(Debug)]
pub struct TokioHooks {
    on_thread_start: Option<TokioHook>,
    on_thread_stop: Option<TokioHook>,
    on_thread_park: Option<TokioHook>,
    on_thread_unpark: Option<TokioHook>,
    on_task_spawn: Option<TokioHook>,
    on_task_terminate: Option<TokioHook>,
    on_before_task_poll: Option<TokioHook>,
    on_after_task_poll: Option<TokioHook>,
}

/// The callbacks of a hook, none if it was never registered.
spec fn stacked(slot: Option<TokioHook>) -> Seq<u64> {
    match slot {
        Some(hook) => hook.callbacks(),
        None => Seq::empty(),
    }
}

/// Registers a callback in a hook's slot.
fn register(slot: &mut Option<TokioHook>, id: u64)
    ensures
        stacked(*final(slot)) == stacked(*old(slot)).push(id),
{
    match slot {
        Some(hook) => hook.push(id),
        None => {
            *slot = Some(TokioHook::new(id));
        },
    }
    assert(stacked(*slot) =~= stacked(*old(slot)).push(id));
}

/// A copy of a hook's slot.
fn copy_slot(slot: &Option<TokioHook>) -> (r: Option<TokioHook>)
    ensures
        stacked(r) == stacked(*slot),
{
    match slot {
        Some(hook) => Some(hook.clone()),
        None => None,
    }
}

impl Clone for TokioHooks {
    fn clone(&self) -> (r: Self)
        ensures
            forall|kind: HookKind| #[trigger] r.callbacks(kind) == self.callbacks(kind),
    {
        TokioHooks {
            on_thread_start: copy_slot(&self.on_thread_start),
            on_thread_stop: copy_slot(&self.on_thread_stop),
            on_thread_park: copy_slot(&self.on_thread_park),
            on_thread_unpark: copy_slot(&self.on_thread_unpark),
            on_task_spawn: copy_slot(&self.on_task_spawn),
            on_task_terminate: copy_slot(&self.on_task_terminate),
            on_before_task_poll: copy_slot(&self.on_before_task_poll),
            on_after_task_poll: copy_slot(&self.on_after_task_poll),
        }
    }
}

impl Default for TokioHooks {
    fn default() -> (r: Self)
        ensures
            forall|kind: HookKind| #[trigger] r.callbacks(kind) == Seq::<u64>::empty(),
    {
        TokioHooks {
            on_thread_start: None,
            on_thread_stop: None,
            on_thread_park: None,
            on_thread_unpark: None,
            on_task_spawn: None,
            on_task_terminate: None,
            on_before_task_poll: None,
            on_after_task_poll: None,
        }
    }
}

fn callbacks_of(slot: &Option<TokioHook>) -> (r: Vec<u64>)
    ensures
        r@ == stacked(*slot),
{
    match slot {
        Some(hook) => hook.execute(),
        None => {
            let none: Vec<u64> = Vec::new();
            assert(none@ =~= stacked(*slot));
            none
        },
    }
}

impl TokioHooks {
    /// The callbacks of a hook, in registration order.
    pub closed spec fn callbacks(&self, kind: HookKind) -> Seq<u64> {
        match kind {
            HookKind::ThreadStart => stacked(self.on_thread_start),
            HookKind::ThreadStop => stacked(self.on_thread_stop),
            HookKind::ThreadPark => stacked(self.on_thread_park),
            HookKind::ThreadUnpark => stacked(self.on_thread_unpark),
            HookKind::TaskSpawn => stacked(self.on_task_spawn),
            HookKind::TaskTerminate => stacked(self.on_task_terminate),
            HookKind::BeforeTaskPoll => stacked(self.on_before_task_poll),
            HookKind::AfterTaskPoll => stacked(self.on_after_task_poll),
        }
    }

    /// `self` is `before` with one more callback on one hook.
    pub open spec fn extends(&self, before: &TokioHooks, kind: HookKind, id: u64) -> bool {
        forall|other: HookKind| #[trigger]
            self.callbacks(other) == if other == kind {
                before.callbacks(other).push(id)
            } else {
                before.callbacks(other)
            }
    }

    /// The callbacks to call when a hook fires, in order.
    pub fn execute(&self, kind: HookKind) -> (r: Vec<u64>)
        ensures
            r@ == self.callbacks(kind),
    {
        match kind {
            HookKind::ThreadStart => callbacks_of(&self.on_thread_start),
            HookKind::ThreadStop => callbacks_of(&self.on_thread_stop),
            HookKind::ThreadPark => callbacks_of(&self.on_thread_park),
            HookKind::ThreadUnpark => callbacks_of(&self.on_thread_unpark),
            HookKind::TaskSpawn => callbacks_of(&self.on_task_spawn),
            HookKind::TaskTerminate => callbacks_of(&self.on_task_terminate),
            HookKind::BeforeTaskPoll => callbacks_of(&self.on_before_task_poll),
            HookKind::AfterTaskPoll => callbacks_of(&self.on_after_task_poll),
        }
    }

    /// What runs when a hook fires, in order; `registered` tells whether
    /// telemetry has work of its own in the hook.
    pub fn steps(&self, kind: HookKind, registered: bool) -> (r: Vec<HookStep>)
        ensures
            r@ == hook_order(registered, self.callbacks(kind)),
    {
        let callbacks = self.execute(kind);
        let mut steps: Vec<HookStep> = Vec::new();
        if registered {
            steps.push(HookStep::Telemetry);
        }
        let ghost own = steps@;
        let mut i: usize = 0;
        while i < callbacks.len()
            invariant
                i <= callbacks@.len(),
                steps@ == own + user_steps(callbacks@.take(i as int)),
            decreases callbacks@.len() - i,
        {
            steps.push(HookStep::User(callbacks[i]));
            proof {
                assert(user_steps(callbacks@.take(i + 1)) =~= user_steps(
                    callbacks@.take(i as int),
                ).push(HookStep::User(callbacks@[i as int])));
            }
            i += 1;
        }
        assert(callbacks@.take(i as int) =~= callbacks@);
        assert(steps@ =~= hook_order(registered, self.callbacks(kind)));
        steps
    }

    /// Registers a callback to run when a runtime worker thread starts.
    pub fn on_thread_start(&mut self, id: u64) -> (r: &mut Self)
        ensures
            (*r).extends(old(self), HookKind::ThreadStart, id),
            *final(self) == *final(r),
    {
        register(&mut self.on_thread_start, id);
        self
    }

    /// Registers a callback to run when a runtime worker thread stops.
    pub fn on_thread_stop(&mut self, id: u64) -> (r: &mut Self)
        ensures
            (*r).extends(old(self), HookKind::ThreadStop, id),
            *final(self) == *final(r),
    {
        register(&mut self.on_thread_stop, id);
        self
    }

    /// Registers a callback to run when a runtime worker thread parks.
    pub fn on_thread_park(&mut self, id: u64) -> (r: &mut Self)
        ensures
            (*r).extends(old(self), HookKind::ThreadPark, id),
            *final(self) == *final(r),
    {
        register(&mut self.on_thread_park, id);
        self
    }

    /// Registers a callback to run when a runtime worker thread unparks.
    pub fn on_thread_unpark(&mut self, id: u64) -> (r: &mut Self)
        ensures
            (*r).extends(old(self), HookKind::ThreadUnpark, id),
            *final(self) == *final(r),
    {
        register(&mut self.on_thread_unpark, id);
        self
    }

    /// Registers a callback to run when a task is spawned.
    pub fn on_task_spawn(&mut self, id: u64) -> (r: &mut Self)
        ensures
            (*r).extends(old(self), HookKind::TaskSpawn, id),
            *final(self) == *final(r),
    {
        register(&mut self.on_task_spawn, id);
        self
    }

    /// Registers a callback to run when a task terminates.
    pub fn on_task_terminate(&mut self, id: u64) -> (r: &mut Self)
        ensures
            (*r).extends(old(self), HookKind::TaskTerminate, id),
            *final(self) == *final(r),
    {
        register(&mut self.on_task_terminate, id);
        self
    }

    /// Registers a callback to run before a task is polled.
    pub fn on_before_task_poll(&mut self, id: u64) -> (r: &mut Self)
        ensures
            (*r).extends(old(self), HookKind::BeforeTaskPoll, id),
            *final(self) == *final(r),
    {
        register(&mut self.on_before_task_poll, id);
        self
    }

    /// Registers a callback to run after a task is polled.
    pub fn on_after_task_poll(&mut self, id: u64) -> (r: &mut Self)
        ensures
            (*r).extends(old(self), HookKind::AfterTaskPoll, id),
            *final(self) == *final(r),
    {
        register(&mut self.on_after_task_poll, id);
        self
    }
}

/// All callbacks fire in the order in which they were registered: a callback
/// registered later on the same hook comes last, and one on another hook does
/// not matter.
pub proof fn law_callbacks_fire_in_registration_order(
    hooks: TokioHooks,
    once: TokioHooks,
    twice: TokioHooks,
    kind: HookKind,
    first: u64,
    other: HookKind,
    second: u64,
)
    requires
        once.extends(&hooks, kind, first),
        twice.extends(&once, other, second),
    ensures
        kind == other ==> twice.callbacks(kind) == hooks.callbacks(kind).push(first).push(second),
        kind != other ==> twice.callbacks(kind) == hooks.callbacks(kind).push(first),
{
    assert(once.callbacks(kind) == hooks.callbacks(kind).push(first));
    assert(twice.callbacks(kind) == if kind == other {
        once.callbacks(kind).push(second)
    } else {
        once.callbacks(kind)
    });
}

/// Telemetry always runs first: whatever the user registers, a hook in which
/// telemetry has work starts with it, it runs once, and the callbacks follow
/// in registration order.
pub proof fn law_telemetry_runs_before_the_user(hooks: TokioHooks, kind: HookKind)
    ensures
        hook_order(true, hooks.callbacks(kind))[0] == HookStep::Telemetry,
        hook_order(true, hooks.callbacks(kind)).skip(1) == user_steps(hooks.callbacks(kind)),
        forall|i: int|
            0 <= i < hooks.callbacks(kind).len() ==> #[trigger] hook_order(
                true,
                hooks.callbacks(kind),
            )[i + 1] == HookStep::User(hooks.callbacks(kind)[i]),
{
    assert(hook_order(true, hooks.callbacks(kind)).skip(1) =~= user_steps(hooks.callbacks(kind)));
}

} // verus!
