//! The unit of work: a task with the four lifecycle callbacks
//! `start`, `run`, `end`, `finally`, realized as a closed set of variants.
//!
//! Each lifecycle phase has a spec-level transition over the models
//! ([`start_m`], [`run_m`], [`end_m`], [`finally_m`]); the executable
//! methods are verified to implement those transitions exactly. The
//! [`wt`] weight of a task bounds everything its `start` can splice into
//! the queue, which is what makes the sequencer's frame loop a
//! well-founded recursion.

use vstd::prelude::*;
use crate::scene::{
    apply_action_m, apply_all_m, can_lock_m, loaded_m, lock_acquire_m, despawn_m, set_fade_m,
    Action, Scene, SceneM, TaskLock,
};
use crate::status::TaskStatus;
use crate::{sat_add, saturating_add};

verus! {

/// A single task in a sequencer's queue.
///
/// All durations are integer milliseconds. A task holds only the state it
/// needs for its own progress; it has no identity beyond its queue position.
pub enum Task {
    /// Applies an action once, during `start`, then finishes immediately.
    Start(Action),
    /// Finishes immediately; applies its action in `end`, so only on normal
    /// completion, never on cancellation.
    End(Action),
    /// Finishes immediately; applies its action in `finally`, so under all
    /// circumstances: normal completion or cancellation.
    Finally(Action),
    /// Waits until the accumulated deltas reach `duration`, then finishes,
    /// carrying over the surplus.
    Wait { duration: u64, elapsed: u64 },
    /// Raises fade surface `target` from clear to opaque over `duration`,
    /// easing in: the level is the square of the elapsed share.
    FadeIn { target: usize, duration: u64, elapsed: u64 },
    /// Lowers fade surface `target` from opaque to clear over `duration`,
    /// linearly.
    FadeOut { target: usize, duration: u64, elapsed: u64 },
    /// Cancels the rest of the queue during `start`: every queued task has
    /// its `finally` invoked, in order, and the host is optionally despawned.
    Quit { despawn_host: bool },
    /// Cancels the rest of the queue during `start`, exactly like `Quit`, but
    /// only if the scene's pending state equals `state`; otherwise finishes
    /// as a no-op.
    QuitIf { state: u64, despawn_host: bool },
    /// Suspends until the event with this id has been sent, then finishes.
    WaitEvent { event: u64 },
    /// Runs `inner` only if `lock` can be acquired at `start`; on success it
    /// also queues a `Finally` that releases the lock. On failure the guard
    /// finishes immediately without ever running `inner`'s body.
    Guard { inner: Box<Task>, lock: TaskLock, failed: bool },
    /// An aggregate task: its `start` splices `children` into the queue, in
    /// order, immediately after itself; then it finishes.
    Aggregate { children: Vec<Task> },
    /// Defers a batch of buffered mutations until every recorded asset
    /// handle has finished loading; reports `NotFinished` while any is
    /// pending, then applies the batch exactly once and finishes.
    SpawnBatch { handles: Vec<usize>, commands: Vec<Action> },
}

/// Mathematical model of a [`Task`].
#[verifier::ext_equal]
pub enum TaskM {
    Start(Action),
    End(Action),
    Finally(Action),
    Wait { duration: u64, elapsed: u64 },
    FadeIn { target: usize, duration: u64, elapsed: u64 },
    FadeOut { target: usize, duration: u64, elapsed: u64 },
    Quit { despawn_host: bool },
    QuitIf { state: u64, despawn_host: bool },
    WaitEvent { event: u64 },
    Guard { inner: Box<TaskM>, lock: usize, failed: bool },
    Aggregate { children: Seq<TaskM> },
    SpawnBatch { handles: Seq<usize>, commands: Seq<Action> },
}

/// The model of a task.
pub open spec fn task_m(t: Task) -> TaskM
    decreases t,
{
    match t {
        Task::Start(a) => TaskM::Start(a),
        Task::End(a) => TaskM::End(a),
        Task::Finally(a) => TaskM::Finally(a),
        Task::Wait { duration, elapsed } => TaskM::Wait { duration, elapsed },
        Task::FadeIn { target, duration, elapsed } => TaskM::FadeIn { target, duration, elapsed },
        Task::FadeOut { target, duration, elapsed } => TaskM::FadeOut {
            target,
            duration,
            elapsed,
        },
        Task::Quit { despawn_host } => TaskM::Quit { despawn_host },
        Task::QuitIf { state, despawn_host } => TaskM::QuitIf { state, despawn_host },
        Task::WaitEvent { event } => TaskM::WaitEvent { event },
        Task::Guard { inner, lock, failed } => TaskM::Guard {
            inner: Box::new(task_m(*inner)),
            lock: lock@,
            failed,
        },
        Task::Aggregate { children } => TaskM::Aggregate { children: tasks_m(children@) },
        Task::SpawnBatch { handles, commands } => TaskM::SpawnBatch {
            handles: handles@,
            commands: commands@,
        },
    }
}

/// The models of a sequence of tasks, elementwise.
pub open spec fn tasks_m(ts: Seq<Task>) -> Seq<TaskM>
    decreases ts,
{
    if ts.len() == 0 {
        Seq::empty()
    } else {
        seq![task_m(ts[0])] + tasks_m(ts.subrange(1, ts.len() as int))
    }
}

impl View for Task {
    type V = TaskM;

    open spec fn view(&self) -> TaskM {
        task_m(*self)
    }
}

/// [`tasks_m`] is the elementwise image of [`task_m`].
pub proof fn lemma_tasks_m(ts: Seq<Task>)
    ensures
        tasks_m(ts).len() == ts.len(),
        forall|i: int| 0 <= i < ts.len() ==> tasks_m(ts)[i] == task_m(ts[i]),
    decreases ts.len(),
{
    if ts.len() > 0 {
        lemma_tasks_m(ts.subrange(1, ts.len() as int));
    }
}

/// The weight of a task: an upper bound (in queue entries, transitively) on
/// itself plus everything its `start` can splice into the queue.
pub open spec fn wt(t: TaskM) -> nat
    decreases t,
{
    match t {
        TaskM::Guard { inner, .. } => 1 + wt(*inner),
        TaskM::Aggregate { children } => 1 + qwt(children),
        _ => 1,
    }
}

/// The total weight of a queue of tasks.
pub open spec fn qwt(q: Seq<TaskM>) -> nat
    decreases q,
{
    if q.len() == 0 {
        0
    } else {
        wt(q[0]) + qwt(q.subrange(1, q.len() as int))
    }
}

/// Queue weight distributes over concatenation.
pub proof fn lemma_qwt_concat(a: Seq<TaskM>, b: Seq<TaskM>)
    ensures
        qwt(a + b) == qwt(a) + qwt(b),
    decreases a.len(),
{
    if a.len() == 0 {
        assert(a + b =~= b);
    } else {
        lemma_qwt_concat(a.subrange(1, a.len() as int), b);
        assert((a + b).subrange(1, (a + b).len() as int) =~= a.subrange(1, a.len() as int) + b);
    }
}

/// Inserting a task adds exactly its weight.
pub proof fn lemma_qwt_insert(q: Seq<TaskM>, i: int, t: TaskM)
    requires
        0 <= i <= q.len(),
    ensures
        qwt(q.insert(i, t)) == qwt(q) + wt(t),
    decreases i,
{
    if i == 0 {
        assert(q.insert(0, t)[0] == t);
        assert(q.insert(0, t).subrange(1, q.insert(0, t).len() as int) =~= q);
    } else {
        lemma_qwt_insert(q.subrange(1, q.len() as int), i - 1, t);
        assert(q.insert(i, t)[0] == q[0]);
        assert(q.insert(i, t).subrange(1, q.insert(i, t).len() as int) =~= q.subrange(
            1,
            q.len() as int,
        ).insert(i - 1, t));
    }
}

/// The effect of a task's `end` callback on the scene. Only the `End` task
/// (and a guard delegating to its inner task) acts here; `end` runs exactly
/// on normal completion, never on cancellation.
pub open spec fn end_m(t: TaskM, s: SceneM) -> SceneM
    decreases t,
{
    match t {
        TaskM::End(a) => apply_action_m(s, a),
        TaskM::Guard { inner, failed, .. } => if !failed {
            end_m(*inner, s)
        } else {
            s
        },
        _ => s,
    }
}

/// The effect of a task's `finally` callback on the scene. It runs exactly
/// once under all circumstances — normal completion or cancellation — which
/// is what makes it the right place to release a lock.
pub open spec fn finally_m(t: TaskM, s: SceneM) -> SceneM
    decreases t,
{
    match t {
        TaskM::Finally(a) => apply_action_m(s, a),
        TaskM::Guard { inner, .. } => finally_m(*inner, s),
        _ => s,
    }
}

/// The effect of cancelling a whole queue: `finally` on every task, in
/// front-to-back order, and `end` on none of them.
pub open spec fn finally_all_m(q: Seq<TaskM>, s: SceneM) -> SceneM
    decreases q.len(),
{
    if q.len() == 0 {
        s
    } else {
        finally_all_m(q.subrange(1, q.len() as int), finally_m(q[0], s))
    }
}

/// The outcome of starting one task at the front of a queue: the task
/// afterwards, the scene afterwards, the queue behind it afterwards, and the
/// insertion cursor the scheduling context ended at.
#[verifier::ext_equal]
pub struct StartResult {
    pub task: TaskM,
    pub scene: SceneM,
    pub rest: Seq<TaskM>,
    pub cursor: int,
}

/// The effect of a task's `start` callback, invoked exactly once right
/// before its first `run`, on itself, the scene, and the queue behind it
/// (`rest`). Tasks pushed during `start` splice in at the front of `rest`,
/// in push order.
pub open spec fn start_m(t: TaskM, s: SceneM, host: usize, rest: Seq<TaskM>) -> StartResult
    decreases t,
{
    match t {
        TaskM::Start(a) => StartResult {
            task: t,
            scene: apply_action_m(s, a),
            rest,
            cursor: 0,
        },
        TaskM::Quit { despawn_host } => {
            let cleared = finally_all_m(rest, s);
            StartResult {
                task: t,
                scene: if despawn_host {
                    despawn_m(cleared, host)
                } else {
                    cleared
                },
                rest: Seq::empty(),
                cursor: 0,
            }
        },
        TaskM::QuitIf { state, despawn_host } => {
            if s.next_state == Some(state) {
                let cleared = finally_all_m(rest, s);
                StartResult {
                    task: t,
                    scene: if despawn_host {
                        despawn_m(cleared, host)
                    } else {
                        cleared
                    },
                    rest: Seq::empty(),
                    cursor: 0,
                }
            } else {
                StartResult { task: t, scene: s, rest, cursor: 0 }
            }
        },
        TaskM::Guard { inner, lock, .. } => {
            if can_lock_m(s, lock) {
                let r = start_m(*inner, lock_acquire_m(s, lock), host, rest);
                StartResult {
                    task: TaskM::Guard { inner: Box::new(r.task), lock, failed: false },
                    scene: r.scene,
                    rest: r.rest.insert(r.cursor, TaskM::Finally(Action::Unlock(lock))),
                    cursor: r.cursor + 1,
                }
            } else {
                StartResult {
                    task: TaskM::Guard { inner, lock, failed: true },
                    scene: s,
                    rest,
                    cursor: 0,
                }
            }
        },
        TaskM::Aggregate { children } => StartResult {
            task: TaskM::Aggregate { children: Seq::empty() },
            scene: s,
            rest: children + rest,
            cursor: children.len() as int,
        },
        _ => StartResult { task: t, scene: s, rest, cursor: 0 },
    }
}

/// Starting a task keeps the cursor inside the queue and cannot add more
/// weight than the task itself carried: the combined weight of everything
/// it spliced in stays below its own weight.
pub proof fn lemma_start_m_bounds(t: TaskM, s: SceneM, host: usize, rest: Seq<TaskM>)
    ensures
        0 <= start_m(t, s, host, rest).cursor <= start_m(t, s, host, rest).rest.len(),
        qwt(start_m(t, s, host, rest).rest) + 1 <= wt(t) + qwt(rest),
    decreases t,
{
    match t {
        TaskM::Guard { inner, lock, .. } => {
            if can_lock_m(s, lock) {
                let r = start_m(*inner, lock_acquire_m(s, lock), host, rest);
                lemma_start_m_bounds(*inner, lock_acquire_m(s, lock), host, rest);
                lemma_qwt_insert(r.rest, r.cursor, TaskM::Finally(Action::Unlock(lock)));
            }
        },
        TaskM::Aggregate { children } => {
            lemma_qwt_concat(children, rest);
        },
        _ => {},
    }
}

/// How far a batch still is from ready: the recorded handles not yet loaded,
/// in their original order.
pub open spec fn pending_m(handles: Seq<usize>, s: SceneM) -> Seq<usize>
    decreases handles.len(),
{
    if handles.len() == 0 {
        Seq::empty()
    } else {
        let init = pending_m(handles.drop_last(), s);
        if loaded_m(s, handles.last()) {
            init
        } else {
            init.push(handles.last())
        }
    }
}

/// Nothing is pending exactly when every recorded handle has loaded.
pub proof fn lemma_pending_empty(handles: Seq<usize>, s: SceneM)
    ensures
        pending_m(handles, s).len() == 0 <==> (forall|i: int|
            0 <= i < handles.len() ==> loaded_m(s, handles[i])),
    decreases handles.len(),
{
    if handles.len() > 0 {
        lemma_pending_empty(handles.drop_last(), s);
        assert(forall|i: int|
            0 <= i < handles.len() - 1 ==> handles.drop_last()[i] == handles[i]);
        if pending_m(handles, s).len() == 0 {
            assert(forall|i: int| 0 <= i < handles.len() ==> loaded_m(s, handles[i])) by {
                assert(loaded_m(s, handles.last()));
                assert(forall|i: int|
                    0 <= i < handles.len() - 1 ==> loaded_m(s, handles.drop_last()[i]));
            }
        }
        if forall|i: int| 0 <= i < handles.len() ==> loaded_m(s, handles[i]) {
            assert(forall|i: int|
                0 <= i < handles.drop_last().len() ==> loaded_m(s, handles.drop_last()[i]));
        }
    }
}

/// The milliseconds-elapsed share of a fade, in thousandths, clamped to
/// opaque once the duration is reached.
pub open spec fn fade_frac(elapsed: u64, duration: u64) -> u64 {
    if duration == 0 || elapsed >= duration {
        1000
    } else {
        ((elapsed * 1000) / (duration as int)) as u64
    }
}

/// A fade in progress sits strictly below opaque.
pub proof fn lemma_fade_frac_bound(elapsed: u64, duration: u64)
    requires
        elapsed < duration,
    ensures
        0 <= (elapsed * 1000) / (duration as int) < 1000,
        fade_frac(elapsed, duration) == (elapsed * 1000) / (duration as int),
{
    assert(0 <= (elapsed * 1000) / (duration as int) < 1000) by (nonlinear_arith)
        requires
            elapsed < duration,
            duration > 0,
    ;
}

/// The eased fade-in level, in thousandths: the elapsed share squared, so the
/// fade starts slowly and accelerates towards opaque.
pub open spec fn ease_in_frac(elapsed: u64, duration: u64) -> u64 {
    ((fade_frac(elapsed, duration) * fade_frac(elapsed, duration)) / 1000) as u64
}

/// The outcome of one `run` call: the task afterwards, the scene afterwards,
/// and the status it reported.
#[verifier::ext_equal]
pub struct RunResult {
    pub task: TaskM,
    pub scene: SceneM,
    pub status: TaskStatus,
}

/// The effect of a task's `run` callback for one frame, given the delta
/// handed to it.
pub open spec fn run_m(t: TaskM, s: SceneM, delta: u64) -> RunResult
    decreases t,
{
    match t {
        TaskM::Wait { duration, elapsed } => {
            let e2 = sat_add(elapsed, delta);
            if e2 >= duration {
                RunResult {
                    task: TaskM::Wait { duration, elapsed: e2 },
                    scene: s,
                    status: TaskStatus::FinishedRemaining((e2 - duration) as u64),
                }
            } else {
                RunResult {
                    task: TaskM::Wait { duration, elapsed: e2 },
                    scene: s,
                    status: TaskStatus::NotFinished,
                }
            }
        },
        TaskM::FadeIn { target, duration, elapsed } => {
            let e2 = sat_add(elapsed, delta);
            let t2 = TaskM::FadeIn { target, duration, elapsed: e2 };
            if e2 >= duration {
                RunResult {
                    task: t2,
                    scene: set_fade_m(s, target, 1000),
                    status: TaskStatus::FinishedRemaining((e2 - duration) as u64),
                }
            } else {
                RunResult {
                    task: t2,
                    scene: set_fade_m(s, target, ease_in_frac(e2, duration)),
                    status: TaskStatus::NotFinished,
                }
            }
        },
        TaskM::FadeOut { target, duration, elapsed } => {
            let e2 = sat_add(elapsed, delta);
            let t2 = TaskM::FadeOut { target, duration, elapsed: e2 };
            if e2 >= duration {
                RunResult {
                    task: t2,
                    scene: set_fade_m(s, target, 0),
                    status: TaskStatus::FinishedRemaining((e2 - duration) as u64),
                }
            } else {
                RunResult {
                    task: t2,
                    scene: set_fade_m(s, target, (1000 - fade_frac(e2, duration)) as u64),
                    status: TaskStatus::NotFinished,
                }
            }
        },
        TaskM::WaitEvent { event } => {
            if s.events.contains(event) {
                RunResult { task: t, scene: s, status: TaskStatus::Finished }
            } else {
                RunResult { task: t, scene: s, status: TaskStatus::NotFinished }
            }
        },
        TaskM::Guard { inner, lock, failed } => {
            if failed {
                RunResult { task: t, scene: s, status: TaskStatus::Finished }
            } else {
                let r = run_m(*inner, s, delta);
                RunResult {
                    task: TaskM::Guard { inner: Box::new(r.task), lock, failed },
                    scene: r.scene,
                    status: r.status,
                }
            }
        },
        TaskM::SpawnBatch { handles, commands } => {
            let rem = pending_m(handles, s);
            if rem.len() == 0 {
                RunResult {
                    task: TaskM::SpawnBatch { handles: rem, commands },
                    scene: apply_all_m(s, commands),
                    status: TaskStatus::Finished,
                }
            } else {
                RunResult {
                    task: TaskM::SpawnBatch { handles: rem, commands },
                    scene: s,
                    status: TaskStatus::NotFinished,
                }
            }
        },
        _ => RunResult { task: t, scene: s, status: TaskStatus::Finished },
    }
}

impl Task {
    /// Runs the task for one frame with the given delta, returning the task's
    /// new state and the status it reports.
    pub fn run(self, scene: &mut Scene, delta: u64) -> (r: (Task, TaskStatus))
        ensures
            task_m(r.0) == run_m(task_m(self), old(scene)@, delta).task,
            final(scene)@ == run_m(task_m(self), old(scene)@, delta).scene,
            r.1 == run_m(task_m(self), old(scene)@, delta).status,
        decreases self,
    {
        match self {
            Task::Wait { duration, elapsed } => {
                let e2 = saturating_add(elapsed, delta);
                if e2 >= duration {
                    (
                        Task::Wait { duration, elapsed: e2 },
                        TaskStatus::FinishedRemaining(e2 - duration),
                    )
                } else {
                    (Task::Wait { duration, elapsed: e2 }, TaskStatus::NotFinished)
                }
            },
            Task::FadeIn { target, duration, elapsed } => {
                let e2 = saturating_add(elapsed, delta);
                if e2 >= duration {
                    scene.set_fade(target, 1000);
                    (
                        Task::FadeIn { target, duration, elapsed: e2 },
                        TaskStatus::FinishedRemaining(e2 - duration),
                    )
                } else {
                    let share = fade_level_exec(e2, duration);
                    proof {
                        assert(share * share < 1000000) by (nonlinear_arith)
                            requires
                                share < 1000,
                        ;
                    }
                    let level = (share * share) / 1000;
                    scene.set_fade(target, level);
                    (Task::FadeIn { target, duration, elapsed: e2 }, TaskStatus::NotFinished)
                }
            },
            Task::FadeOut { target, duration, elapsed } => {
                let e2 = saturating_add(elapsed, delta);
                if e2 >= duration {
                    scene.set_fade(target, 0);
                    (
                        Task::FadeOut { target, duration, elapsed: e2 },
                        TaskStatus::FinishedRemaining(e2 - duration),
                    )
                } else {
                    let level = fade_level_exec(e2, duration);
                    scene.set_fade(target, 1000 - level);
                    (Task::FadeOut { target, duration, elapsed: e2 }, TaskStatus::NotFinished)
                }
            },
            Task::WaitEvent { event } => {
                let mut found = false;
                let n = scene.events.len();
                let mut i: usize = 0;
                while i < n
                    invariant
                        i <= n,
                        n == scene@.events.len(),
                        found == (exists|j: int| 0 <= j < i && scene@.events[j] == event),
                    decreases n - i,
                {
                    if scene.events[i] == event {
                        found = true;
                    }
                    i = i + 1;
                }
                if found {
                    (Task::WaitEvent { event }, TaskStatus::Finished)
                } else {
                    (Task::WaitEvent { event }, TaskStatus::NotFinished)
                }
            },
            Task::Guard { inner, lock, failed } => {
                if failed {
                    (Task::Guard { inner, lock, failed }, TaskStatus::Finished)
                } else {
                    let (t2, st) = (*inner).run(scene, delta);
                    (Task::Guard { inner: Box::new(t2), lock, failed }, st)
                }
            },
            Task::SpawnBatch { handles, commands } => {
                let mut rem: Vec<usize> = Vec::new();
                let n = handles.len();
                let mut i: usize = 0;
                while i < n
                    invariant
                        i <= n,
                        n == handles@.len(),
                        rem@ == pending_m(handles@.subrange(0, i as int), scene@),
                    decreases n - i,
                {
                    let h = handles[i];
                    proof {
                        assert(handles@.subrange(0, i + 1 as int).drop_last() =~= handles@.subrange(
                            0,
                            i as int,
                        ));
                        assert(handles@.subrange(0, i + 1 as int).last() == handles@[i as int]);
                    }
                    if !scene.is_loaded(h) {
                        rem.push(h);
                    }
                    i = i + 1;
                }
                proof {
                    assert(handles@.subrange(0, n as int) =~= handles@);
                }
                if rem.len() == 0 {
                    scene.apply_all(&commands);
                    (Task::SpawnBatch { handles: rem, commands }, TaskStatus::Finished)
                } else {
                    (Task::SpawnBatch { handles: rem, commands }, TaskStatus::NotFinished)
                }
            },
            _ => (self, TaskStatus::Finished),
        }
    }

    /// The `end` teardown callback, invoked exactly once, immediately after
    /// `run` reports finished — and so never on a cancelled task.
    pub fn end(&self, scene: &mut Scene)
        ensures
            final(scene)@ == end_m(task_m(*self), old(scene)@),
        decreases self,
    {
        match self {
            Task::End(a) => {
                scene.apply(*a);
            },
            Task::Guard { inner, failed, .. } => {
                if !*failed {
                    inner.end(scene);
                }
            },
            _ => {},
        }
    }

    /// The `finally` cleanup callback, invoked exactly once under all
    /// circumstances: after `end` on normal completion, or on its own when
    /// the queue is cancelled.
    pub fn finally(&self, scene: &mut Scene)
        ensures
            final(scene)@ == finally_m(task_m(*self), old(scene)@),
        decreases self,
    {
        match self {
            Task::Finally(a) => {
                scene.apply(*a);
            },
            Task::Guard { inner, .. } => {
                inner.finally(scene);
            },
            _ => {},
        }
    }
}

/// The linear elapsed share of a fade still in progress, in thousandths: the
/// fade-out level directly, and the base the fade-in squares for its ease.
fn fade_level_exec(elapsed: u64, duration: u64) -> (level: u64)
    requires
        elapsed < duration,
    ensures
        level == fade_frac(elapsed, duration),
        level < 1000,
{
    proof {
        lemma_fade_frac_bound(elapsed, duration);
    }
    let num: u128 = (elapsed as u128) * 1000;
    let q: u128 = num / (duration as u128);
    q as u64
}

} // verus!
