//! The sequencer: a queue of tasks attached to one host entity, advanced once
//! per frame, plus the scheduling context a starting task uses to splice
//! further tasks into that queue.
//!
//! The whole frame step is specified by the interpreter [`tick_m`]: start the
//! head task if it has not been started, then run the head repeatedly —
//! `NotFinished` suspends until next frame; `Finished` tears the task down
//! and continues with a zero delta; `FinishedRemaining(d)` tears it down and
//! continues with delta exactly `d` — until the queue empties or a task
//! suspends. [`TaskRunner::tick`] is verified to implement it exactly.

use vstd::prelude::*;
use std::collections::VecDeque;
use crate::scene::{Action, Scene, SceneM};
use crate::status::TaskStatus;
use crate::task::{
    end_m, finally_all_m, finally_m, lemma_start_m_bounds, lemma_tasks_m, qwt, run_m, start_m,
    task_m, tasks_m, wt, Task, TaskM,
};

verus! {

/// A transient view over a sequencer's queue, handed to a task's `start`.
///
/// `push` inserts at the cursor and advances it, so tasks pushed during one
/// `start` run in push order, immediately after the starting task and before
/// everything that was already queued.
pub struct TaskQueue {
    host: usize,
    insert_index: usize,
    tasks: VecDeque<Task>,
}

impl TaskQueue {
    /// The host entity that owns the queue.
    pub closed spec fn host_spec(&self) -> usize {
        self.host
    }

    /// The insertion cursor: where the next pushed task lands.
    pub closed spec fn cursor(&self) -> int {
        self.insert_index as int
    }

    /// The models of the queued tasks, front to back.
    pub closed spec fn queue(&self) -> Seq<TaskM> {
        tasks_m(self.tasks@)
    }

    /// The cursor never leaves the queue.
    pub closed spec fn wf(&self) -> bool {
        self.insert_index <= self.tasks@.len()
    }

    /// A fresh, empty context for `host`, with the cursor at the front.
    pub fn new(host: usize) -> (tq: TaskQueue)
        ensures
            tq.wf(),
            tq.host_spec() == host,
            tq.cursor() == 0,
            tq.queue() == Seq::<TaskM>::empty(),
    {
        TaskQueue { host, insert_index: 0, tasks: VecDeque::new() }
    }

    /// The host entity that owns the queue; tasks use it to address their own
    /// host (to mark it, or to despawn it).
    pub fn host(&self) -> (h: usize)
        ensures
            h == self.host_spec(),
    {
        self.host
    }

    /// Inserts `task` at the cursor and advances the cursor, so consecutive
    /// pushes enqueue tasks in call order, ahead of the previously queued.
    pub fn push(&mut self, task: Task)
        requires
            old(self).wf(),
        ensures
            final(self).wf(),
            final(self).host_spec() == old(self).host_spec(),
            final(self).queue() == old(self).queue().insert(old(self).cursor(), task_m(task)),
            final(self).cursor() == old(self).cursor() + 1,
    {
        let ghost q0 = self.tasks@;
        let ghost i = self.insert_index as int;
        self.tasks.insert(self.insert_index, task);
        let n = self.tasks.len();
        proof {
            assert(self.insert_index < n);
        }
        self.insert_index = self.insert_index + 1;
        proof {
            lemma_tasks_m(q0);
            lemma_tasks_m(q0.insert(i, task));
            assert(tasks_m(q0.insert(i, task)) =~= tasks_m(q0).insert(i, task_m(task)));
        }
    }

    /// Empties the queue, invoking `finally` — and never `end` — on every
    /// removed task, in front-to-back order, and resets the cursor.
    pub fn clear(&mut self, scene: &mut Scene)
        requires
            old(self).wf(),
        ensures
            final(self).wf(),
            final(self).host_spec() == old(self).host_spec(),
            final(self).queue() == Seq::<TaskM>::empty(),
            final(self).cursor() == 0,
            final(scene)@ == finally_all_m(old(self).queue(), old(scene)@),
    {
        clear_deque(&mut self.tasks, scene);
        self.insert_index = 0;
    }

    /// Pushes a task that applies `action` once, at `start`.
    pub fn start(&mut self, action: Action)
        requires
            old(self).wf(),
        ensures
            final(self).wf(),
            final(self).host_spec() == old(self).host_spec(),
            final(self).queue() == old(self).queue().insert(
                old(self).cursor(),
                TaskM::Start(action),
            ),
            final(self).cursor() == old(self).cursor() + 1,
    {
        self.push(Task::Start(action));
    }

    /// Pushes a task that applies `action` in `end`, on normal completion.
    pub fn end(&mut self, action: Action)
        requires
            old(self).wf(),
        ensures
            final(self).wf(),
            final(self).host_spec() == old(self).host_spec(),
            final(self).queue() == old(self).queue().insert(
                old(self).cursor(),
                TaskM::End(action),
            ),
            final(self).cursor() == old(self).cursor() + 1,
    {
        self.push(Task::End(action));
    }

    /// Pushes a task that applies `action` in `finally`, so even if the queue
    /// is cancelled before reaching it.
    pub fn finally(&mut self, action: Action)
        requires
            old(self).wf(),
        ensures
            final(self).wf(),
            final(self).host_spec() == old(self).host_spec(),
            final(self).queue() == old(self).queue().insert(
                old(self).cursor(),
                TaskM::Finally(action),
            ),
            final(self).cursor() == old(self).cursor() + 1,
    {
        self.push(Task::Finally(action));
    }

    /// Pushes a task that waits for `duration` milliseconds.
    pub fn wait(&mut self, duration: u64)
        requires
            old(self).wf(),
        ensures
            final(self).wf(),
            final(self).host_spec() == old(self).host_spec(),
            final(self).queue() == old(self).queue().insert(
                old(self).cursor(),
                TaskM::Wait { duration, elapsed: 0 },
            ),
            final(self).cursor() == old(self).cursor() + 1,
    {
        self.push(Task::Wait { duration, elapsed: 0 });
    }

    /// Pushes a task that requests the state transition to `state`.
    pub fn set_state(&mut self, state: u64)
        requires
            old(self).wf(),
        ensures
            final(self).wf(),
            final(self).host_spec() == old(self).host_spec(),
            final(self).queue() == old(self).queue().insert(
                old(self).cursor(),
                TaskM::Start(Action::SetState(state)),
            ),
            final(self).cursor() == old(self).cursor() + 1,
    {
        self.push(Task::Start(Action::SetState(state)));
    }

    /// Pushes a task that fires event `event`.
    pub fn send_event(&mut self, event: u64)
        requires
            old(self).wf(),
        ensures
            final(self).wf(),
            final(self).host_spec() == old(self).host_spec(),
            final(self).queue() == old(self).queue().insert(
                old(self).cursor(),
                TaskM::Start(Action::SendEvent(event)),
            ),
            final(self).cursor() == old(self).cursor() + 1,
    {
        self.push(Task::Start(Action::SendEvent(event)));
    }

    /// Pushes a task that despawns `entity` if it exists. If `unconditional`,
    /// the despawn happens in `finally`, so even if the runner quits abruptly
    /// before reaching the task; otherwise it happens at `start`.
    pub fn despawn(&mut self, entity: usize, unconditional: bool)
        requires
            old(self).wf(),
        ensures
            final(self).wf(),
            final(self).host_spec() == old(self).host_spec(),
            final(self).queue() == old(self).queue().insert(
                old(self).cursor(),
                if unconditional {
                    TaskM::Finally(Action::Despawn(entity))
                } else {
                    TaskM::Start(Action::Despawn(entity))
                },
            ),
            final(self).cursor() == old(self).cursor() + 1,
    {
        if unconditional {
            self.push(Task::Finally(Action::Despawn(entity)));
        } else {
            self.push(Task::Start(Action::Despawn(entity)));
        }
    }

    /// Pushes a task that waits for event `event` to have been sent.
    pub fn wait_for_event(&mut self, event: u64)
        requires
            old(self).wf(),
        ensures
            final(self).wf(),
            final(self).host_spec() == old(self).host_spec(),
            final(self).queue() == old(self).queue().insert(
                old(self).cursor(),
                TaskM::WaitEvent { event },
            ),
            final(self).cursor() == old(self).cursor() + 1,
    {
        self.push(Task::WaitEvent { event });
    }

    /// Pushes a task that cancels the queue if the pending state equals
    /// `state` when the task starts.
    pub fn quit_if_state(&mut self, state: u64, despawn_host: bool)
        requires
            old(self).wf(),
        ensures
            final(self).wf(),
            final(self).host_spec() == old(self).host_spec(),
            final(self).queue() == old(self).queue().insert(
                old(self).cursor(),
                TaskM::QuitIf { state, despawn_host },
            ),
            final(self).cursor() == old(self).cursor() + 1,
    {
        self.push(Task::QuitIf { state, despawn_host });
    }

    /// Pushes a task that cancels the queue, acting as an early return.
    pub fn quit(&mut self, despawn_host: bool)
        requires
            old(self).wf(),
        ensures
            final(self).wf(),
            final(self).host_spec() == old(self).host_spec(),
            final(self).queue() == old(self).queue().insert(
                old(self).cursor(),
                TaskM::Quit { despawn_host },
            ),
            final(self).cursor() == old(self).cursor() + 1,
    {
        self.push(Task::Quit { despawn_host });
    }

    /// Pushes a task that raises fade surface `target` over `duration`.
    pub fn fade_in(&mut self, target: usize, duration: u64)
        requires
            old(self).wf(),
        ensures
            final(self).wf(),
            final(self).host_spec() == old(self).host_spec(),
            final(self).queue() == old(self).queue().insert(
                old(self).cursor(),
                TaskM::FadeIn { target, duration, elapsed: 0 },
            ),
            final(self).cursor() == old(self).cursor() + 1,
    {
        self.push(Task::FadeIn { target, duration, elapsed: 0 });
    }

    /// Pushes a task that lowers fade surface `target` over `duration`.
    pub fn fade_out(&mut self, target: usize, duration: u64)
        requires
            old(self).wf(),
        ensures
            final(self).wf(),
            final(self).host_spec() == old(self).host_spec(),
            final(self).queue() == old(self).queue().insert(
                old(self).cursor(),
                TaskM::FadeOut { target, duration, elapsed: 0 },
            ),
            final(self).cursor() == old(self).cursor() + 1,
    {
        self.push(Task::FadeOut { target, duration, elapsed: 0 });
    }

    /// Pushes a deferred batch: `commands` stay buffered until every handle
    /// in `handles` has finished loading, then apply in one step.
    pub fn spawn_batch(&mut self, handles: Vec<usize>, commands: Vec<Action>)
        requires
            old(self).wf(),
        ensures
            final(self).wf(),
            final(self).host_spec() == old(self).host_spec(),
            final(self).queue() == old(self).queue().insert(
                old(self).cursor(),
                TaskM::SpawnBatch { handles: handles@, commands: commands@ },
            ),
            final(self).cursor() == old(self).cursor() + 1,
    {
        self.push(Task::SpawnBatch { handles, commands });
    }
}

/// Empties a queue, invoking `finally` on every task front-to-back.
fn clear_deque(tasks: &mut VecDeque<Task>, scene: &mut Scene)
    ensures
        final(tasks)@.len() == 0,
        final(scene)@ == finally_all_m(tasks_m(old(tasks)@), old(scene)@),
{
    let ghost goal = finally_all_m(tasks_m(old(tasks)@), old(scene)@);
    loop
        invariant
            finally_all_m(tasks_m(tasks@), scene@) == goal,
        ensures
            tasks@.len() == 0,
            scene@ == goal,
        decreases tasks@.len(),
    {
        let ghost q0 = tasks@;
        if tasks.len() == 0 {
            break ;
        }
        let t = tasks.pop_front().unwrap();
        t.finally(scene);
        proof {
            assert(tasks@ =~= q0.subrange(1, q0.len() as int));
            assert(tasks_m(q0)[0] == task_m(q0[0]));
            assert(tasks_m(q0).subrange(1, tasks_m(q0).len() as int) =~= tasks_m(
                q0.subrange(1, q0.len() as int),
            )) by {
                lemma_tasks_m(q0);
                lemma_tasks_m(q0.subrange(1, q0.len() as int));
            }
        }
    }
}

impl Task {
    /// Sets the task up, exactly once, right before its first `run`. The
    /// scheduling context must be fresh — cursor at the front, the way the
    /// runner hands it over — so pushed tasks splice in right behind this
    /// task.
    pub fn start(self, scene: &mut Scene, tq: &mut TaskQueue) -> (t: Task)
        requires
            old(tq).wf(),
            old(tq).cursor() == 0,
        ensures
            ({
                let sr = start_m(task_m(self), old(scene)@, old(tq).host_spec(), old(tq).queue());
                &&& task_m(t) == sr.task
                &&& final(scene)@ == sr.scene
                &&& final(tq).queue() == sr.rest
                &&& final(tq).cursor() == sr.cursor
                &&& final(tq).host_spec() == old(tq).host_spec()
                &&& final(tq).wf()
            }),
        decreases self,
    {
        match self {
            Task::Start(a) => {
                scene.apply(a);
                Task::Start(a)
            },
            Task::Quit { despawn_host } => {
                tq.clear(scene);
                if despawn_host {
                    let host = tq.host();
                    scene.despawn(host);
                }
                Task::Quit { despawn_host }
            },
            Task::QuitIf { state, despawn_host } => {
                let state_matches = match scene.next_state {
                    Some(pending) => pending == state,
                    None => false,
                };
                if state_matches {
                    tq.clear(scene);
                    if despawn_host {
                        let host = tq.host();
                        scene.despawn(host);
                    }
                }
                Task::QuitIf { state, despawn_host }
            },
            Task::Guard { inner, lock, failed } => {
                if lock.lock(scene) {
                    let t2 = (*inner).start(scene, tq);
                    tq.push(Task::Finally(Action::Unlock(lock.id())));
                    Task::Guard { inner: Box::new(t2), lock, failed: false }
                } else {
                    Task::Guard { inner, lock, failed: true }
                }
            },
            Task::Aggregate { children } => {
                let ghost orig = children@;
                let ghost rest0 = old(tq).queue();
                let mut cs = children;
                while cs.len() > 0
                    invariant
                        tq.wf(),
                        tq.host_spec() == old(tq).host_spec(),
                        cs@.len() <= orig.len(),
                        cs@ == orig.subrange(orig.len() - cs@.len(), orig.len() as int),
                        tq.cursor() == orig.len() - cs@.len(),
                        tq.queue() == tasks_m(orig.subrange(0, orig.len() - cs@.len())) + rest0,
                    decreases cs@.len(),
                {
                    let ghost done = orig.len() - cs@.len();
                    let c = cs.remove(0);
                    proof {
                        assert(c == orig[done]);
                        assert(cs@ =~= orig.subrange(done + 1, orig.len() as int));
                        lemma_tasks_m(orig.subrange(0, done));
                        lemma_tasks_m(orig.subrange(0, done + 1));
                        assert((tasks_m(orig.subrange(0, done)) + rest0).insert(
                            done,
                            task_m(orig[done]),
                        ) =~= tasks_m(orig.subrange(0, done + 1)) + rest0);
                    }
                    tq.push(c);
                }
                let empty_children: Vec<Task> = Vec::new();
                proof {
                    assert(orig.subrange(0, orig.len() as int) =~= orig);
                    lemma_tasks_m(orig);
                    assert(tq.queue() =~= tasks_m(orig) + rest0);
                    assert(tasks_m(empty_children@) =~= Seq::<TaskM>::empty());
                }
                Task::Aggregate { children: empty_children }
            },
            Task::End(a) => Task::End(a),
            Task::Finally(a) => Task::Finally(a),
            Task::Wait { duration, elapsed } => Task::Wait { duration, elapsed },
            Task::WaitEvent { event } => Task::WaitEvent { event },
            Task::FadeIn { target, duration, elapsed } => Task::FadeIn {
                target,
                duration,
                elapsed,
            },
            Task::FadeOut { target, duration, elapsed } => Task::FadeOut {
                target,
                duration,
                elapsed,
            },
            Task::SpawnBatch { handles, commands } => Task::SpawnBatch { handles, commands },
        }
    }
}

/// The outcome of one frame tick: the queue afterwards, the scene afterwards,
/// and whether the sequencer is fully finished (so the driver detaches it).
#[verifier::ext_equal]
pub struct LoopResult {
    pub queue: Seq<TaskM>,
    pub scene: SceneM,
    pub finished: bool,
}

/// The measure of the run loop: the head task is already started, so it
/// counts one entry; everything behind it counts its full weight.
pub open spec fn loop_msr(q: Seq<TaskM>) -> nat {
    if q.len() == 0 {
        0
    } else {
        1 + qwt(q.subrange(1, q.len() as int))
    }
}

/// The run loop of one frame, with the head task already started: run the
/// head; on `NotFinished` suspend until next frame; otherwise run `end` then
/// `finally`, pop it, start the next task, and continue in the same frame —
/// with delta exactly `d` after `FinishedRemaining(d)`, and with a zero delta
/// after `Finished`.
pub open spec fn tick_loop(q: Seq<TaskM>, s: SceneM, host: usize, delta: u64) -> LoopResult
    decreases loop_msr(q),
    via tick_loop_decreases
{
    if q.len() == 0 {
        LoopResult { queue: q, scene: s, finished: true }
    } else {
        let r = run_m(q[0], s, delta);
        match r.status {
            TaskStatus::NotFinished => LoopResult {
                queue: seq![r.task] + q.subrange(1, q.len() as int),
                scene: r.scene,
                finished: false,
            },
            _ => {
                let d2 = match r.status {
                    TaskStatus::FinishedRemaining(d) => d,
                    _ => 0,
                };
                let s2 = finally_m(r.task, end_m(r.task, r.scene));
                let rest = q.subrange(1, q.len() as int);
                if rest.len() == 0 {
                    LoopResult { queue: rest, scene: s2, finished: true }
                } else {
                    let sr = start_m(rest[0], s2, host, rest.subrange(1, rest.len() as int));
                    tick_loop(seq![sr.task] + sr.rest, sr.scene, host, d2)
                }
            },
        }
    }
}

#[via_fn]
proof fn tick_loop_decreases(q: Seq<TaskM>, s: SceneM, host: usize, delta: u64) {
    if q.len() > 0 {
        let r = run_m(q[0], s, delta);
        if !(r.status is NotFinished) {
            let s2 = finally_m(r.task, end_m(r.task, r.scene));
            let rest = q.subrange(1, q.len() as int);
            if rest.len() > 0 {
                let tail = rest.subrange(1, rest.len() as int);
                let sr = start_m(rest[0], s2, host, tail);
                lemma_start_m_bounds(rest[0], s2, host, tail);
                assert((seq![sr.task] + sr.rest).subrange(
                    1,
                    (seq![sr.task] + sr.rest).len() as int,
                ) =~= sr.rest);
                assert(qwt(rest) == wt(rest[0]) + qwt(tail));
                assert(loop_msr(seq![sr.task] + sr.rest) < loop_msr(q));
            }
        }
    }
}

/// One whole frame tick of a sequencer: if the head task has not been
/// started, start it (splicing in whatever it pushes), then enter the run
/// loop with this frame's delta.
pub open spec fn tick_m(started: bool, q: Seq<TaskM>, s: SceneM, host: usize, delta: u64)
    -> LoopResult {
    if q.len() == 0 {
        LoopResult { queue: q, scene: s, finished: true }
    } else if !started {
        let sr = start_m(q[0], s, host, q.subrange(1, q.len() as int));
        tick_loop(seq![sr.task] + sr.rest, sr.scene, host, delta)
    } else {
        tick_loop(q, s, host, delta)
    }
}

/// Mathematical model of a [`TaskRunner`]: whether the head task has been
/// started, and the queued tasks front to back.
#[verifier::ext_equal]
pub struct RunnerM {
    pub started: bool,
    pub queue: Seq<TaskM>,
}

/// A sequencer: an ordered queue of tasks attached to one host entity,
/// advanced once per frame by [`TaskRunner::tick`]. At most one task is ever
/// mid-execution; the queue's front element is always the next (or currently
/// running) task.
pub struct TaskRunner {
    started: bool,
    tasks: VecDeque<Task>,
}

impl View for TaskRunner {
    type V = RunnerM;

    closed spec fn view(&self) -> RunnerM {
        RunnerM { started: self.started, queue: tasks_m(self.tasks@) }
    }
}

impl TaskRunner {
    /// Creates a runner with exactly one task.
    pub fn new(task: Task) -> (r: TaskRunner)
        ensures
            r@.started == false,
            r@.queue == seq![task_m(task)],
    {
        let mut tasks: VecDeque<Task> = VecDeque::new();
        tasks.push_front(task);
        proof {
            assert(tasks@ =~= seq![task]);
            lemma_tasks_m(tasks@);
            assert(tasks_m(tasks@) =~= seq![task_m(task)]);
        }
        TaskRunner { started: false, tasks }
    }

    /// How many tasks are queued (the running one included).
    pub fn len(&self) -> (n: usize)
        ensures
            n == self@.queue.len(),
    {
        proof {
            lemma_tasks_m(self.tasks@);
        }
        self.tasks.len()
    }

    /// Whether the head task has been started.
    pub fn is_started(&self) -> (b: bool)
        ensures
            b == self@.started,
    {
        self.started
    }

    /// Appends a task at the back of the queue.
    pub fn push(&mut self, task: Task)
        ensures
            final(self)@.started == old(self)@.started,
            final(self)@.queue == old(self)@.queue.push(task_m(task)),
    {
        let ghost q0 = self.tasks@;
        self.tasks.push_back(task);
        proof {
            lemma_tasks_m(q0);
            lemma_tasks_m(q0.push(task));
            assert(tasks_m(q0.push(task)) =~= tasks_m(q0).push(task_m(task)));
        }
    }

    /// Cancels the runner: empties the queue, invoking `finally` — and never
    /// `end` — on every still-queued task, in front-to-back order.
    pub fn clear(&mut self, scene: &mut Scene)
        ensures
            final(self)@.started == old(self)@.started,
            final(self)@.queue == Seq::<TaskM>::empty(),
            final(scene)@ == finally_all_m(old(self)@.queue, old(scene)@),
    {
        clear_deque(&mut self.tasks, scene);
    }

    /// Advances the runner by one frame with the given delta, implementing
    /// [`tick_m`] exactly. Returns true when the queue is exhausted, telling
    /// the driver to detach the runner from its host.
    #[verifier::loop_isolation(false)]
    pub fn tick(&mut self, scene: &mut Scene, host: usize, delta: u64) -> (finished: bool)
        ensures
            ({
                let r = tick_m(old(self)@.started, old(self)@.queue, old(scene)@, host, delta);
                &&& final(self)@.queue == r.queue
                &&& final(scene)@ == r.scene
                &&& finished == r.finished
                &&& final(self)@.started == true
            }),
    {
        let ghost goal = tick_m(self@.started, self@.queue, scene@, host, delta);
        if self.tasks.len() == 0 {
            self.started = true;
            proof {
                assert(self@.queue =~= Seq::<TaskM>::empty());
            }
            return true;
        }
        if !self.started {
            self.started = true;
            let ghost q0 = self.tasks@;
            let ghost s0 = scene@;
            let head = self.tasks.pop_front().unwrap();
            proof {
                assert(self.tasks@ =~= q0.subrange(1, q0.len() as int));
                lemma_tasks_m(q0);
                lemma_tasks_m(q0.subrange(1, q0.len() as int));
                assert(tasks_m(q0.subrange(1, q0.len() as int)) =~= tasks_m(q0).subrange(
                    1,
                    tasks_m(q0).len() as int,
                ));
            }
            let ghost sr0 = start_m(
                task_m(head),
                s0,
                host,
                tasks_m(q0).subrange(1, tasks_m(q0).len() as int),
            );
            let mut rest: VecDeque<Task> = VecDeque::new();
            std::mem::swap(&mut rest, &mut self.tasks);
            let mut tq = TaskQueue { host, insert_index: 0, tasks: rest };
            let head2 = head.start(scene, &mut tq);
            let TaskQueue { host: _, insert_index: _, tasks: mut rest2 } = tq;
            let ghost q1 = rest2@;
            rest2.push_front(head2);
            self.tasks = rest2;
            proof {
                lemma_tasks_m(q1);
                lemma_tasks_m(seq![head2] + q1);
                assert(tasks_m(seq![head2] + q1) =~= seq![task_m(head2)] + tasks_m(q1));
                assert(self@.queue == seq![sr0.task] + sr0.rest);
                assert(scene@ == sr0.scene);
                assert(tick_loop(self@.queue, scene@, host, delta) == goal);
            }
        }
        let mut d: u64 = delta;
        loop
            invariant
                self.started == true,
                tick_loop(self@.queue, scene@, host, d) == goal,
            decreases loop_msr(self@.queue),
        {
            let ghost q0 = self.tasks@;
            let ghost s_head = scene@;
            let ghost d_head = d;
            if self.tasks.len() == 0 {
                proof {
                    assert(self@.queue =~= Seq::<TaskM>::empty());
                }
                return true;
            }
            let t = self.tasks.pop_front().unwrap();
            proof {
                assert(self.tasks@ =~= q0.subrange(1, q0.len() as int));
                lemma_tasks_m(q0);
                lemma_tasks_m(q0.subrange(1, q0.len() as int));
                assert(tasks_m(q0.subrange(1, q0.len() as int)) =~= tasks_m(q0).subrange(
                    1,
                    tasks_m(q0).len() as int,
                ));
            }
            let (t2, st) = t.run(scene, d);
            if matches!(st, TaskStatus::NotFinished) {
                let ghost q1 = self.tasks@;
                self.tasks.push_front(t2);
                proof {
                    lemma_tasks_m(q1);
                    lemma_tasks_m(seq![t2] + q1);
                    assert(tasks_m(seq![t2] + q1) =~= seq![task_m(t2)] + tasks_m(q1));
                }
                return false;
            }
            let dnext: u64 = match st {
                TaskStatus::FinishedRemaining(rem) => rem,
                _ => 0,
            };
            t2.end(scene);
            t2.finally(scene);
            if self.tasks.len() == 0 {
                proof {
                    assert(self@.queue =~= Seq::<TaskM>::empty());
                }
                return true;
            }
            let ghost qr = self.tasks@;
            let ghost s_mid = scene@;
            let next = self.tasks.pop_front().unwrap();
            proof {
                assert(self.tasks@ =~= qr.subrange(1, qr.len() as int));
                lemma_tasks_m(qr);
                lemma_tasks_m(qr.subrange(1, qr.len() as int));
                assert(tasks_m(qr.subrange(1, qr.len() as int)) =~= tasks_m(qr).subrange(
                    1,
                    tasks_m(qr).len() as int,
                ));
            }
            let ghost tail2m = tasks_m(qr).subrange(1, tasks_m(qr).len() as int);
            let ghost sr = start_m(task_m(next), s_mid, host, tail2m);
            let mut rest: VecDeque<Task> = VecDeque::new();
            std::mem::swap(&mut rest, &mut self.tasks);
            let mut tq = TaskQueue { host, insert_index: 0, tasks: rest };
            let next2 = next.start(scene, &mut tq);
            let TaskQueue { host: _, insert_index: _, tasks: mut rest2 } = tq;
            let ghost q1 = rest2@;
            rest2.push_front(next2);
            self.tasks = rest2;
            d = dnext;
            proof {
                lemma_tasks_m(q1);
                lemma_tasks_m(seq![next2] + q1);
                assert(tasks_m(seq![next2] + q1) =~= seq![task_m(next2)] + tasks_m(q1));
                assert(self@.queue == seq![sr.task] + sr.rest);
                assert(scene@ == sr.scene);
                // The invariant is preserved: this iteration took exactly one
                // unfolding step of the interpreter.
                assert(tick_loop(tasks_m(q0), s_head, host, d_head) == tick_loop(
                    seq![sr.task] + sr.rest,
                    sr.scene,
                    host,
                    dnext,
                ));
                // The measure shrinks: the started head counts one entry where
                // the task it replaced counted its full weight.
                lemma_start_m_bounds(task_m(next), s_mid, host, tail2m);
                assert((seq![sr.task] + sr.rest).subrange(
                    1,
                    (seq![sr.task] + sr.rest).len() as int,
                ) =~= sr.rest);
                assert(qwt(tasks_m(qr)) == wt(task_m(next)) + qwt(tail2m));
                assert(loop_msr(self@.queue) < loop_msr(tasks_m(q0)));
            }
        }
    }
}

} // verus!
