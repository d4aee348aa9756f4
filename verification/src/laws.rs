//! The sequencer's guarantees, stated and proved over the models: draining,
//! delta carry-over, cancellation order, mutual exclusion, splice order, and
//! deferred-batch polling.

use vstd::prelude::*;
use crate::scene::{
    apply_all_m, can_lock_m, loaded_m, lock_acquire_m, locked_m, Action, SceneM,
};
use crate::status::TaskStatus;
use crate::task::{
    end_m, finally_all_m, finally_m, lemma_pending_empty, lemma_start_m_bounds, pending_m, qwt,
    run_m, start_m, wt, RunResult, StartResult, TaskM,
};
use crate::runner::{loop_msr, tick_loop, tick_m, LoopResult};

verus! {

/// A task whose whole lifecycle completes within the frame it starts in: its
/// `run` reports `Finished` from the very first call, and whatever its
/// `start` splices into the queue is immediate in turn. Only the genuinely
/// multi-frame tasks — waits, fades, event waits, pending batches — are out.
pub open spec fn immediate_m(t: TaskM) -> bool
    decreases t,
{
    match t {
        TaskM::Start(_) => true,
        TaskM::End(_) => true,
        TaskM::Finally(_) => true,
        TaskM::Quit { .. } => true,
        TaskM::QuitIf { .. } => true,
        TaskM::Guard { inner, .. } => immediate_m(*inner),
        TaskM::Aggregate { children } => all_immediate(children),
        _ => false,
    }
}

/// Every task of the queue is immediate.
pub open spec fn all_immediate(q: Seq<TaskM>) -> bool
    decreases q,
{
    forall|i: int| 0 <= i < q.len() ==> immediate_m(#[trigger] q[i])
}

/// An immediate task's `run` reports `Finished` at once.
proof fn lemma_immediate_run(t: TaskM, s: SceneM, delta: u64)
    requires
        immediate_m(t),
    ensures
        run_m(t, s, delta).status is Finished,
    decreases t,
{
    match t {
        TaskM::Guard { inner, failed, .. } => {
            if !failed {
                lemma_immediate_run(*inner, s, delta);
            }
        },
        _ => {},
    }
}

/// Starting an immediate task ahead of an immediate queue leaves an immediate
/// task and an immediate queue: an expansion splices only immediate children,
/// a guard adds only its unlock hook, a quit only shortens the queue.
proof fn lemma_immediate_start(t: TaskM, s: SceneM, host: usize, rest: Seq<TaskM>)
    requires
        immediate_m(t),
        all_immediate(rest),
    ensures
        immediate_m(start_m(t, s, host, rest).task),
        all_immediate(start_m(t, s, host, rest).rest),
    decreases t,
{
    match t {
        TaskM::Guard { inner, lock, .. } => {
            if can_lock_m(s, lock) {
                let s1 = lock_acquire_m(s, lock);
                let r = start_m(*inner, s1, host, rest);
                lemma_immediate_start(*inner, s1, host, rest);
                lemma_start_m_bounds(*inner, s1, host, rest);
                assert(immediate_m(TaskM::Guard {
                    inner: Box::new(r.task),
                    lock,
                    failed: false,
                }));
                let hook = TaskM::Finally(Action::Unlock(lock));
                let spliced = r.rest.insert(r.cursor, hook);
                assert forall|i: int| 0 <= i < spliced.len() implies immediate_m(
                    #[trigger] spliced[i],
                ) by {
                    if i < r.cursor {
                        assert(spliced[i] == r.rest[i]);
                        assert(immediate_m(r.rest[i]));
                    } else if i == r.cursor {
                        assert(spliced[i] == hook);
                        assert(immediate_m(hook));
                    } else {
                        assert(spliced[i] == r.rest[i - 1]);
                        assert(immediate_m(r.rest[i - 1]));
                    }
                }
            } else {
                assert(immediate_m(TaskM::Guard { inner, lock, failed: true }));
            }
        },
        TaskM::Aggregate { children } => {
            assert(all_immediate(Seq::<TaskM>::empty()));
            assert(immediate_m(TaskM::Aggregate { children: Seq::<TaskM>::empty() }));
            assert(all_immediate(children));
            let spliced = children + rest;
            assert forall|i: int| 0 <= i < spliced.len() implies immediate_m(
                #[trigger] spliced[i],
            ) by {
                if i < children.len() {
                    assert(spliced[i] == children[i]);
                    assert(immediate_m(children[i]));
                } else {
                    assert(spliced[i] == rest[i - children.len()]);
                    assert(immediate_m(rest[i - children.len()]));
                }
            }
        },
        _ => {},
    }
}

/// The run loop drains a queue of immediate tasks completely: each one
/// reports `Finished`, which lets the loop continue — with a zero remainder —
/// to the next task within the same frame.
proof fn lemma_immediate_queue_drains_loop(q: Seq<TaskM>, s: SceneM, host: usize, delta: u64)
    requires
        all_immediate(q),
    ensures
        tick_loop(q, s, host, delta).finished,
        tick_loop(q, s, host, delta).queue.len() == 0,
    decreases loop_msr(q),
{
    if q.len() > 0 {
        lemma_immediate_run(q[0], s, delta);
        let r = run_m(q[0], s, delta);
        let s2 = finally_m(r.task, end_m(r.task, r.scene));
        let rest = q.subrange(1, q.len() as int);
        if rest.len() > 0 {
            let tail = rest.subrange(1, rest.len() as int);
            let sr = start_m(rest[0], s2, host, tail);
            lemma_immediate_start(rest[0], s2, host, tail);
            let q2 = seq![sr.task] + sr.rest;
            assert forall|i: int| 0 <= i < q2.len() implies immediate_m(#[trigger] q2[i]) by {
                if i > 0 {
                    assert(q2[i] == sr.rest[i - 1]);
                }
            }
            lemma_start_m_bounds(rest[0], s2, host, tail);
            assert(q2.subrange(1, q2.len() as int) =~= sr.rest);
            assert(qwt(rest) == wt(rest[0]) + qwt(tail));
            assert(loop_msr(q2) < loop_msr(q));
            lemma_immediate_queue_drains_loop(q2, sr.scene, host, 0);
        }
    }
}

/// For every queue of immediate tasks — tasks that report `Finished` with a
/// zero remainder, guards over such tasks, expansions into such tasks, and
/// quits — a single frame tick, with any delta, drains the entire queue in
/// that one tick.
pub proof fn lemma_immediate_queue_drains(
    started: bool,
    q: Seq<TaskM>,
    s: SceneM,
    host: usize,
    delta: u64,
)
    requires
        all_immediate(q),
    ensures
        tick_m(started, q, s, host, delta).finished,
        tick_m(started, q, s, host, delta).queue.len() == 0,
{
    if q.len() > 0 {
        if !started {
            let tail = q.subrange(1, q.len() as int);
            let sr = start_m(q[0], s, host, tail);
            lemma_immediate_start(q[0], s, host, tail);
            let q2 = seq![sr.task] + sr.rest;
            assert forall|i: int| 0 <= i < q2.len() implies immediate_m(#[trigger] q2[i]) by {
                if i > 0 {
                    assert(q2[i] == sr.rest[i - 1]);
                }
            }
            lemma_immediate_queue_drains_loop(q2, sr.scene, host, delta);
        } else {
            lemma_immediate_queue_drains_loop(q, s, host, delta);
        }
    }
}

/// When the head task finishes with time to spare, the frame does not end:
/// after its teardown the next task is started and the loop continues within
/// the same tick, with delta exactly the carried-over remainder.
pub proof fn lemma_finished_remaining_continues(q: Seq<TaskM>, s: SceneM, host: usize, delta: u64)
    requires
        q.len() >= 2,
        run_m(q[0], s, delta).status is FinishedRemaining,
    ensures
        ({
            let r = run_m(q[0], s, delta);
            let d = r.status->0;
            let s2 = finally_m(r.task, end_m(r.task, r.scene));
            let sr = start_m(q[1], s2, host, q.subrange(2, q.len() as int));
            tick_loop(q, s, host, delta) == tick_loop(seq![sr.task] + sr.rest, sr.scene, host, d)
        }),
{
    let rest = q.subrange(1, q.len() as int);
    assert(rest[0] == q[1]);
    assert(rest.subrange(1, rest.len() as int) =~= q.subrange(2, q.len() as int));
}

/// A plain `Finished` behaves exactly like a zero remainder: the next task
/// still starts and runs within the same tick, but with a zero delta — a
/// completed task consumes no more of the frame's time by itself.
pub proof fn lemma_finished_continues_with_zero_delta(
    q: Seq<TaskM>,
    s: SceneM,
    host: usize,
    delta: u64,
)
    requires
        q.len() >= 2,
        run_m(q[0], s, delta).status is Finished,
    ensures
        ({
            let r = run_m(q[0], s, delta);
            let s2 = finally_m(r.task, end_m(r.task, r.scene));
            let sr = start_m(q[1], s2, host, q.subrange(2, q.len() as int));
            tick_loop(q, s, host, delta) == tick_loop(seq![sr.task] + sr.rest, sr.scene, host, 0)
        }),
{
    let rest = q.subrange(1, q.len() as int);
    assert(rest[0] == q[1]);
    assert(rest.subrange(1, rest.len() as int) =~= q.subrange(2, q.len() as int));
}

/// Observable form of the carry-over: a task finishing with remainder `d`,
/// followed by a fresh wait, leaves the wait having absorbed exactly `d`
/// milliseconds — its `run` was invoked in the same frame with delta exactly
/// `d`.
pub proof fn lemma_remaining_delta_handoff(
    t: TaskM,
    s: SceneM,
    host: usize,
    delta: u64,
    probe_duration: u64,
    rest: Seq<TaskM>,
)
    requires
        run_m(t, s, delta).status is FinishedRemaining,
        run_m(t, s, delta).status->0 < probe_duration,
    ensures
        ({
            let r = run_m(t, s, delta);
            let d = r.status->0;
            let s2 = finally_m(r.task, end_m(r.task, r.scene));
            tick_loop(
                seq![t, TaskM::Wait { duration: probe_duration, elapsed: 0 }] + rest,
                s,
                host,
                delta,
            ) == LoopResult {
                queue: seq![TaskM::Wait { duration: probe_duration, elapsed: d }] + rest,
                scene: s2,
                finished: false,
            }
        }),
{
    let q = seq![t, TaskM::Wait { duration: probe_duration, elapsed: 0 }] + rest;
    let r = run_m(t, s, delta);
    let d = r.status->0;
    let s2 = finally_m(r.task, end_m(r.task, r.scene));
    let probe = TaskM::Wait { duration: probe_duration, elapsed: 0 };
    assert(q[0] == t);
    assert(q[1] == probe);
    lemma_finished_remaining_continues(q, s, host, delta);
    let sr = start_m(probe, s2, host, q.subrange(2, q.len() as int));
    assert(sr == StartResult { task: probe, scene: s2, rest: q.subrange(2, q.len() as int), cursor: 0 as int });
    assert(q.subrange(2, q.len() as int) =~= rest);
    let q2 = seq![probe] + rest;
    assert(seq![sr.task] + sr.rest =~= q2);
    let r2 = run_m(probe, s2, d);
    assert(r2.status is NotFinished);
    assert(r2.task == TaskM::Wait { duration: probe_duration, elapsed: d });
    assert(q2.subrange(1, q2.len() as int) =~= rest);
    assert(tick_loop(q2, s2, host, d) == LoopResult {
        queue: seq![TaskM::Wait { duration: probe_duration, elapsed: d }] + rest,
        scene: s2,
        finished: false,
    });
}

/// Cancelling a queue of `finally`-hook tasks invokes every hook, in original
/// front-to-back order: here, each task logs its own message, and the log
/// gains exactly those messages, in order.
pub proof fn lemma_cancel_runs_finally_in_order(q: Seq<TaskM>, msgs: Seq<u64>, s: SceneM)
    requires
        q.len() == msgs.len(),
        forall|i: int| 0 <= i < q.len() ==> q[i] == TaskM::Finally(Action::Log(msgs[i])),
    ensures
        finally_all_m(q, s) == (SceneM { log: s.log + msgs, ..s }),
    decreases q.len(),
{
    if q.len() == 0 {
        assert(s.log + msgs =~= s.log);
        assert(finally_all_m(q, s) =~= SceneM { log: s.log + msgs, ..s });
    } else {
        let s1 = finally_m(q[0], s);
        assert(s1 == SceneM { log: s.log.push(msgs[0]), ..s });
        lemma_cancel_runs_finally_in_order(
            q.subrange(1, q.len() as int),
            msgs.subrange(1, msgs.len() as int),
            s1,
        );
        assert(s.log.push(msgs[0]) + msgs.subrange(1, msgs.len() as int) =~= s.log + msgs);
    }
}

/// Cancellation never invokes `end`: clearing a queue with no `finally` hooks
/// (and no guards delegating to one) leaves the scene untouched, whatever
/// `end` hooks the queued tasks carried.
pub proof fn lemma_cancel_skips_end(q: Seq<TaskM>, s: SceneM)
    requires
        forall|i: int| 0 <= i < q.len() ==> !((#[trigger] q[i]) is Finally) && !(q[i] is Guard),
    ensures
        finally_all_m(q, s) == s,
    decreases q.len(),
{
    if q.len() > 0 {
        assert(finally_m(q[0], s) == s);
        lemma_cancel_skips_end(q.subrange(1, q.len() as int), s);
    }
}

/// A guard starting while the token is already held does not acquire it, does
/// not run its inner task's setup, splices nothing into the queue, and its
/// `run` reports `Finished` at once without touching the scene: the duplicate
/// instance never executes its body.
pub proof fn lemma_guard_rejected_while_locked(
    inner: Box<TaskM>,
    l: usize,
    s: SceneM,
    host: usize,
    rest: Seq<TaskM>,
    delta: u64,
)
    requires
        locked_m(s, l),
    ensures
        ({
            let sr = start_m(TaskM::Guard { inner, lock: l, failed: false }, s, host, rest);
            &&& sr.task == TaskM::Guard { inner, lock: l, failed: true }
            &&& sr.scene == s
            &&& sr.rest == rest
            &&& run_m(sr.task, s, delta) == RunResult {
                task: sr.task,
                scene: s,
                status: TaskStatus::Finished,
            }
        }),
{
}

/// A guard starting while the token is free acquires it, starts its inner
/// task, and registers the unlock: the queue it leaves behind carries a
/// `finally` hook, right after everything the inner task pushed, that
/// releases exactly this lock.
pub proof fn lemma_guard_acquires_and_registers_unlock(
    inner: Box<TaskM>,
    l: usize,
    s: SceneM,
    host: usize,
    rest: Seq<TaskM>,
)
    requires
        can_lock_m(s, l),
    ensures
        ({
            let sr = start_m(TaskM::Guard { inner, lock: l, failed: false }, s, host, rest);
            &&& sr.task is Guard
            &&& !sr.task->Guard_failed
            &&& 1 <= sr.cursor <= sr.rest.len()
            &&& sr.rest[sr.cursor - 1] == TaskM::Finally(Action::Unlock(l))
        }),
{
    let r = start_m(*inner, lock_acquire_m(s, l), host, rest);
    lemma_start_m_bounds(*inner, lock_acquire_m(s, l), host, rest);
    assert(r.rest.insert(r.cursor, TaskM::Finally(Action::Unlock(l)))[r.cursor] == TaskM::Finally(
        Action::Unlock(l),
    ));
}

/// Running the registered unlock hook releases the token: afterwards it is
/// never held, and — for a token that exists in the scene, as every one made
/// by `TaskLock::new` does — a fresh acquisition attempt succeeds.
pub proof fn lemma_unlock_releases(l: usize, s: SceneM)
    ensures
        !locked_m(finally_m(TaskM::Finally(Action::Unlock(l)), s), l),
        l < s.locks.len() ==> can_lock_m(finally_m(TaskM::Finally(Action::Unlock(l)), s), l),
{
}

/// Pushing three tasks through the scheduling context during one `start` —
/// each insertion at the cursor, which then advances — splices them in push
/// order, ahead of everything that was already queued.
pub proof fn lemma_push_order_splices(q: Seq<TaskM>, t1: TaskM, t2: TaskM, t3: TaskM)
    ensures
        q.insert(0, t1).insert(1, t2).insert(2, t3) == seq![t1, t2, t3] + q,
{
    assert(q.insert(0, t1).insert(1, t2).insert(2, t3) =~= seq![t1, t2, t3] + q);
}

/// An aggregate task expands transparently: its `start` splices its children
/// into the queue in their given order, immediately after itself and before
/// every previously queued task, without touching the scene.
pub proof fn lemma_aggregate_expansion(
    children: Seq<TaskM>,
    s: SceneM,
    host: usize,
    rest: Seq<TaskM>,
)
    ensures
        start_m(TaskM::Aggregate { children }, s, host, rest).rest == children + rest,
        start_m(TaskM::Aggregate { children }, s, host, rest).scene == s,
        start_m(TaskM::Aggregate { children }, s, host, rest).cursor == children.len(),
{
}

/// A deferred batch polls: while any recorded handle is still loading it
/// reports `NotFinished` and changes nothing; once every handle has loaded it
/// applies its buffered mutations — in one step, exactly once, since it then
/// reports `Finished` and leaves the queue — and nothing is pending anymore.
pub proof fn lemma_batch_polls_until_loaded(
    handles: Seq<usize>,
    commands: Seq<Action>,
    s: SceneM,
    delta: u64,
)
    ensures
        ((forall|i: int| 0 <= i < handles.len() ==> loaded_m(s, #[trigger] handles[i]))
            ==> run_m(TaskM::SpawnBatch { handles, commands }, s, delta) == (RunResult {
            task: TaskM::SpawnBatch { handles: pending_m(handles, s), commands },
            scene: apply_all_m(s, commands),
            status: TaskStatus::Finished,
        })),
        (!(forall|i: int| 0 <= i < handles.len() ==> loaded_m(s, #[trigger] handles[i]))
            ==> run_m(TaskM::SpawnBatch { handles, commands }, s, delta) == (RunResult {
            task: TaskM::SpawnBatch { handles: pending_m(handles, s), commands },
            scene: s,
            status: TaskStatus::NotFinished,
        })),
{
    lemma_pending_empty(handles, s);
}

} // verus!
