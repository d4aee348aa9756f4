//! Unit tests for the scene primitives, the individual task kinds, and the
//! edge cases of the timing arithmetic.

use sequencer::{
    Action, Scene, Shared, Task, TaskLock, TaskQueue, TaskRunner, TaskStatus,
};

/// `lock` succeeds at most once between matching `unlock` calls, and a failed
/// attempt leaves the token unchanged.
#[test]
fn task_lock_is_mutually_exclusive() {
    let mut scene = Scene::new();
    let lock = TaskLock::new(&mut scene);
    assert!(lock.lock(&mut scene));
    assert!(!lock.lock(&mut scene));
    assert!(!lock.lock(&mut scene));
    assert!(lock.unlock(&mut scene));
    assert!(!lock.unlock(&mut scene));
    assert!(lock.lock(&mut scene));
}

/// Copying a shared cell handle shares the backing value; it does not copy it.
#[test]
fn shared_cell_clone_is_share() {
    let mut scene = Scene::new();
    let cell = Shared::new(&mut scene, 10);
    let alias = cell;
    alias.set(&mut scene, 31);
    assert_eq!(cell.get(&scene), 31);
    cell.set(&mut scene, 32);
    assert_eq!(alias.get(&scene), 32);
}

/// Two tasks exchange state through a shared cell: the first writes during
/// its `start`, the second observes the value afterwards.
#[test]
fn shared_cell_crosses_tasks() {
    let mut scene = Scene::new();
    let cell = Shared::new(&mut scene, 0);
    let mut runner = TaskRunner::new(Task::Start(Action::SetCell { cell: 0, value: 8 }));
    let finished = runner.tick(&mut scene, 0, 16);
    assert!(finished);
    assert_eq!(cell.get(&scene), 8);
}

/// A wait completes exactly when its accumulated time reaches its duration,
/// carrying over the surplus.
#[test]
fn wait_boundary_semantics() {
    let mut scene = Scene::new();
    let (t, st) = Task::Wait { duration: 1000, elapsed: 0 }.run(&mut scene, 999);
    assert_eq!(st, TaskStatus::NotFinished);
    let (_, st) = t.run(&mut scene, 1);
    assert_eq!(st, TaskStatus::FinishedRemaining(0));
    let (_, st) = Task::Wait { duration: 1000, elapsed: 0 }.run(&mut scene, 1700);
    assert_eq!(st, TaskStatus::FinishedRemaining(700));
    let (_, st) = Task::Wait { duration: 0, elapsed: 0 }.run(&mut scene, 0);
    assert_eq!(st, TaskStatus::FinishedRemaining(0));
}

/// Accumulated time saturates instead of wrapping at the largest duration.
#[test]
fn wait_saturates_at_maximum_duration() {
    let mut scene = Scene::new();
    let (_, st) = Task::Wait { duration: u64::MAX, elapsed: u64::MAX - 5 }.run(&mut scene, 100);
    assert_eq!(st, TaskStatus::FinishedRemaining(0));
}

/// A fade-in in progress holds the eased level — the elapsed share squared —
/// and reaching the duration pins it to opaque and finishes with the surplus;
/// a fade-out descends linearly.
#[test]
fn fade_levels_ease_in_and_descend_linearly() {
    let mut scene = Scene::new();
    let f = scene.new_fade();
    // A quarter of the way in, the eased level is (250/1000)^2: 62 thousandths.
    let (t, st) = Task::FadeIn { target: f, duration: 4000, elapsed: 0 }.run(&mut scene, 1000);
    assert_eq!(st, TaskStatus::NotFinished);
    assert_eq!(scene.fade_level(f), 62);
    // Halfway in, (500/1000)^2: 250 thousandths, not the linear 500.
    let (t, st) = t.run(&mut scene, 1000);
    assert_eq!(st, TaskStatus::NotFinished);
    assert_eq!(scene.fade_level(f), 250);
    let (_, st) = t.run(&mut scene, 2500);
    assert_eq!(st, TaskStatus::FinishedRemaining(500));
    assert_eq!(scene.fade_level(f), 1000);

    let (_, st) = Task::FadeOut { target: f, duration: 2000, elapsed: 0 }.run(&mut scene, 500);
    assert_eq!(st, TaskStatus::NotFinished);
    assert_eq!(scene.fade_level(f), 750);
    let (_, st) = Task::FadeOut { target: f, duration: 2000, elapsed: 1500 }.run(&mut scene, 600);
    assert_eq!(st, TaskStatus::FinishedRemaining(100));
    assert_eq!(scene.fade_level(f), 0);
}

/// An instant fade (zero duration) completes on its first run, fully applied.
#[test]
fn instant_fade_completes_immediately() {
    let mut scene = Scene::new();
    let f = scene.new_fade();
    let (_, st) = Task::FadeIn { target: f, duration: 0, elapsed: 0 }.run(&mut scene, 0);
    assert_eq!(st, TaskStatus::FinishedRemaining(0));
    assert_eq!(scene.fade_level(f), 1000);
}

/// State and event requests land in the scene when their tasks start.
#[test]
fn set_state_and_send_event_tasks() {
    let mut scene = Scene::new();
    let mut runner = TaskRunner::new(Task::Start(Action::SetState(3)));
    runner.push(Task::Start(Action::SendEvent(14)));
    let finished = runner.tick(&mut scene, 0, 16);
    assert!(finished);
    assert_eq!(scene.next_state, Some(3));
    assert_eq!(scene.events, vec![14]);
}

/// A conditional despawn acts at `start` and so is skipped on cancellation;
/// an unconditional one acts in `finally` and survives it.
#[test]
fn despawn_conditional_versus_unconditional() {
    let mut scene = Scene::new();
    let a = scene.spawn();
    let b = scene.spawn();
    let mut runner = TaskRunner::new(Task::Wait { duration: 1000, elapsed: 0 });
    runner.push(Task::Start(Action::Despawn(a)));
    runner.push(Task::Finally(Action::Despawn(b)));
    let finished = runner.tick(&mut scene, 0, 10);
    assert!(!finished);
    runner.clear(&mut scene);
    assert!(scene.is_alive(a));
    assert!(!scene.is_alive(b));
}

/// Despawning a missing entity, unlocking a missing lock, or writing a
/// missing cell are silent no-ops, never failures.
#[test]
fn out_of_bounds_actions_are_no_ops() {
    let mut scene = Scene::new();
    scene.apply(Action::Despawn(3));
    scene.apply(Action::Unlock(5));
    scene.apply(Action::SetCell { cell: 2, value: 9 });
    assert_eq!(scene.entities, Vec::<bool>::new());
    assert_eq!(scene.locks, Vec::<bool>::new());
    assert_eq!(scene.cells, Vec::<u64>::new());
}

/// Ticking an empty runner reports finished at once.
#[test]
fn empty_runner_finishes_immediately() {
    let mut scene = Scene::new();
    let mut runner = TaskRunner::new(Task::Start(Action::Log(1)));
    assert!(runner.tick(&mut scene, 0, 16));
    assert!(runner.tick(&mut scene, 0, 16));
    assert!(runner.is_started());
    assert_eq!(runner.len(), 0);
}

/// A suspended task stays at the queue front and resumes next frame with the
/// new delta; time is accumulated across frames.
#[test]
fn not_finished_suspends_until_next_frame() {
    let mut scene = Scene::new();
    let mut runner = TaskRunner::new(Task::Wait { duration: 2500, elapsed: 0 });
    runner.push(Task::End(Action::Log(1)));
    assert!(!runner.tick(&mut scene, 0, 1000));
    assert!(!runner.tick(&mut scene, 0, 1000));
    assert_eq!(scene.log, Vec::<u64>::new());
    assert!(runner.tick(&mut scene, 0, 1000));
    assert_eq!(scene.log, vec![1]);
}

/// The scheduling context knows its host and advances its cursor as tasks
/// are pushed.
#[test]
fn task_queue_tracks_host() {
    let mut scene = Scene::new();
    let host = scene.spawn();
    let mut tq = TaskQueue::new(host);
    assert_eq!(tq.host(), host);
    tq.start(Action::Log(1));
    tq.wait(250);
    tq.finally(Action::Log(2));
    tq.clear(&mut scene);
    assert_eq!(scene.log, vec![2]);
}

/// The convenience pushers build the advertised tasks: a despawn helper picks
/// its hook by `unconditional`, the quit helper queues a cancel task.
#[test]
fn task_queue_helpers_build_expected_tasks() {
    let mut scene = Scene::new();
    let e = scene.spawn();
    let f = scene.new_fade();
    let mut tq = TaskQueue::new(0);
    tq.set_state(4);
    tq.send_event(6);
    tq.despawn(e, true);
    tq.fade_in(f, 100);
    tq.fade_out(f, 100);
    tq.quit(false);
    tq.spawn_batch(vec![], vec![Action::Log(1)]);
    tq.end(Action::Log(9));
    // Cancelling runs only the unconditional despawn's hook.
    tq.clear(&mut scene);
    assert!(!scene.is_alive(e));
    assert_eq!(scene.log, Vec::<u64>::new());
}

/// A batch with no pending handles applies its commands on the first run.
#[test]
fn empty_batch_finishes_on_first_run() {
    let mut scene = Scene::new();
    let (_, st) = Task::SpawnBatch { handles: vec![], commands: vec![Action::Log(8)] }
        .run(&mut scene, 16);
    assert_eq!(st, TaskStatus::Finished);
    assert_eq!(scene.log, vec![8]);
}

/// A wait-for-event task suspends every frame until the event has been sent,
/// then finishes and lets the queue continue.
#[test]
fn wait_for_event_suspends_until_sent() {
    let mut scene = Scene::new();
    let mut runner = TaskRunner::new(Task::WaitEvent { event: 14 });
    runner.push(Task::End(Action::Log(1)));
    assert!(!runner.tick(&mut scene, 0, 16));
    scene.apply(Action::SendEvent(13));
    assert!(!runner.tick(&mut scene, 0, 16));
    scene.apply(Action::SendEvent(14));
    assert!(runner.tick(&mut scene, 0, 16));
    assert_eq!(scene.log, vec![1]);
}

/// A conditional quit cancels the queue only when the pending state matches:
/// otherwise it is a silent no-op and the queue proceeds.
#[test]
fn quit_if_state_cancels_only_on_match() {
    let mut scene = Scene::new();
    let mut runner = TaskRunner::new(Task::QuitIf { state: 3, despawn_host: false });
    runner.push(Task::End(Action::Log(2)));
    runner.push(Task::Finally(Action::Log(4)));
    assert!(runner.tick(&mut scene, 0, 16));
    assert_eq!(scene.log, vec![2, 4]);

    let mut scene = Scene::new();
    scene.apply(Action::SetState(3));
    let mut runner = TaskRunner::new(Task::QuitIf { state: 3, despawn_host: false });
    runner.push(Task::End(Action::Log(2)));
    runner.push(Task::Finally(Action::Log(4)));
    assert!(runner.tick(&mut scene, 0, 16));
    assert_eq!(scene.log, vec![4]);
}

/// A guard wrapping a multi-frame task forwards `run` to it once acquired.
#[test]
fn guard_forwards_run_to_inner() {
    let mut scene = Scene::new();
    let lock = TaskLock::new(&mut scene);
    let mut runner = TaskRunner::new(Task::Guard {
        inner: Box::new(Task::Wait { duration: 300, elapsed: 0 }),
        lock,
        failed: false,
    });
    runner.push(Task::End(Action::Log(1)));
    assert!(!runner.tick(&mut scene, 0, 100));
    assert!(runner.tick(&mut scene, 0, 250));
    assert_eq!(scene.log, vec![1]);
    // The guard's unlock ran: the token is free again.
    assert!(lock.lock(&mut scene));
}
