//! End-to-end scenarios driving whole sequencers frame by frame.

use sequencer::{
    run_task_runners, spawn_task, Action, AssetBatch, Scene, Task, TaskLock, TaskRunner,
    TaskStatus,
};

/// A queue of tasks that each report `Finished` drains in a single tick,
/// whatever the delta, applying their hooks in queue order.
#[test]
fn immediate_queue_drains_in_one_tick() {
    let mut scene = Scene::new();
    let mut runner = TaskRunner::new(Task::Start(Action::Log(1)));
    runner.push(Task::End(Action::Log(2)));
    runner.push(Task::Finally(Action::Log(3)));
    let finished = runner.tick(&mut scene, 0, 500);
    assert!(finished);
    assert_eq!(runner.len(), 0);
    assert_eq!(scene.log, vec![1, 2, 3]);
}

/// A task finishing with remainder `d` hands exactly `d` to the next task's
/// `run` within the same frame: the fade that follows a 1500 ms wait absorbs
/// exactly the 500 ms surplus of a 2000 ms tick.
#[test]
fn finished_remaining_hands_over_exact_delta() {
    let mut scene = Scene::new();
    let fade = scene.new_fade();
    let (_, status) = Task::Wait { duration: 1500, elapsed: 0 }.run(&mut scene, 2000);
    assert_eq!(status, TaskStatus::FinishedRemaining(500));

    let mut runner = TaskRunner::new(Task::Wait { duration: 1500, elapsed: 0 });
    runner.push(Task::FadeIn { target: fade, duration: 1000, elapsed: 0 });
    let finished = runner.tick(&mut scene, 0, 2000);
    assert!(!finished);
    // The fade ran with delta exactly 500 of its 1000 ms: the eased level at
    // the halfway share, (500/1000)^2 in thousandths.
    assert_eq!(scene.fade_level(fade), 250);
}

/// With an exact remainder of zero, the next task still runs in the same
/// frame, but with a zero delta.
#[test]
fn finished_with_zero_remainder_continues_with_zero_delta() {
    let mut scene = Scene::new();
    let fade = scene.new_fade();
    let mut runner = TaskRunner::new(Task::Wait { duration: 1500, elapsed: 0 });
    runner.push(Task::FadeIn { target: fade, duration: 1000, elapsed: 0 });
    let finished = runner.tick(&mut scene, 0, 1500);
    assert!(!finished);
    assert_eq!(scene.fade_level(fade), 0);
}

/// Cancelling a runner with still-queued tasks invokes `finally` on all of
/// them, in original order, and `end` on none of them.
#[test]
fn cancel_runs_finally_in_order_and_never_end() {
    let mut scene = Scene::new();
    let mut runner = TaskRunner::new(Task::Wait { duration: 10_000, elapsed: 0 });
    runner.push(Task::End(Action::Log(21)));
    runner.push(Task::Finally(Action::Log(22)));
    runner.push(Task::Finally(Action::Log(23)));
    let finished = runner.tick(&mut scene, 0, 100);
    assert!(!finished);
    runner.clear(&mut scene);
    assert_eq!(runner.len(), 0);
    assert_eq!(scene.log, vec![22, 23]);
}

/// A quit task cancels the rest of the queue from inside: later `finally`
/// hooks run, later `end` hooks do not, and the runner finishes in the same
/// tick.
#[test]
fn quit_task_clears_queue_with_finally_guarantee() {
    let mut scene = Scene::new();
    let mut runner = TaskRunner::new(Task::Start(Action::Log(1)));
    runner.push(Task::Quit { despawn_host: false });
    runner.push(Task::End(Action::Log(2)));
    runner.push(Task::Finally(Action::Log(3)));
    let finished = runner.tick(&mut scene, 0, 100);
    assert!(finished);
    assert_eq!(scene.log, vec![1, 3]);
}

/// A quit task may also despawn its own host.
#[test]
fn quit_task_despawns_host() {
    let mut scene = Scene::new();
    let mut runners: Vec<(usize, TaskRunner)> = Vec::new();
    let host = spawn_task(&mut runners, &mut scene, Task::Quit { despawn_host: true });
    assert!(scene.is_alive(host));
    run_task_runners(&mut runners, &mut scene, 16);
    assert!(!scene.is_alive(host));
    assert_eq!(runners.len(), 0);
}

/// A token held by guard A rejects guard B outright — B's body never runs —
/// until A's task completes and its registered unlock `finally` runs; a
/// later guard then succeeds.
#[test]
fn guard_excludes_concurrent_instance_until_unlock() {
    let mut scene = Scene::new();
    let lock = TaskLock::new(&mut scene);
    let mut runners: Vec<(usize, TaskRunner)> = Vec::new();
    spawn_task(
        &mut runners,
        &mut scene,
        Task::Guard {
            inner: Box::new(Task::Wait { duration: 2000, elapsed: 0 }),
            lock,
            failed: false,
        },
    );
    spawn_task(
        &mut runners,
        &mut scene,
        Task::Guard { inner: Box::new(Task::Start(Action::Log(9))), lock, failed: false },
    );

    // Frame 1: A acquires the token and suspends; B is rejected and drains
    // without ever logging.
    run_task_runners(&mut runners, &mut scene, 1000);
    assert_eq!(runners.len(), 1);
    assert_eq!(scene.log, Vec::<u64>::new());
    assert!(!lock.lock(&mut scene));

    // Frame 2: A's wait completes; the registered unlock finally releases the
    // token and A detaches.
    run_task_runners(&mut runners, &mut scene, 1000);
    assert_eq!(runners.len(), 0);

    // A fresh guarded instance now succeeds.
    spawn_task(
        &mut runners,
        &mut scene,
        Task::Guard { inner: Box::new(Task::Start(Action::Log(11))), lock, failed: false },
    );
    run_task_runners(&mut runners, &mut scene, 1000);
    assert_eq!(scene.log, vec![11]);
    assert_eq!(runners.len(), 0);
}

/// Even when the guarded queue is cancelled mid-run, the registered unlock
/// `finally` still releases the token.
#[test]
fn cancelled_guard_still_unlocks() {
    let mut scene = Scene::new();
    let lock = TaskLock::new(&mut scene);
    let mut runner = TaskRunner::new(Task::Guard {
        inner: Box::new(Task::Wait { duration: 5000, elapsed: 0 }),
        lock,
        failed: false,
    });
    let finished = runner.tick(&mut scene, 0, 100);
    assert!(!finished);
    assert!(!lock.lock(&mut scene));
    runner.clear(&mut scene);
    assert!(lock.lock(&mut scene));
}

/// Tasks pushed through the scheduling context during another task's `start`
/// execute in push order, immediately after the starting task and before
/// every previously queued task.
#[test]
fn aggregate_children_run_in_push_order_before_queued() {
    let mut scene = Scene::new();
    let mut runner = TaskRunner::new(Task::Aggregate {
        children: vec![
            Task::Start(Action::Log(1)),
            Task::Start(Action::Log(2)),
            Task::Start(Action::Log(3)),
        ],
    });
    runner.push(Task::Start(Action::Log(99)));
    let finished = runner.tick(&mut scene, 0, 16);
    assert!(finished);
    assert_eq!(scene.log, vec![1, 2, 3, 99]);
}

/// The "wait 2 seconds then print" sequence under frame ticks of 1.0 s,
/// 1.0 s, 0.5 s: after the second tick the wait completes with a zero
/// remainder, the print runs within that same tick, and the third tick finds
/// the sequencer detached.
#[test]
fn wait_then_print_over_three_ticks() {
    let mut scene = Scene::new();
    let mut runners: Vec<(usize, TaskRunner)> = Vec::new();
    let host = spawn_task(&mut runners, &mut scene, Task::Wait { duration: 2000, elapsed: 0 });
    runners[0].1.push(Task::Start(Action::Log(42)));

    run_task_runners(&mut runners, &mut scene, 1000);
    assert_eq!(runners.len(), 1);
    assert_eq!(scene.log, Vec::<u64>::new());

    run_task_runners(&mut runners, &mut scene, 1000);
    assert_eq!(runners.len(), 0);
    assert_eq!(scene.log, vec![42]);

    run_task_runners(&mut runners, &mut scene, 500);
    assert_eq!(runners.len(), 0);
    assert_eq!(scene.log, vec![42]);
    assert!(scene.is_alive(host));
}

/// An asset-dependent batch reports `NotFinished` every tick until both
/// recorded handles have loaded, then applies its buffered mutations exactly
/// once and finishes.
#[test]
fn spawn_batch_waits_for_both_handles() {
    let mut scene = Scene::new();
    let mut batch = AssetBatch::new();
    let h1 = batch.load(&mut scene);
    let h2 = batch.load(&mut scene);
    let entities_before = scene.entities.len();

    let mut runners: Vec<(usize, TaskRunner)> = Vec::new();
    spawn_task(
        &mut runners,
        &mut scene,
        Task::SpawnBatch {
            handles: batch.finish(),
            commands: vec![Action::Log(5), Action::Spawn],
        },
    );

    run_task_runners(&mut runners, &mut scene, 16);
    assert_eq!(runners.len(), 1);
    assert_eq!(scene.log, Vec::<u64>::new());

    scene.mark_loaded(h1);
    run_task_runners(&mut runners, &mut scene, 16);
    assert_eq!(runners.len(), 1);
    assert_eq!(scene.log, Vec::<u64>::new());

    scene.mark_loaded(h2);
    run_task_runners(&mut runners, &mut scene, 16);
    assert_eq!(runners.len(), 0);
    assert_eq!(scene.log, vec![5]);
    // One spawn command, applied exactly once: one new entity beyond the host.
    assert_eq!(scene.entities.len(), entities_before + 2);
}

/// A runner whose host was despawned by unrelated code is cleared by the
/// driver with the `finally` guarantee intact, then detached.
#[test]
fn dead_host_runner_is_cleared_with_finally() {
    let mut scene = Scene::new();
    let mut runners: Vec<(usize, TaskRunner)> = Vec::new();
    let host = spawn_task(&mut runners, &mut scene, Task::Wait { duration: 5000, elapsed: 0 });
    runners[0].1.push(Task::Finally(Action::Log(77)));
    run_task_runners(&mut runners, &mut scene, 100);
    assert_eq!(runners.len(), 1);
    scene.despawn(host);
    run_task_runners(&mut runners, &mut scene, 100);
    assert_eq!(runners.len(), 0);
    assert_eq!(scene.log, vec![77]);
}
