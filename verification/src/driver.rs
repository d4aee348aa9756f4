//! The scene integration layer: the per-frame driver that advances every
//! host's sequencer once, detaches a sequencer whose queue is exhausted, and
//! clears (with `finally` guarantees) a sequencer whose host is gone.

use vstd::prelude::*;
use crate::scene::{alive_m, apply_action_m, Action, Scene, SceneM};
use crate::runner::{tick_m, RunnerM, TaskRunner};
use crate::task::{finally_all_m, task_m, Task};

verus! {

/// The models of a roster of attached sequencers, elementwise.
pub open spec fn runners_m(rs: Seq<(usize, TaskRunner)>) -> Seq<(usize, RunnerM)>
    decreases rs.len(),
{
    if rs.len() == 0 {
        Seq::empty()
    } else {
        seq![(rs[0].0, rs[0].1@)] + runners_m(rs.subrange(1, rs.len() as int))
    }
}

/// [`runners_m`] is the elementwise image of the runner view.
pub proof fn lemma_runners_m(rs: Seq<(usize, TaskRunner)>)
    ensures
        runners_m(rs).len() == rs.len(),
        forall|i: int| 0 <= i < rs.len() ==> runners_m(rs)[i] == (rs[i].0, rs[i].1@),
    decreases rs.len(),
{
    if rs.len() > 0 {
        lemma_runners_m(rs.subrange(1, rs.len() as int));
    }
}

/// The outcome of one driver frame: the sequencers still attached, and the
/// scene afterwards.
#[verifier::ext_equal]
pub struct DriveResult {
    pub runners: Seq<(usize, RunnerM)>,
    pub scene: SceneM,
}

/// One driver frame over the roster, in order. A sequencer whose host is gone
/// is cleared — its queued tasks get their `finally`, in order — and dropped;
/// otherwise the sequencer is ticked and dropped exactly when it reports
/// finished.
pub open spec fn drive_m(rs: Seq<(usize, RunnerM)>, s: SceneM, delta: u64) -> DriveResult
    decreases rs.len(),
{
    if rs.len() == 0 {
        DriveResult { runners: rs, scene: s }
    } else {
        let host = rs[0].0;
        let r = rs[0].1;
        if !alive_m(s, host) {
            let s2 = finally_all_m(r.queue, s);
            drive_m(rs.subrange(1, rs.len() as int), s2, delta)
        } else {
            let t = tick_m(r.started, r.queue, s, host, delta);
            let rest = drive_m(rs.subrange(1, rs.len() as int), t.scene, delta);
            if t.finished {
                rest
            } else {
                DriveResult {
                    runners: seq![(host, RunnerM { started: true, queue: t.queue })]
                        + rest.runners,
                    scene: rest.scene,
                }
            }
        }
    }
}

/// Spawns a fresh host entity carrying a sequencer with exactly one task, and
/// returns the host.
pub fn spawn_task(runners: &mut Vec<(usize, TaskRunner)>, scene: &mut Scene, task: Task) -> (host:
    usize)
    ensures
        host == old(scene)@.entities.len(),
        final(scene)@ == apply_action_m(old(scene)@, Action::Spawn),
        runners_m(final(runners)@) == runners_m(old(runners)@).push(
            (host, RunnerM { started: false, queue: seq![task_m(task)] }),
        ),
{
    let ghost rs0 = runners@;
    let host = scene.spawn();
    let runner = TaskRunner::new(task);
    let ghost rm = runner@;
    runners.push((host, runner));
    proof {
        lemma_runners_m(rs0);
        lemma_runners_m(rs0.push((host, runner)));
        assert(runners_m(rs0.push((host, runner))) =~= runners_m(rs0).push((host, rm)));
    }
    host
}

/// Advances every attached sequencer by one frame, in roster order, with this
/// frame's delta; detaches those that finished and those whose host is gone.
pub fn run_task_runners(runners: &mut Vec<(usize, TaskRunner)>, scene: &mut Scene, delta: u64)
    ensures
        runners_m(final(runners)@) == drive_m(runners_m(old(runners)@), old(scene)@, delta)
            .runners,
        final(scene)@ == drive_m(runners_m(old(runners)@), old(scene)@, delta).scene,
{
    let ghost goal = drive_m(runners_m(runners@), scene@, delta);
    let mut input: Vec<(usize, TaskRunner)> = Vec::new();
    std::mem::swap(&mut input, runners);
    proof {
        assert(runners@ =~= Seq::<(usize, TaskRunner)>::empty());
        assert(runners_m(runners@) =~= Seq::<(usize, RunnerM)>::empty());
    }
    loop
        invariant
            goal.runners == runners_m(runners@) + drive_m(runners_m(input@), scene@, delta)
                .runners,
            goal.scene == drive_m(runners_m(input@), scene@, delta).scene,
        ensures
            input@.len() == 0,
            goal.runners == runners_m(runners@) + drive_m(runners_m(input@), scene@, delta)
                .runners,
            goal.scene == drive_m(runners_m(input@), scene@, delta).scene,
        decreases input@.len(),
    {
        let ghost in0 = input@;
        let ghost kept0 = runners@;
        if input.len() == 0 {
            break ;
        }
        let (host, mut r) = input.remove(0);
        proof {
            assert(input@ =~= in0.subrange(1, in0.len() as int));
            lemma_runners_m(in0);
            lemma_runners_m(in0.subrange(1, in0.len() as int));
            assert(runners_m(in0.subrange(1, in0.len() as int)) =~= runners_m(in0).subrange(
                1,
                runners_m(in0).len() as int,
            ));
        }
        let ghost rm0 = r@;
        if !scene.is_alive(host) {
            r.clear(scene);
        } else {
            let finished = r.tick(scene, host, delta);
            if !finished {
                let ghost rm1 = r@;
                runners.push((host, r));
                proof {
                    lemma_runners_m(kept0);
                    lemma_runners_m(kept0.push((host, r)));
                    assert(runners_m(kept0.push((host, r))) =~= runners_m(kept0).push(
                        (host, rm1),
                    ));
                    assert(runners_m(kept0).push((host, rm1)) + drive_m(
                        runners_m(input@),
                        scene@,
                        delta,
                    ).runners =~= runners_m(kept0) + (seq![(host, rm1)] + drive_m(
                        runners_m(input@),
                        scene@,
                        delta,
                    ).runners));
                }
            }
        }
    }
    proof {
        assert(runners_m(input@) =~= Seq::<(usize, RunnerM)>::empty());
        assert(goal.runners =~= runners_m(runners@) + Seq::<(usize, RunnerM)>::empty());
        assert(runners_m(runners@) + Seq::<(usize, RunnerM)>::empty() =~= runners_m(runners@));
    }
}

} // verus!
