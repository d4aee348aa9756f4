//! A cooperative, frame-stepped task sequencer.
//!
//! A [`runner::TaskRunner`] owns an ordered queue of [`task::Task`]s attached
//! to one host entity in a [`scene::Scene`]. Once per frame the driver hands
//! the runner the elapsed time; the runner starts the head task (letting it
//! splice further tasks into the queue through a [`runner::TaskQueue`]), then
//! runs it, rolling unused time over to later tasks within the same frame
//! until the time is spent or the queue is empty.
//!
//! Every step of that state machine is specified against a mathematical model
//! (`SceneM`, `TaskM`) and verified: starting, running, teardown (`end` then
//! `finally`), cancellation (`finally` on every queued task, in order), the
//! mutual-exclusion guard, and the deferred spawn batch.

pub mod scene;
pub mod status;
pub mod task;
pub mod runner;
pub mod driver;
pub mod batch;
pub mod laws;

pub use scene::{Action, Scene, SceneM, Shared, TaskLock};
pub use status::TaskStatus;
pub use task::{Task, TaskM};
pub use runner::{TaskQueue, TaskRunner};
pub use driver::{run_task_runners, spawn_task};
pub use batch::AssetBatch;

use vstd::prelude::*;

verus! {

/// The saturating sum of two durations, the arithmetic every timed task uses
/// to accumulate its elapsed time.
pub open spec fn sat_add(a: u64, b: u64) -> u64 {
    if a + b > u64::MAX {
        u64::MAX
    } else {
        (a + b) as u64
    }
}

/// Executable counterpart of [`sat_add`].
pub fn saturating_add(a: u64, b: u64) -> (r: u64)
    ensures
        r == sat_add(a, b),
{
    if a <= u64::MAX - b {
        a + b
    } else {
        u64::MAX
    }
}

} // verus!
