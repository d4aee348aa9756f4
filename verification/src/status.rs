//! The result a task reports from each `run` call.

use vstd::prelude::*;

verus! {

/// What a task's `run` reported for the current frame.
///
/// Durations throughout the crate are integer milliseconds.
#[derive(Clone, Copy, Debug, PartialEq, Eq, Structural)]
pub enum TaskStatus {
    /// The task is not finished; `run` will be invoked again next frame.
    NotFinished,
    /// The task is finished. The next task, if any, starts immediately but
    /// receives a zero delta for the rest of this frame.
    Finished,
    /// The task is finished and did not use the whole delta. The next task,
    /// if any, starts and runs immediately with the carried-over remainder.
    FinishedRemaining(u64),
}

} // verus!
