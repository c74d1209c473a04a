//! The worker thread's decisions between ticks.
use vstd::prelude::*;

verus! {

/// What a tick asks of the worker loop.
#[derive(Clone, Copy, Debug, PartialEq, Eq, Structural)]
pub enum LoopAction {
    /// Keep running: go on to the next round.
    Continue,
    /// Stop the worker: clean up and leave its loop.
    Exit,
}

impl Default for LoopAction {
    fn default() -> (r: Self)
        ensures
            r == LoopAction::Continue,
    {
        LoopAction::Continue
    }
}

/// What the worker loop does next.
#[derive(Clone, Copy, Debug, PartialEq, Eq, Structural)]
pub enum WorkerNext {
    /// Leave the loop at once, without raising the stop flag.
    Quit,
    /// Raise the stop flag and leave the loop.
    Stop,
    /// Draw the overlay and go on.
    Render,
    /// Go on; the tick failed and is only reported.
    Skip,
}

/// The worker's decision after a round: a quit message ends the loop at once;
/// otherwise the tick's action decides, and a failed tick (`None`) is skipped.
pub fn worker_next(quit_message: bool, tick: Option<LoopAction>) -> (r: WorkerNext)
    ensures
        r == if quit_message {
            WorkerNext::Quit
        } else {
            match tick {
                Some(LoopAction::Continue) => WorkerNext::Render,
                Some(LoopAction::Exit) => WorkerNext::Stop,
                None => WorkerNext::Skip,
            }
        },
{
    if quit_message {
        return WorkerNext::Quit;
    }
    match tick {
        Some(LoopAction::Continue) => WorkerNext::Render,
        Some(LoopAction::Exit) => WorkerNext::Stop,
        None => WorkerNext::Skip,
    }
}

} // verus!
