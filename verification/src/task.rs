//! The form a future exists in while it is being executed.
use vstd::prelude::*;

verus! {

/// The form a future exists in while it is being executed. `S` is the spawned future itself, which
/// the pool moves between channels and workers without looking inside.
#[derive(Debug)]
pub struct RunningTask<S> {
    /// The spawned future.
    pub spawn: S,
    /// Whether the pool counts the task among those it waits for before closing.
    pub close_counted: bool,
}

impl<S> RunningTask<S> {
    /// A task that has not run yet.
    pub fn new(spawn: S) -> (task: Self)
        ensures
            task == (RunningTask { spawn, close_counted: false }),
    {
        RunningTask { spawn, close_counted: false }
    }
}

} // verus!
