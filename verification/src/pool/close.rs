//! How a pool is closed: the close procedure of its workers, and the future of the closing.
pub mod laws;

use vstd::prelude::*;

use crate::bits;
use crate::pool::layout::Level;
use crate::pool::worker;

verus! {

/// Whether a worker that waits with all shutdown channels empty goes on when it sees `close_counter` and
/// `field`.
pub open spec fn is_woken(close_counter: u64, field: u64, complete_shutdown_mask: u64) -> bool {
    close_counter == 0 || bits::meets(field, complete_shutdown_mask)
}

/// Whether a worker that waits with all shutdown channels empty goes on: nothing that is critical
/// for closing is blocked any more, or a task did appear.
pub fn close_wakes(close_counter: u64, field: u64, complete_shutdown_mask: u64) -> (r: bool)
    ensures
        r == is_woken(close_counter, field, complete_shutdown_mask),
{
    close_counter == 0 || bits::any_present(field, complete_shutdown_mask)
}

/// What a worker goes on with if it is not done closing.
#[derive(Copy, Clone, Debug, PartialEq, Eq, Structural)]
pub enum CloseGoal {
    /// Search the level that was highest in the field as it was captured.
    Search { captured: u64 },
    /// Try again on the level whose channel had no task.
    Retry { level: usize },
}

/// Where a worker stands that runs the tasks which are critical for closing to completion. This is
/// the close behavior for all pools, regardless of the schedule algorithm while it's running.
#[derive(Copy, Clone, Debug, PartialEq, Eq, Structural)]
pub enum Closing {
    /// Look at the field, before another pass.
    Start,
    /// Look at the field again, to see whether all shutdown channels are empty.
    Check { goal: CloseGoal },
    /// All shutdown channels are empty. Wait until that changes, or until nothing that is critical
    /// for closing is blocked any more, then look at the field.
    Idle { goal: CloseGoal },
    /// Draw a ticket for the shutdown level, and poll the channel that it leads to.
    Find { level: usize },
    /// The channel had no task, but some shutdown channel has one. Look at the field.
    Missed { level: usize },
    /// The worker is done.
    Done,
}

impl Closing {
    /// A level that is worked on has a channel to poll.
    pub open spec fn valid<Key>(self, levels_shutdown: Seq<Level<Key>>) -> bool {
        match self {
            Closing::Check { goal } | Closing::Idle { goal } => match goal {
                CloseGoal::Search { .. } => true,
                CloseGoal::Retry { level } => worker::pollable(levels_shutdown, level),
            },
            Closing::Find { level } | Closing::Missed { level } => worker::pollable(
                levels_shutdown,
                level,
            ),
            _ => true,
        }
    }

    /// Whether a worker that is not done closing goes on to `next` from `goal`.
    pub open spec fn pursues<Key>(
        goal: CloseGoal,
        levels_shutdown: Seq<Level<Key>>,
        next: Self,
    ) -> bool {
        match goal {
            CloseGoal::Search { captured } => match next {
                Closing::Find { level } => worker::highest_present(
                    levels_shutdown,
                    captured,
                    level as int,
                ),
                Closing::Start => worker::none_present(levels_shutdown, captured),
                _ => false,
            },
            CloseGoal::Retry { level } => next == (Closing::Missed { level }),
        }
    }

    /// Whether a worker that stands here goes on to `next` when it sees `field`.
    pub open spec fn leads_to<Key>(
        self,
        levels_shutdown: Seq<Level<Key>>,
        complete_shutdown_mask: u64,
        field: u64,
        next: Self,
    ) -> bool {
        match self {
            Closing::Start => next == (Closing::Check {
                goal: CloseGoal::Search { captured: field },
            }),
            Closing::Check { goal } => if !bits::meets(field, complete_shutdown_mask) {
                next == (Closing::Idle { goal })
            } else {
                Self::pursues(goal, levels_shutdown, next)
            },
            Closing::Idle { goal } => if !bits::meets(field, complete_shutdown_mask) {
                next == Closing::Done
            } else {
                Self::pursues(goal, levels_shutdown, next)
            },
            Closing::Missed { level } => next == if bits::meets(
                field & complete_shutdown_mask,
                levels_shutdown[level as int].mask,
            ) {
                Closing::Find { level }
            } else {
                Closing::Start
            },
            Closing::Find { .. } | Closing::Done => next == self,
        }
    }

    /// Go on, having seen `field`.
    pub fn observe<Key: Copy>(
        self,
        levels_shutdown: &Vec<Level<Key>>,
        complete_shutdown_mask: u64,
        field: u64,
    ) -> (next: Self)
        requires
            worker::levels_wf(levels_shutdown@),
            self.valid(levels_shutdown@),
        ensures
            self.leads_to(levels_shutdown@, complete_shutdown_mask, field, next),
            next.valid(levels_shutdown@),
    {
        match self {
            Closing::Start => Closing::Check { goal: CloseGoal::Search { captured: field } },
            Closing::Check { goal } => if !bits::any_present(field, complete_shutdown_mask) {
                Closing::Idle { goal }
            } else {
                Self::pursue(goal, levels_shutdown)
            },
            Closing::Idle { goal } => if !bits::any_present(field, complete_shutdown_mask) {
                Closing::Done
            } else {
                Self::pursue(goal, levels_shutdown)
            },
            Closing::Missed { level } => if bits::any_present(
                field & complete_shutdown_mask,
                levels_shutdown[level].mask,
            ) {
                Closing::Find { level }
            } else {
                // all channels in the level are empty: skip this pass
                Closing::Start
            },
            Closing::Find { level } => Closing::Find { level },
            Closing::Done => Closing::Done,
        }
    }

    /// Go on with `goal`, not being done.
    fn pursue<Key: Copy>(goal: CloseGoal, levels_shutdown: &Vec<Level<Key>>) -> (next: Self)
        requires
            worker::levels_wf(levels_shutdown@),
            goal matches CloseGoal::Retry { level } ==> worker::pollable(levels_shutdown@, level),
        ensures
            Self::pursues(goal, levels_shutdown@, next),
            next.valid(levels_shutdown@),
    {
        match goal {
            CloseGoal::Search { captured } => match worker::highest_level(levels_shutdown, captured) {
                Some(level) => {
                    proof {
                        worker::lemma_present_has_channel(
                            levels_shutdown@[level as int],
                            captured,
                        );
                    }
                    Closing::Find { level }
                },
                None => Closing::Start,
            },
            CloseGoal::Retry { level } => Closing::Missed { level },
        }
    }

    /// Where a worker that stands here goes on to when it has polled a channel, and run the task if one
    /// was `found`.
    pub open spec fn after_poll(self, found: bool) -> Self {
        match self {
            Closing::Find { level } => if found {
                Closing::Start
            } else {
                Closing::Check { goal: CloseGoal::Retry { level } }
            },
            _ => self,
        }
    }

    /// Go on, having polled a channel, and run the task if one was `found`.
    pub fn polled(self, found: bool) -> (next: Self)
        ensures
            next == self.after_poll(found),
    {
        match self {
            Closing::Find { level } => if found {
                Closing::Start
            } else {
                Closing::Check { goal: CloseGoal::Retry { level } }
            },
            _ => self,
        }
    }
}

/// Future for the pool closing. If this future is not executed, other threads which have joined the
/// pool will not wake up. `H` are the handles to the workers.
#[derive(Debug)]
pub struct PoolClose<H> {
    handles: Option<H>,
}

/// What the future of the closing does when it is polled.
#[derive(Debug)]
pub enum ClosePoll<H, E> {
    /// Wake up the joined threads, and be ready with the result.
    Finish(Result<(), E>),
    /// Have a thread block on the handles. The future is not ready.
    Join(H),
    /// The future is not ready.
    Pending,
}

impl<H> PoolClose<H> {
    /// The handles to the workers, until a thread blocks on them.
    pub closed spec fn handles(&self) -> Option<H> {
        self.handles
    }

    pub fn new(handles: H) -> (close: Self)
        ensures
            close.handles() == Some(handles),
    {
        PoolClose { handles: Some(handles) }
    }

    /// Whether a poll, to which the outcome of the workers has come in as `completed`, takes this future
    /// to `next` and gives `step`.
    pub open spec fn polled<E>(
        self,
        next: Self,
        completed: Option<Result<(), E>>,
        step: ClosePoll<H, E>,
    ) -> bool {
        &&& step == match completed {
            Some(result) => ClosePoll::Finish(result),
            None => match self.handles() {
                Some(handles) => ClosePoll::Join(handles),
                None => ClosePoll::Pending,
            },
        }
        &&& next.handles() == if completed is None {
            None
        } else {
            self.handles()
        }
    }

    /// Poll the future. `completed` is the outcome of the workers, if it has come in.
    pub fn poll<E>(&mut self, completed: Option<Result<(), E>>) -> (step: ClosePoll<H, E>)
        ensures
            old(self).polled(*final(self), completed, step),
    {
        match completed {
            Some(result) => ClosePoll::Finish(result),
            None => match self.handles.take() {
                Some(handles) => ClosePoll::Join(handles),
                None => ClosePoll::Pending,
            },
        }
    }
}

/// The outcome of the workers, if it is known when one has `joined` and `left` are still to join.
pub open spec fn outcome<E>(joined: Result<(), E>, left: int) -> Option<Result<(), E>> {
    if joined is Err || left == 0 {
        Some(joined)
    } else {
        None
    }
}

/// The outcome of the workers, once it is known: that of the first worker that failed, or success
/// when `left`, the number of workers still to join, is zero.
pub fn join_outcome<E>(joined: Result<(), E>, left: usize) -> (known: Option<Result<(), E>>)
    ensures
        known == outcome(joined, left as int),
{
    if joined.is_err() || left == 0 {
        Some(joined)
    } else {
        None
    }
}

/// The outcome of `workers` workers, if it is known when none has joined yet.
pub open spec fn outcome_at_first<E>(workers: int) -> Option<Result<(), E>> {
    if workers == 0 {
        Some(Ok::<(), E>(()))
    } else {
        None
    }
}

/// The outcome of the workers when none has joined yet: success if there are none.
pub fn first_outcome<E>(workers: usize) -> (known: Option<Result<(), E>>)
    ensures
        known == outcome_at_first::<E>(workers as int),
{
    if workers == 0 {
        Some(Ok(()))
    } else {
        None
    }
}

} // verus!
