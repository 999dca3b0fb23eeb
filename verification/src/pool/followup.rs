//! Who takes care of a task that yields: the responsibility for it is transferred by atomic changes of
//! its status.
pub mod cell;
pub mod laws;

use atomicmonitor::atomic::Atomic;
use vstd::prelude::*;

use crate::bits;
use crate::pool::followup::cell::{exchange_status, Exchange, StatusCell, StatusHandle};
use crate::pool::LifecycleState;
use crate::shared::CellStart;
use crate::task::RunningTask;

verus! {

/// Who takes care of a task, and whether it was asked to run again. The workers that poll the task and
/// the callbacks that wake it share this, over all polls of the task.
#[derive(Copy, Clone, Debug, PartialEq, Eq, Structural)]
pub enum RunStatus {
    /// A worker has the task, and nobody has asked for it since the worker took it up.
    NotRequestedAndWillBeTakenCareOf,
    /// The task was asked for, and a worker has it or a channel holds it.
    RequestedAndWillBeTakenCareOf,
    /// The task was left to whoever wakes it.
    NotRequestedAndWillNotBeTakenCareOf,
}

/// What a worker does with a task that is not ready.
#[derive(Copy, Clone, Debug, PartialEq, Eq, Structural)]
pub enum AfterYield {
    /// Leave the task. It will be re-inserted by whoever wakes it.
    Leave,
    /// Poll the task again: it was woken meanwhile.
    PollAgain,
}

/// What a wake-up call does.
#[derive(Copy, Clone, Debug, PartialEq, Eq, Structural)]
pub enum AfterNotify {
    /// Nothing: a worker that has the task, or will take it up, takes care of it.
    Nothing,
    /// Re-insert the task into the followup channel: nobody has it but this call.
    Resubmit,
}

/// What becomes of a cell that holds `held` when `new` is put in place of `current`, and what the
/// exchange gives.
pub open spec fn exchanged(held: RunStatus, current: RunStatus, new: RunStatus) -> (
    RunStatus,
    Result<RunStatus, RunStatus>,
) {
    if held == current {
        (new, Ok(held))
    } else {
        (held, Err(held))
    }
}

/// Whether `found` is what the exchange gives of some cell when `new` is put in place of `current`.
pub open spec fn is_exchange(
    found: Result<RunStatus, RunStatus>,
    current: RunStatus,
    new: RunStatus,
) -> bool {
    exists|held: RunStatus| found == (#[trigger] exchanged(held, current, new)).1
}

/// What a worker does with a task that is not ready, by what came of the exchange in which it gives
/// the task away. A status under which no task is polled is given back.
pub open spec fn yielded(exchange: Result<RunStatus, RunStatus>) -> Result<AfterYield, RunStatus> {
    match exchange {
        Ok(_) => Ok(AfterYield::Leave),
        Err(RunStatus::RequestedAndWillBeTakenCareOf) => Ok(AfterYield::PollAgain),
        Err(other) => Err(other),
    }
}

/// What comes of taking a task up, by what came of the exchange in which the worker does. A status
/// under which no worker can have the task is given back.
pub open spec fn taken_up(exchange: Result<RunStatus, RunStatus>) -> Result<(), RunStatus> {
    match exchange {
        Ok(_) => Ok(()),
        Err(RunStatus::NotRequestedAndWillBeTakenCareOf) => Ok(()),
        Err(other) => Err(other),
    }
}

/// Whether a wake-up call found the task left to whoever wakes it, by what came of the exchange in
/// which it asks for the task.
pub open spec fn found_left(asked: Result<RunStatus, RunStatus>) -> bool {
    asked == Err::<RunStatus, RunStatus>(RunStatus::NotRequestedAndWillNotBeTakenCareOf)
}

/// What a wake-up call does, by what came of the exchange in which it claims the task, if it made one.
pub open spec fn notified(claimed: Option<Result<RunStatus, RunStatus>>) -> AfterNotify {
    match claimed {
        Some(Ok(_)) => AfterNotify::Resubmit,
        _ => AfterNotify::Nothing,
    }
}

/// Decide what a worker does with a task that is not ready.
pub fn yield_outcome(exchange: Result<RunStatus, RunStatus>) -> (r: Result<AfterYield, RunStatus>)
    ensures
        r == yielded(exchange),
{
    match exchange {
        Ok(_) => Ok(AfterYield::Leave),
        Err(RunStatus::RequestedAndWillBeTakenCareOf) => Ok(AfterYield::PollAgain),
        Err(other) => Err(other),
    }
}

/// Decide what comes of taking a task up.
pub fn take_up_outcome(exchange: Result<RunStatus, RunStatus>) -> (r: Result<(), RunStatus>)
    ensures
        r == taken_up(exchange),
{
    match exchange {
        Ok(_) => Ok(()),
        Err(RunStatus::NotRequestedAndWillBeTakenCareOf) => Ok(()),
        Err(other) => Err(other),
    }
}

/// Decide whether a wake-up call has to claim the task.
pub fn must_claim(asked: Result<RunStatus, RunStatus>) -> (r: bool)
    ensures
        r == found_left(asked),
{
    match asked {
        Err(RunStatus::NotRequestedAndWillNotBeTakenCareOf) => true,
        _ => false,
    }
}

/// Decide what a wake-up call does.
pub fn notify_outcome(claimed: Option<Result<RunStatus, RunStatus>>) -> (then: AfterNotify)
    ensures
        then == notified(claimed),
{
    match claimed {
        Some(Ok(_)) => AfterNotify::Resubmit,
        _ => AfterNotify::Nothing,
    }
}

/// The status of a task, shared between the workers that poll the task and the callbacks that wake it.
/// It lasts as long as the task: a callback of an earlier poll asks for a later one too.
pub struct SharedStatus {
    cell: StatusCell,
    started: CellStart<RunStatus>,
}

/// What came of changing a shared status. A status under which the change is not made is given back.
pub struct Attempt<Then> {
    /// What to do.
    pub outcome: Result<Then, RunStatus>,
    /// The change.
    pub exchange: Exchange,
}

/// What came of waking a task.
pub struct Notified {
    /// What to do.
    pub outcome: AfterNotify,
    /// The change that asks for the task.
    pub asked: Exchange,
    /// The change that claims the task, if it was found left to whoever wakes it.
    pub claimed: Option<Exchange>,
}

impl Notified {
    /// Whether this came of waking the task whose status `cell` holds: the call asked for the task,
    /// claimed it where it found it left to whoever wakes it, and re-inserts it exactly where the claim
    /// was made.
    pub open spec fn of(&self, cell: Atomic<RunStatus>) -> bool {
        &&& self.asked.of(
            cell,
            RunStatus::NotRequestedAndWillBeTakenCareOf,
            RunStatus::RequestedAndWillBeTakenCareOf,
        )
        &&& is_exchange(
            self.asked.held(),
            RunStatus::NotRequestedAndWillBeTakenCareOf,
            RunStatus::RequestedAndWillBeTakenCareOf,
        )
        &&& self.claimed is Some <==> found_left(self.asked.held())
        &&& self.claimed matches Some(claimed) ==> {
            &&& claimed.of(
                cell,
                RunStatus::NotRequestedAndWillNotBeTakenCareOf,
                RunStatus::RequestedAndWillBeTakenCareOf,
            )
            &&& is_exchange(
                claimed.held(),
                RunStatus::NotRequestedAndWillNotBeTakenCareOf,
                RunStatus::RequestedAndWillBeTakenCareOf,
            )
        }
        &&& self.outcome == AfterNotify::Resubmit <==> (self.claimed matches Some(claimed)
            && claimed.held() is Ok)
    }
}

impl SharedStatus {
    /// The cell that holds the status.
    pub closed spec fn cell(&self) -> Atomic<RunStatus> {
        self.cell.cell()
    }

    /// How many handles were given out.
    pub closed spec fn handed(&self) -> nat {
        self.cell.handed()
    }

    /// How the cell started.
    pub closed spec fn started(&self) -> CellStart<RunStatus> {
        self.started
    }

    /// The status of a task that was not polled yet.
    pub fn new() -> (status: Self)
        ensures
            status.handed() == 0,
            status.started().of(status.cell(), RunStatus::NotRequestedAndWillBeTakenCareOf),
    {
        let (cell, started) = StatusCell::new(RunStatus::NotRequestedAndWillBeTakenCareOf);
        SharedStatus { cell, started }
    }

    /// A handle for one of those that share the status, through which no change was made yet. The
    /// worker that has the task gives it out.
    pub fn handle(&mut self) -> (handle: StatusHandle)
        ensures
            final(self).cell() == old(self).cell(),
            final(self).started() == old(self).started(),
            final(self).handed() == old(self).handed() + 1,
            handle.cell() == old(self).cell(),
            handle.exchanges() == Seq::<Exchange>::empty(),
    {
        self.cell.handle()
    }
}

impl StatusHandle {
    /// A worker takes the task up, to poll it. What was asked for before is answered by that poll.
    pub fn take_up(&mut self) -> (attempt: Attempt<()>)
        ensures
            final(self).cell() == old(self).cell(),
            final(self).exchanges() == old(self).exchanges().push(attempt.exchange),
            attempt.exchange.of(
                old(self).cell(),
                RunStatus::RequestedAndWillBeTakenCareOf,
                RunStatus::NotRequestedAndWillBeTakenCareOf,
            ),
            attempt.outcome == taken_up(attempt.exchange.held()),
            is_exchange(
                attempt.exchange.held(),
                RunStatus::RequestedAndWillBeTakenCareOf,
                RunStatus::NotRequestedAndWillBeTakenCareOf,
            ),
    {
        let exchange = self.exchange(
            RunStatus::RequestedAndWillBeTakenCareOf,
            RunStatus::NotRequestedAndWillBeTakenCareOf,
        );
        Attempt { outcome: take_up_outcome(exchange.found()), exchange }
    }

    /// The worker gives the task away, unless the task was asked for while it was polled.
    pub fn give_away(&mut self) -> (attempt: Attempt<AfterYield>)
        ensures
            final(self).cell() == old(self).cell(),
            final(self).exchanges() == old(self).exchanges().push(attempt.exchange),
            attempt.exchange.of(
                old(self).cell(),
                RunStatus::NotRequestedAndWillBeTakenCareOf,
                RunStatus::NotRequestedAndWillNotBeTakenCareOf,
            ),
            attempt.outcome == yielded(attempt.exchange.held()),
            is_exchange(
                attempt.exchange.held(),
                RunStatus::NotRequestedAndWillBeTakenCareOf,
                RunStatus::NotRequestedAndWillNotBeTakenCareOf,
            ),
    {
        let exchange = self.exchange(
            RunStatus::NotRequestedAndWillBeTakenCareOf,
            RunStatus::NotRequestedAndWillNotBeTakenCareOf,
        );
        Attempt { outcome: yield_outcome(exchange.found()), exchange }
    }

    /// The task is woken. A call that finds it given away claims it, and has to re-insert it if no
    /// other call has claimed it meanwhile. The claim comes after the change that asks for the task.
    pub fn notify(&mut self) -> (notified: Notified)
        ensures
            final(self).cell() == old(self).cell(),
            final(self).exchanges() == match notified.claimed {
                Some(claimed) => old(self).exchanges().push(notified.asked).push(claimed),
                None => old(self).exchanges().push(notified.asked),
            },
            notified.of(old(self).cell()),
    {
        let asked = self.exchange(
            RunStatus::NotRequestedAndWillBeTakenCareOf,
            RunStatus::RequestedAndWillBeTakenCareOf,
        );
        if must_claim(asked.found()) {
            let claimed = self.exchange(
                RunStatus::NotRequestedAndWillNotBeTakenCareOf,
                RunStatus::RequestedAndWillBeTakenCareOf,
            );
            let outcome = notify_outcome(Some(claimed.found()));
            Notified { outcome, asked, claimed: Some(claimed) }
        } else {
            Notified { outcome: notify_outcome(None), asked, claimed: None }
        }
    }

    /// Put `new` in place of `current`.
    fn exchange(&mut self, current: RunStatus, new: RunStatus) -> (exchange: Exchange)
        ensures
            final(self).cell() == old(self).cell(),
            final(self).exchanges() == old(self).exchanges().push(exchange),
            exchange.of(old(self).cell(), current, new),
            is_exchange(exchange.held(), current, new),
    {
        let exchange = exchange_status(self, current, new);
        proof {
            let held = match exchange.held() {
                Ok(held) => held,
                Err(held) => held,
            };
            assert(exchanged(held, current, new).1 == exchange.held());
        }
        exchange
    }
}

/// What a worker does for a task that is complete, before it drops the task.
#[derive(Copy, Clone, Debug, PartialEq, Eq, Structural)]
pub struct Completion {
    /// Take the task off the close counter.
    pub uncount: bool,
    /// Notify the present field, so that a worker that waits to close can go on.
    pub notify: bool,
}

/// What a worker does with a task that it polled.
#[derive(Copy, Clone, Debug, PartialEq, Eq, Structural)]
pub enum AfterPoll {
    /// Leave the task to whoever wakes it, and add it to the close counter if `count` says so.
    Leave { count: bool },
    /// Poll the task again.
    PollAgain,
    /// Drop the task, which is complete.
    Finish(Completion),
}

/// Whether a task is counted after it was polled, and what the worker does. The task was counted
/// before if `counted` says so, and comes from a channel that is completed on close if `critical`
/// says so.
pub open spec fn after_poll(
    counted: bool,
    yielded: Option<AfterYield>,
    critical: bool,
    lifecycle: LifecycleState,
) -> (bool, AfterPoll) {
    match yielded {
        Some(AfterYield::Leave) => (
            counted || critical,
            AfterPoll::Leave { count: critical && !counted },
        ),
        Some(AfterYield::PollAgain) => (counted, AfterPoll::PollAgain),
        None => (
            counted,
            AfterPoll::Finish(
                Completion {
                    uncount: counted,
                    notify: counted && lifecycle == LifecycleState::Closed,
                },
            ),
        ),
    }
}

impl<S> RunningTask<S> {
    /// A worker polled the task, which came from a channel with `from_mask`. `yielded` tells what
    /// became of the status if the task is not ready; a task that is ready, or failed, is complete.
    pub fn polled(
        &mut self,
        yielded: Option<AfterYield>,
        from_mask: u64,
        complete_shutdown_mask: u64,
        lifecycle: LifecycleState,
    ) -> (then: AfterPoll)
        ensures
            (final(self).close_counted, then) == after_poll(
                old(self).close_counted,
                yielded,
                bits::meets(from_mask, complete_shutdown_mask),
                lifecycle,
            ),
            final(self).spawn == old(self).spawn,
    {
        match yielded {
            Some(AfterYield::Leave) => {
                let count = self.left(from_mask, complete_shutdown_mask);
                AfterPoll::Leave { count }
            },
            Some(AfterYield::PollAgain) => AfterPoll::PollAgain,
            None => AfterPoll::Finish(self.completed(lifecycle)),
        }
    }

    /// A worker leaves the task, which came from a channel with `from_mask`, to whoever wakes it.
    /// Tells whether the task is to be added to the close counter: one that comes from a channel
    /// which is completed on close is counted, once.
    fn left(&mut self, from_mask: u64, complete_shutdown_mask: u64) -> (count: bool)
        ensures
            count == (bits::meets(from_mask, complete_shutdown_mask) && !old(self).close_counted),
            final(self).close_counted == (old(self).close_counted || bits::meets(
                from_mask,
                complete_shutdown_mask,
            )),
            final(self).spawn == old(self).spawn,
    {
        if bits::any_present(from_mask, complete_shutdown_mask) {
            if !self.close_counted {
                self.close_counted = true;
                return true;
            }
        }
        false
    }

    /// The task is complete.
    fn completed(&self, lifecycle: LifecycleState) -> (then: Completion)
        ensures
            then == (Completion {
                uncount: self.close_counted,
                notify: self.close_counted && lifecycle == LifecycleState::Closed,
            }),
    {
        Completion {
            uncount: self.close_counted,
            notify: self.close_counted && lifecycle == LifecycleState::Closed,
        }
    }
}

} // verus!
