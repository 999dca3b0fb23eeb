//! The cell that holds the status of a task, and the records of its changes.
use std::sync::Arc;

use atomicmonitor::atomic::Atomic;
use vstd::prelude::*;

use crate::pool::followup::RunStatus;
use crate::shared::{new_cell, share, CellStart};

verus! {

/// The record of one attempt to put one status in place of another in one atomic step. Only an attempt
/// makes one.
pub struct Exchange {
    current: RunStatus,
    new: RunStatus,
    found: Result<RunStatus, RunStatus>,
    cell: Ghost<Atomic<RunStatus>>,
}

impl Exchange {
    /// The cell that holds the status.
    pub closed spec fn cell(&self) -> Atomic<RunStatus> {
        self.cell@
    }

    /// The status that was to be replaced.
    pub closed spec fn expected(&self) -> RunStatus {
        self.current
    }

    /// The status that was to be put in its place.
    pub closed spec fn put(&self) -> RunStatus {
        self.new
    }

    /// What the cell held before. It holds the new status since if that was the one to be replaced,
    /// and is as it was otherwise.
    pub closed spec fn held(&self) -> Result<RunStatus, RunStatus> {
        self.found
    }

    /// Whether the attempt was to put `new` in place of `current` in `cell`.
    pub open spec fn of(&self, cell: Atomic<RunStatus>, current: RunStatus, new: RunStatus) -> bool {
        self.cell() == cell && self.expected() == current && self.put() == new
    }

    /// What the cell held before. It holds the new status since if that was the one to be replaced,
    /// and is as it was otherwise.
    pub fn found(&self) -> (found: Result<RunStatus, RunStatus>)
        ensures
            found == self.held(),
    {
        self.found
    }
}

/// A cell that holds the status of a task. A change of it takes a handle, and only the owner of the
/// cell gives one out.
pub struct StatusCell {
    cell: Arc<Atomic<RunStatus>>,
    handed: Ghost<nat>,
}

/// A handle to the status of a task, which remembers the attempts to change it that were made through
/// it.
pub struct StatusHandle {
    cell: Arc<Atomic<RunStatus>>,
    exchanges: Ghost<Seq<Exchange>>,
}

impl StatusCell {
    /// The cell itself.
    pub closed spec fn cell(&self) -> Atomic<RunStatus> {
        *self.cell
    }

    /// How many handles were given out.
    pub closed spec fn handed(&self) -> nat {
        self.handed@
    }

    /// A cell that holds `status` at first, as the record tells.
    pub fn new(status: RunStatus) -> (made: (Self, CellStart<RunStatus>))
        ensures
            made.0.handed() == 0,
            made.1.of(made.0.cell(), status),
    {
        let (cell, start) = new_cell(status);
        (StatusCell { cell: Arc::new(cell), handed: Ghost(0) }, start)
    }

    /// A handle through which no attempt was made yet.
    pub fn handle(&mut self) -> (handle: StatusHandle)
        ensures
            final(self).cell() == old(self).cell(),
            final(self).handed() == old(self).handed() + 1,
            handle.cell() == old(self).cell(),
            handle.exchanges() == Seq::<Exchange>::empty(),
    {
        self.handed = Ghost(self.handed@ + 1);
        StatusHandle { cell: share(&self.cell), exchanges: Ghost(Seq::empty()) }
    }
}

impl StatusHandle {
    /// The cell that holds the status.
    pub closed spec fn cell(&self) -> Atomic<RunStatus> {
        *self.cell
    }

    /// The attempts that were made through the handle, the first in front.
    pub closed spec fn exchanges(&self) -> Seq<Exchange> {
        self.exchanges@
    }
}

/// `Atomic::compare_exchange` on a run status: puts `new` in place of `current` in one atomic step,
/// or leaves the cell as it is where it does not hold `current`. Gives what the cell held before, which
/// is whatever those that share the cell had left there.
#[verifier::external_body]
pub(super) fn exchange_status(handle: &mut StatusHandle, current: RunStatus, new: RunStatus) -> (
    exchange: Exchange)
    ensures
        exchange.of(old(handle).cell(), current, new),
        exchange.held() matches Ok(before) ==> before == current,
        exchange.held() matches Err(before) ==> before != current,
        final(handle).cell() == old(handle).cell(),
        final(handle).exchanges() == old(handle).exchanges().push(exchange),
{
    let order = atomicmonitor::Ordering::SeqCst;
    let found = handle.cell.compare_exchange(current, new, order, order);
    Exchange { current, new, found, cell: Ghost(*handle.cell) }
}

} // verus!
