//! What point in its lifecycle a pool is in. The workers read it, and the owner of the pool alone changes
//! it.
use std::sync::Arc;

use atomicmonitor::atomic::Atomic;
use vstd::prelude::*;

use crate::pool::LifecycleState;
use crate::shared::{load_cell, new_cell, share, CellReading, CellStart};

verus! {

/// The lifecycle of a pool, as its workers see it.
pub struct SharedLifecycle {
    cell: Arc<Atomic<LifecycleState>>,
}

/// The handle by which the owner of a pool changes its lifecycle. There is one for each pool, and it
/// remembers the attempts that were made through it.
pub struct LifecycleHandle {
    cell: Arc<Atomic<LifecycleState>>,
    state: Ghost<LifecycleState>,
    exchanges: Ghost<Seq<LifecycleExchange>>,
}

/// The record of one attempt to put one state in place of another in one atomic step. Only an attempt
/// makes one.
pub struct LifecycleExchange {
    current: LifecycleState,
    new: LifecycleState,
    found: Result<LifecycleState, LifecycleState>,
    cell: Ghost<Atomic<LifecycleState>>,
}

impl LifecycleExchange {
    /// Whether the attempt was to put `new` in place of `current` in `cell`.
    pub closed spec fn of(
        &self,
        cell: Atomic<LifecycleState>,
        current: LifecycleState,
        new: LifecycleState,
    ) -> bool {
        self.cell@ == cell && self.current == current && self.new == new
    }

    /// What the cell held before. It holds the new state since if that was the one to be replaced, and
    /// is as it was otherwise.
    pub closed spec fn held(&self) -> Result<LifecycleState, LifecycleState> {
        self.found
    }

    /// What the cell held before. It holds the new state since if that was the one to be replaced, and
    /// is as it was otherwise.
    pub fn found(&self) -> (found: Result<LifecycleState, LifecycleState>)
        ensures
            found == self.held(),
    {
        self.found
    }
}

impl SharedLifecycle {
    /// The cell that holds the state.
    pub closed spec fn cell(&self) -> Atomic<LifecycleState> {
        *self.cell
    }

    /// A lifecycle that is in `state` at first, as the record tells, with the handle by which it is
    /// changed.
    pub fn new(state: LifecycleState) -> (made: (Self, LifecycleHandle, CellStart<LifecycleState>))
        ensures
            made.1.cell() == made.0.cell(),
            made.1.state() == state,
            made.1.exchanges() == Seq::<LifecycleExchange>::empty(),
            made.2.of(made.0.cell(), state),
    {
        let (cell, start) = new_cell(state);
        let cell = Arc::new(cell);
        let handle = LifecycleHandle {
            cell: share(&cell),
            state: Ghost(state),
            exchanges: Ghost(Seq::empty()),
        };
        (SharedLifecycle { cell }, handle, start)
    }

    /// What point in the lifecycle the pool is in, after what `earlier` tells of.
    pub fn read<R>(&self, earlier: &R) -> (reading: CellReading<LifecycleState, R>)
        ensures
            reading.cell() == self.cell(),
            reading.follows(*earlier),
    {
        load_cell(&self.cell, earlier)
    }
}

impl LifecycleHandle {
    /// The cell that holds the state.
    pub closed spec fn cell(&self) -> Atomic<LifecycleState> {
        *self.cell
    }

    /// The state that the pool is in.
    pub closed spec fn state(&self) -> LifecycleState {
        self.state@
    }

    /// The attempts that were made through the handle, the first in front.
    pub closed spec fn exchanges(&self) -> Seq<LifecycleExchange> {
        self.exchanges@
    }

    /// Whether `next` is this handle after `exchange`, in which a running pool is closed, and no other
    /// attempt. A pool that is not running is left as it is.
    pub open spec fn closed(self, next: Self, exchange: LifecycleExchange) -> bool {
        &&& exchange.of(self.cell(), LifecycleState::Running, LifecycleState::Closed)
        &&& exchange.held() == if self.state() == LifecycleState::Running {
            Ok::<LifecycleState, LifecycleState>(LifecycleState::Running)
        } else {
            Err(self.state())
        }
        &&& next.cell() == self.cell()
        &&& next.state() == if self.state() == LifecycleState::Running {
            LifecycleState::Closed
        } else {
            self.state()
        }
        &&& next.exchanges() == self.exchanges().push(exchange)
    }

    /// Close a running pool.
    pub fn close(&mut self) -> (exchange: LifecycleExchange)
        ensures
            old(self).closed(*final(self), exchange),
    {
        exchange_lifecycle(self, LifecycleState::Running, LifecycleState::Closed)
    }
}

/// `Atomic::compare_exchange` on a lifecycle that only this handle changes: puts `new` in place of
/// `current` in one atomic step, or leaves the cell as it is where it does not hold `current`. Gives
/// what the cell held before.
#[verifier::external_body]
fn exchange_lifecycle(
    handle: &mut LifecycleHandle,
    current: LifecycleState,
    new: LifecycleState,
) -> (exchange: LifecycleExchange)
    ensures
        exchange.of(old(handle).cell(), current, new),
        exchange.held() == if old(handle).state() == current {
            Ok::<LifecycleState, LifecycleState>(current)
        } else {
            Err(old(handle).state())
        },
        final(handle).cell() == old(handle).cell(),
        final(handle).state() == if old(handle).state() == current {
            new
        } else {
            old(handle).state()
        },
        final(handle).exchanges() == old(handle).exchanges().push(exchange),
{
    let order = atomicmonitor::Ordering::SeqCst;
    let found = handle.cell.compare_exchange(current, new, order, order);
    LifecycleExchange { current, new, found, cell: Ghost(*handle.cell) }
}

} // verus!
