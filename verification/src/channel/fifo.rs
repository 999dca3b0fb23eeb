//! The first-in, first-out channel.
use std::collections::VecDeque;

use atomicmonitor::AtomMonitor;
use vstd::prelude::*;

use crate::channel::{BitAssigner, Channel, Exec, NotEnoughBits};
use crate::status::StatusBit;
use crate::task::RunningTask;

verus! {

/// A simple FIFO channel.
pub struct VecDequeChannel<S> {
    queue: VecDeque<RunningTask<S>>,
    bit: StatusBit,
}

impl<S> VecDequeChannel<S> {
    /// The tasks in the channel, the one that was submitted first in front.
    pub closed spec fn pending(&self) -> Seq<RunningTask<S>> {
        self.queue@.reverse()
    }

    /// The status bit of the channel.
    pub closed spec fn bit(&self) -> StatusBit {
        self.bit
    }

    /// A status bit shows whether there are any tasks in the channel.
    pub open spec fn valid(&self) -> bool {
        &&& self.bit().wf()
        &&& self.bit().shows(self.pending().len() > 0)
    }

    /// Whether `next` has the status bit of this channel, after one more write of it.
    pub open spec fn keeps_bit(self, next: Self) -> bool {
        &&& next.bit().is_active() == self.bit().is_active()
        &&& next.bit().is_active() ==> {
            &&& next.bit().field() == self.bit().field()
            &&& next.bit().mask() == self.bit().mask()
            &&& self.bit().wrote(next.bit(), next.bit().is_shown())
        }
    }

    pub fn new() -> (channel: Self)
        ensures
            channel.wf(),
            channel.pending() == Seq::<RunningTask<S>>::empty(),
            !channel.bit().is_active(),
    {
        let channel = VecDequeChannel { queue: VecDeque::new(), bit: StatusBit::new() };
        assert(channel.pending() =~= Seq::<RunningTask<S>>::empty());
        channel
    }
}

impl<S> Exec for VecDequeChannel<S> {
    open spec fn accepts(&self) -> bool {
        true
    }

    open spec fn submitted(self, next: Self, task: RunningTask<S>) -> bool {
        &&& next.pending() == self.pending().push(task)
        &&& self.keeps_bit(next)
    }

    fn submit(&mut self, task: RunningTask<S>) {
        self.queue.push_front(task);
        self.bit.set(true);
        assert(self.pending() =~= old(self).pending().push(task));
    }
}

impl<S> Channel for VecDequeChannel<S> {
    type Spawn = S;

    open spec fn wf(&self) -> bool {
        self.valid()
    }

    open spec fn bits_wanted(&self) -> nat {
        1
    }

    open spec fn polled(self, next: Self, task: Option<RunningTask<S>>) -> bool {
        &&& task == if self.pending().len() > 0 {
            Some(self.pending()[0])
        } else {
            None
        }
        &&& next.pending() == if self.pending().len() > 0 {
            self.pending().drop_first()
        } else {
            self.pending()
        }
        &&& self.keeps_bit(next)
    }

    open spec fn tied(self, next: Self, field: AtomMonitor<u64>, from: nat) -> bool {
        &&& next.pending() == self.pending()
        &&& next.bit().is_active()
        &&& next.bit().field() == field
        &&& next.bit().mask() == 1u64 << (from as u64)
        &&& next.bit().writes().len() == 1
    }

    open spec fn refused(self, next: Self, field: AtomMonitor<u64>, from: nat) -> bool {
        next == self
    }

    fn assign_bits(&mut self, assigner: &mut BitAssigner) -> (r: Result<(), NotEnoughBits>) {
        match assigner.assign(&mut self.bit) {
            Ok(()) => {},
            Err(e) => {
                return Err(e);
            },
        }
        self.bit.set(self.queue.len() != 0);
        Ok(())
    }

    fn poll(&mut self) -> (task: Option<RunningTask<S>>) {
        let future = self.queue.pop_back();
        self.bit.set(self.queue.len() != 0);
        proof {
            if old(self).pending().len() > 0 {
                assert(self.pending() =~= old(self).pending().drop_first());
            } else {
                assert(self.pending() =~= old(self).pending());
            }
        }
        future
    }
}

} // verus!
