//! Channels, from which the pool polls the tasks it runs.
pub mod fifo;
pub mod laws;
pub mod mtree;
pub mod multi;
pub mod sdf;

pub use self::fifo::VecDequeChannel;
pub use self::mtree::MTreeChannel;
pub use self::multi::{MultiChannel, Search, Turns};
pub use self::sdf::ShortestDeadlineFirst;

use std::sync::Arc;

use atomicmonitor::AtomMonitor;
use vstd::prelude::*;

use crate::shared::share;
use crate::status::field::FieldWrite;
use crate::status::StatusBit;
use crate::task::RunningTask;

verus! {

/// A struct used by pools to dispatch up to 64 present bitfield bits to channels.
pub struct BitAssigner<'a, 'b> {
    /// The present field whose bits are dispatched.
    pub monitor: &'a Arc<AtomMonitor<u64>>,
    /// The index of the next bit to dispatch.
    pub index: &'b mut usize,
}

/// The present field has no bit left to assign.
#[derive(Copy, Clone, Debug, PartialEq, Eq, Structural)]
pub struct NotEnoughBits;

impl<'a, 'b> BitAssigner<'a, 'b> {
    /// The present field whose bits are dispatched.
    pub open spec fn field(&self) -> AtomMonitor<u64> {
        **self.monitor
    }

    /// The index of the next bit to dispatch.
    pub open spec fn index(&self) -> nat {
        *self.index as nat
    }

    /// What dispatching `count` more bits makes of this assigner: the index moves on by `count`,
    /// or stops at the end of the field where the bits do not suffice.
    pub open spec fn dispatched(self, next: Self, count: nat) -> bool {
        &&& next.field() == self.field()
        &&& next.index() == if self.index() + count <= 64 || count == 0 {
            self.index() + count
        } else if self.index() <= 64 {
            64
        } else {
            self.index()
        }
    }

    /// Whether `count` more bits can be dispatched.
    pub open spec fn suffices_for(&self, count: nat) -> bool {
        count == 0 || self.index() + count <= 64
    }

    pub fn new(monitor: &'a Arc<AtomMonitor<u64>>, index: &'b mut usize) -> (assigner: Self)
        ensures
            assigner.field() == **monitor,
            assigner.index() == *old(index),
            *final(assigner.index) == *final(index),
    {
        BitAssigner { monitor, index }
    }

    pub fn current_index(&self) -> (index: usize)
        ensures
            index == self.index(),
    {
        *self.index
    }

    /// Dispatch the next bit of the field to `bit`, if there is one left.
    pub fn assign(&mut self, bit: &mut StatusBit) -> (r: Result<(), NotEnoughBits>)
        ensures
            r is Ok <==> old(self).suffices_for(1),
            old(self).dispatched(*final(self), 1),
            *final(final(self).index) == *final(old(self).index),
            r is Ok ==> {
                &&& final(bit).wf()
                &&& final(bit).is_active()
                &&& final(bit).field() == old(self).field()
                &&& final(bit).mask() == 1u64 << (old(self).index() as u64)
                &&& final(bit).writes() == Seq::<FieldWrite>::empty()
            },
            r is Err ==> *final(bit) == *old(bit),
    {
        let curr_index: usize = *self.index;
        if curr_index < 64 {
            *self.index = curr_index + 1;
            let _ = bit.activate(share(self.monitor), curr_index);
            Ok(())
        } else {
            Err(NotEnoughBits)
        }
    }
}

/// A channel by which futures becomes available to the thread pool.
pub trait Channel: Sized {
    /// The spawned futures that the channel hands out.
    type Spawn;

    /// Whether the channel is in a valid state.
    open spec fn wf(&self) -> bool {
        true
    }

    /// How many bits of the present field the channel maintains. It is one, unless the channel says
    /// otherwise.
    open spec fn bits_wanted(&self) -> nat {
        1
    }

    /// Whether a poll may take this channel to `next` and hand out `task`. A channel that does not
    /// say hands out any.
    open spec fn polled(self, next: Self, task: Option<RunningTask<Self::Spawn>>) -> bool {
        true
    }

    /// Whether `next` is this channel with its bits tied to `field`, from bit `from` on. A channel
    /// that does not say ties them in any way.
    open spec fn tied(self, next: Self, field: AtomMonitor<u64>, from: nat) -> bool {
        true
    }

    /// Whether `next` is what a claim of bits of `field`, from bit `from` on, leaves of this channel
    /// when there are not enough of them. A channel that does not say may be left in any way.
    open spec fn refused(self, next: Self, field: AtomMonitor<u64>, from: nat) -> bool {
        true
    }

    /// Claim the status bits of this channel.
    fn assign_bits(&mut self, assigner: &mut BitAssigner) -> (r: Result<(), NotEnoughBits>)
        requires
            old(self).wf(),
        ensures
            final(self).wf(),
            final(self).bits_wanted() == old(self).bits_wanted(),
            r is Ok <==> old(assigner).suffices_for(old(self).bits_wanted()),
            old(assigner).dispatched(*final(assigner), old(self).bits_wanted()),
            *final(final(assigner).index) == *final(old(assigner).index),
            r is Ok ==> old(self).tied(*final(self), old(assigner).field(), old(assigner).index()),
            r is Err ==> old(self).refused(
                *final(self),
                old(assigner).field(),
                old(assigner).index(),
            ),
    ;

    /// Take a task out of this channel, if there is one.
    fn poll(&mut self) -> (task: Option<RunningTask<Self::Spawn>>)
        requires
            old(self).wf(),
        ensures
            final(self).wf(),
            final(self).bits_wanted() == old(self).bits_wanted(),
            old(self).polled(*final(self), task),
    ;
}

/// Trait for channels for which a task can be submitted.
pub trait Exec: Channel {
    /// Whether the channel can take another task.
    open spec fn accepts(&self) -> bool {
        true
    }

    /// Whether submitting `task` may take this channel to `next`. A channel that does not say takes
    /// it in any way.
    open spec fn submitted(self, next: Self, task: RunningTask<Self::Spawn>) -> bool {
        true
    }

    /// Submit a raw running task.
    fn submit(&mut self, task: RunningTask<Self::Spawn>)
        requires
            old(self).wf(),
            old(self).accepts(),
        ensures
            final(self).wf(),
            final(self).bits_wanted() == old(self).bits_wanted(),
            old(self).submitted(*final(self), task),
    ;

    /// Execute a future on this channel.
    fn exec(&mut self, future: Self::Spawn)
        requires
            old(self).wf(),
            old(self).accepts(),
        ensures
            final(self).wf(),
            final(self).bits_wanted() == old(self).bits_wanted(),
            old(self).submitted(*final(self), RunningTask { spawn: future, close_counted: false }),
    {
        self.submit(RunningTask::new(future));
    }
}

/// Trait for channels for which a task can be submitted along side an additional parameter.
pub trait ExecParam: Channel {
    /// What comes with each task.
    type Param;

    /// Whether the channel can take another task with `param`.
    open spec fn accepts_param(&self, param: Self::Param) -> bool {
        true
    }

    /// Whether submitting `task` with `param` may take this channel to `next`. A channel that does
    /// not say takes it in any way.
    open spec fn submitted_param(
        self,
        next: Self,
        task: RunningTask<Self::Spawn>,
        param: Self::Param,
    ) -> bool {
        true
    }

    /// Submit a raw running task.
    fn submit(&mut self, task: RunningTask<Self::Spawn>, param: Self::Param)
        requires
            old(self).wf(),
            old(self).accepts_param(param),
        ensures
            final(self).wf(),
            final(self).bits_wanted() == old(self).bits_wanted(),
            old(self).submitted_param(*final(self), task, param),
    ;

    /// Execute a future on this channel.
    fn exec(&mut self, future: Self::Spawn, param: Self::Param)
        requires
            old(self).wf(),
            old(self).accepts_param(param),
        ensures
            final(self).wf(),
            final(self).bits_wanted() == old(self).bits_wanted(),
            old(self).submitted_param(
                *final(self),
                RunningTask { spawn: future, close_counted: false },
                param,
            ),
    {
        self.submit(RunningTask::new(future), param);
    }
}

} // verus!
