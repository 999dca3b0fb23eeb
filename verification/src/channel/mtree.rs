//! The status bit of a channel whose tasks lie in a spatial tree.
use atomicmonitor::AtomMonitor;
use vstd::prelude::*;

use crate::channel::{BitAssigner, NotEnoughBits};
use crate::status::StatusBit;

verus! {

/// A channel which hands out the task nearest to a focus. The tree that holds the tasks stays with
/// the caller, who says what each operation on the tree answered.
pub struct MTreeChannel {
    bit: StatusBit,
}

impl MTreeChannel {
    /// The status bit of the channel.
    pub closed spec fn bit(&self) -> StatusBit {
        self.bit
    }

    /// Whether `next` has the status bit of this channel, after one more write of it.
    pub open spec fn keeps_bit(self, next: Self) -> bool {
        &&& next.bit().wf()
        &&& next.bit().is_active() == self.bit().is_active()
        &&& next.bit().is_active() ==> {
            &&& next.bit().field() == self.bit().field()
            &&& next.bit().mask() == self.bit().mask()
            &&& self.bit().wrote(next.bit(), next.bit().is_shown())
        }
    }

    pub fn new() -> (channel: Self)
        ensures
            channel.bit().wf(),
            !channel.bit().is_active(),
    {
        MTreeChannel { bit: StatusBit::new() }
    }

    /// Claim the status bit of this channel, over a tree that is empty or not.
    pub fn assign_bits(&mut self, assigner: &mut BitAssigner, tree_is_empty: bool) -> (r: Result<
        (),
        NotEnoughBits,
    >)
        requires
            old(self).bit().wf(),
        ensures
            final(self).bit().wf(),
            r is Ok <==> old(assigner).suffices_for(1),
            old(assigner).dispatched(*final(assigner), 1),
            *final(final(assigner).index) == *final(old(assigner).index),
            r is Ok ==> {
                &&& final(self).bit().is_active()
                &&& final(self).bit().field() == old(assigner).field()
                &&& final(self).bit().mask() == 1u64 << (old(assigner).index() as u64)
                &&& final(self).bit().shows(!tree_is_empty)
                &&& final(self).bit().writes().len() == 1
            },
            r is Err ==> *final(self) == *old(self),
    {
        match assigner.assign(&mut self.bit) {
            Ok(()) => {},
            Err(e) => {
                return Err(e);
            },
        }
        self.bit.set(!tree_is_empty);
        Ok(())
    }

    /// Hand out what the tree gave up, and show whether the tree still holds any task.
    pub fn poll<T>(&mut self, removed: Option<T>, tree_is_empty: bool) -> (task: Option<T>)
        requires
            old(self).bit().wf(),
        ensures
            task == removed,
            old(self).keeps_bit(*final(self)),
            final(self).bit().shows(!tree_is_empty),
    {
        self.bit.set(!tree_is_empty);
        removed
    }

    /// Show that the tree holds a task, after one was inserted.
    pub fn submit(&mut self)
        requires
            old(self).bit().wf(),
        ensures
            old(self).keeps_bit(*final(self)),
            final(self).bit().shows(true),
    {
        self.bit.set(true);
    }
}

} // verus!
