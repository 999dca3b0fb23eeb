//! The status bit through which a channel tells the pool whether it holds any task.
pub mod field;

use std::sync::Arc;

use atomicmonitor::AtomMonitor;
use vstd::prelude::*;

use crate::status::field::{lower_bits, raise_bits, FieldHandle, FieldWrite};

verus! {

/// A way for a channel to access the status bit of the pool, which it must maintain.
pub struct StatusBit {
    inner: Option<StatusBitInner>,
}

struct StatusBitInner {
    handle: FieldHandle,
    mask: u64,
}

/// The index of a status bit that is not one of the 64 of the present field.
#[derive(Copy, Clone, Debug, PartialEq, Eq, Structural)]
pub struct StatusBitIndexTooBig(pub usize);

impl StatusBit {
    /// Whether the bit has been tied to a present field.
    pub closed spec fn is_active(&self) -> bool {
        self.inner is Some
    }

    /// The present field that an active bit belongs to.
    pub closed spec fn field(&self) -> AtomMonitor<u64> {
        self.inner->0.handle.field()
    }

    /// The mask of an active bit in the present field.
    pub closed spec fn mask(&self) -> u64 {
        self.inner->0.mask
    }

    /// The writes that an active bit made to the present field, the first in front.
    pub closed spec fn writes(&self) -> Seq<FieldWrite> {
        if self.inner is Some {
            self.inner->0.handle.writes()
        } else {
            Seq::empty()
        }
    }

    /// The latest write that an active bit made to the present field.
    pub open spec fn last_write(&self) -> Option<FieldWrite> {
        if self.writes().len() > 0 {
            Some(self.writes().last())
        } else {
            None
        }
    }

    /// Whether the latest write raised the bit. A bit that was never written is lowered.
    pub open spec fn is_shown(&self) -> bool {
        self.last_write() matches Some(write) && write.value()
    }

    /// An active bit is one of the 64 of the field, and every write went to it alone.
    pub open spec fn wf(&self) -> bool {
        self.is_active() ==> {
            &&& exists|index: u64| index < 64 && self.mask() == #[trigger] (1u64 << index)
            &&& forall|k: int|
                0 <= k < self.writes().len() ==> (#[trigger] self.writes()[k]).field()
                    == self.field() && self.writes()[k].mask() == self.mask()
        }
    }

    /// Whether an active bit shows `value`.
    pub open spec fn shows(&self, value: bool) -> bool {
        self.is_active() ==> self.is_shown() == value
    }

    pub fn new() -> (bit: Self)
        ensures
            bit.wf(),
            !bit.is_active(),
    {
        StatusBit { inner: None }
    }

    /// Tie the bit to bit `index` of a present field.
    pub fn activate(&mut self, monitor: Arc<AtomMonitor<u64>>, index: usize) -> (r: Result<
        (),
        StatusBitIndexTooBig,
    >)
        ensures
            r == (if index < 64 {
                Ok::<(), StatusBitIndexTooBig>(())
            } else {
                Err(StatusBitIndexTooBig(index))
            }),
            index < 64 ==> {
                &&& final(self).wf()
                &&& final(self).is_active()
                &&& final(self).field() == *monitor
                &&& final(self).mask() == 1u64 << (index as u64)
                &&& final(self).writes() == Seq::<FieldWrite>::empty()
            },
            index >= 64 ==> *final(self) == *old(self),
    {
        if index < 64 {
            self.inner = Some(
                StatusBitInner {
                    handle: FieldHandle::new(monitor),
                    mask: 0x1u64 << (index as u64),
                },
            );
            Ok(())
        } else {
            Err(StatusBitIndexTooBig(index))
        }
    }

    /// Whether `next` is this bit after one more write, which raised or lowered it as `value` says.
    pub open spec fn wrote(&self, next: Self, value: bool) -> bool {
        &&& next.writes().len() == self.writes().len() + 1
        &&& next.writes().drop_last() == self.writes()
        &&& next.writes().last().field() == self.field()
        &&& next.writes().last().mask() == self.mask()
        &&& next.writes().last().value() == value
    }

    /// Raise or lower the bit in the present field. Does nothing until the bit is active.
    pub fn set(&mut self, value: bool)
        requires
            old(self).wf(),
        ensures
            final(self).wf(),
            final(self).is_active() == old(self).is_active(),
            !old(self).is_active() ==> *final(self) == *old(self),
            old(self).is_active() ==> {
                &&& final(self).field() == old(self).field()
                &&& final(self).mask() == old(self).mask()
                &&& old(self).wrote(*final(self), value)
            },
    {
        if let Some(inner) = &mut self.inner {
            let mask: u64 = inner.mask;
            assert(!(!mask) == mask) by (bit_vector);
            let ghost before = inner.handle.writes();
            let _ = if value {
                raise_bits(&mut inner.handle, mask)
            } else {
                lower_bits(&mut inner.handle, !mask)
            };
            assert(inner.handle.writes().drop_last() =~= before);
        }
        proof {
            if self.is_active() {
                assert forall|k: int| 0 <= k < self.writes().len() implies (
                #[trigger] self.writes()[k]).field() == self.field() && self.writes()[k].mask()
                    == self.mask() by {
                    if k < old(self).writes().len() {
                        assert(self.writes()[k] == old(self).writes()[k]);
                    }
                }
            }
        }
    }
}

} // verus!
