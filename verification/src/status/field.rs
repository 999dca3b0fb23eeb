//! The writes that a status bit makes to the present field.
use std::sync::Arc;

use atomicmonitor::AtomMonitor;
use vstd::prelude::*;

verus! {

/// The record of one atomic write to a present field. Only a write makes one.
pub struct FieldWrite {
    before: u64,
    operand: u64,
    value: bool,
    field: Ghost<AtomMonitor<u64>>,
}

impl FieldWrite {
    /// The field that was written.
    pub closed spec fn field(&self) -> AtomMonitor<u64> {
        self.field@
    }

    /// What the field held just before the write.
    pub closed spec fn before(&self) -> u64 {
        self.before
    }

    /// The bits that were written.
    pub closed spec fn mask(&self) -> u64 {
        if self.value {
            self.operand
        } else {
            !self.operand
        }
    }

    /// Whether they were raised or lowered.
    pub closed spec fn value(&self) -> bool {
        self.value
    }
}

/// A handle to a present field, which remembers the writes that were made through it.
pub struct FieldHandle {
    monitor: Arc<AtomMonitor<u64>>,
    writes: Ghost<Seq<FieldWrite>>,
}

impl FieldHandle {
    /// The present field.
    pub closed spec fn field(&self) -> AtomMonitor<u64> {
        *self.monitor
    }

    /// The writes that were made through the handle, the first in front.
    pub closed spec fn writes(&self) -> Seq<FieldWrite> {
        self.writes@
    }

    /// A handle through which nothing was written yet.
    pub(super) fn new(monitor: Arc<AtomMonitor<u64>>) -> (handle: Self)
        ensures
            handle.field() == *monitor,
            handle.writes() == Seq::<FieldWrite>::empty(),
    {
        FieldHandle { monitor, writes: Ghost(Seq::empty()) }
    }
}

/// `AtomMonitor::mutate` with `Atomic::fetch_or`: raises the bits of `mask` in one atomic step and
/// wakes the threads that wait upon the field. The record says which bits of which field were
/// raised; the earlier value in it is whatever the threads that share the field had left there.
#[verifier::external_body]
pub(super) fn raise_bits(handle: &mut FieldHandle, mask: u64) -> (write: FieldWrite)
    ensures
        write.field() == old(handle).field(),
        write.mask() == mask,
        write.value(),
        final(handle).field() == old(handle).field(),
        final(handle).writes() == old(handle).writes().push(write),
{
    let monitor = &handle.monitor;
    let before = monitor.mutate(|field| field.fetch_or(mask, atomicmonitor::Ordering::SeqCst));
    FieldWrite { before, operand: mask, value: true, field: Ghost(**monitor) }
}

/// `AtomMonitor::mutate` with `Atomic::fetch_and`: lowers all bits but those of `kept` in one atomic
/// step and wakes the threads that wait upon the field. The record says which bits of which field
/// were lowered; the earlier value in it is whatever the threads that share the field had left
/// there.
#[verifier::external_body]
pub(super) fn lower_bits(handle: &mut FieldHandle, kept: u64) -> (write: FieldWrite)
    ensures
        write.field() == old(handle).field(),
        write.mask() == !kept,
        !write.value(),
        final(handle).field() == old(handle).field(),
        final(handle).writes() == old(handle).writes().push(write),
{
    let monitor = &handle.monitor;
    let before = monitor.mutate(|field| field.fetch_and(kept, atomicmonitor::Ordering::SeqCst));
    FieldWrite { before, operand: kept, value: false, field: Ghost(**monitor) }
}

} // verus!
