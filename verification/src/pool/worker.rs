//! What a worker thread does next, given what it sees of the pool.
pub mod laws;

use vstd::prelude::*;

use crate::bits;
use crate::moment::StdDuration;
use crate::pool::layout::Level;
use crate::pool::LifecycleState;

verus! {

/// Whether level `l` is the highest of `levels` that has a bit in `field`.
pub open spec fn highest_present<Key>(levels: Seq<Level<Key>>, field: u64, l: int) -> bool {
    &&& 0 <= l < levels.len()
    &&& bits::meets(field, levels[l].mask)
    &&& forall|k: int| 0 <= k < l ==> !bits::meets(field, (#[trigger] levels[k]).mask)
}

/// Whether no level of `levels` has a bit in `field`.
pub open spec fn none_present<Key>(levels: Seq<Level<Key>>, field: u64) -> bool {
    forall|k: int| 0 <= k < levels.len() ==> !bits::meets(field, (#[trigger] levels[k]).mask)
}

/// Whether every level's mask holds exactly the bits of its channels.
pub open spec fn levels_wf<Key: Copy>(levels: Seq<Level<Key>>) -> bool {
    forall|l: int| 0 <= l < levels.len() ==> (#[trigger] levels[l]).wf()
}

/// Whether `level` is a level of `levels`, and has a channel to poll.
pub open spec fn pollable<Key>(levels: Seq<Level<Key>>, level: usize) -> bool {
    level < levels.len() && levels[level as int].channels@.len() > 0
}

/// Find the highest level with a task.
pub fn highest_level<Key>(levels: &Vec<Level<Key>>, field: u64) -> (found: Option<usize>)
    ensures
        found matches Some(l) ==> highest_present(levels@, field, l as int),
        found is None <==> none_present(levels@, field),
{
    let mut l: usize = 0;
    while l < levels.len()
        invariant
            l <= levels.len(),
            forall|k: int| 0 <= k < l ==> !bits::meets(field, (#[trigger] levels@[k]).mask),
        decreases levels.len() - l,
    {
        if bits::any_present(field, levels[l].mask) {
            return Some(l);
        }
        l = l + 1;
    }
    None
}

/// A level that has a bit in some field has a channel.
pub proof fn lemma_present_has_channel<Key: Copy>(level: Level<Key>, field: u64)
    requires
        level.wf(),
        bits::meets(field, level.mask),
    ensures
        level.channels@.len() > 0,
{
    let i = choose|i: int| #[trigger] bits::has_bit(field, i) && bits::has_bit(level.mask, i);
    assert(bits::has_bit(level.mask, i));
}

/// Whether a worker that waits for something to do goes on when it sees `field` and `lifecycle`.
pub open spec fn is_woken(field: u64, lifecycle: LifecycleState) -> bool {
    field != 0 || lifecycle != LifecycleState::Running
}

/// Whether a worker that waits for something to do goes on: there is a task to run or the pool is
/// closing.
pub fn wakes(field: u64, lifecycle: LifecycleState) -> (r: bool)
    ensures
        r == is_woken(field, lifecycle),
{
    field != 0x0 || lifecycle != LifecycleState::Running
}

/// Where a worker stands that always works on the highest level that has a task.
#[derive(Copy, Clone, Debug, PartialEq, Eq, Structural)]
pub enum HighestFirst {
    /// Look at the lifecycle, before another pass.
    Start,
    /// Wait until there is a task to run or the pool is closing, then look at the field.
    Await,
    /// Draw a ticket for the level, and poll the channel that it leads to.
    Find { level: usize },
    /// The channel had no task. Look at the field and the lifecycle.
    Missed { level: usize },
    /// Run the close procedure.
    Close,
}

impl HighestFirst {
    /// A level that is worked on has a channel to poll.
    pub open spec fn valid<Key>(self, levels: Seq<Level<Key>>) -> bool {
        match self {
            HighestFirst::Find { level } | HighestFirst::Missed { level } => pollable(
                levels,
                level,
            ),
            _ => true,
        }
    }

    /// Whether a worker that stands here goes on to `next` when it sees `field` and `lifecycle`.
    pub open spec fn leads_to<Key>(
        self,
        levels: Seq<Level<Key>>,
        field: u64,
        lifecycle: LifecycleState,
        next: Self,
    ) -> bool {
        match self {
            HighestFirst::Start => next == if lifecycle == LifecycleState::Running {
                HighestFirst::Await
            } else {
                HighestFirst::Close
            },
            HighestFirst::Await => match next {
                HighestFirst::Find { level } => highest_present(levels, field, level as int),
                HighestFirst::Start => none_present(levels, field),
                _ => false,
            },
            HighestFirst::Missed { level } => next == if !bits::meets(
                field,
                levels[level as int].mask,
            ) {
                HighestFirst::Start
            } else if lifecycle != LifecycleState::Running {
                HighestFirst::Close
            } else {
                HighestFirst::Find { level }
            },
            HighestFirst::Find { .. } | HighestFirst::Close => next == self,
        }
    }

    /// Go on, having seen `field` and `lifecycle`.
    pub fn observe<Key: Copy>(
        self,
        levels: &Vec<Level<Key>>,
        field: u64,
        lifecycle: LifecycleState,
    ) -> (next: Self)
        requires
            levels_wf(levels@),
            self.valid(levels@),
        ensures
            self.leads_to(levels@, field, lifecycle, next),
            next.valid(levels@),
    {
        match self {
            HighestFirst::Start => if lifecycle == LifecycleState::Running {
                HighestFirst::Await
            } else {
                HighestFirst::Close
            },
            HighestFirst::Await => match highest_level(levels, field) {
                Some(level) => {
                    proof {
                        lemma_present_has_channel(levels@[level as int], field);
                    }
                    HighestFirst::Find { level }
                },
                None => HighestFirst::Start,
            },
            HighestFirst::Missed { level } => if !bits::any_present(field, levels[level].mask) {
                // the whole level is empty: skip this pass
                HighestFirst::Start
            } else if lifecycle != LifecycleState::Running {
                HighestFirst::Close
            } else {
                HighestFirst::Find { level }
            },
            HighestFirst::Find { level } => HighestFirst::Find { level },
            HighestFirst::Close => HighestFirst::Close,
        }
    }

    /// Where a worker that stands here goes on to when it has polled a channel, and run the task if one
    /// was `found`.
    pub open spec fn after_poll(self, found: bool) -> Self {
        match self {
            HighestFirst::Find { level } => if found {
                HighestFirst::Start
            } else {
                HighestFirst::Missed { level }
            },
            _ => self,
        }
    }

    /// Go on, having polled a channel, and run the task if one was `found`.
    pub fn polled(self, found: bool) -> (next: Self)
        ensures
            next == self.after_poll(found),
    {
        match self {
            HighestFirst::Find { level } => if found {
                HighestFirst::Start
            } else {
                HighestFirst::Missed { level }
            },
            _ => self,
        }
    }
}

/// Where a worker stands that works on each level in turn, for a time slice each.
#[derive(Copy, Clone, Debug, PartialEq, Eq, Structural)]
pub enum RoundRobin {
    /// Look at the lifecycle, before another round.
    Start,
    /// Wait until there is a task to run or the pool is closing.
    Await,
    /// Start the timer of the level.
    Enter { level: usize },
    /// Look at the field, the timer and the lifecycle.
    Check { level: usize },
    /// Wait until any channel has contents, or the timer runs out, then look again.
    Rest { level: usize },
    /// Draw a ticket for the level, and poll the channel that it leads to.
    Find { level: usize },
    /// The channel had no task. Look at the field and the lifecycle.
    Missed { level: usize },
    /// Run the close procedure.
    Close,
}

/// Whether a timer that shows `elapsed` has run out after `slice`.
pub fn expired(elapsed: StdDuration, slice: StdDuration) -> (r: bool)
    ensures
        r == (elapsed.total() >= slice.total()),
{
    elapsed.as_nanos() >= slice.as_nanos()
}

/// The nanoseconds that are left of `slice` when the timer shows `elapsed`.
pub fn remaining(slice: StdDuration, elapsed: StdDuration) -> (nanos: i128)
    ensures
        nanos == slice.total() - elapsed.total(),
{
    slice.as_nanos() - elapsed.as_nanos()
}

impl RoundRobin {
    /// The round goes on with the level after `level`, or ends.
    pub open spec fn after_level(level: usize, count: nat) -> Self {
        if level + 1 < count {
            RoundRobin::Enter { level: (level + 1) as usize }
        } else {
            RoundRobin::Start
        }
    }

    /// A level that is worked on is a level of the pool, and a level that is polled has a channel.
    pub open spec fn valid<Key>(self, levels: Seq<Level<Key>>) -> bool {
        match self {
            RoundRobin::Enter { level }
            | RoundRobin::Check { level }
            | RoundRobin::Rest { level } => level < levels.len(),
            RoundRobin::Find { level } | RoundRobin::Missed { level } => pollable(levels, level),
            _ => true,
        }
    }

    /// Where a worker that stands here goes on to when it sees `field`, `lifecycle`, and `elapsed`
    /// on the timer.
    pub open spec fn next<Key>(
        self,
        levels: Seq<Level<Key>>,
        slices: Seq<StdDuration>,
        field: u64,
        lifecycle: LifecycleState,
        elapsed: StdDuration,
    ) -> Self {
        match self {
            RoundRobin::Start => if lifecycle == LifecycleState::Running {
                RoundRobin::Await
            } else {
                RoundRobin::Close
            },
            RoundRobin::Await => if levels.len() > 0 {
                RoundRobin::Enter { level: 0 }
            } else {
                RoundRobin::Start
            },
            RoundRobin::Enter { level } => RoundRobin::Check { level },
            RoundRobin::Check { level } => if !bits::meets(field, levels[level as int].mask)
                || elapsed.total() >= slices[level as int].total() || lifecycle
                != LifecycleState::Running {
                Self::after_level(level, levels.len())
            } else {
                RoundRobin::Rest { level }
            },
            RoundRobin::Rest { level } => if lifecycle != LifecycleState::Running {
                RoundRobin::Close
            } else if elapsed.total() >= slices[level as int].total() || !bits::meets(
                field,
                levels[level as int].mask,
            ) {
                Self::after_level(level, levels.len())
            } else {
                RoundRobin::Find { level }
            },
            RoundRobin::Missed { level } => if !bits::meets(field, levels[level as int].mask) {
                Self::after_level(level, levels.len())
            } else if lifecycle != LifecycleState::Running {
                RoundRobin::Close
            } else {
                RoundRobin::Find { level }
            },
            RoundRobin::Find { .. } | RoundRobin::Close => self,
        }
    }

    /// Go on, having seen `field`, `lifecycle`, and `elapsed` on the timer.
    pub fn observe<Key: Copy>(
        self,
        levels: &Vec<Level<Key>>,
        slices: &Vec<StdDuration>,
        field: u64,
        lifecycle: LifecycleState,
        elapsed: StdDuration,
    ) -> (next: Self)
        requires
            levels_wf(levels@),
            slices@.len() == levels@.len(),
            self.valid(levels@),
        ensures
            next == self.next(levels@, slices@, field, lifecycle, elapsed),
            next.valid(levels@),
    {
        match self {
            RoundRobin::Start => if lifecycle == LifecycleState::Running {
                RoundRobin::Await
            } else {
                RoundRobin::Close
            },
            RoundRobin::Await => if levels.len() > 0 {
                RoundRobin::Enter { level: 0 }
            } else {
                RoundRobin::Start
            },
            RoundRobin::Enter { level } => RoundRobin::Check { level },
            RoundRobin::Check { level } => if !bits::any_present(field, levels[level].mask)
                || expired(elapsed, slices[level]) || lifecycle != LifecycleState::Running {
                Self::leave(level, levels.len())
            } else {
                RoundRobin::Rest { level }
            },
            RoundRobin::Rest { level } => if lifecycle != LifecycleState::Running {
                RoundRobin::Close
            } else if expired(elapsed, slices[level]) || !bits::any_present(
                field,
                levels[level].mask,
            ) {
                Self::leave(level, levels.len())
            } else {
                proof {
                    lemma_present_has_channel(levels@[level as int], field);
                }
                RoundRobin::Find { level }
            },
            RoundRobin::Missed { level } => if !bits::any_present(field, levels[level].mask) {
                // the whole level is empty: go on to the next
                Self::leave(level, levels.len())
            } else if lifecycle != LifecycleState::Running {
                RoundRobin::Close
            } else {
                RoundRobin::Find { level }
            },
            RoundRobin::Find { level } => RoundRobin::Find { level },
            RoundRobin::Close => RoundRobin::Close,
        }
    }

    /// Go on with the level after `level`, or end the round.
    fn leave(level: usize, count: usize) -> (next: Self)
        requires
            level < count,
        ensures
            next == Self::after_level(level, count as nat),
    {
        if level + 1 < count {
            RoundRobin::Enter { level: level + 1 }
        } else {
            RoundRobin::Start
        }
    }

    /// Where a worker that stands here goes on to when it has polled a channel, and run the task if one
    /// was `found`.
    pub open spec fn after_poll(self, found: bool) -> Self {
        match self {
            RoundRobin::Find { level } => if found {
                RoundRobin::Check { level }
            } else {
                RoundRobin::Missed { level }
            },
            _ => self,
        }
    }

    /// Go on, having polled a channel, and run the task if one was `found`.
    pub fn polled(self, found: bool) -> (next: Self)
        ensures
            next == self.after_poll(found),
    {
        match self {
            RoundRobin::Find { level } => if found {
                RoundRobin::Check { level }
            } else {
                RoundRobin::Missed { level }
            },
            _ => self,
        }
    }
}

} // verus!
