//! The pool: its configuration, its priority levels, and the decisions of its workers.
pub mod owned;
pub mod close;
pub mod followup;
pub mod hands;
pub mod laws;
pub mod layout;
pub mod lifecycle;
pub mod steps;
pub mod worker;

pub use self::owned::OwnedPool;

use std::ops::Deref;

use atomicmonitor::AtomMonitor;
use vstd::prelude::*;

use crate::channel::{BitAssigner, NotEnoughBits};
use crate::moment::{Duration, StdDuration};
use crate::pool::layout::Level;
use crate::pool::lifecycle::SharedLifecycle;
use crate::shared::{SharedCounter, SharedField};

verus! {

/// A statically dispatched type which serves to configure the behavior of a threadpool.
pub trait PoolBehavior: Sized {
    /// The identifier for a channel for this pool.
    type ChannelKey: Copy;

    /// Whether asking for the configuration may take this behavior to `next` and give `config`. A
    /// behavior that does not say gives any.
    open spec fn configured(self, next: Self, config: PoolConfig<Self>) -> bool {
        true
    }

    /// Whether channel `key`, at its turn to claim status bits, may take this behavior to `next`,
    /// and take the bits of `field` from `from` up to, but not including, `until`. `granted` says
    /// whether that was all it wanted. A behavior that does not say claims any.
    open spec fn claimed(
        self,
        next: Self,
        key: Self::ChannelKey,
        field: AtomMonitor<u64>,
        from: nat,
        until: nat,
        granted: bool,
    ) -> bool {
        true
    }

    /// Configuration data, queried once by the pool.
    fn config(&mut self) -> (config: PoolConfig<Self>)
        ensures
            old(self).configured(*final(self), config),
    ;

    /// Let the channel `key` claim its status bits. An assigner only ever moves on over its field, and
    /// never past the end.
    fn assign_channel_bits(&mut self, key: Self::ChannelKey, assigner: &mut BitAssigner) -> (r:
        Result<(), NotEnoughBits>)
        ensures
            old(assigner).index() <= final(assigner).index(),
            old(assigner).index() <= 64 ==> final(assigner).index() <= 64,
            final(assigner).field() == old(assigner).field(),
            *final(final(assigner).index) == *final(old(assigner).index),
            old(self).claimed(
                *final(self),
                key,
                old(assigner).field(),
                old(assigner).index(),
                final(assigner).index(),
                r is Ok,
            ),
    ;
}

/// How a pool prioritizes its levels.
#[derive(Debug)]
pub enum ScheduleAlgorithm {
    /// The pool will always poll for a task from the highest level available.
    HighestFirst,
    /// The pool will alternate between different levels in a loop, allocating a specific duration
    /// of real world time to each.
    RoundRobin(Vec<Duration>),
}

/// Config data produced by the pool behavior to configure the pool.
pub struct PoolConfig<Behavior: PoolBehavior> {
    /// Worker thread count
    pub threads: u32,
    /// How the levels are prioritized
    pub schedule: ScheduleAlgorithm,
    /// Priority levels, from highest to lowest
    pub levels: Vec<PriorityLevel<Behavior>>,
}

/// All the channels in a level
pub struct PriorityLevel<Behavior: PoolBehavior>(pub Vec<ChannelParams<Behavior>>);

/// Part of the pool config data which configured a certain pool-facing channel.
pub struct ChannelParams<Behavior: PoolBehavior> {
    /// The channel index in the pool behavior
    pub key: Behavior::ChannelKey,
    /// Whether to run this channel to completion before closing the pool
    pub complete_on_close: bool,
}

/// What point in the lifecycle of the threadpool this service is in.
#[derive(Copy, Clone, Debug, PartialEq, Eq, Structural)]
pub enum LifecycleState {
    Running,
    Closed,
}

/// Why a pool cannot be made.
#[derive(Copy, Clone, Debug, PartialEq, Eq, Structural)]
pub enum NewPoolError {
    Over64Channels,
    InvalidChannelIndex,
    WrongNumberTimeslices { num_levels: usize, num_timeslices: usize },
    NegativeTimeSlice { index: usize, duration: Duration },
}

/// What every worker of a pool does.
#[derive(Debug)]
pub enum WorkerSchedule {
    /// Work on the highest level that has a task.
    HighestFirst,
    /// Work on each level in turn, on level `i` for the `i`th time slice.
    RoundRobin(Vec<StdDuration>),
}

/// Whether `index` is the first negative time slice.
pub open spec fn first_negative(slices: Seq<Duration>, index: int) -> bool {
    &&& 0 <= index < slices.len()
    &&& slices[index].total() < 0
    &&& forall|i: int| 0 <= i < index ==> (#[trigger] slices[i]).total() >= 0
}

/// Whether `slices` are the same lengths of time as `given`.
pub open spec fn same_lengths(given: Seq<Duration>, slices: Seq<StdDuration>) -> bool {
    &&& slices.len() == given.len()
    &&& forall|i: int|
        0 <= i < given.len() ==> (#[trigger] slices[i]).wf() && slices[i].total() == given[i].total()
}

/// Whether `error` is what is wrong with `schedule` for a pool of `num_levels` levels.
pub open spec fn schedule_fault(
    schedule: ScheduleAlgorithm,
    num_levels: nat,
    error: NewPoolError,
) -> bool {
    match (schedule, error) {
        (
            ScheduleAlgorithm::RoundRobin(slices),
            NewPoolError::WrongNumberTimeslices { num_levels: levels, num_timeslices },
        ) => {
            &&& slices@.len() != num_levels
            &&& levels == num_levels
            &&& num_timeslices == slices@.len()
        },
        (
            ScheduleAlgorithm::RoundRobin(slices),
            NewPoolError::NegativeTimeSlice { index, duration },
        ) => {
            &&& slices@.len() == num_levels
            &&& first_negative(slices@, index as int)
            &&& duration == slices@[index as int]
        },
        _ => false,
    }
}

/// Whether a pool of `num_levels` levels can follow `schedule`.
pub open spec fn schedule_valid(schedule: ScheduleAlgorithm, num_levels: nat) -> bool {
    match schedule {
        ScheduleAlgorithm::HighestFirst => true,
        ScheduleAlgorithm::RoundRobin(slices) => slices@.len() == num_levels && forall|i: int|
            0 <= i < slices@.len() ==> (#[trigger] slices@[i]).total() >= 0,
    }
}

/// Whether workers that do `work` follow `schedule`.
pub open spec fn follows(work: WorkerSchedule, schedule: ScheduleAlgorithm) -> bool {
    match schedule {
        ScheduleAlgorithm::HighestFirst => work == WorkerSchedule::HighestFirst,
        ScheduleAlgorithm::RoundRobin(given) => work matches WorkerSchedule::RoundRobin(slices)
            && same_lengths(given@, slices@),
    }
}

/// Verify the scheduler algorithm's validity, and say what the workers do to follow it.
pub fn plan_schedule(schedule: &ScheduleAlgorithm, num_levels: usize) -> (r: Result<
    WorkerSchedule,
    NewPoolError,
>)
    ensures
        r is Ok <==> schedule_valid(*schedule, num_levels as nat),
        r matches Ok(work) ==> follows(work, *schedule),
        r matches Err(error) ==> schedule_fault(*schedule, num_levels as nat, error),
{
    match schedule {
        ScheduleAlgorithm::HighestFirst => Ok(WorkerSchedule::HighestFirst),
        ScheduleAlgorithm::RoundRobin(time_slices) => {
            if time_slices.len() != num_levels {
                return Err(
                    NewPoolError::WrongNumberTimeslices {
                        num_levels,
                        num_timeslices: time_slices.len(),
                    },
                );
            }
            let mut std_time_slices: Vec<StdDuration> = Vec::new();
            let mut i: usize = 0;
            while i < time_slices.len()
                invariant
                    i <= time_slices.len(),
                    *schedule == ScheduleAlgorithm::RoundRobin(*time_slices),
                    time_slices.len() == num_levels,
                    forall|j: int| 0 <= j < i ==> (#[trigger] time_slices@[j]).total() >= 0,
                    std_time_slices.len() == i,
                    forall|j: int|
                        0 <= j < i ==> (#[trigger] std_time_slices@[j]).wf()
                            && std_time_slices@[j].total() == time_slices@[j].total(),
                decreases time_slices.len() - i,
            {
                match time_slices[i].to_std() {
                    Ok(std_duration) => {
                        std_time_slices.push(std_duration);
                    },
                    Err(_) => {
                        return Err(
                            NewPoolError::NegativeTimeSlice { index: i, duration: time_slices[i] },
                        );
                    },
                }
                i = i + 1;
            }
            Ok(WorkerSchedule::RoundRobin(std_time_slices))
        },
    }
}

/// The shared pool data.
pub struct Pool<Behavior: PoolBehavior> {
    /// The pool behavior
    pub behavior: Behavior,
    /// What point in the lifecycle of the threadpool it is in.
    pub lifecycle_state: SharedLifecycle,
    /// The atomic monitor bitfield for tracking the present status of each channel
    pub present_field: SharedField,
    /// The levels for the normal operation of the threadpool
    pub levels: Vec<Level<Behavior::ChannelKey>>,
    /// The levels pertaining to what is necessary to run at shutdown
    pub levels_shutdown: Vec<Level<Behavior::ChannelKey>>,
    /// The present bitfield mask for all channels which must be completed by shutdown
    pub complete_shutdown_mask: u64,
    /// The counter of externally blocked tasks which are critical for closing
    pub close_counter: SharedCounter,
}

/// Pool can be dereferenced to its behavior, for the purpose of submitting tasks to channels.
impl<Behavior: PoolBehavior> Deref for Pool<Behavior> {
    type Target = Behavior;

    fn deref(&self) -> (behavior: &Behavior)
        ensures
            *behavior == self.behavior,
    {
        &self.behavior
    }
}

} // verus!
