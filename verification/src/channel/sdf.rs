//! The channel that hands out the task with the earliest deadline.
use std::collections::{BTreeMap, VecDeque};

use atomicmonitor::AtomMonitor;
use vstd::prelude::*;

use crate::channel::{BitAssigner, Channel, ExecParam, NotEnoughBits};
use crate::moment::{Duration, Moment};
use crate::ordered;
use crate::shared::ClockReading;
use crate::status::StatusBit;
use crate::task::RunningTask;

verus! {

/// The tasks that `tasks` holds for `deadline`.
pub open spec fn due_at<S>(tasks: Map<i128, Seq<RunningTask<S>>>, deadline: i128) -> Seq<
    RunningTask<S>,
> {
    if tasks.contains_key(deadline) {
        tasks[deadline]
    } else {
        Seq::empty()
    }
}

/// The tasks without the one in front at `deadline`.
pub open spec fn without_front<S>(
    tasks: Map<i128, Seq<RunningTask<S>>>,
    deadline: i128,
) -> Map<i128, Seq<RunningTask<S>>> {
    if tasks[deadline].len() == 1 {
        tasks.remove(deadline)
    } else {
        tasks.insert(deadline, tasks[deadline].drop_first())
    }
}

/// A priority channel where each task corresponds to a deadline, and the task with the earliest
/// deadline will be executed first. Tasks with the same deadline leave in the order in which they
/// came.
///
/// The tasks of one deadline stand in a `VecDeque`. The `smallqueue` crate, which would save the
/// allocation for a single task, needs a version of the `through` crate that the registry does not
/// offer.
pub struct ShortestDeadlineFirst<S> {
    tree: BTreeMap<i128, VecDeque<RunningTask<S>>>,
    bit: StatusBit,
}

impl<S> ShortestDeadlineFirst<S> {
    /// The tasks in the channel, by deadline. Of those with the same deadline, the one that was
    /// submitted first is in front.
    pub closed spec fn tasks(&self) -> Map<i128, Seq<RunningTask<S>>> {
        self.tree@.map_values(|queue: VecDeque<RunningTask<S>>| queue@)
    }

    /// The status bit of the channel.
    pub closed spec fn bit(&self) -> StatusBit {
        self.bit
    }

    /// A deadline is kept only while a task has it, and the status bit shows whether there are any
    /// tasks in the channel.
    pub open spec fn valid(&self) -> bool {
        &&& forall|deadline: i128| #[trigger]
            self.tasks().contains_key(deadline) ==> self.tasks()[deadline].len() > 0
        &&& self.bit().wf()
        &&& self.bit().shows(!self.tasks().is_empty())
    }

    /// Whether `next` has the status bit of this channel, after one more write of it.
    pub open spec fn keeps_bit(self, next: Self) -> bool {
        &&& next.bit().is_active() == self.bit().is_active()
        &&& next.bit().is_active() ==> {
            &&& next.bit().field() == self.bit().field()
            &&& next.bit().mask() == self.bit().mask()
            &&& self.bit().wrote(next.bit(), next.bit().is_shown())
        }
    }

    pub fn new() -> (channel: Self)
        ensures
            channel.wf(),
            channel.tasks() == Map::<i128, Seq<RunningTask<S>>>::empty(),
            !channel.bit().is_active(),
    {
        let channel = ShortestDeadlineFirst { tree: BTreeMap::new(), bit: StatusBit::new() };
        assert(channel.tasks() =~= Map::<i128, Seq<RunningTask<S>>>::empty());
        channel
    }

    /// Submit a future, with the deadline equal to a certain duration after `now`.
    pub fn exec_after_moment(&mut self, future: S, now: Moment, delay: Duration)
        requires
            old(self).wf(),
            Moment::in_range(now.nanos + delay.total()),
        ensures
            final(self).wf(),
            old(self).submitted_param(
                *final(self),
                RunningTask { spawn: future, close_counted: false },
                Moment { nanos: (now.nanos + delay.total()) as i128 },
            ),
    {
        self.exec(future, now.after(delay));
    }

    /// Submit a future, with the deadline equal to a certain duration after the present. Gives the
    /// reading of the clock.
    pub fn exec_after(&mut self, future: S, delay: Duration) -> (now: ClockReading)
        requires
            old(self).wf(),
        ensures
            final(self).wf(),
            old(self).submitted_param(
                *final(self),
                RunningTask { spawn: future, close_counted: false },
                Moment { nanos: (now.shown() + delay.total()) as i128 },
            ),
    {
        let (now, reading) = Moment::now();
        proof {
            use_type_invariant(&delay);
        }
        self.exec_after_moment(future, now, delay);
        reading
    }

    /// The deadline of the task that is next to be handed out, if it has passed when the clock shows
    /// `now`.
    pub fn overdue(&self, now: Moment) -> (deadline: Option<Moment>)
        ensures
            match deadline {
                Some(deadline) => {
                    &&& ordered::is_earliest(self.tasks(), deadline.nanos)
                    &&& deadline.nanos < now.nanos
                },
                None => forall|other: i128| #[trigger]
                    self.tasks().contains_key(other) ==> now.nanos <= other,
            },
    {
        assert(self.tasks().dom() =~= self.tree@.dom());
        match ordered::earliest_key(&self.tree) {
            Some(nanos) => {
                proof {
                    assert(self.tasks().contains_key(nanos));
                    assert forall|other: i128| #[trigger]
                        self.tasks().contains_key(other) implies nanos <= other by {
                        assert(self.tree@.contains_key(other));
                    }
                }
                if nanos < now.nanos {
                    Some(Moment { nanos })
                } else {
                    None
                }
            },
            None => None,
        }
    }
}

impl<S> Channel for ShortestDeadlineFirst<S> {
    type Spawn = S;

    open spec fn wf(&self) -> bool {
        self.valid()
    }

    open spec fn bits_wanted(&self) -> nat {
        1
    }

    open spec fn polled(self, next: Self, task: Option<RunningTask<S>>) -> bool {
        &&& self.keeps_bit(next)
        &&& match task {
            None => self.tasks().is_empty() && next.tasks() == self.tasks(),
            Some(task) => exists|deadline: i128|
                {
                    &&& #[trigger] ordered::is_earliest(self.tasks(), deadline)
                    &&& task == self.tasks()[deadline][0]
                    &&& next.tasks() == without_front(self.tasks(), deadline)
                },
        }
    }

    open spec fn tied(self, next: Self, field: AtomMonitor<u64>, from: nat) -> bool {
        &&& next.tasks() == self.tasks()
        &&& next.bit().is_active()
        &&& next.bit().field() == field
        &&& next.bit().mask() == 1u64 << (from as u64)
        &&& next.bit().writes().len() == 1
    }

    open spec fn refused(self, next: Self, field: AtomMonitor<u64>, from: nat) -> bool {
        next == self
    }

    fn assign_bits(&mut self, assigner: &mut BitAssigner) -> (r: Result<(), NotEnoughBits>) {
        match assigner.assign(&mut self.bit) {
            Ok(()) => {},
            Err(e) => {
                return Err(e);
            },
        }
        self.bit.set(!self.tree.is_empty());
        assert(self.tasks().dom() =~= self.tree@.dom());
        Ok(())
    }

    fn poll(&mut self) -> (task: Option<RunningTask<S>>) {
        let ghost before = self.tasks();
        assert(before.dom() =~= self.tree@.dom());
        let mut elem: Option<RunningTask<S>> = None;
        if let Some(key) = ordered::earliest_key(&self.tree) {
            assert(before.contains_key(key));
            if let Some(mut queue) = self.tree.remove(&key) {
                elem = queue.pop_front();
                let ghost rest = queue@;
                if queue.len() != 0 {
                    self.tree.insert(key, queue);
                }
                proof {
                    assert(rest =~= before[key].drop_first());
                    assert(self.tasks() =~= without_front(before, key));
                    assert forall|other: i128| #[trigger] before.contains_key(other) implies key
                        <= other by {
                        assert(old(self).tree@.contains_key(other));
                    }
                    assert(ordered::is_earliest(before, key));
                }
            }
        }
        self.bit.set(!self.tree.is_empty());
        assert(self.tasks().dom() =~= self.tree@.dom());
        elem
    }
}

impl<S> ExecParam for ShortestDeadlineFirst<S> {
    type Param = Moment;

    open spec fn accepts_param(&self, deadline: Moment) -> bool {
        true
    }

    open spec fn submitted_param(self, next: Self, task: RunningTask<S>, deadline: Moment) -> bool {
        &&& self.keeps_bit(next)
        &&& next.tasks() == self.tasks().insert(
            deadline.nanos,
            due_at(self.tasks(), deadline.nanos).push(task),
        )
    }

    fn submit(&mut self, task: RunningTask<S>, deadline: Moment) {
        let ghost before = self.tasks();
        assert(before.dom() =~= self.tree@.dom());
        let mut queue: VecDeque<RunningTask<S>> = match self.tree.remove(&deadline.nanos) {
            Some(queue) => queue,
            None => VecDeque::new(),
        };
        assert(queue@ =~= due_at(before, deadline.nanos));
        queue.push_back(task);
        self.tree.insert(deadline.nanos, queue);
        self.bit.set(!self.tree.is_empty());
        proof {
            assert(self.tasks() =~= before.insert(
                deadline.nanos,
                due_at(before, deadline.nanos).push(task),
            ));
            assert(self.tasks().contains_key(deadline.nanos));
            assert(self.tasks().dom() =~= self.tree@.dom());
        }
    }
}

} // verus!
