//! Events that are scheduled to occur in the future.
use std::collections::BTreeMap;

use vstd::prelude::*;

use crate::moment::{Duration, Moment, StdDuration};
use crate::ordered;
use crate::shared::ClockReading;

verus! {

/// An event that is scheduled to execute in the future. `N` are tasks to notify, `S` are tasks to
/// submit to an executor.
#[derive(Debug)]
pub enum ScheduledEvent<N, S> {
    Notify(N),
    Submit(S),
    Multiple(Vec<ScheduledEvent<N, S>>),
}

/// One thing that is done when an event executes.
#[derive(Debug)]
pub enum Firing<N, S> {
    Notify(N),
    Submit(S),
}

/// What is done when `event` executes, in order.
pub open spec fn firings<N, S>(event: ScheduledEvent<N, S>) -> Seq<Firing<N, S>>
    decreases event,
{
    match event {
        ScheduledEvent::Notify(task) => seq![Firing::Notify(task)],
        ScheduledEvent::Submit(submit) => seq![Firing::Submit(submit)],
        ScheduledEvent::Multiple(events) => all_firings(events@),
    }
}

/// What is done when `events` execute, in order.
pub open spec fn all_firings<N, S>(events: Seq<ScheduledEvent<N, S>>) -> Seq<Firing<N, S>>
    decreases events,
{
    if events.len() == 0 {
        Seq::empty()
    } else {
        all_firings(events.drop_last()) + firings(events.last())
    }
}

impl<N, S> ScheduledEvent<N, S> {
    /// What is done when this event executes, in order.
    pub fn run(self) -> (done: Vec<Firing<N, S>>)
        ensures
            done@ == firings(self),
    {
        let mut done: Vec<Firing<N, S>> = Vec::new();
        self.run_onto(&mut done);
        done
    }

    /// Add what is done when this event executes to `done`.
    fn run_onto(self, done: &mut Vec<Firing<N, S>>)
        ensures
            final(done)@ == old(done)@ + firings(self),
        decreases self,
    {
        match self {
            ScheduledEvent::Notify(task) => {
                done.push(Firing::Notify(task));
            },
            ScheduledEvent::Submit(submit) => {
                done.push(Firing::Submit(submit));
            },
            ScheduledEvent::Multiple(events) => {
                let ghost all = events@;
                assert(decreases_to!(self => self->Multiple_0));
                assert(decreases_to!(self->Multiple_0 => all));
                for event in it: events
                    invariant
                        it.seq() == all,
                        decreases_to!(self => all),
                        done@ == old(done)@ + all_firings(all.take(it.index())),
                {
                    proof {
                        assert(all.take(it.index() + 1).drop_last() =~= all.take(it.index()));
                        assert(all.take(it.index() + 1).last() == event);
                        assert(decreases_to!(all => all[it.index() as int]));
                    }
                    event.run_onto(done);
                }
                assert(all.take(all.len() as int) =~= all);
            },
        }
    }
}

/// What `plan` does at `time`.
pub open spec fn planned_at<N, S>(plan: Map<i128, Seq<Firing<N, S>>>, time: i128) -> Seq<
    Firing<N, S>,
> {
    if plan.contains_key(time) {
        plan[time]
    } else {
        Seq::empty()
    }
}

/// `plan` with `more` added to what it does at `time`.
pub open spec fn planned<N, S>(
    plan: Map<i128, Seq<Firing<N, S>>>,
    time: i128,
    more: Seq<Firing<N, S>>,
) -> Map<i128, Seq<Firing<N, S>>> {
    plan.insert(time, planned_at(plan, time) + more)
}

/// Whether doing `done` is to do what `plan` has at `time`, and leaves `next` of the plan.
pub open spec fn takes<N, S>(
    plan: Map<i128, Seq<Firing<N, S>>>,
    next: Map<i128, Seq<Firing<N, S>>>,
    time: i128,
    done: Seq<Firing<N, S>>,
) -> bool {
    &&& plan.contains_key(time)
    &&& done == plan[time]
    &&& next == plan.remove(time)
}

/// Whether doing `done` when the clock shows `now` is to do what `plan` has at `time`, the first moment
/// of the plan and not before that moment, and leaves `next` of the plan.
pub open spec fn fires<N, S>(
    plan: Map<i128, Seq<Firing<N, S>>>,
    next: Map<i128, Seq<Firing<N, S>>>,
    now: Moment,
    time: i128,
    done: Seq<Firing<N, S>>,
) -> bool {
    &&& ordered::is_earliest(plan, time)
    &&& time <= now.nanos
    &&& takes(plan, next, time, done)
}

/// Whether doing `done` when the clock shows `now` is to do what `plan` has at its first moment, and not
/// before that moment, and leaves `next` of the plan.
pub open spec fn fires_first<N, S>(
    plan: Map<i128, Seq<Firing<N, S>>>,
    next: Map<i128, Seq<Firing<N, S>>>,
    now: Moment,
    done: Seq<Firing<N, S>>,
) -> bool {
    exists|time: i128| #[trigger] fires(plan, next, now, time, done)
}

/// Whether the thread of a scheduler with `plan` is to wait for at most `delay`, when the clock shows
/// `now`, and `later` as the thread gets to compute how long to wait: until the first moment of the
/// plan, which is `until`.
pub open spec fn sleeps<N, S>(
    plan: Map<i128, Seq<Firing<N, S>>>,
    now: Moment,
    later: Moment,
    until: Moment,
    delay: StdDuration,
) -> bool {
    &&& ordered::is_earliest(plan, until.nanos)
    &&& until.nanos > now.nanos
    &&& delay.wf()
    &&& delay.total() == if until.nanos > later.nanos {
        until.nanos - later.nanos
    } else {
        0
    }
}

/// What the thread of a scheduler does next.
#[derive(Debug)]
pub enum SchedulerStep<N, S> {
    /// Do these things.
    Fire(Vec<Firing<N, S>>),
    /// Wait for at most `delay`. If nothing happens meanwhile, do what is planned at `until`.
    Sleep { until: Moment, delay: StdDuration },
    /// Wait until something is scheduled.
    Wait,
}

/// The events that a thread lets occur in the future.
#[derive(Debug)]
pub struct Scheduler<N, S> {
    tasks: BTreeMap<i128, ScheduledEvent<N, S>>,
}

impl<N, S> Scheduler<N, S> {
    /// What is to be done, by the moment at which it is, in order.
    pub closed spec fn plan(&self) -> Map<i128, Seq<Firing<N, S>>> {
        self.tasks@.map_values(|event: ScheduledEvent<N, S>| firings(event))
    }

    pub fn new() -> (scheduler: Self)
        ensures
            scheduler.plan() == Map::<i128, Seq<Firing<N, S>>>::empty(),
    {
        let scheduler = Scheduler { tasks: BTreeMap::new() };
        assert(scheduler.plan() =~= Map::<i128, Seq<Firing<N, S>>>::empty());
        scheduler
    }

    /// Insert an event to be executed. Safely handles the condition of multiple events scheduled
    /// for the same time: they execute in the order in which they were inserted.
    pub fn insert(&mut self, time: Moment, event: ScheduledEvent<N, S>)
        ensures
            final(self).plan() == planned(old(self).plan(), time.nanos, firings(event)),
    {
        let ghost before = self.plan();
        assert(before.dom() =~= self.tasks@.dom());
        let ghost added = firings(event);
        let to_insert = match self.tasks.remove(&time.nanos) {
            None => {
                assert(planned_at(before, time.nanos) + added =~= added);
                event
            },
            Some(ScheduledEvent::Multiple(vec)) => {
                let mut vec = vec;
                let ghost earlier = vec@;
                vec.push(event);
                assert(vec@.drop_last() =~= earlier);
                ScheduledEvent::Multiple(vec)
            },
            Some(single) => {
                // turn the single scheduled event into a variant containing a vector of both
                let mut vec: Vec<ScheduledEvent<N, S>> = Vec::new();
                vec.push(single);
                vec.push(event);
                proof {
                    assert(vec@.drop_last() =~= seq![single]);
                    assert(seq![single].drop_last() =~= Seq::empty());
                    reveal_with_fuel(all_firings, 2);
                    assert(all_firings(seq![single]) =~= firings(single));
                }
                ScheduledEvent::Multiple(vec)
            },
        };
        assert(firings(to_insert) =~= planned_at(before, time.nanos) + added);
        self.tasks.insert(time.nanos, to_insert);
        assert(self.plan() =~= before.insert(
            time.nanos,
            planned_at(before, time.nanos) + added,
        ));
    }

    /// Take out what is planned at `time`.
    pub fn take(&mut self, time: Moment) -> (done: Option<Vec<Firing<N, S>>>)
        ensures
            match done {
                Some(done) => takes(
                    old(self).plan(),
                    final(self).plan(),
                    time.nanos,
                    done@,
                ),
                None => !old(self).plan().contains_key(time.nanos) && final(self).plan() == old(
                    self,
                ).plan(),
            },
    {
        let ghost before = self.plan();
        assert(before.dom() =~= self.tasks@.dom());
        match self.tasks.remove(&time.nanos) {
            Some(event) => {
                assert(self.plan() =~= before.remove(time.nanos));
                Some(event.run())
            },
            None => {
                assert(self.plan() =~= before);
                None
            },
        }
    }

    /// The moment of the event that is the first to execute.
    pub fn next_time(&self) -> (time: Option<Moment>)
        ensures
            time is None <==> self.plan().is_empty(),
            time matches Some(time) ==> ordered::is_earliest(self.plan(), time.nanos),
    {
        proof {
            assert(self.plan().dom() =~= self.tasks@.dom());
        }
        match ordered::earliest_key(&self.tasks) {
            Some(nanos) => {
                proof {
                    assert(self.plan().contains_key(nanos));
                    assert forall|other: i128| #[trigger]
                        self.plan().contains_key(other) implies nanos <= other by {
                        assert(self.tasks@.contains_key(other));
                    }
                }
                Some(Moment { nanos })
            },
            None => None,
        }
    }

    /// What the thread of the scheduler does next, when the clock shows `now`, and `later` as the
    /// thread gets to compute how long to wait.
    pub fn step(&mut self, now: Moment, later: Moment) -> (step: SchedulerStep<N, S>)
        requires
            forall|time: i128|
                ordered::is_earliest(old(self).plan(), time) && time > now.nanos
                    ==> #[trigger] Duration::in_range(time - later.nanos),
        ensures
            match step {
                SchedulerStep::Fire(done) => fires_first(
                    old(self).plan(),
                    final(self).plan(),
                    now,
                    done@,
                ),
                SchedulerStep::Sleep { until, delay } => {
                    &&& sleeps(old(self).plan(), now, later, until, delay)
                    &&& final(self).plan() == old(self).plan()
                },
                SchedulerStep::Wait => old(self).plan().is_empty() && final(self).plan() == old(
                    self,
                ).plan(),
            },
    {
        match self.next_time() {
            Some(time) => {
                if time.nanos <= now.nanos {
                    match self.take(time) {
                        Some(done) => {
                            assert(fires(
                                old(self).plan(),
                                self.plan(),
                                now,
                                time.nanos,
                                done@,
                            ));
                            return SchedulerStep::Fire(done);
                        },
                        None => {},
                    }
                }
                assert(Duration::in_range(time.nanos - later.nanos));
                let delay = match time.since(later).to_std() {
                    Ok(delay) => delay,
                    Err(_) => StdDuration { secs: 0, nanos: 0 },
                };
                SchedulerStep::Sleep { until: time, delay }
            },
            None => SchedulerStep::Wait,
        }
    }

    /// Run a future in an executor at a moment in the future.
    pub fn run_at(&mut self, moment: Moment, submit: S)
        ensures
            final(self).plan() == planned(
                old(self).plan(),
                moment.nanos,
                seq![Firing::Submit(submit)],
            ),
    {
        self.insert(moment, ScheduledEvent::Submit(submit));
    }

    /// Run a future in an executor after a delay from `now`.
    pub fn run_after_moment(&mut self, now: Moment, delay: Duration, submit: S)
        requires
            Moment::in_range(now.nanos + delay.total()),
        ensures
            ran_after(*old(self), *final(self), now, delay, submit),
    {
        self.run_at(now.after(delay), submit);
    }

    /// Run a future in an executor after a delay. Gives the reading of the clock.
    pub fn run_after(&mut self, delay: Duration, submit: S) -> (now: ClockReading)
        ensures
            ran_after(
                *old(self),
                *final(self),
                Moment { nanos: now.shown() as i128 },
                delay,
                submit,
            ),
    {
        proof {
            use_type_invariant(&delay);
        }
        let (now, reading) = Moment::now();
        self.run_after_moment(now, delay, submit);
        reading
    }
}

/// Whether `next` is `scheduler` with `submit` planned, after what was planned before, at `delay`
/// after `now`.
pub open spec fn ran_after<N, S>(
    scheduler: Scheduler<N, S>,
    next: Scheduler<N, S>,
    now: Moment,
    delay: Duration,
    submit: S,
) -> bool {
    next.plan() == planned(
        scheduler.plan(),
        (now.nanos + delay.total()) as i128,
        seq![Firing::Submit(submit)],
    )
}

/// A future that is scheduled to occur at a moment in the future. `H` is a handle to the scheduler.
#[derive(Debug)]
pub struct FutureMoment<H> {
    scheduler: Option<H>,
    moment: Moment,
}

/// What a future moment does when it is polled.
#[derive(Debug)]
pub enum MomentPoll<H> {
    /// The moment has come.
    Ready,
    /// Have the scheduler notify the current task at `moment`. The future is not ready.
    Register { scheduler: H, moment: Moment },
    /// The future is not ready, and the scheduler will notify.
    Pending,
}

impl<H> FutureMoment<H> {
    /// The moment at which the future occurs.
    pub closed spec fn moment(&self) -> Moment {
        self.moment
    }

    /// The scheduler, until it is asked to notify.
    pub closed spec fn scheduler(&self) -> Option<H> {
        self.scheduler
    }

    /// A future that occurs at the given moment.
    pub fn at(scheduler: H, moment: Moment) -> (future: Self)
        ensures
            future.scheduler() == Some(scheduler),
            future.moment() == moment,
    {
        FutureMoment { scheduler: Some(scheduler), moment }
    }

    /// A future that occurs after the given delay from `now`.
    pub fn after_moment(scheduler: H, now: Moment, delay: Duration) -> (future: Self)
        requires
            Moment::in_range(now.nanos + delay.total()),
        ensures
            future.scheduler() == Some(scheduler),
            future.moment().nanos == now.nanos + delay.total(),
    {
        FutureMoment { scheduler: Some(scheduler), moment: now.after(delay) }
    }

    /// A future that occurs after the given delay, and the reading of the clock.
    pub fn after(scheduler: H, delay: Duration) -> (r: (Self, ClockReading))
        ensures
            r.0.scheduler() == Some(scheduler),
            r.0.moment().nanos == r.1.shown() + delay.total(),
    {
        proof {
            use_type_invariant(&delay);
        }
        let (now, reading) = Moment::now();
        (Self::after_moment(scheduler, now, delay), reading)
    }

    /// Whether polling this future when the clock shows `now` takes it to `next` and gives `step`.
    pub open spec fn polled(self, next: Self, now: Moment, step: MomentPoll<H>) -> bool {
        &&& next.moment() == self.moment()
        &&& step == if now.nanos >= self.moment().nanos {
            MomentPoll::Ready
        } else {
            match self.scheduler() {
                Some(scheduler) => MomentPoll::Register { scheduler, moment: self.moment() },
                None => MomentPoll::Pending,
            }
        }
        &&& next.scheduler() == if now.nanos >= self.moment().nanos {
            self.scheduler()
        } else {
            None
        }
    }

    /// Poll the future, when the clock shows `now`. The scheduler is asked to notify once.
    pub fn poll(&mut self, now: Moment) -> (step: MomentPoll<H>)
        ensures
            old(self).polled(*final(self), now, step),
    {
        if now.nanos >= self.moment.nanos {
            MomentPoll::Ready
        } else {
            match self.scheduler.take() {
                Some(scheduler) => MomentPoll::Register { scheduler, moment: self.moment },
                None => MomentPoll::Pending,
            }
        }
    }
}

/// A stream that produces values at a continuous interval. `H` is a handle to the scheduler.
#[derive(Debug)]
pub struct PeriodicMoments<H> {
    scheduler: H,
    current: Moment,
    period: Duration,
}

/// What a stream of periodic moments does when it is polled.
#[derive(Copy, Clone, Debug, PartialEq, Eq, Structural)]
pub enum PeriodicPoll {
    /// Produce a value.
    Tick,
    /// Have the scheduler notify the current task at `moment`. The stream is not ready.
    Register { moment: Moment },
}

impl<H> PeriodicMoments<H> {
    /// The handle to the scheduler.
    pub closed spec fn scheduler(&self) -> H {
        self.scheduler
    }

    /// The moment of the next value.
    pub closed spec fn current(&self) -> Moment {
        self.current
    }

    /// The time between two values.
    pub closed spec fn period(&self) -> Duration {
        self.period
    }

    /// Whether polling this stream when the clock shows `now` takes it to `next` and gives `step`.
    pub open spec fn polled(self, next: Self, now: Moment, step: PeriodicPoll) -> bool {
        &&& next.scheduler() == self.scheduler()
        &&& next.period() == self.period()
        &&& if self.current().nanos <= now.nanos {
            &&& step == PeriodicPoll::Tick
            &&& next.current().nanos == self.current().nanos + self.period().total()
        } else {
            &&& step == (PeriodicPoll::Register { moment: self.current() })
            &&& next.current() == self.current()
        }
    }

    /// A stream that produces values on a set interval.
    pub fn periodically(scheduler: H, start: Moment, period: Duration) -> (stream: Self)
        ensures
            stream.scheduler() == scheduler,
            stream.current() == start,
            stream.period() == period,
    {
        PeriodicMoments { scheduler, current: start, period }
    }

    /// The handle to the scheduler.
    pub fn handle(&self) -> (scheduler: &H)
        ensures
            *scheduler == self.scheduler(),
    {
        &self.scheduler
    }

    /// Whether the stream can be polled when the clock shows `now`: the moment of the value after the
    /// next must be one that the clock could show, if the next value is due.
    pub fn can_poll(&self, now: Moment) -> (r: bool)
        ensures
            r == (self.current().nanos <= now.nanos ==> Moment::in_range(
                self.current().nanos + self.period().total(),
            )),
    {
        if self.current.nanos > now.nanos {
            return true;
        }
        match self.current.nanos.checked_add(self.period.as_nanos()) {
            Some(nanos) => nanos >= i64::MIN as i128 * 1_000_000_000 && nanos < (i64::MAX as i128
                + 1) * 1_000_000_000,
            None => false,
        }
    }

    /// Poll the stream, when the clock shows `now`.
    pub fn poll(&mut self, now: Moment) -> (step: PeriodicPoll)
        requires
            old(self).current().nanos <= now.nanos ==> Moment::in_range(
                old(self).current().nanos + old(self).period().total(),
            ),
        ensures
            old(self).polled(*final(self), now, step),
    {
        if self.current.nanos <= now.nanos {
            self.current = self.current.after(self.period);
            PeriodicPoll::Tick
        } else {
            PeriodicPoll::Register { moment: self.current }
        }
    }
}

/// Events that are inserted for the same moment all execute, in the order in which they were
/// inserted, after what was planned for that moment before, and nothing else changes.
pub proof fn law_same_moment_in_order<N, S>(
    plan: Map<i128, Seq<Firing<N, S>>>,
    time: i128,
    first: ScheduledEvent<N, S>,
    second: ScheduledEvent<N, S>,
)
    ensures
        ({
            let both = planned(planned(plan, time, firings(first)), time, firings(second));
            &&& both[time] == planned_at(plan, time) + firings(first) + firings(second)
            &&& forall|other: i128|
                other != time ==> both.contains_key(other) == plan.contains_key(other) && (
                #[trigger] planned_at(both, other)) == planned_at(plan, other)
        }),
{
}

/// What is done to a scheduler.
pub enum PlanStep<N, S> {
    /// This is planned at `time`.
    Insert { time: i128, more: Seq<Firing<N, S>> },
    /// What is planned at `time` is done, when the clock shows `now`.
    Fire { now: Moment, time: i128, done: Seq<Firing<N, S>> },
    /// What is planned at `time` is done, after a wait until that moment has timed out.
    Take { time: i128, done: Seq<Firing<N, S>> },
}

/// Whether `plans` are what the plan of a scheduler without events goes through as `steps` are done.
pub open spec fn plan_run<N, S>(
    plans: Seq<Map<i128, Seq<Firing<N, S>>>>,
    steps: Seq<PlanStep<N, S>>,
) -> bool {
    &&& plans.len() == steps.len() + 1
    &&& plans[0] == Map::<i128, Seq<Firing<N, S>>>::empty()
    &&& forall|k: int|
        0 <= k < steps.len() ==> match #[trigger] steps[k] {
            PlanStep::Insert { time, more } => plans[k + 1] == planned(plans[k], time, more),
            PlanStep::Fire { now, time, done } => fires(plans[k], plans[k + 1], now, time, done),
            PlanStep::Take { time, done } => takes(plans[k], plans[k + 1], time, done),
        }
}

/// What the first `k` of `steps` plan at `time`, in order.
pub open spec fn inserted<N, S>(steps: Seq<PlanStep<N, S>>, time: i128, k: int) -> Seq<Firing<N, S>>
    decreases k,
{
    if k <= 0 {
        Seq::empty()
    } else {
        match steps[k - 1] {
            PlanStep::Insert { time: at, more } => if at == time {
                inserted(steps, time, k - 1) + more
            } else {
                inserted(steps, time, k - 1)
            },
            _ => inserted(steps, time, k - 1),
        }
    }
}

/// What the first `k` of `steps` do of what is planned at `time`, in order.
pub open spec fn fired<N, S>(steps: Seq<PlanStep<N, S>>, time: i128, k: int) -> Seq<Firing<N, S>>
    decreases k,
{
    if k <= 0 {
        Seq::empty()
    } else {
        match steps[k - 1] {
            PlanStep::Fire { time: at, done, .. } | PlanStep::Take { time: at, done } => if at
                == time {
                fired(steps, time, k - 1) + done
            } else {
                fired(steps, time, k - 1)
            },
            PlanStep::Insert { .. } => fired(steps, time, k - 1),
        }
    }
}

/// Each event executes once, whether it was due or waited for, and events of the same moment in the
/// order in which they were inserted: what was planned at a moment is what was done of it and what
/// is still planned. When nothing is planned any more, all of it was done, and while nothing is
/// planned, nothing is done.
pub proof fn law_each_event_executes_once<N, S>(
    plans: Seq<Map<i128, Seq<Firing<N, S>>>>,
    steps: Seq<PlanStep<N, S>>,
    time: i128,
    k: int,
)
    requires
        plan_run(plans, steps),
        0 <= k <= steps.len(),
    ensures
        inserted(steps, time, k) == fired(steps, time, k) + planned_at(plans[k], time),
        plans[k].is_empty() ==> fired(steps, time, k) == inserted(steps, time, k),
        k < steps.len() && plans[k].is_empty() ==> steps[k] is Insert,
    decreases k,
{
    if k > 0 {
        law_each_event_executes_once(plans, steps, time, k - 1);
        match steps[k - 1] {
            PlanStep::Insert { time: at, more } => {
                assert(plans[k - 1 + 1] == planned(plans[k - 1], at, more));
                if at == time {
                    assert(inserted(steps, time, k) =~= fired(steps, time, k) + planned_at(
                        plans[k],
                        time,
                    ));
                }
            },
            PlanStep::Fire { time: at, done, .. } | PlanStep::Take { time: at, done } => {
                assert(takes(plans[k - 1], plans[k - 1 + 1], at, done));
                if at == time {
                    assert(inserted(steps, time, k) =~= fired(steps, time, k) + planned_at(
                        plans[k],
                        time,
                    ));
                }
            },
        }
    } else {
        assert(inserted(steps, time, 0) =~= fired(steps, time, 0) + planned_at(plans[0], time));
    }
    if plans[k].is_empty() {
        assert(fired(steps, time, k) + planned_at(plans[k], time) =~= fired(steps, time, k));
        if k < steps.len() {
            match steps[k] {
                PlanStep::Fire { time: at, done, .. } | PlanStep::Take { time: at, done } => {
                    assert(takes(plans[k], plans[k + 1], at, done));
                    assert(plans[k].contains_key(at));
                },
                PlanStep::Insert { .. } => {},
            }
        }
    }
}

/// Whether `step` does what `plan` has at its first moment. What is taken after a wait is at the first
/// moment unless an earlier one was planned meanwhile.
pub open spec fn does_first<N, S>(
    plan: Map<i128, Seq<Firing<N, S>>>,
    step: PlanStep<N, S>,
) -> bool {
    match step {
        PlanStep::Insert { .. } => false,
        PlanStep::Fire { .. } => true,
        PlanStep::Take { time, .. } => ordered::is_earliest(plan, time),
    }
}

/// The moment that `step` is about.
pub open spec fn time_of<N, S>(step: PlanStep<N, S>) -> i128 {
    match step {
        PlanStep::Insert { time, .. } => time,
        PlanStep::Fire { time, .. } => time,
        PlanStep::Take { time, .. } => time,
    }
}

/// No event that is due executes before its moment, and events execute in order of time, whatever the
/// order in which they were inserted: of two that were both planned when the first of them executed,
/// and with none inserted in between, the later one to execute has the later moment.
pub proof fn law_events_execute_in_order_of_time<N, S>(
    plans: Seq<Map<i128, Seq<Firing<N, S>>>>,
    steps: Seq<PlanStep<N, S>>,
    j: int,
    k: int,
)
    requires
        plan_run(plans, steps),
        0 <= j < k < steps.len(),
        forall|i: int| j <= i <= k ==> does_first(plans[i], #[trigger] steps[i]),
    ensures
        steps[j] matches PlanStep::Fire { now, time, .. } ==> time <= now.nanos,
        steps[k] matches PlanStep::Fire { now, time, .. } ==> time <= now.nanos,
        time_of(steps[j]) < time_of(steps[k]),
{
    assert(does_first(plans[j], steps[j]));
    assert(does_first(plans[k], steps[k]));
    lemma_rest_is_later(plans, steps, j, k);
    assert(plans[k].contains_key(time_of(steps[k])));
}

/// After an event executed, and until another is inserted, all that is planned is later.
proof fn lemma_rest_is_later<N, S>(
    plans: Seq<Map<i128, Seq<Firing<N, S>>>>,
    steps: Seq<PlanStep<N, S>>,
    j: int,
    k: int,
)
    requires
        plan_run(plans, steps),
        0 <= j < k <= steps.len(),
        forall|i: int| j <= i < k ==> does_first(plans[i], #[trigger] steps[i]),
    ensures
        forall|other: i128| #[trigger]
            plans[k].contains_key(other) ==> time_of(steps[j]) < other,
    decreases k,
{
    assert(does_first(plans[k - 1], steps[k - 1]));
    let time = time_of(steps[k - 1]);
    assert(ordered::is_earliest(plans[k - 1], time));
    assert(plans[k - 1 + 1] == plans[k - 1].remove(time));
    assert forall|other: i128| #[trigger] plans[k].contains_key(other) implies time_of(steps[j])
        < other by {
        assert(plans[k - 1].contains_key(other));
        if j < k - 1 {
            lemma_rest_is_later(plans, steps, j, k - 1);
        }
    }
}

/// No event that was waited for executes before its moment: a wait that ran for as long as the
/// scheduler says ends when the event is due. To take the event then, out of a plan that did not
/// change, is to do what is due.
pub proof fn law_timed_out_wait_ends_when_due<N, S>(
    plan: Map<i128, Seq<Firing<N, S>>>,
    next: Map<i128, Seq<Firing<N, S>>>,
    now: Moment,
    later: Moment,
    until: Moment,
    delay: StdDuration,
    end: Moment,
    done: Seq<Firing<N, S>>,
)
    requires
        sleeps(plan, now, later, until, delay),
        end.nanos >= later.nanos + delay.total(),
    ensures
        until.nanos <= end.nanos,
        takes(plan, next, until.nanos, done) <==> fires(plan, next, end, until.nanos, done),
{
}

/// How many values the first `k` polls of a stream produced.
pub open spec fn ticks(steps: Seq<PeriodicPoll>, k: int) -> int
    decreases k,
{
    if k <= 0 {
        0
    } else if steps[k - 1] == PeriodicPoll::Tick {
        ticks(steps, k - 1) + 1
    } else {
        ticks(steps, k - 1)
    }
}

/// A periodic stream produces its value number `n`, counted from zero, no sooner than `n` periods
/// after its start: after `n` values it waits for the moment that is `n` periods after the start.
pub proof fn law_values_come_a_period_apart<H>(
    states: Seq<PeriodicMoments<H>>,
    nows: Seq<Moment>,
    steps: Seq<PeriodicPoll>,
    k: int,
)
    requires
        states.len() == steps.len() + 1,
        nows.len() == steps.len(),
        forall|j: int|
            0 <= j < steps.len() ==> (#[trigger] states[j]).polled(
                states[j + 1],
                nows[j],
                steps[j],
            ),
        0 <= k <= steps.len(),
    ensures
        states[k].period() == states[0].period(),
        states[k].current().nanos == states[0].current().nanos + ticks(steps, k)
            * states[0].period().total(),
        k < steps.len() && steps[k] == PeriodicPoll::Tick ==> nows[k].nanos
            >= states[0].current().nanos + ticks(steps, k) * states[0].period().total(),
    decreases k,
{
    let period = states[0].period().total();
    if k > 0 {
        law_values_come_a_period_apart(states, nows, steps, k - 1);
        assert(states[k - 1].polled(states[k - 1 + 1], nows[k - 1], steps[k - 1]));
        let n = ticks(steps, k - 1);
        assert((n + 1) * period == n * period + period) by (nonlinear_arith);
    } else {
        assert(0 * period == 0) by (nonlinear_arith);
    }
    if k < steps.len() {
        assert(states[k].polled(states[k + 1], nows[k], steps[k]));
    }
}

/// A value that is due is produced, however late the stream is: when the clock shows `n` periods after
/// the start or later, where `n` values were produced so far, the poll produces one. A poll has the
/// scheduler notify only while that moment lies in the future, and then at that very moment.
pub proof fn law_due_value_is_produced<H>(
    states: Seq<PeriodicMoments<H>>,
    nows: Seq<Moment>,
    steps: Seq<PeriodicPoll>,
    k: int,
)
    requires
        states.len() == steps.len() + 1,
        nows.len() == steps.len(),
        forall|j: int|
            0 <= j < steps.len() ==> (#[trigger] states[j]).polled(
                states[j + 1],
                nows[j],
                steps[j],
            ),
        0 <= k < steps.len(),
    ensures
        ({
            let due = states[0].current().nanos + ticks(steps, k) * states[0].period().total();
            &&& nows[k].nanos >= due <==> steps[k] == PeriodicPoll::Tick
            &&& steps[k] matches PeriodicPoll::Register { moment } ==> moment.nanos == due
                && nows[k].nanos < due
        }),
        states[k + 1].scheduler() == states[0].scheduler(),
    decreases k,
{
    law_values_come_a_period_apart(states, nows, steps, k);
    assert(states[k].polled(states[k + 1], nows[k], steps[k]));
    if k > 0 {
        law_due_value_is_produced(states, nows, steps, k - 1);
    }
}

/// A future moment is ready at every poll from its moment on, and at none before. The scheduler is asked
/// to notify at that moment by the first poll before it, and by no other.
pub proof fn law_moment_is_ready_when_it_has_come<H>(
    states: Seq<FutureMoment<H>>,
    nows: Seq<Moment>,
    steps: Seq<MomentPoll<H>>,
    scheduler: H,
    k: int,
)
    requires
        states.len() == steps.len() + 1,
        nows.len() == steps.len(),
        states[0].scheduler() == Some(scheduler),
        forall|j: int|
            0 <= j < steps.len() ==> (#[trigger] states[j]).polled(
                states[j + 1],
                nows[j],
                steps[j],
            ),
        0 <= k < steps.len(),
    ensures
        ({
            let moment = states[0].moment();
            let first = forall|j: int| 0 <= j < k ==> (#[trigger] nows[j]).nanos >= moment.nanos;
            &&& nows[k].nanos >= moment.nanos ==> steps[k] is Ready
            &&& nows[k].nanos < moment.nanos && first ==> steps[k] == (MomentPoll::Register {
                scheduler,
                moment,
            })
            &&& nows[k].nanos < moment.nanos && !first ==> steps[k] is Pending
        }),
{
    lemma_registers_once(states, nows, steps, scheduler, k);
    assert(states[k].polled(states[k + 1], nows[k], steps[k]));
}

proof fn lemma_registers_once<H>(
    states: Seq<FutureMoment<H>>,
    nows: Seq<Moment>,
    steps: Seq<MomentPoll<H>>,
    scheduler: H,
    k: int,
)
    requires
        states.len() == steps.len() + 1,
        nows.len() == steps.len(),
        states[0].scheduler() == Some(scheduler),
        forall|j: int|
            0 <= j < steps.len() ==> (#[trigger] states[j]).polled(
                states[j + 1],
                nows[j],
                steps[j],
            ),
        0 <= k <= steps.len(),
    ensures
        states[k].moment() == states[0].moment(),
        (forall|j: int| 0 <= j < k ==> (#[trigger] nows[j]).nanos >= states[0].moment().nanos)
            ==> states[k].scheduler() == Some(scheduler),
        (exists|j: int| 0 <= j < k && (#[trigger] nows[j]).nanos < states[0].moment().nanos)
            ==> states[k].scheduler() is None,
    decreases k,
{
    if k > 0 {
        lemma_registers_once(states, nows, steps, scheduler, k - 1);
        assert(states[k - 1].polled(states[k - 1 + 1], nows[k - 1], steps[k - 1]));
        if exists|j: int| 0 <= j < k && (#[trigger] nows[j]).nanos < states[0].moment().nanos {
            let j = choose|j: int|
                0 <= j < k && (#[trigger] nows[j]).nanos < states[0].moment().nanos;
            if j < k - 1 {
                assert(0 <= j < k - 1 && nows[j].nanos < states[0].moment().nanos);
            }
        }
    }
}

/// The thread of a scheduler waits exactly as long as needed: at the moment `later`, a wait of as many
/// seconds and nanoseconds as it says ends at the first planned moment, or at once if that has passed
/// meanwhile. It waits only while nothing that is planned is due, and for what is planned first.
pub proof fn law_wait_ends_at_first_planned_moment<N, S>(
    plan: Map<i128, Seq<Firing<N, S>>>,
    now: Moment,
    later: Moment,
    until: Moment,
    delay: StdDuration,
)
    requires
        sleeps(plan, now, later, until, delay),
    ensures
        plan.contains_key(until.nanos),
        forall|time: i128| #[trigger]
            plan.contains_key(time) ==> until.nanos <= time && now.nanos < time,
        delay.nanos < 1_000_000_000,
        later.nanos <= until.nanos ==> later.nanos + delay.secs * 1_000_000_000 + delay.nanos
            == until.nanos,
        later.nanos > until.nanos ==> delay.secs == 0 && delay.nanos == 0,
{
}

/// What is due is done: where something is planned at a moment that the clock has reached, the thread
/// of a scheduler does not wait for a planned moment, and what it does instead is all that was planned
/// first, which is due, and stays planned no more. The rest of the plan is as it was.
pub proof fn law_due_event_is_done<N, S>(
    plan: Map<i128, Seq<Firing<N, S>>>,
    next: Map<i128, Seq<Firing<N, S>>>,
    now: Moment,
    later: Moment,
    until: Moment,
    delay: StdDuration,
    done: Seq<Firing<N, S>>,
    due: i128,
)
    requires
        plan.contains_key(due),
        due <= now.nanos,
    ensures
        !sleeps(plan, now, later, until, delay),
        fires_first(plan, next, now, done) ==> exists|time: i128|
            {
                &&& #[trigger] plan.contains_key(time)
                &&& time <= due
                &&& done == plan[time]
                &&& !next.contains_key(time)
                &&& forall|other: i128|
                    other != time ==> (#[trigger] next.contains_key(other) <==> plan.contains_key(
                        other,
                    )) && (plan.contains_key(other) ==> next[other] == plan[other])
            },
{
    if fires_first(plan, next, now, done) {
        let time = choose|time: i128| #[trigger] fires(plan, next, now, time, done);
        assert(plan.contains_key(time));
    }
}

/// To take out what is planned at a moment gives all of it, and leaves nothing of it and all of the rest.
pub proof fn law_taken_event_is_gone<N, S>(
    plan: Map<i128, Seq<Firing<N, S>>>,
    next: Map<i128, Seq<Firing<N, S>>>,
    time: i128,
    done: Seq<Firing<N, S>>,
)
    requires
        takes(plan, next, time, done),
    ensures
        plan.contains_key(time),
        done == plan[time],
        !next.contains_key(time),
        forall|other: i128|
            other != time ==> (#[trigger] next.contains_key(other) <==> plan.contains_key(other)) && (
            plan.contains_key(other) ==> next[other] == plan[other]),
{
}

/// What is planned after a delay is planned at the moment that is that long after the present, after all
/// that was planned for it before, and nothing else changes.
pub proof fn law_delayed_event_is_due_after_delay<N, S>(
    scheduler: Scheduler<N, S>,
    next: Scheduler<N, S>,
    now: Moment,
    delay: Duration,
    submit: S,
    due: i128,
)
    requires
        ran_after(scheduler, next, now, delay, submit),
        due == now.nanos + delay.total(),
    ensures
        next.plan().contains_key(due),
        next.plan()[due].len() > 0,
        next.plan()[due].last() == Firing::<N, S>::Submit(submit),
        scheduler.plan().contains_key(due) ==> next.plan()[due].drop_last() == scheduler.plan()[due],
        !scheduler.plan().contains_key(due) ==> next.plan()[due].len() == 1,
        forall|other: i128|
            other != due ==> (#[trigger] next.plan().contains_key(other)
                <==> scheduler.plan().contains_key(other)) && (scheduler.plan().contains_key(other)
                ==> next.plan()[other] == scheduler.plan()[other]),
{
    let before = planned_at(scheduler.plan(), due);
    assert(before.push(Firing::Submit(submit)) =~= before + seq![Firing::Submit(submit)]);
    assert(next.plan()[due].drop_last() =~= before);
}

/// An event that notifies or submits does just that when it executes, and several events do what each of
/// them does, one after the other.
pub proof fn law_event_does_each_of_its_parts<N, S>(
    task: N,
    submit: S,
    events: Vec<ScheduledEvent<N, S>>,
    k: int,
)
    requires
        0 <= k <= events@.len(),
    ensures
        firings(ScheduledEvent::<N, S>::Notify(task)) == seq![Firing::<N, S>::Notify(task)],
        firings(ScheduledEvent::<N, S>::Submit(submit)) == seq![Firing::<N, S>::Submit(submit)],
        events@.len() == 0 ==> firings(ScheduledEvent::Multiple(events)).len() == 0,
        firings(ScheduledEvent::Multiple(events)) == all_firings(events@.take(k)) + all_firings(
            events@.skip(k),
        ),
        events@.len() == 1 ==> firings(ScheduledEvent::Multiple(events)) == firings(events@[0]),
{
    lemma_firings_add(events@.take(k), events@.skip(k));
    assert(events@.take(k) + events@.skip(k) =~= events@);
    if events@.len() == 1 {
        assert(events@.drop_last() =~= Seq::<ScheduledEvent<N, S>>::empty());
        assert(all_firings(events@.drop_last()) =~= Seq::<Firing<N, S>>::empty());
        assert(firings(ScheduledEvent::Multiple(events)) =~= firings(events@[0]));
    }
}

proof fn lemma_firings_add<N, S>(a: Seq<ScheduledEvent<N, S>>, b: Seq<ScheduledEvent<N, S>>)
    ensures
        all_firings(a + b) == all_firings(a) + all_firings(b),
    decreases b.len(),
{
    if b.len() == 0 {
        assert(a + b =~= a);
        assert(all_firings(a) + all_firings(b) =~= all_firings(a));
    } else {
        lemma_firings_add(a, b.drop_last());
        assert((a + b).drop_last() =~= a + b.drop_last());
        assert(all_firings(a + b) =~= all_firings(a) + all_firings(b));
    }
}

} // verus!
