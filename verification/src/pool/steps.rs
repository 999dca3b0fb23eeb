//! What a worker does to the pool that it shares with the other threads.
use stopwatch::Stopwatch;
use vstd::prelude::*;

use crate::bits;
use crate::moment::StdDuration;
use crate::pool::close::{close_wakes, Closing};
use crate::pool::followup;
use crate::pool::followup::{AfterPoll, AfterYield};
use crate::pool::hands::Hands;
use crate::pool::layout::{ChannelIdentifier, Turn};
use crate::pool::lifecycle::{LifecycleExchange, LifecycleHandle};
use crate::pool::worker;
use crate::pool::worker::{remaining, wakes, HighestFirst, RoundRobin};
use crate::pool::{LifecycleState, Pool, PoolBehavior};
use crate::shared::{
    count_down, count_up, read_timer, start_timer, CellReading, CountStep, MonitorReading, Notice,
    TimerReading, TimerStart,
};
use crate::task::RunningTask;

verus! {

/// A worker that works on each level in turn, with the timer of the level it works on.
pub struct RobinWorker {
    state: RoundRobin,
    timer: Stopwatch,
    started: TimerStart,
}

impl RobinWorker {
    /// Where the worker stands.
    pub closed spec fn at(&self) -> RoundRobin {
        self.state
    }

    /// The timer of the level that the worker works on.
    pub closed spec fn timer(&self) -> Stopwatch {
        self.timer
    }

    /// How the first timer of the worker started.
    pub closed spec fn started(&self) -> TimerStart {
        self.started
    }

    /// A worker before its first round. Its timer runs from now on, until the worker enters a level.
    pub fn new() -> (worker: Self)
        ensures
            worker.at() == RoundRobin::Start,
            worker.started().timer() == worker.timer(),
    {
        let (timer, started) = start_timer();
        RobinWorker { state: RoundRobin::Start, timer, started }
    }

    /// Where the worker stands.
    pub fn state(&self) -> (state: RoundRobin)
        ensures
            state == self.at(),
    {
        self.state
    }

    /// What is left of the time slice of `level`.
    pub fn time_left(&self, slices: &Vec<StdDuration>, level: usize) -> (left: TimeLeft)
        requires
            level < slices@.len(),
        ensures
            left.elapsed.timer() == self.timer(),
            left.nanos == slices@[level as int].total() - left.elapsed.shown().total(),
    {
        let elapsed = read_timer(&self.timer);
        TimeLeft { nanos: remaining(slices[level], elapsed.elapsed()), elapsed }
    }

    /// Go on, having polled a channel, and run the task if one was `found`.
    pub fn polled(&mut self, found: bool)
        ensures
            final(self).at() == old(self).at().after_poll(found),
            final(self).timer() == old(self).timer(),
            final(self).started() == old(self).started(),
    {
        self.state = self.state.polled(found);
    }
}

/// What is left of a time slice.
pub struct TimeLeft {
    /// The nanoseconds that are left, which are negative when the timer has run out.
    pub nanos: i128,
    pub elapsed: TimerReading,
}

/// What was done to close a pool: the lifecycle was changed, then blocking threads were
/// interrupted.
pub struct Closed {
    pub exchange: LifecycleExchange,
    pub notice: Notice<LifecycleExchange>,
}

/// Whether a worker that waits for something to do goes on.
pub struct Wake {
    pub wakes: bool,
    pub lifecycle: CellReading<LifecycleState, ()>,
}

/// Whether a worker that waits to close goes on.
pub struct CloseWake {
    pub wakes: bool,
    pub close_counter: MonitorReading<()>,
}

/// Where a highest-first worker goes on to, by what it saw of the pool.
pub struct HighestStep {
    pub next: HighestFirst,
    pub field: MonitorReading<()>,
    pub lifecycle: CellReading<LifecycleState, ()>,
}

/// What a round-robin worker saw of the pool and of its timer.
pub struct RobinStep {
    /// The start of the timer, if the worker entered a level.
    pub started: Option<TimerStart>,
    pub field: MonitorReading<()>,
    pub lifecycle: CellReading<LifecycleState, ()>,
    pub elapsed: TimerReading,
}

/// Where a closing worker goes on to, by what it saw of the pool after what the record `R` tells of.
#[verifier::reject_recursive_types(R)]
pub struct CloseStep<R> {
    pub next: Closing,
    pub field: MonitorReading<R>,
}

/// What was done to settle a poll of a task.
pub struct Settled {
    /// What the worker does then.
    pub next: AfterPoll,
    pub lifecycle: CellReading<LifecycleState, Option<CountStep>>,
    /// The change of the close counter, if there was one.
    pub counted: Option<CountStep>,
    /// The notice to the threads that wait upon the present field, if there was one.
    pub notice: Option<Notice<Option<CountStep>>>,
}

impl<Behavior: PoolBehavior> Pool<Behavior> {
    /// Every level's mask holds exactly the bits of its channels.
    pub open spec fn wf(&self) -> bool {
        worker::levels_wf(self.levels@) && worker::levels_wf(self.levels_shutdown@)
    }

    /// What point in the lifecycle the pool is in.
    pub fn lifecycle(&self) -> (reading: CellReading<LifecycleState, ()>)
        ensures
            reading.cell() == self.lifecycle_state.cell(),
    {
        self.lifecycle_state.read(&())
    }

    /// The present field.
    pub fn present(&self) -> (reading: MonitorReading<()>)
        ensures
            reading.monitor() == self.field(),
    {
        self.present_field.read(&())
    }

    /// Raise the closing flag, and interrupt blocking threads. A pool that is not running is left
    /// as it is.
    pub fn close(&self, lifecycle: &mut LifecycleHandle) -> (r: Result<Closed, LifecycleExchange>)
        requires
            old(lifecycle).cell() == self.lifecycle_state.cell(),
        ensures
            r is Ok <==> old(lifecycle).state() == LifecycleState::Running,
            match r {
                Ok(closed) => {
                    &&& old(lifecycle).closed(*final(lifecycle), closed.exchange)
                    &&& closed.notice.monitor() == self.field()
                    &&& closed.notice.follows(closed.exchange)
                },
                Err(exchange) => old(lifecycle).closed(*final(lifecycle), exchange),
            },
    {
        let exchange = lifecycle.close();
        match exchange.found() {
            Ok(_) => {
                let notice = self.present_field.notify(&exchange);
                Ok(Closed { exchange, notice })
            },
            Err(_) => Err(exchange),
        }
    }

    /// Whether a worker that waits for something to do goes on when it sees `field`.
    pub fn wakes(&self, field: u64) -> (wake: Wake)
        ensures
            wake.lifecycle.cell() == self.lifecycle_state.cell(),
            wake.wakes == (field != 0 || wake.lifecycle.shown() != LifecycleState::Running),
    {
        let lifecycle = self.lifecycle();
        Wake { wakes: wakes(field, lifecycle.value()), lifecycle }
    }

    /// Whether a worker that waits with all shutdown channels empty goes on when it sees `field`.
    pub fn close_wakes(&self, field: u64) -> (wake: CloseWake)
        ensures
            wake.close_counter.monitor() == self.close_counter.counter(),
            wake.wakes == (wake.close_counter.shown() == 0 || bits::meets(
                field,
                self.complete_shutdown_mask,
            )),
    {
        let close_counter = self.close_counter.read();
        CloseWake {
            wakes: close_wakes(close_counter.value(), field, self.complete_shutdown_mask),
            close_counter,
        }
    }

    /// Take a highest-first worker on, by what it sees of the pool.
    pub fn step_highest(&self, state: HighestFirst) -> (step: HighestStep)
        requires
            self.wf(),
            state.valid(self.levels@),
        ensures
            step.field.monitor() == self.field(),
            step.lifecycle.cell() == self.lifecycle_state.cell(),
            state.leads_to(self.levels@, step.field.shown(), step.lifecycle.shown(), step.next),
            step.next.valid(self.levels@),
    {
        let field = self.present();
        let lifecycle = self.lifecycle();
        HighestStep {
            next: state.observe(&self.levels, field.value(), lifecycle.value()),
            field,
            lifecycle,
        }
    }

    /// Take a round-robin worker on, by what it sees of the pool and of its timer. The timer of a
    /// level is started when the worker enters the level.
    pub fn step_robin(&self, slices: &Vec<StdDuration>, worker: &mut RobinWorker) -> (step: RobinStep)
        requires
            self.wf(),
            slices@.len() == self.levels@.len(),
            old(worker).at().valid(self.levels@),
        ensures
            step.field.monitor() == self.field(),
            step.lifecycle.cell() == self.lifecycle_state.cell(),
            step.elapsed.timer() == final(worker).timer(),
            final(worker).started() == old(worker).started(),
            match step.started {
                Some(started) => {
                    &&& old(worker).at() is Enter
                    &&& started.timer() == final(worker).timer()
                },
                None => {
                    &&& !(old(worker).at() is Enter)
                    &&& final(worker).timer() == old(worker).timer()
                },
            },
            final(worker).at() == old(worker).at().next(
                self.levels@,
                slices@,
                step.field.shown(),
                step.lifecycle.shown(),
                step.elapsed.shown(),
            ),
            final(worker).at().valid(self.levels@),
    {
        let mut started: Option<TimerStart> = None;
        if let RoundRobin::Enter { .. } = worker.state {
            let (timer, start) = start_timer();
            worker.timer = timer;
            started = Some(start);
        }
        let field = self.present();
        let elapsed = read_timer(&worker.timer);
        let lifecycle = self.lifecycle();
        let next = worker.state.observe(
            &self.levels,
            slices,
            field.value(),
            lifecycle.value(),
            elapsed.elapsed(),
        );
        worker.state = next;
        RobinStep { started, field, lifecycle, elapsed }
    }

    /// Take a closing worker on, by what it sees of the pool after what `earlier` tells of. A worker
    /// that has waited with all shutdown channels empty looks at the field after it saw that it goes
    /// on.
    pub fn step_close<R>(&self, state: Closing, earlier: &R) -> (step: CloseStep<R>)
        requires
            self.wf(),
            state.valid(self.levels_shutdown@),
        ensures
            step.field.monitor() == self.field(),
            step.field.follows(*earlier),
            state.leads_to(
                self.levels_shutdown@,
                self.complete_shutdown_mask,
                step.field.shown(),
                step.next,
            ),
            step.next.valid(self.levels_shutdown@),
    {
        let field = self.present_field.read(earlier);
        CloseStep {
            next: state.observe(
                &self.levels_shutdown,
                self.complete_shutdown_mask,
                field.value(),
            ),
            field,
        }
    }

    /// Draw the channel whose turn it is in `level`. One ticket of that level is drawn.
    pub fn draw(&self, hands: &mut Hands, level: usize) -> (turn: Turn<Behavior::ChannelKey>)
        requires
            worker::pollable(self.levels@, level),
            old(hands).of(*self),
        ensures
            turn.of(self.levels@[level as int]),
            old(hands).drew(*final(hands), level as int, turn.ticket),
            final(hands).of(*self),
    {
        self.levels[level].draw(&mut hands.levels[level])
    }

    /// Draw the channel whose turn it is in the shutdown level `level`. One ticket of that level is
    /// drawn.
    pub fn draw_shutdown(&self, hands: &mut Hands, level: usize) -> (turn: Turn<
        Behavior::ChannelKey,
    >)
        requires
            worker::pollable(self.levels_shutdown@, level),
            old(hands).of(*self),
        ensures
            turn.of(self.levels_shutdown@[level as int]),
            old(hands).drew_shutdown(*final(hands), level as int, turn.ticket),
            final(hands).of(*self),
    {
        self.levels_shutdown[level].draw(&mut hands.levels_shutdown[level])
    }

    /// Whether the close counter was changed as `settled` says it should be, and not otherwise.
    pub open spec fn counted_as(&self, settled: Settled) -> bool {
        let (up, down) = match settled.next {
            AfterPoll::Leave { count } => (count, false),
            AfterPoll::PollAgain => (false, false),
            AfterPoll::Finish(completion) => (false, completion.uncount),
        };
        match settled.counted {
            Some(step) => step.counter() == self.close_counter.counter() && step.up() == up && (up || down),
            None => !up && !down,
        }
    }

    /// Whether the threads that wait upon the present field were notified as `settled` says they
    /// should be, after the close counter was changed, and not otherwise.
    pub open spec fn notified_as(&self, settled: Settled) -> bool {
        let notify = settled.next matches AfterPoll::Finish(completion) && completion.notify;
        match settled.notice {
            Some(notice) => {
                &&& notify
                &&& notice.monitor() == self.field()
                &&& notice.follows(settled.counted)
            },
            None => !notify,
        }
    }

    /// Settle a poll of a task, which came from the channel `from`. `yielded` tells what became of
    /// the status if the task is not ready. The close counter and the threads that wait to close
    /// are taken care of.
    pub fn settle<S>(
        &self,
        hands: &mut Hands,
        task: &mut RunningTask<S>,
        yielded: Option<AfterYield>,
        from: ChannelIdentifier<Behavior::ChannelKey>,
    ) -> (settled: Settled)
        requires
            old(hands).of(*self),
        ensures
            final(task).spawn == old(task).spawn,
            settled.lifecycle.cell() == self.lifecycle_state.cell(),
            (final(task).close_counted, settled.next) == followup::after_poll(
                old(task).close_counted,
                yielded,
                bits::meets(from.mask, self.complete_shutdown_mask),
                settled.lifecycle.shown(),
            ),
            settled.next is Finish ==> settled.lifecycle.follows(settled.counted),
            self.counted_as(settled),
            old(hands).counted(*final(hands), settled.counted),
            final(hands).of(*self),
            self.notified_as(settled),
    {
        let mut counted: Option<CountStep> = None;
        if yielded.is_none() && task.close_counted {
            // the count goes down before the lifecycle is read, so that a worker which begins to
            // wait meanwhile sees it, or is notified
            counted = Some(count_down(&mut hands.close_counter));
        }
        let lifecycle = self.lifecycle_state.read(&counted);
        let next = task.polled(
            yielded,
            from.mask,
            self.complete_shutdown_mask,
            lifecycle.value(),
        );
        let mut notice: Option<Notice<Option<CountStep>>> = None;
        match next {
            AfterPoll::Leave { count } => {
                if count {
                    counted = Some(count_up(&mut hands.close_counter));
                }
            },
            AfterPoll::PollAgain => {},
            AfterPoll::Finish(completion) => {
                if completion.notify {
                    notice = Some(self.present_field.notify(&counted));
                }
            },
        }
        Settled { next, lifecycle, counted, notice }
    }
}

} // verus!
