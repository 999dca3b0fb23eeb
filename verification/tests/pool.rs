use std::cell::{Cell, RefCell};
use std::rc::Rc;

use rand::{Rng, SeedableRng, XorShiftRng};

use smartpool::channel::{
    BitAssigner, Channel, Exec, ExecParam, MultiChannel, NotEnoughBits, ShortestDeadlineFirst,
    VecDequeChannel,
};
use smartpool::moment::{Duration, Moment};
use smartpool::pool::close::Closing;
use smartpool::pool::followup::cell::StatusHandle;
use smartpool::pool::followup::{AfterNotify, AfterPoll, SharedStatus};
use smartpool::pool::hands::Hands;
use smartpool::pool::layout::ChannelIdentifier;
use smartpool::pool::lifecycle::LifecycleExchange;
use smartpool::pool::steps::Closed;
use smartpool::pool::worker::HighestFirst;
use smartpool::pool::{
    ChannelParams, LifecycleState, NewPoolError, OwnedPool, PoolBehavior, PoolConfig, PriorityLevel,
    ScheduleAlgorithm, WorkerSchedule,
};
use smartpool::scheduler::{
    Firing, FutureMoment, MomentPoll, PeriodicMoments, PeriodicPoll, ScheduledEvent, Scheduler,
    SchedulerStep,
};
use smartpool::run::Async;
use smartpool::scoped::{may_end, Scope};
use smartpool::task::RunningTask;

const SECOND: i128 = 1_000_000_000;

/// How far a task got when it was given a turn.
enum Turn {
    /// It is complete.
    Done,
    /// It keeps the thread that runs it busy.
    Busy,
    /// It yielded, and will be woken.
    Yield,
}

/// The clock and the scheduler that the tasks of a simulation see.
struct World {
    now: Moment,
    scheduler: Scheduler<u64, u64>,
}

/// What a task does: a closure that is called with the world and the handle by which it is woken.
type Work = Box<dyn FnMut(&mut World, u64) -> Turn>;

/// A task, with what it shares with its handles.
struct Task {
    work: Work,
    status: SharedStatus,
    shared: Rc<Shared>,
}

/// What a task and the handles of all its polls share. The task lies here while it is left to whoever
/// wakes it.
struct Shared {
    left: RefCell<Option<RunningTask<Task>>>,
}

fn task(work: impl FnMut(&mut World, u64) -> Turn + 'static) -> Task {
    Task {
        work: Box::new(work),
        status: SharedStatus::new(),
        shared: Rc::new(Shared { left: RefCell::new(None) }),
    }
}

trait Channels: PoolBehavior {
    fn poll_channel(&mut self, key: Self::ChannelKey) -> Option<RunningTask<Task>>;
    fn followup(&mut self, from: Self::ChannelKey, task: RunningTask<Task>);
}

/// A worker thread.
enum Worker<Key> {
    Working(HighestFirst),
    Running(RunningTask<Task>, ChannelIdentifier<Key>, bool),
    Closing(Closing),
    Exited,
}

/// The handle of one poll of a task.
struct Handle<Key> {
    from: ChannelIdentifier<Key>,
    status: StatusHandle,
    shared: Rc<Shared>,
}

/// A pool whose threads take turns on one thread.
struct Simulation<B: Channels> {
    owned: OwnedPool<B>,
    workers: Vec<Worker<B::ChannelKey>>,
    hands: Vec<Hands>,
    handles: Vec<Handle<B::ChannelKey>>,
    left: usize,
    world: World,
}

impl<B: Channels> Simulation<B> {
    fn new(behavior: B) -> Self {
        let mut owned = OwnedPool::new(behavior).ok().unwrap();
        let mut workers = Vec::new();
        let mut hands = Vec::new();
        for _ in 0..owned.threads {
            workers.push(Worker::Working(HighestFirst::Start));
            hands.push(owned.pool.hands());
        }
        Simulation {
            owned,
            workers,
            hands,
            handles: Vec::new(),
            left: 0,
            world: World { now: Moment { nanos: 0 }, scheduler: Scheduler::new() },
        }
    }

    fn close(&mut self) -> Result<Closed, LifecycleExchange> {
        self.owned.pool.close(&mut self.owned.lifecycle)
    }

    fn turn(&mut self, i: usize) {
        let worker = std::mem::replace(&mut self.workers[i], Worker::Exited);
        let pool = &self.owned.pool;
        let next = match worker {
            Worker::Working(HighestFirst::Close) => Worker::Closing(Closing::Start),
            Worker::Working(HighestFirst::Await) if !pool.wakes(pool.present().value()).wakes => {
                Worker::Working(HighestFirst::Await)
            }
            Worker::Working(HighestFirst::Find { level }) => {
                let channel = pool.draw(&mut self.hands[i], level).channel;
                match self.owned.pool.behavior.poll_channel(channel.key) {
                    Some(task) => Worker::Running(task, channel, false),
                    None => Worker::Working(HighestFirst::Find { level }.polled(false)),
                }
            }
            Worker::Working(state) => Worker::Working(pool.step_highest(state).next),
            Worker::Closing(Closing::Done) => Worker::Exited,
            Worker::Closing(Closing::Idle { goal }) if !pool.close_wakes(pool.present().value()).wakes => {
                Worker::Closing(Closing::Idle { goal })
            }
            Worker::Closing(Closing::Find { level }) => {
                let channel = pool.draw_shutdown(&mut self.hands[i], level).channel;
                match self.owned.pool.behavior.poll_channel(channel.key) {
                    Some(task) => Worker::Running(task, channel, true),
                    None => Worker::Closing(Closing::Find { level }.polled(false)),
                }
            }
            Worker::Closing(state) => Worker::Closing(pool.step_close(state, &()).next),
            Worker::Running(task, from, closing) => self.run(i, task, from, closing),
            Worker::Exited => Worker::Exited,
        };
        self.workers[i] = next;
    }

    fn run(
        &mut self,
        i: usize,
        mut task: RunningTask<Task>,
        from: ChannelIdentifier<B::ChannelKey>,
        closing: bool,
    ) -> Worker<B::ChannelKey> {
        let after = if closing {
            Worker::Closing(Closing::Start)
        } else {
            Worker::Working(HighestFirst::Start)
        };
        let mut status = task.spawn.status.handle();
        let shared = task.spawn.shared.clone();
        loop {
            status.take_up().outcome.unwrap();
            let id = self.handles.len() as u64;
            self.handles.push(Handle {
                from,
                status: task.spawn.status.handle(),
                shared: shared.clone(),
            });
            let yielded = match (task.spawn.work)(&mut self.world, id) {
                Turn::Busy => return Worker::Running(task, from, closing),
                Turn::Yield => Some(status.give_away().outcome.unwrap()),
                Turn::Done => None,
            };
            match self.owned.pool.settle(&mut self.hands[i], &mut task, yielded, from).next {
                AfterPoll::Leave { .. } => {
                    assert!(shared.left.borrow_mut().replace(task).is_none());
                    self.left += 1;
                    return after;
                }
                AfterPoll::PollAgain => {}
                AfterPoll::Finish(_) => return after,
            }
        }
    }

    /// Wake the task that a handle belongs to.
    fn notify(&mut self, id: u64) {
        let handle = &mut self.handles[id as usize];
        if handle.status.notify().outcome == AfterNotify::Resubmit {
            let task = handle.shared.left.borrow_mut().take().unwrap();
            self.left -= 1;
            self.owned.pool.behavior.followup(handle.from.key, task);
        }
    }

    /// Give every worker `turns` turns.
    fn turns(&mut self, turns: usize) {
        for _ in 0..turns {
            for i in 0..self.workers.len() {
                self.turn(i);
            }
        }
    }

    /// Let the scheduler fire what is due, or let time pass until something is.
    fn tick(&mut self, submit: &mut dyn FnMut(&mut B, u64)) -> bool {
        let now = self.world.now;
        match self.world.scheduler.step(now, now) {
            SchedulerStep::Fire(firings) => {
                for firing in firings {
                    match firing {
                        Firing::Notify(id) => self.notify(id),
                        Firing::Submit(number) => submit(&mut self.owned.pool.behavior, number),
                    }
                }
                true
            }
            SchedulerStep::Sleep { until, .. } => {
                self.world.now = until;
                true
            }
            SchedulerStep::Wait => false,
        }
    }

    fn exited(&self) -> bool {
        self.workers.iter().all(|worker| matches!(worker, Worker::Exited))
    }
}

struct OneChannelPool<C: Channel<Spawn = Task> + Exec> {
    thread_count: u32,
    channel: C,
}
impl<C: Channel<Spawn = Task> + Exec> OneChannelPool<C> {
    fn new(thread_count: u32, channel: C) -> Self {
        OneChannelPool { thread_count, channel }
    }
}
impl<C: Channel<Spawn = Task> + Exec> PoolBehavior for OneChannelPool<C> {
    type ChannelKey = ();

    fn config(&mut self) -> PoolConfig<Self> {
        PoolConfig {
            threads: self.thread_count,
            schedule: ScheduleAlgorithm::HighestFirst,
            levels: vec![PriorityLevel(vec![ChannelParams { key: (), complete_on_close: true }])],
        }
    }

    fn assign_channel_bits(
        &mut self,
        _key: (),
        assigner: &mut BitAssigner,
    ) -> Result<(), NotEnoughBits> {
        self.channel.assign_bits(assigner)
    }
}
impl<C: Channel<Spawn = Task> + Exec> Channels for OneChannelPool<C> {
    fn poll_channel(&mut self, _key: ()) -> Option<RunningTask<Task>> {
        self.channel.poll()
    }

    fn followup(&mut self, _from: (), task: RunningTask<Task>) {
        self.channel.submit(task);
    }
}

/// Tests that the threadpool can execute a series of tasks.
#[test]
fn simple_threadpool_test() {
    let mut pool = Simulation::new(OneChannelPool::new(8, VecDequeChannel::new()));
    assert_eq!(pool.workers.len(), 8);
    let count = Rc::new(Cell::new(0));

    for _ in 0..100 {
        let count = count.clone();
        pool.owned.pool.behavior.channel.exec(task(move |_, _| {
            count.set(count.get() + 1);
            Turn::Done
        }));
    }

    pool.turns(100);
    assert_eq!(count.get(), 100);
    assert_eq!(pool.owned.pool.present().value(), 0);
}

struct CompleteOnCloseTestPool {
    do_complete: VecDequeChannel<Task>,
    do_not_complete: VecDequeChannel<Task>,
}
impl PoolBehavior for CompleteOnCloseTestPool {
    type ChannelKey = bool;

    fn config(&mut self) -> PoolConfig<Self> {
        PoolConfig {
            threads: 4,
            schedule: ScheduleAlgorithm::HighestFirst,
            levels: vec![PriorityLevel(vec![
                ChannelParams { key: true, complete_on_close: true },
                ChannelParams { key: false, complete_on_close: false },
            ])],
        }
    }

    fn assign_channel_bits(
        &mut self,
        key: bool,
        assigner: &mut BitAssigner,
    ) -> Result<(), NotEnoughBits> {
        match key {
            true => self.do_complete.assign_bits(assigner),
            false => self.do_not_complete.assign_bits(assigner),
        }
    }
}
impl Channels for CompleteOnCloseTestPool {
    fn poll_channel(&mut self, key: bool) -> Option<RunningTask<Task>> {
        match key {
            true => self.do_complete.poll(),
            false => self.do_not_complete.poll(),
        }
    }

    fn followup(&mut self, from: bool, task: RunningTask<Task>) {
        match from {
            true => self.do_complete.submit(task),
            false => self.do_not_complete.submit(task),
        }
    }
}

/// Test that the pool correctly pulls from multiple channels, and that close channels and
/// open channels are handled properly.
#[test]
fn close_test() {
    let mut pool = Simulation::new(CompleteOnCloseTestPool {
        do_complete: VecDequeChannel::new(),
        do_not_complete: VecDequeChannel::new(),
    });

    // there are 4 threads
    assert_eq!(pool.workers.len(), 4);

    // submit 10 tasks to the do_not_complete channels, blocking all threads
    let monitor_1 = Rc::new(Cell::new(false));
    let counter_1 = Rc::new(Cell::new(0usize));
    for _ in 0..10 {
        let monitor_1 = monitor_1.clone();
        let counter_1 = counter_1.clone();
        pool.owned.pool.behavior.do_not_complete.exec(task(move |_, _| {
            if !monitor_1.get() {
                return Turn::Busy;
            }
            counter_1.set(counter_1.get() + 1);
            Turn::Done
        }));
    }

    pool.turns(50);

    // submit another 10 tasks to the do_complete channel
    let counter_2 = Rc::new(Cell::new(0usize));
    for _ in 0..10 {
        let counter_2 = counter_2.clone();
        pool.owned.pool.behavior.do_complete.exec(task(move |_, _| {
            counter_2.set(counter_2.get() + 1);
            Turn::Done
        }));
    }

    pool.turns(50);

    // close the pool
    assert!(pool.close().is_ok());

    // unblock the first 10 tasks
    monitor_1.set(true);

    // wait for the second batch of tasks to run to completion
    pool.turns(200);

    // the second batch, being on the do_complete channel, should run to completion
    assert_eq!(counter_2.get(), 10);

    // the first batch, on the other hand, should only have 4 completed, corresponding to the
    // 4 threads, since the threads began the tasks before the pool was placed into closing state
    assert_eq!(counter_1.get(), 4);
    assert!(pool.exited());

    // a pool is closed once
    let refused = pool.close().err().unwrap();
    assert_eq!(refused.found(), Err(LifecycleState::Closed));
}

struct MultiLevelPool {
    alpha_1: VecDequeChannel<Task>,
    alpha_2: VecDequeChannel<Task>,
    beta: VecDequeChannel<Task>,
    gamma_1: VecDequeChannel<Task>,
    gamma_2: VecDequeChannel<Task>,
}
impl MultiLevelPool {
    fn new() -> Self {
        MultiLevelPool {
            alpha_1: VecDequeChannel::new(),
            alpha_2: VecDequeChannel::new(),
            beta: VecDequeChannel::new(),
            gamma_1: VecDequeChannel::new(),
            gamma_2: VecDequeChannel::new(),
        }
    }

    fn channel(&mut self, key: MultiLevelPoolChannel) -> &mut VecDequeChannel<Task> {
        match key {
            MultiLevelPoolChannel::Alpha1 => &mut self.alpha_1,
            MultiLevelPoolChannel::Alpha2 => &mut self.alpha_2,
            MultiLevelPoolChannel::Beta => &mut self.beta,
            MultiLevelPoolChannel::Gamma1 => &mut self.gamma_1,
            MultiLevelPoolChannel::Gamma2 => &mut self.gamma_2,
        }
    }
}
#[derive(Copy, Clone)]
enum MultiLevelPoolChannel {
    Alpha1,
    Alpha2,
    Beta,
    Gamma1,
    Gamma2,
}
impl PoolBehavior for MultiLevelPool {
    type ChannelKey = MultiLevelPoolChannel;

    fn config(&mut self) -> PoolConfig<Self> {
        PoolConfig {
            threads: 4,
            schedule: ScheduleAlgorithm::HighestFirst,
            levels: vec![
                PriorityLevel(vec![
                    ChannelParams { key: MultiLevelPoolChannel::Alpha1, complete_on_close: false },
                    ChannelParams { key: MultiLevelPoolChannel::Alpha2, complete_on_close: false },
                ]),
                PriorityLevel(vec![ChannelParams {
                    key: MultiLevelPoolChannel::Beta,
                    complete_on_close: false,
                }]),
                PriorityLevel(vec![
                    ChannelParams { key: MultiLevelPoolChannel::Gamma1, complete_on_close: false },
                    ChannelParams { key: MultiLevelPoolChannel::Gamma2, complete_on_close: false },
                ]),
            ],
        }
    }

    fn assign_channel_bits(
        &mut self,
        key: MultiLevelPoolChannel,
        assigner: &mut BitAssigner,
    ) -> Result<(), NotEnoughBits> {
        self.channel(key).assign_bits(assigner)
    }
}
impl Channels for MultiLevelPool {
    fn poll_channel(&mut self, key: MultiLevelPoolChannel) -> Option<RunningTask<Task>> {
        self.channel(key).poll()
    }

    fn followup(&mut self, from: MultiLevelPoolChannel, task: RunningTask<Task>) {
        self.channel(from).submit(task);
    }
}

/// A task that counts its start, keeps its thread busy until it is unblocked, and counts its end.
fn blocked(blocker: &Rc<Cell<bool>>, started: &Rc<Cell<usize>>, run: &Rc<Cell<usize>>) -> Task {
    let blocker = blocker.clone();
    let started = started.clone();
    let run = run.clone();
    let mut first = true;
    task(move |_, _| {
        if first {
            started.set(started.get() + 1);
            first = false;
        }
        if !blocker.get() {
            return Turn::Busy;
        }
        run.set(run.get() + 1);
        Turn::Done
    })
}

#[test]
fn multi_level_test() {
    let mut pool = Simulation::new(MultiLevelPool::new());

    // submit 10 tasks to the alpha level, which are blocked
    let alpha_blocker = Rc::new(Cell::new(false));
    let alpha_started = Rc::new(Cell::new(0usize));
    let alpha_run = Rc::new(Cell::new(0usize));
    for i in 0..10 {
        let task = blocked(&alpha_blocker, &alpha_started, &alpha_run);
        if i % 2 == 0 {
            pool.owned.pool.behavior.alpha_1.exec(task);
        } else {
            pool.owned.pool.behavior.alpha_2.exec(task);
        }
    }

    pool.turns(100);

    // then to gamma
    let gamma_blocker = Rc::new(Cell::new(false));
    let gamma_started = Rc::new(Cell::new(0usize));
    let gamma_run = Rc::new(Cell::new(0usize));
    for i in 0..10 {
        let task = blocked(&gamma_blocker, &gamma_started, &gamma_run);
        if i % 2 == 0 {
            pool.owned.pool.behavior.gamma_1.exec(task);
        } else {
            pool.owned.pool.behavior.gamma_2.exec(task);
        }
    }

    pool.turns(100);

    // then to beta
    let beta_blocker = Rc::new(Cell::new(false));
    let beta_started = Rc::new(Cell::new(0usize));
    let beta_run = Rc::new(Cell::new(0usize));
    for _ in 0..10 {
        let task = blocked(&beta_blocker, &beta_started, &beta_run);
        pool.owned.pool.behavior.beta.exec(task);
    }

    pool.turns(100);

    // assert initial conditions
    assert_eq!(alpha_started.get(), 4);
    assert_eq!(alpha_run.get(), 0);
    assert_eq!(beta_started.get(), 0);
    assert_eq!(beta_run.get(), 0);
    assert_eq!(gamma_started.get(), 0);
    assert_eq!(gamma_run.get(), 0);

    // unblock alpha
    alpha_blocker.set(true);
    pool.turns(100);

    // assert new conditions
    assert_eq!(alpha_started.get(), 10);
    assert_eq!(alpha_run.get(), 10);
    assert_eq!(beta_started.get(), 4);
    assert_eq!(beta_run.get(), 0);
    assert_eq!(gamma_started.get(), 0);
    assert_eq!(gamma_run.get(), 0);

    // unblock beta
    beta_blocker.set(true);
    pool.turns(100);

    // assert new conditions
    assert_eq!(alpha_started.get(), 10);
    assert_eq!(alpha_run.get(), 10);
    assert_eq!(beta_started.get(), 10);
    assert_eq!(beta_run.get(), 10);
    assert_eq!(gamma_started.get(), 4);
    assert_eq!(gamma_run.get(), 0);

    // unblock gamma
    gamma_blocker.set(true);
    pool.turns(100);

    // assert new conditions
    assert_eq!(alpha_started.get(), 10);
    assert_eq!(alpha_run.get(), 10);
    assert_eq!(beta_started.get(), 10);
    assert_eq!(beta_run.get(), 10);
    assert_eq!(gamma_started.get(), 10);
    assert_eq!(gamma_run.get(), 10);

    // close the pool
    assert!(pool.close().is_ok());
    pool.turns(100);
    assert!(pool.exited());
}

struct TooManyBits(MultiChannel<VecDequeChannel<Task>>);
impl TooManyBits {
    fn new() -> Self {
        // a multi channel with a count of 100, will consume 100 bits, which is too many
        // the maximum is 64, so that a single atomic bitfield can be used
        TooManyBits(MultiChannel::new(100, VecDequeChannel::new))
    }
}
impl PoolBehavior for TooManyBits {
    type ChannelKey = ();

    fn config(&mut self) -> PoolConfig<Self> {
        PoolConfig {
            threads: 1,
            schedule: ScheduleAlgorithm::HighestFirst,
            levels: vec![PriorityLevel(vec![ChannelParams { key: (), complete_on_close: false }])],
        }
    }

    fn assign_channel_bits(
        &mut self,
        _key: (),
        assigner: &mut BitAssigner,
    ) -> Result<(), NotEnoughBits> {
        self.0.assign_bits(assigner)
    }
}

#[test]
fn fail_on_too_many_bits() {
    assert!(OwnedPool::new(TooManyBits::new()).is_err());
    assert_eq!(OwnedPool::new(TooManyBits::new()).err(), Some(NewPoolError::Over64Channels));
}

/// A routine that sleeps for 3 seconds, then waits for 3 values of a stream with a period of a
/// second.
fn sleep_routine(done: &Rc<Cell<usize>>) -> Task {
    let done = done.clone();
    let mut sleep: Option<FutureMoment<()>> = None;
    let mut stream: Option<PeriodicMoments<()>> = None;
    let mut ticks = 0;
    task(move |world, id| {
        let now = world.now;
        let sleep = sleep.get_or_insert_with(|| {
            FutureMoment::after_moment((), now, Duration::from_nanos(3 * SECOND).unwrap())
        });
        match sleep.poll(now) {
            MomentPoll::Ready => {}
            MomentPoll::Register { moment, .. } => {
                world.scheduler.insert(moment, ScheduledEvent::Notify(id));
                return Turn::Yield;
            }
            MomentPoll::Pending => return Turn::Yield,
        }
        let stream = stream.get_or_insert_with(|| {
            PeriodicMoments::periodically((), now, Duration::from_nanos(SECOND).unwrap())
        });
        while ticks < 3 {
            match stream.poll(now) {
                PeriodicPoll::Tick => ticks += 1,
                PeriodicPoll::Register { moment } => {
                    world.scheduler.insert(moment, ScheduledEvent::Notify(id));
                    return Turn::Yield;
                }
            }
        }
        done.set(done.get() + 1);
        Turn::Done
    })
}

/// Tests that the timers work, and that the pool properly handles yielding futures.
#[test]
fn timer_and_yield_test() {
    let mut pool = Simulation::new(OneChannelPool::new(4, VecDequeChannel::new()));
    let done = Rc::new(Cell::new(0));

    // create 1000 sleep routines, and execute each after a 1 second delay
    for number in 0..1000 {
        let now = pool.world.now;
        pool.world.scheduler.run_after_moment(now, Duration::from_nanos(SECOND).unwrap(), number);
    }

    // then wait for the pool to close
    // time this operation
    let start = pool.world.now;
    assert!(pool.close().is_ok());
    let mut submit = |behavior: &mut OneChannelPool<VecDequeChannel<Task>>, _: u64| {
        behavior.channel.exec(sleep_routine(&done))
    };
    while !pool.exited() {
        pool.turns(10);
        if !pool.exited() {
            pool.tick(&mut submit);
        }
    }
    let end = pool.world.now;

    // assert that the time this took was less than 10 seconds
    assert!(end.since(start).as_nanos() < 10 * SECOND);
}

/// The pool waits for routines that yielded before it closes, and does not block on them.
#[test]
fn closing_waits_for_yielded_routines() {
    let mut pool = Simulation::new(OneChannelPool::new(4, VecDequeChannel::new()));
    let done = Rc::new(Cell::new(0));
    for number in 0..1000 {
        let now = pool.world.now;
        pool.world.scheduler.run_after_moment(now, Duration::from_nanos(SECOND).unwrap(), number);
    }
    let routine = done.clone();
    let mut submit = |behavior: &mut OneChannelPool<VecDequeChannel<Task>>, _: u64| {
        behavior.channel.exec(sleep_routine(&routine))
    };

    // let the routines begin, and yield
    while pool.left < 1000 {
        pool.tick(&mut submit);
        pool.turns(2000);
    }
    assert_eq!(pool.world.now, Moment { nanos: SECOND });
    assert!(pool.close().is_ok());

    // nothing is present, but the pool does not close
    pool.turns(100);
    assert_eq!(pool.owned.pool.present().value(), 0);
    assert!(!pool.exited());
    assert_eq!(done.get(), 0);

    while !pool.exited() {
        pool.turns(2000);
        if !pool.exited() {
            assert!(pool.tick(&mut submit));
        }
    }
    assert_eq!(done.get(), 1000);
    // a second's delay, 3 seconds of sleep, and 3 values of which the first comes at once
    assert_eq!(pool.world.now, Moment { nanos: 6 * SECOND });
}

/// Tests that scoped operations work correctly, including when an operation is yielding.
#[test]
fn scoped_op_test() {
    let mut pool = Simulation::new(OneChannelPool::new(4, VecDequeChannel::new()));
    let atom = Rc::new(Cell::new(0usize));
    let scope = Scope::new();
    for _ in 0..1000 {
        let mut wrapped = scope.wrap(|| ());
        let atom = atom.clone();
        let mut sleep: Option<FutureMoment<()>> = None;
        pool.owned.pool.behavior.channel.exec(task(move |world, id| {
            let now = world.now;
            let sleep = sleep.get_or_insert_with(|| {
                FutureMoment::after_moment((), now, Duration::from_nanos(SECOND).unwrap())
            });
            match sleep.poll(now) {
                MomentPoll::Ready => {
                    atom.set(atom.get() + 1);
                    wrapped.polled(Ok(Async::Ready(())));
                    Turn::Done
                }
                MomentPoll::Register { moment, .. } => {
                    world.scheduler.insert(moment, ScheduledEvent::Notify(id));
                    Turn::Yield
                }
                MomentPoll::Pending => Turn::Yield,
            }
        }));
    }
    while !may_end(scope.running_count.get()) {
        pool.turns(100);
        pool.tick(&mut |_, _| {});
    }
    let value = atom.get();

    assert_eq!(value, 1000);
}

struct SdfPool {
    followup: MultiChannel<VecDequeChannel<Task>>,
    deadline: MultiChannel<ShortestDeadlineFirst<Task>>,
}
impl Default for SdfPool {
    fn default() -> Self {
        SdfPool {
            followup: MultiChannel::new(16, VecDequeChannel::new),
            deadline: MultiChannel::new(16, ShortestDeadlineFirst::new),
        }
    }
}
impl PoolBehavior for SdfPool {
    type ChannelKey = ();

    fn config(&mut self) -> PoolConfig<Self> {
        PoolConfig {
            threads: 1,
            schedule: ScheduleAlgorithm::HighestFirst,
            levels: vec![PriorityLevel(vec![ChannelParams { key: (), complete_on_close: false }])],
        }
    }

    fn assign_channel_bits(&mut self, _: (), assigner: &mut BitAssigner) -> Result<(), NotEnoughBits> {
        self.deadline.assign_bits(assigner)
    }
}
impl Channels for SdfPool {
    fn poll_channel(&mut self, _: ()) -> Option<RunningTask<Task>> {
        self.deadline.poll()
    }

    fn followup(&mut self, _: (), task: RunningTask<Task>) {
        self.followup.submit(task)
    }
}

const BATCHES: usize = 100;
const BATCH_SIZE: usize = 1000;

#[test]
fn sdf_test() {
    let seed = [0, 1, 2, 3, 4, 5, 6, 7, 8, 9, 10, 11, 12, 13, 14, 15];
    let mut rng = XorShiftRng::from_seed(seed);
    let mut pool = Simulation::new(SdfPool::default());
    let atomic = Rc::new(Cell::new(0usize));
    for _ in 0..BATCHES {
        let scope = Scope::new();
        for _ in 0..BATCH_SIZE {
            let mut wrapped = scope.wrap(|| ());
            let atomic = atomic.clone();
            let op = task(move |_, _| {
                atomic.set(atomic.get() + 1);
                wrapped.polled(Ok(Async::Ready(())));
                Turn::Done
            });
            let delay = (rng.gen::<u64>() % 5000 + 5000) as i128 * 1_000_000;
            let moment = Moment::now().0.after(Duration::from_nanos(delay).unwrap());
            pool.owned.pool.behavior.deadline.exec(op, moment);
        }
        while !may_end(scope.running_count.get()) {
            pool.turns(100);
        }
    }
    assert_eq!(atomic.get(), BATCHES * BATCH_SIZE);
}

/// A behavior whose channels claim a given number of bits.
struct Claims {
    claims: Vec<usize>,
    levels: Vec<Vec<(usize, bool)>>,
    schedule: Vec<i128>,
}
impl PoolBehavior for Claims {
    type ChannelKey = usize;

    fn config(&mut self) -> PoolConfig<Self> {
        let mut levels = Vec::new();
        for level in &self.levels {
            let mut params = Vec::new();
            for &(key, complete_on_close) in level {
                params.push(ChannelParams { key, complete_on_close });
            }
            levels.push(PriorityLevel(params));
        }
        let mut slices = Vec::new();
        for &nanos in &self.schedule {
            slices.push(Duration::from_nanos(nanos).unwrap());
        }
        PoolConfig { threads: 3, schedule: ScheduleAlgorithm::RoundRobin(slices), levels }
    }

    fn assign_channel_bits(
        &mut self,
        key: usize,
        assigner: &mut BitAssigner,
    ) -> Result<(), NotEnoughBits> {
        for _ in 0..self.claims[key] {
            let mut channel: VecDequeChannel<u8> = VecDequeChannel::new();
            channel.assign_bits(assigner)?;
        }
        Ok(())
    }
}

#[test]
fn levels_are_laid_out_over_the_field() {
    let owned = OwnedPool::new(Claims {
        claims: vec![4, 1, 3],
        levels: vec![vec![(0, true), (1, false)], vec![], vec![(2, true)]],
        schedule: vec![5, 0, 7],
    })
    .ok()
    .unwrap();
    let pool = &owned.pool;
    assert_eq!(owned.threads, 3);
    assert_eq!(pool.levels.len(), 3);
    assert_eq!(pool.levels[0].mask, 0b1_1111);
    assert_eq!(pool.levels[0].channels[0].mask, 0b0_1111);
    assert_eq!(pool.levels[0].channels[1].mask, 0b1_0000);
    assert_eq!(pool.levels[1].mask, 0);
    assert_eq!(pool.levels[2].mask, 0b1110_0000);
    assert_eq!(pool.levels_shutdown.len(), 3);
    assert_eq!(pool.levels_shutdown[0].mask, 0b0_1111);
    assert_eq!(pool.levels_shutdown[0].channels.len(), 1);
    assert_eq!(pool.levels_shutdown[0].channels[0].key, 0);
    assert_eq!(pool.levels_shutdown[1].channels.len(), 0);
    assert_eq!(pool.levels_shutdown[2].mask, 0b1110_0000);
    assert_eq!(pool.complete_shutdown_mask, 0b1110_1111);
    assert_eq!(pool.lifecycle().value(), LifecycleState::Running);
    assert_eq!(pool.present().value(), 0);
    assert_eq!(pool.close_counter.read().value(), 0);
    match owned.work {
        WorkerSchedule::RoundRobin(slices) => {
            assert_eq!(slices.len(), 3);
            assert_eq!(slices[2].as_nanos(), 7);
        }
        WorkerSchedule::HighestFirst => panic!("the workers do not follow the schedule"),
    }
}

#[test]
fn every_fault_of_a_configuration_is_told() {
    let make = |claim: usize, levels: usize, schedule: Vec<i128>| {
        OwnedPool::new(Claims {
            claims: vec![claim],
            levels: vec![vec![(0, true)]; levels],
            schedule,
        })
        .err()
    };
    assert_eq!(make(64, 1, vec![0]), None);
    assert_eq!(make(65, 1, vec![0]), Some(NewPoolError::Over64Channels));
    assert_eq!(make(32, 2, vec![0, 0]), None);
    assert_eq!(make(33, 2, vec![0, 0]), Some(NewPoolError::Over64Channels));
    assert_eq!(
        make(1, 2, vec![1, 2, 3]),
        Some(NewPoolError::WrongNumberTimeslices { num_levels: 2, num_timeslices: 3 })
    );
    assert_eq!(
        make(1, 3, vec![1, -2, -3]),
        Some(NewPoolError::NegativeTimeSlice {
            index: 1,
            duration: Duration::from_nanos(-2).unwrap(),
        })
    );
    // too many channels come first, and a wrong number of slices before a negative one
    assert_eq!(make(65, 1, vec![-1, 2]), Some(NewPoolError::Over64Channels));
    assert_eq!(
        make(1, 1, vec![-1, 2]),
        Some(NewPoolError::WrongNumberTimeslices { num_levels: 1, num_timeslices: 2 })
    );
}

/// A task is polled again once, however often its handles wake it.
#[test]
fn handles_wake_a_task_once_for_each_yield() {
    let mut pool = Simulation::new(OneChannelPool::new(1, VecDequeChannel::new()));
    let polls = Rc::new(Cell::new(0));
    let counter = polls.clone();
    pool.owned.pool.behavior.channel.exec(task(move |_, _| {
        counter.set(counter.get() + 1);
        Turn::Yield
    }));
    pool.turns(10);
    assert_eq!((polls.get(), pool.left), (1, 1));
    // one handle, notified several times
    for _ in 0..3 {
        pool.notify(0);
    }
    assert_eq!(pool.left, 0);
    pool.turns(20);
    assert_eq!((polls.get(), pool.left), (2, 1));
    // the handle of an earlier poll still asks for a later one
    pool.notify(0);
    pool.notify(1);
    pool.turns(20);
    assert_eq!((polls.get(), pool.left), (3, 1));
    pool.turns(20);
    assert_eq!(polls.get(), 3);
}
