use smartpool::channel::{BitAssigner, Channel, Exec, NotEnoughBits, VecDequeChannel};
use smartpool::moment::{Duration, StdDuration};
use smartpool::pool::close::{
    close_wakes, first_outcome, join_outcome, CloseGoal, ClosePoll, Closing, PoolClose,
};
use smartpool::pool::followup::{
    must_claim, notify_outcome, take_up_outcome, yield_outcome, AfterNotify, AfterPoll, AfterYield, Completion, RunStatus,
    SharedStatus,
};
use smartpool::pool::layout::{ChannelIdentifier, Level, LevelBuilder};
use smartpool::pool::steps::RobinWorker;
use smartpool::pool::worker::{
    expired, highest_level, remaining, wakes, HighestFirst, RoundRobin,
};
use smartpool::pool::{
    plan_schedule, ChannelParams, LifecycleState, NewPoolError, OwnedPool, PoolBehavior, PoolConfig,
    PriorityLevel, ScheduleAlgorithm, WorkerSchedule,
};
use smartpool::task::RunningTask;

const RUNNING: LifecycleState = LifecycleState::Running;
const CLOSED: LifecycleState = LifecycleState::Closed;

fn level(masks: &[u64]) -> Level<usize> {
    let mut level = Level::empty();
    for (key, &mask) in masks.iter().enumerate() {
        level.add(ChannelIdentifier { key, mask });
    }
    level
}

fn nanos(nanos: u32) -> StdDuration {
    StdDuration { secs: 0, nanos }
}

#[test]
fn a_level_covers_its_channels() {
    let level = level(&[0b0001, 0b0110, 0b1000]);
    assert_eq!(level.mask, 0b1111);
    assert_eq!(level.channels.len(), 3);
    // whether the level has a task is whether one of its channels has
    for field in 0..32u64 {
        let any = level.channels.iter().any(|channel| channel.mask & field != 0);
        assert_eq!(highest_level(&vec![self::level(&[level.mask])], field).is_some(), any);
    }
}

#[test]
fn the_channels_of_a_level_take_turns() {
    let mut level = level(&[1, 2, 4]);
    let mut first = level.channel_index.handle();
    let mut second = level.channel_index.handle();
    assert_eq!(level.pick(0).key, 0);
    assert_eq!(level.pick(4).key, 1);
    assert_eq!(level.pick(usize::MAX).key, usize::MAX % 3);
    for i in 0..7 {
        // whichever handle draws, the tickets come from the same cell
        let turn = level.draw(if i % 2 == 0 { &mut first } else { &mut second });
        assert_eq!(turn.ticket.number(), i);
        assert_eq!(turn.channel.key, i % 3);
        assert_eq!(turn.channel.mask, 1 << (i % 3));
    }
}

#[test]
fn a_level_is_built_for_operation_and_for_shutdown() {
    let mut builder: LevelBuilder<TwoLevels> = LevelBuilder::new(0b1);
    let first = builder.place(&ChannelParams { key: false, complete_on_close: false }, 1, 3);
    assert_eq!(first.mask, 0b0110);
    let second = builder.place(&ChannelParams { key: true, complete_on_close: true }, 3, 4);
    assert_eq!(second.mask, 0b1000);
    let third = builder.place(&ChannelParams { key: false, complete_on_close: true }, 4, 4);
    assert_eq!(third.mask, 0);
    assert_eq!(builder.level.mask, 0b1110);
    assert_eq!(builder.level.channels.len(), 3);
    assert_eq!(builder.level_shutdown.mask, 0b1000);
    assert_eq!(builder.level_shutdown.channels.len(), 2);
    assert_eq!(builder.level_shutdown.channels[0].key, true);
    assert_eq!(builder.level_shutdown.channels[1].key, false);
    assert_eq!(builder.complete_shutdown_mask, 0b1001);
}

#[test]
fn the_highest_level_with_a_task_is_found() {
    let levels = vec![level(&[0b001]), level(&[]), level(&[0b010, 0b100])];
    assert_eq!(highest_level(&levels, 0), None);
    assert_eq!(highest_level(&levels, 0b1000), None);
    assert_eq!(highest_level(&levels, 0b001), Some(0));
    assert_eq!(highest_level(&levels, 0b100), Some(2));
    assert_eq!(highest_level(&levels, 0b111), Some(0));
}

#[test]
fn a_worker_waits_for_a_task_or_the_end() {
    assert!(!wakes(0, RUNNING));
    assert!(wakes(0, CLOSED));
    assert!(wakes(0x10, RUNNING));
    assert!(wakes(0x10, CLOSED));
}

#[test]
fn a_highest_first_worker_decides() {
    let levels = vec![level(&[0b01]), level(&[0b10])];
    let find = HighestFirst::Find { level: 1 };
    let missed = HighestFirst::Missed { level: 1 };
    let see = |state: HighestFirst, field: u64, lifecycle| state.observe(&levels, field, lifecycle);
    assert_eq!(see(HighestFirst::Start, 0, RUNNING), HighestFirst::Await);
    assert_eq!(see(HighestFirst::Start, 0b11, CLOSED), HighestFirst::Close);
    assert_eq!(see(HighestFirst::Await, 0b10, RUNNING), find);
    assert_eq!(see(HighestFirst::Await, 0b11, CLOSED), HighestFirst::Find { level: 0 });
    assert_eq!(see(HighestFirst::Await, 0, CLOSED), HighestFirst::Start);
    assert_eq!(find.polled(true), HighestFirst::Start);
    assert_eq!(find.polled(false), missed);
    assert_eq!(HighestFirst::Await.polled(true), HighestFirst::Await);
    assert_eq!(see(missed, 0b10, RUNNING), find);
    assert_eq!(see(missed, 0b01, RUNNING), HighestFirst::Start);
    assert_eq!(see(missed, 0b01, CLOSED), HighestFirst::Start);
    assert_eq!(see(missed, 0b10, CLOSED), HighestFirst::Close);
    assert_eq!(see(find, 0, CLOSED), find);
    assert_eq!(see(HighestFirst::Close, 0b11, RUNNING), HighestFirst::Close);
}

#[test]
fn a_round_robin_worker_visits_the_levels_in_order() {
    let levels = vec![level(&[0b01]), level(&[0b10])];
    let slices = vec![nanos(10), nanos(20)];
    let see = |state: RoundRobin, field: u64, lifecycle, elapsed| {
        state.observe(&levels, &slices, field, lifecycle, nanos(elapsed))
    };
    assert_eq!(see(RoundRobin::Start, 0, RUNNING, 0), RoundRobin::Await);
    assert_eq!(see(RoundRobin::Start, 0, CLOSED, 0), RoundRobin::Close);
    assert_eq!(see(RoundRobin::Await, 0, RUNNING, 0), RoundRobin::Enter { level: 0 });
    assert_eq!(see(RoundRobin::Enter { level: 0 }, 0, RUNNING, 0), RoundRobin::Check { level: 0 });
    // an empty level is left, and so is the last one
    assert_eq!(
        see(RoundRobin::Check { level: 0 }, 0b10, RUNNING, 0),
        RoundRobin::Enter { level: 1 }
    );
    assert_eq!(see(RoundRobin::Check { level: 1 }, 0b01, RUNNING, 0), RoundRobin::Start);
    assert_eq!(
        see(RoundRobin::Check { level: 1 }, 0b10, RUNNING, 19),
        RoundRobin::Rest { level: 1 }
    );
    assert_eq!(see(RoundRobin::Rest { level: 1 }, 0b10, RUNNING, 19), RoundRobin::Find { level: 1 });
    assert_eq!(see(RoundRobin::Rest { level: 1 }, 0b10, CLOSED, 19), RoundRobin::Close);
    assert_eq!(see(RoundRobin::Rest { level: 0 }, 0b10, RUNNING, 0), RoundRobin::Enter { level: 1 });
    let find = RoundRobin::Find { level: 1 };
    assert_eq!(find.polled(true), RoundRobin::Check { level: 1 });
    assert_eq!(find.polled(false), RoundRobin::Missed { level: 1 });
    assert_eq!(RoundRobin::Start.polled(false), RoundRobin::Start);
    assert_eq!(see(RoundRobin::Missed { level: 1 }, 0b10, RUNNING, 99), find);
    assert_eq!(see(RoundRobin::Missed { level: 1 }, 0b10, CLOSED, 0), RoundRobin::Close);
    assert_eq!(see(RoundRobin::Missed { level: 1 }, 0b01, CLOSED, 0), RoundRobin::Start);
    assert_eq!(see(find, 0, CLOSED, 99), find);
    assert_eq!(see(RoundRobin::Close, 0, RUNNING, 0), RoundRobin::Close);
    let none: Vec<Level<usize>> = Vec::new();
    assert_eq!(
        RoundRobin::Await.observe(&none, &Vec::new(), 0, RUNNING, nanos(0)),
        RoundRobin::Start
    );
}

#[test]
fn a_time_slice_ends_the_work_on_a_level() {
    let levels = vec![level(&[0b01]), level(&[0b10])];
    let slices = vec![nanos(10), nanos(20)];
    for elapsed in [9, 10, 11] {
        let over = elapsed >= 10;
        assert_eq!(expired(nanos(elapsed), nanos(10)), over);
        let check =
            RoundRobin::Check { level: 0 }.observe(&levels, &slices, 0b11, RUNNING, nanos(elapsed));
        let rest =
            RoundRobin::Rest { level: 0 }.observe(&levels, &slices, 0b11, RUNNING, nanos(elapsed));
        if over {
            assert_eq!(check, RoundRobin::Enter { level: 1 });
            assert_eq!(rest, RoundRobin::Enter { level: 1 });
        } else {
            assert_eq!(check, RoundRobin::Rest { level: 0 });
            assert_eq!(rest, RoundRobin::Find { level: 0 });
        }
    }
    assert_eq!(remaining(StdDuration { secs: 1, nanos: 5 }, nanos(7)), 999_999_998);
    assert_eq!(remaining(nanos(3), nanos(7)), -4);
}

#[test]
fn no_worker_closes_while_the_pool_runs() {
    let levels = vec![level(&[0b01]), level(&[0b10])];
    let slices = vec![nanos(10), nanos(20)];
    for field in 0..4 {
        for state in [
            HighestFirst::Start,
            HighestFirst::Await,
            HighestFirst::Find { level: 0 },
            HighestFirst::Missed { level: 1 },
        ] {
            assert_ne!(state.observe(&levels, field, RUNNING), HighestFirst::Close);
        }
        for state in [
            RoundRobin::Start,
            RoundRobin::Await,
            RoundRobin::Enter { level: 0 },
            RoundRobin::Check { level: 1 },
            RoundRobin::Rest { level: 0 },
            RoundRobin::Find { level: 1 },
            RoundRobin::Missed { level: 0 },
        ] {
            let next = state.observe(&levels, &slices, field, RUNNING, nanos(15));
            assert_ne!(next, RoundRobin::Close);
        }
    }
}

#[test]
fn a_closing_worker_is_done_when_nothing_is_left() {
    assert!(close_wakes(0, 0, 0b11));
    assert!(!close_wakes(2, 0b100, 0b11));
    assert!(close_wakes(2, 0b110, 0b11));

    let shutdown = vec![level(&[0b01]), level(&[]), level(&[0b10])];
    let mask = 0b11;
    let see = |state: Closing, field: u64| state.observe(&shutdown, mask, field);
    let search = |captured| CloseGoal::Search { captured };
    let retry = CloseGoal::Retry { level: 2 };
    assert_eq!(see(Closing::Start, 0b110), Closing::Check { goal: search(0b110) });
    assert_eq!(see(Closing::Check { goal: search(0b110) }, 0b100), Closing::Idle {
        goal: search(0b110)
    });
    assert_eq!(see(Closing::Check { goal: search(0b110) }, 0b01), Closing::Find { level: 2 });
    assert_eq!(see(Closing::Check { goal: search(0b100) }, 0b01), Closing::Start);
    assert_eq!(see(Closing::Idle { goal: search(0b110) }, 0b100), Closing::Done);
    assert_eq!(see(Closing::Idle { goal: search(0b11) }, 0b10), Closing::Find { level: 0 });
    let find = Closing::Find { level: 2 };
    assert_eq!(find.polled(true), Closing::Start);
    assert_eq!(find.polled(false), Closing::Check { goal: retry });
    assert_eq!(Closing::Done.polled(false), Closing::Done);
    assert_eq!(see(Closing::Check { goal: retry }, 0b01), Closing::Missed { level: 2 });
    assert_eq!(see(Closing::Check { goal: retry }, 0), Closing::Idle { goal: retry });
    assert_eq!(see(Closing::Idle { goal: retry }, 0), Closing::Done);
    assert_eq!(see(Closing::Missed { level: 2 }, 0b10), find);
    assert_eq!(see(Closing::Missed { level: 2 }, 0b01), Closing::Start);
    assert_eq!(see(find, 0), find);
    assert_eq!(see(Closing::Done, 0b11), Closing::Done);
}

#[test]
fn a_worker_is_done_closing_only_after_waiting() {
    let shutdown = vec![level(&[0b01])];
    for field in 0..4 {
        for state in [
            Closing::Start,
            Closing::Check { goal: CloseGoal::Search { captured: 1 } },
            Closing::Check { goal: CloseGoal::Retry { level: 0 } },
            Closing::Find { level: 0 },
            Closing::Missed { level: 0 },
        ] {
            assert_ne!(state.observe(&shutdown, 0b01, field), Closing::Done);
        }
        let idle = Closing::Idle { goal: CloseGoal::Retry { level: 0 } };
        assert_eq!(idle.observe(&shutdown, 0b01, field) == Closing::Done, field & 1 == 0);
    }
}

#[test]
fn exactly_one_takes_care_of_a_woken_task() {
    let calm = RunStatus::NotRequestedAndWillBeTakenCareOf;
    let asked = RunStatus::RequestedAndWillBeTakenCareOf;
    let left = RunStatus::NotRequestedAndWillNotBeTakenCareOf;
    // the task is woken while it is polled, more than once
    let mut shared = SharedStatus::new();
    let mut status = shared.handle();
    let mut waker = shared.handle();
    let mut other = shared.handle();
    assert_eq!(status.take_up().outcome, Ok(()));
    assert_eq!(waker.notify().outcome, AfterNotify::Nothing);
    let again = other.notify();
    assert_eq!(again.outcome, AfterNotify::Nothing);
    assert_eq!(again.asked.found(), Err(asked));
    assert!(again.claimed.is_none());
    assert_eq!(status.give_away().outcome, Ok(AfterYield::PollAgain));
    // the next poll answers what was asked for
    assert_eq!(status.take_up().exchange.found(), Ok(asked));
    // the task is woken after it was given away, more than once
    let attempt = status.give_away();
    assert_eq!(attempt.outcome, Ok(AfterYield::Leave));
    assert_eq!(attempt.exchange.found(), Ok(calm));
    let first = waker.notify();
    assert_eq!(first.outcome, AfterNotify::Resubmit);
    assert_eq!(first.asked.found(), Err(left));
    assert_eq!(first.claimed.unwrap().found(), Ok(left));
    for handle in [&mut waker, &mut other] {
        assert_eq!(handle.notify().outcome, AfterNotify::Nothing);
        assert_eq!(handle.notify().outcome, AfterNotify::Nothing);
    }
    // it is woken again after it was taken up and given away again
    assert_eq!(status.take_up().outcome, Ok(()));
    assert_eq!(status.give_away().outcome, Ok(AfterYield::Leave));
    assert_eq!(waker.notify().outcome, AfterNotify::Resubmit);
    assert_eq!(waker.notify().outcome, AfterNotify::Nothing);
    // a task is not given away twice, nor taken up while nobody has it
    let mut status = SharedStatus::new().handle();
    assert_eq!(status.give_away().outcome, Ok(AfterYield::Leave));
    assert_eq!(status.give_away().outcome, Err(left));
    assert_eq!(status.take_up().outcome, Err(left));
}

#[test]
fn exchanges_tell_who_takes_care() {
    let calm = RunStatus::NotRequestedAndWillBeTakenCareOf;
    let asked = RunStatus::RequestedAndWillBeTakenCareOf;
    let left = RunStatus::NotRequestedAndWillNotBeTakenCareOf;
    assert_eq!(take_up_outcome(Ok(asked)), Ok(()));
    assert_eq!(take_up_outcome(Err(calm)), Ok(()));
    assert_eq!(take_up_outcome(Err(left)), Err(left));
    assert_eq!(yield_outcome(Ok(calm)), Ok(AfterYield::Leave));
    assert_eq!(yield_outcome(Err(asked)), Ok(AfterYield::PollAgain));
    assert_eq!(yield_outcome(Err(left)), Err(left));
    assert!(!must_claim(Ok(calm)));
    assert!(!must_claim(Err(asked)));
    assert!(must_claim(Err(left)));
    assert_eq!(notify_outcome(None), AfterNotify::Nothing);
    assert_eq!(notify_outcome(Some(Ok(left))), AfterNotify::Resubmit);
    assert_eq!(notify_outcome(Some(Err(asked))), AfterNotify::Nothing);
    assert_eq!(notify_outcome(Some(Err(calm))), AfterNotify::Nothing);
}

#[test]
fn a_critical_task_is_counted_until_it_is_complete() {
    let leave = Some(AfterYield::Leave);
    let again = Some(AfterYield::PollAgain);
    let finish = |uncount, notify| AfterPoll::Finish(Completion { uncount, notify });
    let mut task = RunningTask::new(());
    assert_eq!(task.polled(again, 0b01, 0b01, RUNNING), AfterPoll::PollAgain);
    assert!(!task.close_counted);
    // it is not counted when it yields from a channel that is not completed on close
    assert_eq!(task.polled(leave, 0b10, 0b01, RUNNING), AfterPoll::Leave { count: false });
    assert!(!task.close_counted);
    assert_eq!(task.polled(leave, 0b11, 0b01, RUNNING), AfterPoll::Leave { count: true });
    assert!(task.close_counted);
    assert_eq!(task.polled(leave, 0b01, 0b01, CLOSED), AfterPoll::Leave { count: false });
    assert_eq!(task.polled(again, 0b10, 0b01, CLOSED), AfterPoll::PollAgain);
    assert!(task.close_counted);
    assert_eq!(task.polled(None, 0b01, 0b01, RUNNING), finish(true, false));
    assert_eq!(task.polled(None, 0b10, 0b01, CLOSED), finish(true, true));

    let mut other = RunningTask::new(());
    assert_eq!(other.polled(None, 0b01, 0b01, CLOSED), finish(false, false));
}

#[test]
fn a_pool_is_closed_when_all_its_workers_have_joined() {
    assert_eq!(first_outcome::<&str>(0), Some(Ok(())));
    assert_eq!(first_outcome::<&str>(2), None);
    assert_eq!(join_outcome::<&str>(Ok(()), 2), None);
    assert_eq!(join_outcome::<&str>(Ok(()), 1), None);
    assert_eq!(join_outcome::<&str>(Ok(()), 0), Some(Ok(())));
    assert_eq!(join_outcome(Err("panic"), 2), Some(Err("panic")));
    assert_eq!(join_outcome(Err("panic"), 0), Some(Err("panic")));

    let mut close = PoolClose::new(vec![1, 2, 3]);
    match close.poll::<&str>(None) {
        ClosePoll::Join(handles) => assert_eq!(handles, vec![1, 2, 3]),
        other => panic!("{:?}", other),
    }
    assert!(matches!(close.poll::<&str>(None), ClosePoll::Pending));
    assert!(matches!(close.poll(Some(Err("panic"))), ClosePoll::Finish(Err("panic"))));
    assert!(matches!(close.poll::<&str>(Some(Ok(()))), ClosePoll::Finish(Ok(()))));
    assert!(matches!(close.poll::<&str>(None), ClosePoll::Pending));
}

#[test]
fn a_schedule_is_planned_for_the_levels() {
    let slices = |nanos: &[i128]| {
        let mut slices = Vec::new();
        for &nanos in nanos {
            slices.push(Duration::from_nanos(nanos).unwrap());
        }
        ScheduleAlgorithm::RoundRobin(slices)
    };
    assert!(matches!(
        plan_schedule(&ScheduleAlgorithm::HighestFirst, 7),
        Ok(WorkerSchedule::HighestFirst)
    ));
    match plan_schedule(&slices(&[2_000_000_003, 0]), 2) {
        Ok(WorkerSchedule::RoundRobin(planned)) => {
            assert_eq!(planned, vec![StdDuration { secs: 2, nanos: 3 }, nanos(0)]);
        }
        other => panic!("{:?}", other),
    }
    assert!(matches!(plan_schedule(&slices(&[]), 0), Ok(WorkerSchedule::RoundRobin(_))));
    assert_eq!(
        plan_schedule(&slices(&[1]), 2).err(),
        Some(NewPoolError::WrongNumberTimeslices { num_levels: 2, num_timeslices: 1 })
    );
    assert_eq!(
        plan_schedule(&slices(&[1, 2, -3, -4]), 4).err(),
        Some(NewPoolError::NegativeTimeSlice {
            index: 2,
            duration: Duration::from_nanos(-3).unwrap(),
        })
    );
}

/// A pool with a level that is completed on close, and one that is not.
struct TwoLevels {
    first: VecDequeChannel<u32>,
    second: VecDequeChannel<u32>,
}

impl PoolBehavior for TwoLevels {
    type ChannelKey = bool;

    fn config(&mut self) -> PoolConfig<Self> {
        let hour = Duration::from_nanos(3_600_000_000_000).unwrap();
        let none = Duration::from_nanos(0).unwrap();
        PoolConfig {
            threads: 1,
            schedule: ScheduleAlgorithm::RoundRobin(vec![hour, none]),
            levels: vec![
                PriorityLevel(vec![ChannelParams { key: true, complete_on_close: true }]),
                PriorityLevel(vec![ChannelParams { key: false, complete_on_close: false }]),
            ],
        }
    }

    fn assign_channel_bits(
        &mut self,
        key: bool,
        assigner: &mut BitAssigner,
    ) -> Result<(), NotEnoughBits> {
        if key {
            self.first.assign_bits(assigner)
        } else {
            self.second.assign_bits(assigner)
        }
    }
}

fn two_levels() -> OwnedPool<TwoLevels> {
    OwnedPool::new(TwoLevels { first: VecDequeChannel::new(), second: VecDequeChannel::new() })
        .ok()
        .unwrap()
}

#[test]
fn the_channels_of_a_pool_share_no_bit() {
    let mut owned = two_levels();
    owned.pool.behavior.first.exec(1);
    assert_eq!(owned.pool.present().value(), 0b01);
    owned.pool.behavior.second.exec(2);
    assert_eq!(owned.pool.present().value(), 0b11);
    assert!(owned.pool.behavior.first.poll().is_some());
    assert_eq!(owned.pool.present().value(), 0b10);
    assert_eq!(owned.pool.complete_shutdown_mask, 0b01);
}

#[test]
fn a_round_robin_worker_steps_through_a_pool() {
    let mut owned = two_levels();
    let mut hands = owned.pool.hands();
    let slices = match &owned.work {
        WorkerSchedule::RoundRobin(slices) => slices,
        WorkerSchedule::HighestFirst => panic!("the workers do not follow the schedule"),
    };
    let mut worker = RobinWorker::new();
    assert_eq!(worker.state(), RoundRobin::Start);
    owned.pool.step_robin(slices, &mut worker);
    assert_eq!(worker.state(), RoundRobin::Await);
    assert!(!owned.pool.wakes(owned.pool.present().value()).wakes);
    owned.pool.behavior.first.exec(1);
    owned.pool.behavior.second.exec(2);
    assert!(owned.pool.wakes(owned.pool.present().value()).wakes);
    for expected in [
        RoundRobin::Enter { level: 0 },
        RoundRobin::Check { level: 0 },
        RoundRobin::Rest { level: 0 },
        RoundRobin::Find { level: 0 },
    ] {
        owned.pool.step_robin(slices, &mut worker);
        assert_eq!(worker.state(), expected);
    }
    let left = worker.time_left(slices, 0).nanos;
    assert!(left > 0 && left <= 3_600_000_000_000);
    assert!(worker.time_left(slices, 1).nanos <= 0);
    assert!(owned.pool.draw(&mut hands, 0).channel.key);
    assert!(owned.pool.behavior.first.poll().is_some());
    worker.polled(true);
    assert_eq!(worker.state(), RoundRobin::Check { level: 0 });
    // the first level is empty, and the second has no time
    for expected in [
        RoundRobin::Enter { level: 1 },
        RoundRobin::Check { level: 1 },
        RoundRobin::Start,
    ] {
        owned.pool.step_robin(slices, &mut worker);
        assert_eq!(worker.state(), expected);
    }
    assert!(owned.pool.close(&mut owned.lifecycle).is_ok());
    owned.pool.step_robin(slices, &mut worker);
    assert_eq!(worker.state(), RoundRobin::Close);
}

#[test]
fn a_closing_worker_polls_critical_channels_alone() {
    let mut owned = two_levels();
    let mut hands = owned.pool.hands();
    owned.pool.behavior.first.exec(1);
    owned.pool.behavior.second.exec(2);
    assert!(owned.pool.close(&mut owned.lifecycle).is_ok());
    assert_eq!(owned.pool.lifecycle().value(), CLOSED);
    let mut state = owned.pool.step_close(Closing::Start, &()).next;
    assert_eq!(state, Closing::Check { goal: CloseGoal::Search { captured: 0b11 } });
    state = owned.pool.step_close(state, &()).next;
    assert_eq!(state, Closing::Find { level: 0 });
    assert!(owned.pool.draw_shutdown(&mut hands, 0).channel.key);
    assert!(owned.pool.behavior.first.poll().is_some());
    state = state.polled(true);
    assert_eq!(state, Closing::Start);
    state = owned.pool.step_close(state, &()).next;
    state = owned.pool.step_close(state, &()).next;
    assert_eq!(state, Closing::Idle { goal: CloseGoal::Search { captured: 0b10 } });
    assert!(owned.pool.close_wakes(owned.pool.present().value()).wakes);
    assert_eq!(owned.pool.step_close(state, &()).next, Closing::Done);
    // the other task is ignored
    assert_eq!(owned.pool.present().value(), 0b10);
}

#[test]
fn settling_keeps_the_close_counter() {
    let mut owned = two_levels();
    // two workers share the counter
    let mut hands = owned.pool.hands();
    let mut others = owned.pool.hands();
    let pool = &owned.pool;
    let critical = pool.levels[0].channels[0];
    let other = pool.levels[1].channels[0];
    let mut task = RunningTask::new(1);
    let settled = pool.settle(&mut hands, &mut task, Some(AfterYield::Leave), other);
    assert_eq!(settled.next, AfterPoll::Leave { count: false });
    assert!(settled.counted.is_none() && settled.notice.is_none());
    assert_eq!(pool.close_counter.read().value(), 0);
    let settled = pool.settle(&mut hands, &mut task, Some(AfterYield::Leave), critical);
    assert_eq!(settled.next, AfterPoll::Leave { count: true });
    assert!(settled.counted.is_some() && settled.notice.is_none());
    assert_eq!(pool.close_counter.read().value(), 1);
    assert!(!pool.close_wakes(pool.present().value()).wakes);
    let settled = pool.settle(&mut hands, &mut task, Some(AfterYield::Leave), critical);
    assert_eq!(settled.next, AfterPoll::Leave { count: false });
    assert_eq!(pool.close_counter.read().value(), 1);
    let mut second = RunningTask::new(2);
    pool.settle(&mut others, &mut second, Some(AfterYield::Leave), critical);
    assert_eq!(pool.close_counter.read().value(), 2);
    let settled = pool.settle(&mut hands, &mut task, None, other);
    assert_eq!(settled.next, AfterPoll::Finish(Completion { uncount: true, notify: false }));
    assert_eq!(pool.close_counter.read().value(), 1);
    assert!(pool.close(&mut owned.lifecycle).is_ok());
    let settled = pool.settle(&mut others, &mut second, None, critical);
    assert_eq!(settled.next, AfterPoll::Finish(Completion { uncount: true, notify: true }));
    assert!(settled.counted.is_some() && settled.notice.is_some());
    assert_eq!(pool.close_counter.read().value(), 0);
    assert!(pool.close_wakes(pool.present().value()).wakes);
}
