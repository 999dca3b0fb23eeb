use smartpool::moment::{Duration, Moment, OutOfRange, StdDuration};
use smartpool::ordered::earliest_key;
use smartpool::scheduler::{
    Firing, FutureMoment, MomentPoll, PeriodicMoments, PeriodicPoll, ScheduledEvent, Scheduler,
    SchedulerStep,
};

const SECOND: i128 = 1_000_000_000;

fn at(nanos: i128) -> Moment {
    Moment { nanos }
}

fn length(nanos: i128) -> Duration {
    Duration::from_nanos(nanos).unwrap()
}

/// The numbers to notify and to submit, the latter with a sign.
fn numbers(done: Vec<Firing<i32, i32>>) -> Vec<i32> {
    let mut numbers = Vec::new();
    for firing in done {
        numbers.push(match firing {
            Firing::Notify(task) => task,
            Firing::Submit(submit) => -submit,
        });
    }
    numbers
}

fn fired(step: SchedulerStep<i32, i32>) -> Vec<i32> {
    match step {
        SchedulerStep::Fire(done) => numbers(done),
        other => panic!("{:?}", other),
    }
}

#[test]
fn a_duration_has_whole_milliseconds_in_64_bits() {
    let most = i64::MAX as i128 * 1_000_000;
    let least = i64::MIN as i128 * 1_000_000;
    assert_eq!(length(most).as_nanos(), most);
    assert_eq!(length(least).as_nanos(), least);
    assert_eq!(Duration::from_nanos(most + 1), Err(OutOfRange));
    assert_eq!(Duration::from_nanos(least - 1), Err(OutOfRange));
    assert_eq!(length(-5).as_nanos(), -5);
}

#[test]
fn a_duration_that_is_not_negative_is_split_into_seconds() {
    assert_eq!(length(0).to_std(), Ok(StdDuration { secs: 0, nanos: 0 }));
    assert_eq!(length(1).to_std(), Ok(StdDuration { secs: 0, nanos: 1 }));
    assert_eq!(
        length(7 * SECOND + 123_456_789).to_std(),
        Ok(StdDuration { secs: 7, nanos: 123_456_789 })
    );
    let most = i64::MAX as i128 * 1_000_000;
    assert_eq!(
        length(most).to_std(),
        Ok(StdDuration { secs: 9_223_372_036_854_775, nanos: 807_000_000 })
    );
    assert_eq!(length(-1).to_std(), Err(OutOfRange));
    assert_eq!(length(-7 * SECOND).to_std(), Err(OutOfRange));
    assert_eq!(length(i64::MIN as i128 * 1_000_000).to_std(), Err(OutOfRange));
    assert_eq!(StdDuration { secs: 2, nanos: 3 }.as_nanos(), 2_000_000_003);
}

#[test]
fn moments_and_durations_add_up() {
    let moment = at(5).after(length(-8));
    assert_eq!(moment, at(-3));
    assert_eq!(moment.since(at(7)), length(-10));
    let (first, reading) = Moment::now();
    let (second, _) = Moment::now();
    assert_eq!(first.nanos, reading.nanos() as i128);
    assert!(first.nanos >= 0);
    assert!(second.since(first).as_nanos() >= 0);
}

#[test]
fn the_least_key_is_found() {
    let mut map = std::collections::BTreeMap::new();
    assert_eq!(earliest_key(&map), None);
    map.insert(5, 'a');
    map.insert(-7, 'b');
    map.insert(3, 'c');
    assert_eq!(earliest_key(&map), Some(-7));
}

#[test]
fn an_event_runs_its_parts_in_order() {
    let event = ScheduledEvent::Multiple(vec![
        ScheduledEvent::Notify(1),
        ScheduledEvent::Multiple(vec![ScheduledEvent::Submit(2), ScheduledEvent::Notify(3)]),
        ScheduledEvent::Multiple(vec![]),
        ScheduledEvent::Submit(4),
    ]);
    assert_eq!(numbers(event.run()), vec![1, -2, 3, -4]);
    assert_eq!(numbers(ScheduledEvent::Notify(5).run()), vec![5]);
}

#[test]
fn events_of_the_same_moment_all_execute_in_order() {
    let mut scheduler = Scheduler::new();
    scheduler.insert(at(10), ScheduledEvent::Notify(1));
    scheduler.insert(at(20), ScheduledEvent::Notify(9));
    scheduler.insert(at(10), ScheduledEvent::Submit(2));
    scheduler.insert(at(10), ScheduledEvent::Notify(3));
    assert_eq!(scheduler.take(at(15)).is_none(), true);
    assert_eq!(numbers(scheduler.take(at(10)).unwrap()), vec![1, -2, 3]);
    assert!(scheduler.take(at(10)).is_none());
    assert_eq!(scheduler.next_time(), Some(at(20)));
}

#[test]
fn a_scheduler_fires_what_is_due_and_sleeps_until_the_rest() {
    let mut scheduler: Scheduler<i32, i32> = Scheduler::new();
    assert!(matches!(scheduler.step(at(0), at(0)), SchedulerStep::Wait));
    assert_eq!(scheduler.next_time(), None);
    scheduler.run_at(at(3 * SECOND), 1);
    scheduler.run_after_moment(at(SECOND), length(SECOND), 2);
    scheduler.run_after_moment(at(5 * SECOND), length(-3 * SECOND), 3);
    assert_eq!(scheduler.next_time(), Some(at(2 * SECOND)));
    match scheduler.step(at(SECOND), at(SECOND + 250)) {
        SchedulerStep::Sleep { until, delay } => {
            assert_eq!(until, at(2 * SECOND));
            assert_eq!(delay, StdDuration { secs: 0, nanos: 999_999_750 });
        }
        other => panic!("{:?}", other),
    }
    // the moment may pass before the thread gets to wait
    match scheduler.step(at(2 * SECOND - 1), at(2 * SECOND + 1)) {
        SchedulerStep::Sleep { until, delay } => {
            assert_eq!(until, at(2 * SECOND));
            assert_eq!(delay, StdDuration { secs: 0, nanos: 0 });
        }
        other => panic!("{:?}", other),
    }
    assert_eq!(fired(scheduler.step(at(2 * SECOND), at(2 * SECOND))), vec![-2, -3]);
    assert_eq!(fired(scheduler.step(at(9 * SECOND), at(9 * SECOND))), vec![-1]);
    assert!(matches!(scheduler.step(at(9 * SECOND), at(9 * SECOND)), SchedulerStep::Wait));
}

/// An event that a thread waits for executes once, when the wait has timed out.
#[test]
fn an_event_that_was_waited_for_executes_once() {
    let mut scheduler: Scheduler<i32, i32> = Scheduler::new();
    scheduler.insert(at(SECOND), ScheduledEvent::Notify(1));
    scheduler.insert(at(2 * SECOND), ScheduledEvent::Notify(2));
    scheduler.insert(at(SECOND), ScheduledEvent::Submit(3));
    let later = at(250);
    let (until, delay) = match scheduler.step(at(0), later) {
        SchedulerStep::Sleep { until, delay } => (until, delay),
        other => panic!("{:?}", other),
    };
    assert_eq!(until, at(SECOND));
    // the wait ends when the event is due
    let end = at(later.nanos + delay.as_nanos());
    assert_eq!(end, at(SECOND));
    // what is planned meanwhile for an earlier moment is left for later
    scheduler.insert(at(SECOND / 2), ScheduledEvent::Notify(4));
    assert_eq!(numbers(scheduler.take(until).unwrap()), vec![1, -3]);
    assert!(scheduler.take(until).is_none());
    assert_eq!(fired(scheduler.step(end, end)), vec![4]);
    assert_eq!(fired(scheduler.step(at(3 * SECOND), at(3 * SECOND))), vec![2]);
    assert!(matches!(scheduler.step(at(3 * SECOND), at(3 * SECOND)), SchedulerStep::Wait));
}

#[test]
fn a_delay_from_the_present_is_due_after_it() {
    let mut scheduler: Scheduler<i32, i32> = Scheduler::new();
    let before = Moment::now().0;
    let reading = scheduler.run_after(length(SECOND), 1);
    let after = Moment::now().0;
    let due = scheduler.next_time().unwrap();
    assert_eq!(due.nanos, reading.nanos() as i128 + SECOND);
    assert!(before.nanos + SECOND <= due.nanos && due.nanos <= after.nanos + SECOND);

    let (mut future, reading) = FutureMoment::after("scheduler", length(SECOND));
    assert!(after.nanos <= reading.nanos() as i128);
    assert!(matches!(future.poll(before), MomentPoll::Register { scheduler: "scheduler", .. }));
    assert!(matches!(future.poll(Moment::now().0.after(length(SECOND))), MomentPoll::Ready));
}

#[test]
fn a_future_moment_registers_once() {
    let mut future = FutureMoment::at("scheduler", at(10));
    match future.poll(at(9)) {
        MomentPoll::Register { scheduler, moment } => {
            assert_eq!(scheduler, "scheduler");
            assert_eq!(moment, at(10));
        }
        other => panic!("{:?}", other),
    }
    assert!(matches!(future.poll(at(9)), MomentPoll::Pending));
    assert!(matches!(future.poll(at(10)), MomentPoll::Ready));
    assert!(matches!(future.poll(at(11)), MomentPoll::Ready));
    let mut future = FutureMoment::after_moment((), at(5), length(-1));
    assert!(matches!(future.poll(at(4)), MomentPoll::Ready));
    assert!(matches!(future.poll(at(3)), MomentPoll::Register { moment: Moment { nanos: 4 }, .. }));
}

#[test]
fn periodic_values_come_a_period_apart() {
    let mut stream = PeriodicMoments::periodically("scheduler", at(100), length(10));
    assert_eq!(*stream.handle(), "scheduler");
    assert_eq!(stream.poll(at(99)), PeriodicPoll::Register { moment: at(100) });
    assert_eq!(stream.poll(at(100)), PeriodicPoll::Tick);
    assert_eq!(stream.poll(at(105)), PeriodicPoll::Register { moment: at(110) });
    assert_eq!(stream.poll(at(105)), PeriodicPoll::Register { moment: at(110) });
    assert!(stream.can_poll(at(125)));
    // values that were missed are made up for
    assert_eq!(stream.poll(at(125)), PeriodicPoll::Tick);
    assert_eq!(stream.poll(at(125)), PeriodicPoll::Tick);
    assert_eq!(stream.poll(at(125)), PeriodicPoll::Register { moment: at(130) });
}

#[test]
fn a_periodic_stream_ends_with_the_clock() {
    let last = (i64::MAX as i128 + 1) * SECOND - 1;
    let stream = PeriodicMoments::periodically((), at(last), length(1));
    assert!(stream.can_poll(at(0)));
    assert!(!stream.can_poll(at(last)));
    let stream = PeriodicMoments::periodically((), at(last), length(0));
    assert!(stream.can_poll(at(last)));
    let stream = PeriodicMoments::periodically((), at(i128::MIN), length(-1));
    assert!(!stream.can_poll(at(0)));
}

#[test]
fn events_execute_once_and_in_order_of_time() {
    let mut scheduler: Scheduler<i32, i32> = Scheduler::new();
    for (time, task) in [(30, 3), (10, 1), (40, 4), (20, 2)] {
        scheduler.insert(at(time), ScheduledEvent::Notify(task));
    }
    let mut done = Vec::new();
    for now in 0..60 {
        loop {
            match scheduler.step(at(now), at(now)) {
                SchedulerStep::Fire(firings) => {
                    for task in numbers(firings) {
                        assert!(10 * task as i128 <= now);
                        done.push(task);
                    }
                }
                _ => break,
            }
        }
    }
    assert_eq!(done, vec![1, 2, 3, 4]);
    assert_eq!(scheduler.next_time(), None);
}
