use smartpool::push::{push_future, PushFutureInterior};
use smartpool::run::{run, try_run, Async};
use smartpool::scoped::{may_end, Scope};

#[test]
fn a_computation_is_performed_upon_polling() {
    let performed = std::cell::Cell::new(0);
    let mut future = run(|| {
        performed.set(performed.get() + 1);
        7
    });
    assert_eq!(performed.get(), 0);
    assert_eq!(future.poll(), Ok(Async::Ready(7)));
    assert_eq!(performed.get(), 1);
}

#[test]
fn a_computation_can_fail() {
    assert_eq!(try_run(|| Ok::<u8, &str>(3)).poll(), Ok(Async::Ready(3)));
    assert_eq!(try_run(|| Err::<u8, &str>("broken")).poll(), Err("broken"));
}

#[test]
fn a_pushed_value_is_received() {
    let mut interior: PushFutureInterior<u32, &str, char> = push_future();
    assert_eq!(interior.recv_poll('a'), Ok(Async::NotReady));
    assert_eq!(interior.recv_poll('b'), Ok(Async::NotReady));
    let (answer, notified) = interior.send_poll(Ok(Async::NotReady));
    assert_eq!(answer, Ok(Async::NotReady));
    assert_eq!(notified, vec![]);
    assert_eq!(interior.recv_poll('a'), Ok(Async::NotReady));
    let (answer, notified) = interior.send_poll(Ok(Async::Ready(5)));
    assert_eq!(answer, Ok(Async::Ready(())));
    assert_eq!(notified, vec!['a', 'b', 'a']);
    assert_eq!(interior.recv_poll('c'), Ok(Async::Ready(5)));
    assert!(matches!(interior, PushFutureInterior::Taken));
}

#[test]
fn a_pushed_error_is_received() {
    let mut interior: PushFutureInterior<u32, &str, char> = push_future();
    let (answer, notified) = interior.send_poll(Err("broken"));
    assert_eq!(answer, Ok(Async::Ready(())));
    assert_eq!(notified, vec![]);
    assert_eq!(interior.recv_poll('a'), Err("broken"));
    assert!(matches!(interior, PushFutureInterior::Taken));
}

#[test]
fn a_scope_ends_when_every_future_has_completed() {
    let scope = Scope::new();
    assert!(may_end(scope.running_count.get()));
    let made = std::cell::Cell::new(0);
    let mut first = scope.wrap(|| {
        made.set(made.get() + 1);
        "future"
    });
    assert_eq!(made.get(), 1);
    assert_eq!(*first.future(), "future");
    let mut second = scope.wrap(|| ());
    assert_eq!(scope.running_count.get(), 2);
    assert!(!may_end(scope.running_count.get()));
    // a future that fails completes too
    let poll = second.polled(Err(()));
    assert_eq!(poll.answer, Ok(Async::Ready(())));
    assert!(poll.ended.is_some() && second.is_over());
    assert_eq!(scope.running_count.get(), 1);
    let mut third = scope.wrap(|| ());
    assert_eq!(scope.running_count.get(), 2);
    let poll = first.polled(Ok(Async::NotReady));
    assert_eq!(poll.answer, Ok(Async::NotReady));
    assert!(poll.ended.is_none() && !first.is_over());
    assert_eq!(scope.running_count.get(), 2);
    assert_eq!(first.polled(Ok(Async::Ready(()))).answer, Ok(Async::Ready(())));
    third.polled(Ok(Async::Ready(())));
    assert_eq!(scope.running_count.get(), 0);
    assert!(may_end(0));
    assert!(!may_end(1));
}

/// Work of a batch is performed once, when it is polled, and blocks the batch until then.
#[test]
fn work_blocks_its_batch_until_it_is_performed() {
    let scope = Scope::new();
    let done = std::cell::Cell::new(0);
    let mut work = scope.work(|| done.set(done.get() + 1));
    assert_eq!((done.get(), scope.running_count.get()), (0, 1));
    assert!(!may_end(scope.running_count.get()) && !work.is_over());
    let polled = work.future().poll();
    assert_eq!((done.get(), scope.running_count.get()), (1, 1));
    assert_eq!(work.polled(polled).answer, Ok(Async::Ready(())));
    assert!(work.is_over());
    assert_eq!((done.get(), scope.running_count.get()), (1, 0));
    assert!(may_end(scope.running_count.get()));
}
