//! The count that keeps a batch of scoped operations from ending early.
use std::sync::Arc;

use atomicmonitor::AtomMonitor;
use vstd::prelude::*;

use crate::run::{run, Async, Run};
use crate::shared::{
    count_down, count_up, new_monitor, share, CountHandle, CountStep, MonitorStart,
};

verus! {

/// A handle to a batch of scoped operations, which counts the futures of the batch that have not
/// completed.
pub struct Scope {
    /// The counter of the futures that have not completed, upon which the end of the batch waits.
    pub running_count: Arc<AtomMonitor<u64>>,
    started: MonitorStart,
}

/// A future of a batch, which blocks the batch until it completes.
pub struct Wrapped<F> {
    future: F,
    running_count: CountHandle,
    begun: CountStep,
    ended: bool,
}

/// What a poll of a wrapped future gives.
pub struct WrappedPoll {
    pub answer: Result<Async<()>, ()>,
    /// The step that counted the future off, if it completed.
    pub ended: Option<CountStep>,
}

impl Scope {
    /// The counter of the futures that have not completed.
    pub closed spec fn counter(&self) -> AtomMonitor<u64> {
        *self.running_count
    }

    /// How the counter started.
    pub closed spec fn started(&self) -> MonitorStart {
        self.started
    }

    /// A batch without futures.
    pub fn new() -> (scope: Self)
        ensures
            scope.started().of(scope.counter(), 0),
    {
        let (counter, started) = new_monitor(0);
        Scope { running_count: Arc::new(counter), started }
    }

    /// Count `future`, which blocks the batch until it completes.
    fn begin<F>(&self, future: F) -> (wrapped: Wrapped<F>)
        ensures
            wrapped.inner() == future,
            wrapped.begun_in(*self),
    {
        let mut running_count = CountHandle::new(share(&self.running_count));
        let begun = count_up(&mut running_count);
        Wrapped { future, running_count, begun, ended: false }
    }

    /// Wrap the future that `future_factory` makes, which blocks the batch until it completes. The
    /// factory is called once, and the future is not polled.
    pub fn wrap<F, Factory: FnOnce() -> F>(&self, future_factory: Factory) -> (wrapped: Wrapped<F>)
        requires
            future_factory.requires(()),
        ensures
            future_factory.ensures((), wrapped.inner()),
            wrapped.begun_in(*self),
    {
        let future = future_factory();
        self.begin(future)
    }

    /// A future which performs `work` upon polling, and blocks the batch until it completes.
    pub fn work<W: FnOnce()>(&self, work: W) -> (wrapped: Wrapped<Run<(), W>>)
        ensures
            wrapped.inner().work() == Some(work),
            wrapped.begun_in(*self),
    {
        self.begin(run(work))
    }
}

/// Whether every future of a batch has completed when its counter shows `count`.
pub open spec fn all_complete(count: u64) -> bool {
    count == 0
}

/// Whether a batch may end when its counter shows `count`.
pub fn may_end(count: u64) -> (end: bool)
    ensures
        end == all_complete(count),
{
    count == 0
}

impl<F> Wrapped<F> {
    /// The future itself.
    pub closed spec fn inner(&self) -> F {
        self.future
    }

    /// The counter of the batch.
    pub closed spec fn counter(&self) -> AtomMonitor<u64> {
        self.running_count.counter()
    }

    /// The steps of the counter that were made for the future.
    pub closed spec fn steps(&self) -> Seq<CountStep> {
        self.running_count.steps()
    }

    /// The step that counted the future.
    pub closed spec fn begun(&self) -> CountStep {
        self.begun
    }

    /// Whether the future has completed.
    pub closed spec fn has_ended(&self) -> bool {
        self.ended
    }

    /// The future itself, to poll it.
    pub fn future(&mut self) -> (future: &mut F)
        ensures
            *future == old(self).inner(),
            final(self).inner() == *final(future),
            final(self).counter() == old(self).counter(),
            final(self).steps() == old(self).steps(),
            final(self).begun() == old(self).begun(),
            final(self).has_ended() == old(self).has_ended(),
    {
        &mut self.future
    }

    /// Whether the future was counted in the batch of `scope`, once, and has not completed.
    pub open spec fn begun_in(&self, scope: Scope) -> bool {
        &&& self.counter() == scope.counter()
        &&& self.begun().counter() == scope.counter()
        &&& self.begun().up()
        &&& self.steps() == seq![self.begun()]
        &&& !self.has_ended()
    }

    /// Whether the future has completed.
    pub fn is_over(&self) -> (over: bool)
        ensures
            over == self.has_ended(),
    {
        self.ended
    }

    /// Whether a poll in which the future gave `polled` takes this to `next` and gives `poll`.
    pub open spec fn answered(
        self,
        next: Self,
        polled: Result<Async<()>, ()>,
        poll: WrappedPoll,
    ) -> bool {
        &&& next.inner() == self.inner()
        &&& next.counter() == self.counter()
        &&& next.begun() == self.begun()
        &&& polled == Ok::<Async<()>, ()>(Async::NotReady) ==> {
            &&& poll.answer == Ok::<Async<()>, ()>(Async::NotReady)
            &&& poll.ended is None
            &&& next.steps() == self.steps()
            &&& !next.has_ended()
        }
        &&& polled != Ok::<Async<()>, ()>(Async::NotReady) ==> {
            &&& poll.answer == Ok::<Async<()>, ()>(Async::Ready(()))
            &&& poll.ended matches Some(step) && step.counter() == self.counter() && !step.up()
                && next.steps() == self.steps().push(step)
            &&& next.has_ended()
        }
    }

    /// The future was polled, and gave `polled`. It completes with success, whatever its outcome, and
    /// is counted off as it does.
    pub fn polled(&mut self, polled: Result<Async<()>, ()>) -> (poll: WrappedPoll)
        requires
            !old(self).has_ended(),
        ensures
            old(self).answered(*final(self), polled, poll),
    {
        match polled {
            Ok(Async::NotReady) => WrappedPoll { answer: Ok(Async::NotReady), ended: None },
            _ => {
                let step = count_down(&mut self.running_count);
                self.ended = true;
                WrappedPoll { answer: Ok(Async::Ready(())), ended: Some(step) }
            },
        }
    }
}

/// Whether `steps` are the steps of `counter`, which showed zero at first, in the order in which they
/// took effect, and `count` is what it shows after them.
pub open spec fn counted(counter: AtomMonitor<u64>, steps: Seq<CountStep>, count: u64) -> bool
    decreases steps.len(),
{
    if steps.len() == 0 {
        count == 0
    } else {
        let last = steps.last();
        &&& last.counter() == counter
        &&& counted(counter, steps.drop_last(), last.before())
        &&& count == if last.up() {
            last.before().wrapping_add(1)
        } else {
            last.before().wrapping_sub(1)
        }
    }
}

/// How many more of `steps` went up than down.
pub open spec fn net(steps: Seq<CountStep>) -> int
    decreases steps.len(),
{
    if steps.len() == 0 {
        0
    } else if steps.last().up() {
        net(steps.drop_last()) + 1
    } else {
        net(steps.drop_last()) - 1
    }
}

/// Steps of two sequences go up as much more often than down as those of both sequences do.
pub proof fn lemma_net_add(a: Seq<CountStep>, b: Seq<CountStep>)
    ensures
        net(a + b) == net(a) + net(b),
    decreases b.len(),
{
    if b.len() == 0 {
        assert(a + b =~= a);
    } else {
        lemma_net_add(a, b.drop_last());
        assert((a + b).drop_last() =~= a + b.drop_last());
    }
}

/// The order of steps does not matter to how many more of them went up than down.
pub proof fn lemma_net_in_any_order(a: Seq<CountStep>, b: Seq<CountStep>)
    requires
        a.to_multiset() == b.to_multiset(),
    ensures
        net(a) == net(b),
{
    let f = |n: int, step: CountStep|
        if step.up() {
            n + 1
        } else {
            n - 1
        };
    lemma_net_folds(a, f);
    lemma_net_folds(b, f);
    vstd::seq_lib::lemma_fold_left_permutation(a, b, f, 0);
}

proof fn lemma_net_folds(steps: Seq<CountStep>, f: spec_fn(int, CountStep) -> int)
    requires
        forall|n: int, step: CountStep| #[trigger]
            f(n, step) == if step.up() {
                n + 1
            } else {
                n - 1
            },
    ensures
        net(steps) == steps.fold_left(0, f),
    decreases steps.len(),
{
    if steps.len() > 0 {
        lemma_net_folds(steps.drop_last(), f);
    }
}

/// What a counter shows is how many more steps went up than down, but for what 64 bits cannot hold.
proof fn lemma_counted_wraps(counter: AtomMonitor<u64>, steps: Seq<CountStep>, count: u64)
    requires
        counted(counter, steps, count),
    ensures
        (net(steps) - count) % 0x1_0000_0000_0000_0000 == 0,
    decreases steps.len(),
{
    if steps.len() > 0 {
        lemma_counted_wraps(counter, steps.drop_last(), steps.last().before());
    }
}

/// A counter shows how many more steps went up than down, as far as it has the bits for it, and so a
/// batch ends only when as many of its futures have completed as were wrapped.
pub proof fn law_batch_ends_when_all_complete(
    counter: AtomMonitor<u64>,
    steps: Seq<CountStep>,
    count: u64,
)
    requires
        counted(counter, steps, count),
        0 <= net(steps) <= u64::MAX,
    ensures
        count == net(steps),
        all_complete(count) <==> net(steps) == 0,
{
    lemma_counted_wraps(counter, steps, count);
}

/// Whether `steps` are those that were made for one future of a batch: it was counted as it was
/// wrapped, and counted off since if it has `ended`.
pub open spec fn steps_of_future(steps: Seq<CountStep>, ended: bool) -> bool {
    &&& steps.len() == if ended {
        2int
    } else {
        1
    }
    &&& steps[0].up()
    &&& ended ==> !steps[1].up()
}

/// The steps that were made for all `futures`, future by future.
pub open spec fn joined(futures: Seq<Seq<CountStep>>) -> Seq<CountStep>
    decreases futures.len(),
{
    if futures.len() == 0 {
        Seq::empty()
    } else {
        joined(futures.drop_last()) + futures.last()
    }
}

/// How many of the futures have not `ended`.
pub open spec fn running(ended: Seq<bool>) -> int
    decreases ended.len(),
{
    if ended.len() == 0 {
        0
    } else {
        running(ended.drop_last()) + if ended.last() {
            0int
        } else {
            1
        }
    }
}

proof fn lemma_running(futures: Seq<Seq<CountStep>>, ended: Seq<bool>)
    requires
        futures.len() == ended.len(),
        forall|i: int| 0 <= i < futures.len() ==> steps_of_future(#[trigger] futures[i], ended[i]),
    ensures
        net(joined(futures)) == running(ended),
        0 <= running(ended) <= ended.len(),
        running(ended) == 0 <==> forall|i: int| 0 <= i < ended.len() ==> #[trigger] ended[i],
    decreases futures.len(),
{
    if futures.len() > 0 {
        let earlier = ended.drop_last();
        let fewer = futures.drop_last();
        let last = futures.last();
        assert forall|i: int| 0 <= i < fewer.len() implies steps_of_future(
            #[trigger] fewer[i],
            earlier[i],
        ) by {
            assert(fewer[i] == futures[i]);
        }
        lemma_running(fewer, earlier);
        lemma_net_add(joined(fewer), last);
        assert(steps_of_future(futures[futures.len() - 1], ended.last()));
        assert(net(last) == if ended.last() {
            0int
        } else {
            1
        }) by {
            reveal_with_fuel(net, 3);
        }
        assert(forall|i: int| 0 <= i < earlier.len() ==> earlier[i] == #[trigger] ended[i]);
        if running(ended) == 0 {
            assert forall|i: int| 0 <= i < ended.len() implies #[trigger] ended[i] by {
                if i < earlier.len() {
                    assert(earlier[i]);
                }
            }
        }
        if forall|i: int| 0 <= i < ended.len() ==> #[trigger] ended[i] {
            assert forall|i: int| 0 <= i < earlier.len() implies #[trigger] earlier[i] by {
                assert(ended[i]);
            }
            assert(ended[ended.len() - 1]);
        }
    }
}

/// A batch cannot end before each of its futures has: the counter shows how many of them have not, and
/// so lets the batch end exactly when all have. Its steps are those that were made for the futures, in
/// whichever order they took effect.
pub proof fn law_batch_waits_for_each_future(
    counter: AtomMonitor<u64>,
    futures: Seq<Seq<CountStep>>,
    ended: Seq<bool>,
    steps: Seq<CountStep>,
    count: u64,
)
    requires
        futures.len() == ended.len() <= u64::MAX,
        forall|i: int| 0 <= i < futures.len() ==> steps_of_future(#[trigger] futures[i], ended[i]),
        steps.to_multiset() == joined(futures).to_multiset(),
        counted(counter, steps, count),
    ensures
        count == running(ended),
        all_complete(count) <==> forall|i: int| 0 <= i < ended.len() ==> #[trigger] ended[i],
{
    lemma_running(futures, ended);
    lemma_net_in_any_order(steps, joined(futures));
    law_batch_ends_when_all_complete(counter, steps, count);
}

/// A wrapped future was counted once when it was wrapped, and is counted off once when it completes.
pub proof fn law_future_is_counted_until_it_completes<F>(
    scope: Scope,
    wrapped: Wrapped<F>,
    over: Wrapped<F>,
    step: CountStep,
)
    requires
        wrapped.begun_in(scope),
        !step.up(),
        over.steps() == wrapped.steps().push(step),
    ensures
        steps_of_future(wrapped.steps(), false),
        steps_of_future(over.steps(), true),
{
}

/// Over its polls a wrapped future stays counted as long as it is not ready, and is counted off, once, by
/// the poll in which it completes, whether with success or failure: that poll completes with success.
pub proof fn law_wrapped_future_completes_with_its_future<F>(
    scope: Scope,
    states: Seq<Wrapped<F>>,
    gave: Seq<Result<Async<()>, ()>>,
    polls: Seq<WrappedPoll>,
    k: int,
)
    requires
        states.len() == polls.len() + 1,
        gave.len() == polls.len(),
        states[0].begun_in(scope),
        forall|j: int|
            0 <= j < polls.len() ==> (#[trigger] states[j]).answered(
                states[j + 1],
                gave[j],
                polls[j],
            ),
        0 <= k < polls.len(),
        forall|j: int| 0 <= j < k ==> #[trigger] gave[j] == Ok::<Async<()>, ()>(Async::NotReady),
    ensures
        steps_of_future(states[k].steps(), false),
        polls[k].answer is Ok,
        polls[k].answer == Ok::<Async<()>, ()>(Async::NotReady) <==> gave[k] == Ok::<
            Async<()>,
            (),
        >(Async::NotReady),
        steps_of_future(
            states[k + 1].steps(),
            gave[k] != Ok::<Async<()>, ()>(Async::NotReady),
        ),
        states[k + 1].has_ended() <==> gave[k] != Ok::<Async<()>, ()>(Async::NotReady),
        states[k + 1].counter() == scope.counter(),
    decreases k,
{
    assert(states[k].answered(states[k + 1], gave[k], polls[k]));
    if k > 0 {
        law_wrapped_future_completes_with_its_future(scope, states, gave, polls, k - 1);
        assert(gave[k - 1] == Ok::<Async<()>, ()>(Async::NotReady));
    }
}

} // verus!
