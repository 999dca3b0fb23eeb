//! What the two ends of a push future share.
use vstd::prelude::*;

use crate::run::Async;

verus! {

/// What the sending and the receiving end of a push future share. `L` are the tasks that listen for
/// the value.
#[derive(Debug)]
pub enum PushFutureInterior<I, E, L> {
    /// The value was pushed.
    Available { elem: Result<I, E> },
    /// The value was not pushed yet.
    Unavailable { listeners: Vec<L> },
    /// The value was received.
    Taken,
}

/// What a poll gives, of a value that is there.
pub open spec fn ready<I, E>(elem: Result<I, E>) -> Result<Async<I>, E> {
    match elem {
        Ok(item) => Ok(Async::Ready(item)),
        Err(error) => Err(error),
    }
}

/// The value that a poll found, if it found any.
pub open spec fn found<I, E>(polled: Result<Async<I>, E>) -> Option<Result<I, E>> {
    match polled {
        Ok(Async::Ready(item)) => Some(Ok(item)),
        Err(error) => Some(Err(error)),
        Ok(Async::NotReady) => None,
    }
}

/// Push futures are futures based on interior mutability and shared memory, where one tasks produces
/// a value, and sends it to another task. Gives what the two ends share at first.
pub fn push_future<I, E, L>() -> (interior: PushFutureInterior<I, E, L>)
    ensures
        interior matches PushFutureInterior::Unavailable { listeners } && listeners@.len() == 0,
{
    PushFutureInterior::Unavailable { listeners: Vec::new() }
}

impl<I, E, L> PushFutureInterior<I, E, L> {
    /// The tasks that listen for a value which was not pushed yet.
    pub open spec fn listeners(&self) -> Seq<L> {
        match self {
            PushFutureInterior::Unavailable { listeners } => listeners@,
            _ => Seq::empty(),
        }
    }

    /// Whether polling the receiving end, on behalf of the task `current`, takes this to `next`
    /// and gives `r`.
    pub open spec fn received(self, next: Self, current: L, r: Result<Async<I>, E>) -> bool {
        match self {
            PushFutureInterior::Available { elem } => next is Taken && r == ready(elem),
            PushFutureInterior::Unavailable { .. } => {
                &&& next is Unavailable
                &&& next.listeners() == self.listeners().push(current)
                &&& r == Ok::<Async<I>, E>(Async::NotReady)
            },
            PushFutureInterior::Taken => false,
        }
    }

    /// Whether polling the sending end, whose source gave `polled`, takes this to `next`, gives
    /// `r`, and notifies `notified`.
    pub open spec fn sent(
        self,
        next: Self,
        polled: Result<Async<I>, E>,
        r: Result<Async<()>, ()>,
        notified: Seq<L>,
    ) -> bool {
        match found(polled) {
            Some(elem) => {
                &&& self is Unavailable
                &&& next == (PushFutureInterior::<I, E, L>::Available { elem })
                &&& r == Ok::<Async<()>, ()>(Async::Ready(()))
                &&& notified == self.listeners()
            },
            None => {
                &&& next == self
                &&& r == Ok::<Async<()>, ()>(Async::NotReady)
                &&& notified.len() == 0
            },
        }
    }

    /// Poll the receiving end, on behalf of the task `current`. The value is received once.
    pub fn recv_poll(&mut self, current: L) -> (r: Result<Async<I>, E>)
        requires
            !(*old(self) is Taken),
        ensures
            old(self).received(*final(self), current, r),
    {
        let mut before = PushFutureInterior::Taken;
        std::mem::swap(self, &mut before);
        match before {
            PushFutureInterior::Available { elem } => match elem {
                Ok(item) => Ok(Async::Ready(item)),
                Err(error) => Err(error),
            },
            PushFutureInterior::Unavailable { listeners } => {
                let mut listeners = listeners;
                listeners.push(current);
                *self = PushFutureInterior::Unavailable { listeners };
                Ok(Async::NotReady)
            },
            PushFutureInterior::Taken => Ok(Async::NotReady),
        }
    }

    /// Poll the sending end, whose source gave `polled`. Gives what the poll answers, and the
    /// listeners to notify, in the order in which they came.
    pub fn send_poll(&mut self, polled: Result<Async<I>, E>) -> (r: (Result<Async<()>, ()>, Vec<L>))
        requires
            found(polled) is Some ==> *old(self) is Unavailable,
        ensures
            old(self).sent(*final(self), polled, r.0, r.1@),
    {
        let elem = match polled {
            Ok(Async::Ready(item)) => Ok(item),
            Err(error) => Err(error),
            Ok(Async::NotReady) => {
                return (Ok(Async::NotReady), Vec::new());
            },
        };
        let mut before = PushFutureInterior::Available { elem };
        std::mem::swap(self, &mut before);
        match before {
            PushFutureInterior::Unavailable { listeners } => (Ok(Async::Ready(())), listeners),
            _ => (Ok(Async::Ready(())), Vec::new()),
        }
    }
}

/// What the source of a push future gives is what is received, and it is received once.
pub proof fn law_pushed_value_is_received<I, E, L>(
    before: PushFutureInterior<I, E, L>,
    pushed: PushFutureInterior<I, E, L>,
    after: PushFutureInterior<I, E, L>,
    polled: Result<Async<I>, E>,
    answer: Result<Async<()>, ()>,
    notified: Seq<L>,
    current: L,
    received: Result<Async<I>, E>,
)
    requires
        before.sent(pushed, polled, answer, notified),
        found(polled) is Some,
        pushed.received(after, current, received),
    ensures
        received == polled,
        after is Taken,
{
}

/// Every task that polled the receiving end before the value was pushed is notified when it is, in
/// the order in which they polled.
pub proof fn law_every_listener_is_notified<I, E, L>(
    states: Seq<PushFutureInterior<I, E, L>>,
    tasks: Seq<L>,
    pushed: PushFutureInterior<I, E, L>,
    polled: Result<Async<I>, E>,
    answer: Result<Async<()>, ()>,
    notified: Seq<L>,
)
    requires
        states.len() == tasks.len() + 1,
        states[0] is Unavailable,
        states[0].listeners().len() == 0,
        forall|k: int|
            0 <= k < tasks.len() ==> (#[trigger] states[k]).received(
                states[k + 1],
                tasks[k],
                Ok(Async::NotReady),
            ),
        found(polled) is Some,
        states.last().sent(pushed, polled, answer, notified),
    ensures
        notified == tasks,
{
    lemma_listeners(states, tasks, tasks.len() as int);
    assert(tasks.take(tasks.len() as int) =~= tasks);
}

proof fn lemma_listeners<I, E, L>(
    states: Seq<PushFutureInterior<I, E, L>>,
    tasks: Seq<L>,
    k: int,
)
    requires
        states.len() == tasks.len() + 1,
        states[0] is Unavailable,
        states[0].listeners().len() == 0,
        forall|j: int|
            0 <= j < tasks.len() ==> (#[trigger] states[j]).received(
                states[j + 1],
                tasks[j],
                Ok(Async::NotReady),
            ),
        0 <= k <= tasks.len(),
    ensures
        states[k] is Unavailable,
        states[k].listeners() == tasks.take(k),
    decreases k,
{
    if k > 0 {
        lemma_listeners(states, tasks, k - 1);
        assert(states[k - 1].received(states[k - 1 + 1], tasks[k - 1], Ok(Async::NotReady)));
        assert(tasks.take(k) =~= tasks.take(k - 1).push(tasks[k - 1]));
    } else {
        assert(states[0].listeners() =~= tasks.take(0));
    }
}

/// Before a value was pushed, a poll of the receiving end gives none, and keeps the listeners that came
/// before. A poll of the sending end whose source is not ready pushes nothing and notifies nobody, and the
/// sending end is ready exactly when its source is, whether with a value or with an error.
pub proof fn law_nothing_is_received_before_it_was_pushed<I, E, L>(
    before: PushFutureInterior<I, E, L>,
    after: PushFutureInterior<I, E, L>,
    current: L,
    received: Result<Async<I>, E>,
    polled: Result<Async<I>, E>,
    answer: Result<Async<()>, ()>,
    notified: Seq<L>,
)
    ensures
        before is Unavailable && before.received(after, current, received) ==> {
            &&& received == Ok::<Async<I>, E>(Async::NotReady)
            &&& after is Unavailable
            &&& after.listeners().drop_last() == before.listeners()
            &&& after.listeners().last() == current
        },
        before.sent(after, polled, answer, notified) ==> {
            &&& answer == Ok::<Async<()>, ()>(Async::NotReady) <==> polled == Ok::<Async<I>, E>(
                Async::NotReady,
            )
            &&& answer == Ok::<Async<()>, ()>(Async::Ready(())) <==> polled != Ok::<Async<I>, E>(
                Async::NotReady,
            )
            &&& polled == Ok::<Async<I>, E>(Async::NotReady) ==> after == before && notified.len()
                == 0
        },
{
    if before is Unavailable && before.received(after, current, received) {
        assert(after.listeners().drop_last() =~= before.listeners());
    }
}

} // verus!
