//! The round-robin multi channel.
use atomicmonitor::AtomMonitor;
use vstd::prelude::*;

use crate::channel::{BitAssigner, Channel, Exec, ExecParam, NotEnoughBits};
use crate::shared::{draw_next, new_roll, TicketRoll};
use crate::task::RunningTask;

verus! {

/// The ticket after `ticket`. Tickets start over at zero when they run out.
pub open spec fn next_ticket(ticket: usize) -> usize {
    if ticket == usize::MAX {
        0
    } else {
        (ticket + 1) as usize
    }
}

/// The place that a ticket leads to among `count` places.
pub open spec fn slot(ticket: usize, count: nat) -> int {
    ticket as int % count as int
}

/// How many bits the first `count` of `channels` maintain together.
pub open spec fn bits_of_first<Inner: Channel>(channels: Seq<Inner>, count: nat) -> nat
    decreases count,
{
    if count == 0 {
        0
    } else {
        bits_of_first(channels, (count - 1) as nat) + channels[count - 1].bits_wanted()
    }
}

/// Whether `attempts` polls, each of the inner channel that the next ticket leads to, may take the
/// channels from `from` to `to`, and the ticket from `ticket` to `last`, and end with `task`. The
/// first task that is found ends the attempts.
pub open spec fn polls_in_turn<Inner: Channel>(
    from: Seq<Inner>,
    ticket: usize,
    attempts: nat,
    to: Seq<Inner>,
    last: usize,
    task: Option<RunningTask<Inner::Spawn>>,
) -> bool
    decreases attempts,
{
    if attempts == 0 {
        task is None && to == from && last == ticket
    } else {
        exists|polled: Inner, found: Option<RunningTask<Inner::Spawn>>|
            {
                &&& #[trigger] from[slot(ticket, from.len())].polled(polled, found)
                &&& if found is Some {
                    &&& task == found
                    &&& to == from.update(slot(ticket, from.len()), polled)
                    &&& last == next_ticket(ticket)
                } else {
                    polls_in_turn(
                        from.update(slot(ticket, from.len()), polled),
                        next_ticket(ticket),
                        (attempts - 1) as nat,
                        to,
                        last,
                        task,
                    )
                }
            }
    }
}

/// Whether `to` is what a claim of bits of `field`, from bit `from` on, leaves of `channels` when it is
/// channel `k` that is refused: those before it have their bits, and those after it are as they were.
pub open spec fn refused_at<Inner: Channel>(
    channels: Seq<Inner>,
    to: Seq<Inner>,
    field: AtomMonitor<u64>,
    from: nat,
    k: int,
) -> bool {
    let before = bits_of_first(channels, k as nat);
    let wanted = bits_of_first(channels, (k + 1) as nat);
    &&& before == 0 || from + before <= 64
    &&& wanted > 0 && from + wanted > 64
    &&& forall|i: int|
        0 <= i < k ==> (#[trigger] channels[i]).tied(
            to[i],
            field,
            from + bits_of_first(channels, i as nat),
        )
    &&& channels[k].refused(to[k], field, from + before)
    &&& forall|i: int| k < i < channels.len() ==> #[trigger] to[i] == channels[i]
}

/// The turns that the inner channels of a multi channel take.
pub struct Turns {
    roll: TicketRoll,
}

/// One search of the inner channels of a multi channel for a task.
pub struct Search {
    count: usize,
    left: usize,
}

impl Turns {
    /// The ticket that decides whose turn is next.
    pub closed spec fn ticket(&self) -> usize {
        self.roll.next()
    }

    /// Turns that start with the first channel.
    pub fn new() -> (turns: Self)
        ensures
            turns.ticket() == 0,
    {
        Turns { roll: new_roll(0) }
    }

    /// Draw a ticket, and find the place it leads to among `count` places.
    pub fn draw(&mut self, count: usize) -> (place: usize)
        requires
            count > 0,
        ensures
            place == slot(old(self).ticket(), count as nat),
            place < count,
            final(self).ticket() == next_ticket(old(self).ticket()),
    {
        let ticket = draw_next(&mut self.roll);
        ticket % count
    }
}

impl Search {
    /// How many channels there are.
    pub closed spec fn count(&self) -> usize {
        self.count
    }

    /// How many channels may still be polled.
    pub closed spec fn left(&self) -> usize {
        self.left
    }

    /// A search of `count` channels, which polls as many times as there are channels.
    pub fn new(count: usize) -> (search: Self)
        ensures
            search.count() == count,
            search.left() == count,
    {
        Search { count, left: count }
    }

    /// The place of the channel to poll next, unless the search is over.
    pub fn next(&mut self, turns: &mut Turns) -> (place: Option<usize>)
        requires
            old(self).left() <= old(self).count(),
        ensures
            final(self).count() == old(self).count(),
            match place {
                Some(place) => {
                    &&& old(self).left() > 0
                    &&& final(self).left() == old(self).left() - 1
                    &&& place == slot(old(turns).ticket(), old(self).count() as nat)
                    &&& place < old(self).count()
                    &&& final(turns).ticket() == next_ticket(old(turns).ticket())
                },
                None => {
                    &&& old(self).left() == 0
                    &&& final(self).left() == 0
                    &&& *final(turns) == *old(turns)
                },
            },
    {
        if self.left == 0 {
            return None;
        }
        self.left = self.left - 1;
        Some(turns.draw(self.count))
    }
}

/// A round-robin multi channel wrapper.
pub struct MultiChannel<Inner: Channel> {
    inner: Vec<Inner>,
    index: Turns,
}

impl<Inner: Channel> MultiChannel<Inner> {
    /// The inner channels.
    pub closed spec fn channels(&self) -> Seq<Inner> {
        self.inner@
    }

    /// The ticket that decides which inner channel is used next.
    pub closed spec fn ticket(&self) -> usize {
        self.index.ticket()
    }

    /// Every inner channel is in a valid state.
    pub open spec fn valid(&self) -> bool {
        forall|i: int| 0 <= i < self.channels().len() ==> (#[trigger] self.channels()[i]).wf()
    }

    /// The place of the inner channel that is used next.
    pub open spec fn next_slot(&self) -> int {
        slot(self.ticket(), self.channels().len())
    }

    pub fn from_vec(inner: Vec<Inner>) -> (channel: Self)
        ensures
            channel.channels() == inner@,
            channel.ticket() == 0,
    {
        MultiChannel { inner, index: Turns::new() }
    }

    /// A multi channel of `count` inner channels, each made by `factory`.
    pub fn new<F: Fn() -> Inner>(count: usize, factory: F) -> (channel: Self)
        requires
            count > 0 ==> factory.requires(()),
        ensures
            channel.channels().len() == count,
            channel.ticket() == 0,
            forall|i: int|
                0 <= i < count ==> factory.ensures((), #[trigger] channel.channels()[i]),
    {
        let mut vec: Vec<Inner> = Vec::new();
        let mut made: usize = 0;
        while made < count
            invariant
                count > 0 ==> factory.requires(()),
                made <= count,
                vec.len() == made,
                forall|i: int| 0 <= i < made ==> factory.ensures((), #[trigger] vec[i]),
            decreases count - made,
        {
            vec.push(factory());
            made = made + 1;
        }
        Self::from_vec(vec)
    }

    /// Draw a ticket, and find the place it leads to.
    fn draw(&mut self) -> (place: usize)
        requires
            old(self).channels().len() > 0,
        ensures
            place == old(self).next_slot(),
            place < old(self).channels().len(),
            final(self).channels() == old(self).channels(),
            final(self).ticket() == next_ticket(old(self).ticket()),
    {
        self.index.draw(self.inner.len())
    }
}

impl<Inner: Channel> Channel for MultiChannel<Inner> {
    type Spawn = Inner::Spawn;

    open spec fn wf(&self) -> bool {
        self.valid()
    }

    open spec fn bits_wanted(&self) -> nat {
        bits_of_first(self.channels(), self.channels().len())
    }

    open spec fn polled(self, next: Self, task: Option<RunningTask<Inner::Spawn>>) -> bool {
        polls_in_turn(
            self.channels(),
            self.ticket(),
            self.channels().len(),
            next.channels(),
            next.ticket(),
            task,
        )
    }

    open spec fn tied(self, next: Self, field: AtomMonitor<u64>, from: nat) -> bool {
        &&& next.ticket() == self.ticket()
        &&& next.channels().len() == self.channels().len()
        &&& forall|i: int|
            0 <= i < self.channels().len() ==> (#[trigger] self.channels()[i]).tied(
                next.channels()[i],
                field,
                from + bits_of_first(self.channels(), i as nat),
            )
    }

    open spec fn refused(self, next: Self, field: AtomMonitor<u64>, from: nat) -> bool {
        &&& next.ticket() == self.ticket()
        &&& next.channels().len() == self.channels().len()
        &&& exists|k: int|
            0 <= k < self.channels().len() && #[trigger] refused_at(
                self.channels(),
                next.channels(),
                field,
                from,
                k,
            )
    }

    fn assign_bits(&mut self, assigner: &mut BitAssigner) -> (r: Result<(), NotEnoughBits>) {
        let mut i: usize = 0;
        while i < self.inner.len()
            invariant
                i <= self.inner.len(),
                self.index == old(self).index,
                self.inner.len() == old(self).inner.len(),
                self.valid(),
                old(assigner).suffices_for(bits_of_first(old(self).channels(), i as nat)),
                old(assigner).dispatched(
                    *assigner,
                    bits_of_first(old(self).channels(), i as nat),
                ),
                *final(assigner.index) == *final(old(assigner).index),
                forall|j: int|
                    0 <= j < self.inner.len() ==> (#[trigger] self.channels()[j]).bits_wanted()
                        == old(self).channels()[j].bits_wanted(),
                forall|j: int|
                    i <= j < self.inner.len() ==> #[trigger] self.channels()[j] == old(
                        self,
                    ).channels()[j],
                forall|j: int|
                    0 <= j < i ==> (#[trigger] old(self).channels()[j]).tied(
                        self.channels()[j],
                        old(assigner).field(),
                        old(assigner).index() + bits_of_first(old(self).channels(), j as nat),
                    ),
            decreases self.inner.len() - i,
        {
            let ghost before = self.channels();
            let r = self.inner[i].assign_bits(assigner);
            proof {
                lemma_bits_monotonic(old(self).channels(), (i + 1) as nat, self.inner@.len());
                lemma_bits_agree(old(self).channels(), self.channels(), self.inner@.len());
            }
            if let Err(e) = r {
                assert(refused_at(
                    old(self).channels(),
                    self.channels(),
                    old(assigner).field(),
                    old(assigner).index(),
                    i as int,
                ));
                return Err(e);
            }
            i = i + 1;
        }
        proof {
            lemma_bits_agree(old(self).channels(), self.channels(), self.inner@.len());
        }
        Ok(())
    }

    /// Poll the inner channels in turn, as many times as there are inner channels, and return the
    /// first task that is found.
    fn poll(&mut self) -> (task: Option<RunningTask<Inner::Spawn>>) {
        let count: usize = self.inner.len();
        let mut search = Search::new(count);
        loop
            invariant
                search.count() == count,
                search.left() <= count,
                count == self.inner.len(),
                count == old(self).inner.len(),
                self.valid(),
                forall|j: int|
                    0 <= j < self.inner.len() ==> (#[trigger] self.channels()[j]).bits_wanted()
                        == old(self).channels()[j].bits_wanted(),
                forall|to: Seq<Inner>, last: usize, task: Option<RunningTask<Inner::Spawn>>|
                    #[trigger]
                    polls_in_turn(
                        self.channels(),
                        self.ticket(),
                        search.left() as nat,
                        to,
                        last,
                        task,
                    ) ==> polls_in_turn(
                        old(self).channels(),
                        old(self).ticket(),
                        count as nat,
                        to,
                        last,
                        task,
                    ),
            decreases search.left(),
        {
            let ghost from = self.channels();
            let ghost ticket = self.ticket();
            let ghost left = search.left() as nat;
            let place = match search.next(&mut self.index) {
                Some(place) => place,
                None => {
                    proof {
                        lemma_bits_agree(old(self).channels(), self.channels(), self.inner@.len());
                        assert(polls_in_turn(from, ticket, left, from, ticket, None));
                    }
                    return None;
                },
            };
            let found = self.inner[place].poll();
            let ghost polled = self.channels()[place as int];
            proof {
                assert(self.channels() =~= from.update(place as int, polled));
                assert(from[slot(ticket, from.len())].polled(polled, found));
                lemma_bits_agree(old(self).channels(), self.channels(), self.inner@.len());
            }
            if found.is_some() {
                assert(polls_in_turn(
                    from,
                    ticket,
                    left,
                    self.channels(),
                    self.ticket(),
                    found,
                ));
                return found;
            }
            proof {
                assert forall|to: Seq<Inner>, last: usize, task: Option<RunningTask<Inner::Spawn>>|
                    #[trigger]
                    polls_in_turn(
                        self.channels(),
                        self.ticket(),
                        search.left() as nat,
                        to,
                        last,
                        task,
                    ) implies polls_in_turn(
                    old(self).channels(),
                    old(self).ticket(),
                    count as nat,
                    to,
                    last,
                    task,
                ) by {
                    assert(polls_in_turn(from, ticket, left, to, last, task));
                }
            }
        }
    }
}

impl<Inner: Exec> Exec for MultiChannel<Inner> {
    open spec fn accepts(&self) -> bool {
        self.channels().len() > 0 && self.channels()[self.next_slot()].accepts()
    }

    open spec fn submitted(self, next: Self, task: RunningTask<Inner::Spawn>) -> bool {
        &&& next.ticket() == next_ticket(self.ticket())
        &&& next.channels() == self.channels().update(
            self.next_slot(),
            next.channels()[self.next_slot()],
        )
        &&& self.channels()[self.next_slot()].submitted(next.channels()[self.next_slot()], task)
    }

    fn submit(&mut self, task: RunningTask<Inner::Spawn>) {
        let place = self.draw();
        self.inner[place].submit(task);
        proof {
            lemma_bits_agree(old(self).channels(), self.channels(), self.inner@.len());
        }
    }
}

impl<Inner: ExecParam> ExecParam for MultiChannel<Inner> {
    type Param = Inner::Param;

    open spec fn accepts_param(&self, param: Inner::Param) -> bool {
        self.channels().len() > 0 && self.channels()[self.next_slot()].accepts_param(param)
    }

    open spec fn submitted_param(
        self,
        next: Self,
        task: RunningTask<Inner::Spawn>,
        param: Inner::Param,
    ) -> bool {
        &&& next.ticket() == next_ticket(self.ticket())
        &&& next.channels() == self.channels().update(
            self.next_slot(),
            next.channels()[self.next_slot()],
        )
        &&& self.channels()[self.next_slot()].submitted_param(
            next.channels()[self.next_slot()],
            task,
            param,
        )
    }

    fn submit(&mut self, task: RunningTask<Inner::Spawn>, param: Inner::Param) {
        let place = self.draw();
        self.inner[place].submit(task, param);
        proof {
            lemma_bits_agree(old(self).channels(), self.channels(), self.inner@.len());
        }
    }
}

proof fn lemma_bits_monotonic<Inner: Channel>(channels: Seq<Inner>, few: nat, many: nat)
    requires
        few <= many,
    ensures
        bits_of_first(channels, few) <= bits_of_first(channels, many),
    decreases many,
{
    if few < many {
        lemma_bits_monotonic(channels, few, (many - 1) as nat);
    }
}

proof fn lemma_bits_agree<Inner: Channel>(a: Seq<Inner>, b: Seq<Inner>, count: nat)
    requires
        count <= a.len(),
        count <= b.len(),
        forall|i: int| 0 <= i < count ==> (#[trigger] b[i]).bits_wanted() == a[i].bits_wanted(),
    ensures
        bits_of_first(b, count) == bits_of_first(a, count),
    decreases count,
{
    if count > 0 {
        lemma_bits_agree(a, b, (count - 1) as nat);
        assert(b[count - 1].bits_wanted() == a[count - 1].bits_wanted());
    }
}

} // verus!
