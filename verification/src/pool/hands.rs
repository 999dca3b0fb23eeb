//! What a worker changes the shared values of its pool with.
use vstd::prelude::*;

use crate::pool::layout::Level;
use crate::pool::{Pool, PoolBehavior};
use crate::shared::{CountHandle, CountStep, Ticket, TicketHandle};

verus! {

/// The handles of one worker to the tickets of each level and to the close counter, which remember
/// what the worker did.
pub struct Hands {
    pub levels: Vec<TicketHandle>,
    pub levels_shutdown: Vec<TicketHandle>,
    pub close_counter: CountHandle,
}

/// Whether `handles` are handles to the tickets of `levels`.
pub open spec fn handles_of<Key>(handles: Seq<TicketHandle>, levels: Seq<Level<Key>>) -> bool {
    &&& handles.len() == levels.len()
    &&& forall|l: int|
        0 <= l < levels.len() ==> (#[trigger] handles[l]).cell() == levels[l].channel_index.cell()
}

/// Whether no ticket was drawn through any of `handles`.
pub open spec fn untouched(handles: Seq<TicketHandle>) -> bool {
    forall|l: int|
        0 <= l < handles.len() ==> (#[trigger] handles[l]).tickets() == Seq::<Ticket>::empty()
}

/// Whether one ticket was drawn through the handle to `level`, which was `ticket`, and the other
/// handles were left alone.
pub open spec fn drew_in(
    handles: Seq<TicketHandle>,
    next: Seq<TicketHandle>,
    level: int,
    ticket: Ticket,
) -> bool {
    &&& handles[level].drew(next[level], ticket)
    &&& next == handles.update(level, next[level])
}

impl Hands {
    /// Whether these are handles to the shared values of `pool`.
    pub open spec fn of<Behavior: PoolBehavior>(&self, pool: Pool<Behavior>) -> bool {
        &&& handles_of(self.levels@, pool.levels@)
        &&& handles_of(self.levels_shutdown@, pool.levels_shutdown@)
        &&& self.close_counter.counter() == pool.close_counter.counter()
    }

    /// Whether nothing was done with them yet.
    pub open spec fn fresh(&self) -> bool {
        &&& untouched(self.levels@)
        &&& untouched(self.levels_shutdown@)
        &&& self.close_counter.steps() == Seq::<CountStep>::empty()
    }

    /// Whether `next` are these hands after one ticket of `level` was drawn, and nothing else was
    /// done.
    pub open spec fn drew(self, next: Self, level: int, ticket: Ticket) -> bool {
        &&& drew_in(self.levels@, next.levels@, level, ticket)
        &&& next.levels_shutdown == self.levels_shutdown
        &&& next.close_counter == self.close_counter
    }

    /// Whether `next` are these hands after one ticket of the shutdown level `level` was drawn, and
    /// nothing else was done.
    pub open spec fn drew_shutdown(self, next: Self, level: int, ticket: Ticket) -> bool {
        &&& drew_in(self.levels_shutdown@, next.levels_shutdown@, level, ticket)
        &&& next.levels == self.levels
        &&& next.close_counter == self.close_counter
    }

    /// Whether `next` are these hands after the step of the close counter, if there was one, and
    /// nothing else was done.
    pub open spec fn counted(self, next: Self, step: Option<CountStep>) -> bool {
        &&& next.levels == self.levels
        &&& next.levels_shutdown == self.levels_shutdown
        &&& match step {
            Some(step) => self.close_counter.counted(next.close_counter, step),
            None => next.close_counter == self.close_counter,
        }
    }
}

/// Whether `next` is `level` after one handle to its tickets was given out, and nothing else was done.
pub open spec fn gave_handle<Key>(level: Level<Key>, next: Level<Key>) -> bool {
    &&& next.mask == level.mask
    &&& next.channels == level.channels
    &&& next.started == level.started
    &&& next.channel_index.cell() == level.channel_index.cell()
    &&& next.channel_index.handed() == level.channel_index.handed() + 1
}

/// Whether `next` are `levels` after one handle to the tickets of each was given out, and nothing else
/// was done.
pub open spec fn gave_handles<Key>(levels: Seq<Level<Key>>, next: Seq<Level<Key>>) -> bool {
    &&& next.len() == levels.len()
    &&& forall|l: int| 0 <= l < levels.len() ==> gave_handle(levels[l], #[trigger] next[l])
}

/// Handles to the tickets of `levels`, through which no ticket was drawn yet.
fn ticket_handles<Key>(levels: &mut Vec<Level<Key>>) -> (handles: Vec<TicketHandle>)
    ensures
        gave_handles(old(levels)@, final(levels)@),
        handles_of(handles@, final(levels)@),
        untouched(handles@),
{
    let mut handles: Vec<TicketHandle> = Vec::new();
    let mut l: usize = 0;
    while l < levels.len()
        invariant
            l <= levels.len(),
            levels.len() == old(levels).len(),
            forall|k: int| 0 <= k < l ==> gave_handle(old(levels)@[k], #[trigger] levels@[k]),
            forall|k: int| l <= k < levels.len() ==> #[trigger] levels@[k] == old(levels)@[k],
            handles.len() == l,
            forall|k: int|
                0 <= k < l ==> (#[trigger] handles@[k]).cell() == levels@[k].channel_index.cell(),
            untouched(handles@),
        decreases levels.len() - l,
    {
        let level = &mut levels[l];
        handles.push(level.channel_index.handle());
        l = l + 1;
    }
    handles
}

impl<Behavior: PoolBehavior> Pool<Behavior> {
    /// Whether `next` is this pool after the hands of one worker were given out, and nothing else was
    /// done.
    pub open spec fn gave_hands(&self, next: Self) -> bool {
        &&& next.behavior == self.behavior
        &&& next.lifecycle_state == self.lifecycle_state
        &&& next.present_field == self.present_field
        &&& gave_handles(self.levels@, next.levels@)
        &&& gave_handles(self.levels_shutdown@, next.levels_shutdown@)
        &&& next.complete_shutdown_mask == self.complete_shutdown_mask
        &&& next.close_counter.counter() == self.close_counter.counter()
        &&& next.close_counter.handed() == self.close_counter.handed() + 1
    }

    /// The hands of one worker. A pool gives them out before its workers share it.
    pub fn hands(&mut self) -> (hands: Hands)
        ensures
            old(self).gave_hands(*final(self)),
            old(self).wf() ==> final(self).wf(),
            hands.of(*final(self)),
            hands.fresh(),
    {
        let levels = ticket_handles(&mut self.levels);
        let levels_shutdown = ticket_handles(&mut self.levels_shutdown);
        Hands { levels, levels_shutdown, close_counter: self.close_counter.handle() }
    }
}

/// A draw of a level takes one ticket of that level, and none of any other level, and leaves the close
/// counter alone; what settles a poll makes the step that it tells of, or none, and draws no ticket.
pub proof fn law_hands_do_what_they_tell(
    hands: Hands,
    next: Hands,
    level: int,
    ticket: Ticket,
    step: Option<CountStep>,
    l: int,
)
    requires
        0 <= level < hands.levels@.len(),
        0 <= l < hands.levels@.len(),
    ensures
        hands.drew(next, level, ticket) ==> {
            &&& next.levels@.len() == hands.levels@.len()
            &&& next.levels@[l].cell() == hands.levels@[l].cell()
            &&& l == level ==> next.levels@[l].tickets() == hands.levels@[l].tickets() + seq![ticket]
            &&& l != level ==> next.levels@[l].tickets() == hands.levels@[l].tickets()
            &&& next.levels_shutdown == hands.levels_shutdown
            &&& next.close_counter.steps() == hands.close_counter.steps()
        },
        hands.counted(next, step) ==> {
            &&& next.levels == hands.levels
            &&& next.levels_shutdown == hands.levels_shutdown
            &&& next.close_counter.counter() == hands.close_counter.counter()
            &&& step is None ==> next.close_counter.steps() == hands.close_counter.steps()
            &&& step matches Some(made) ==> made.counter() == hands.close_counter.counter()
                && next.close_counter.steps() == hands.close_counter.steps() + seq![made]
        },
{
}

/// A draw of a shutdown level takes one ticket of that level, and none of any other.
pub proof fn law_hands_draw_one_shutdown_ticket(
    hands: Hands,
    next: Hands,
    level: int,
    ticket: Ticket,
    l: int,
)
    requires
        0 <= level < hands.levels_shutdown@.len(),
        0 <= l < hands.levels_shutdown@.len(),
        hands.drew_shutdown(next, level, ticket),
    ensures
        next.levels_shutdown@.len() == hands.levels_shutdown@.len(),
        l == level ==> next.levels_shutdown@[l].tickets() == hands.levels_shutdown@[l].tickets()
            + seq![ticket],
        l != level ==> next.levels_shutdown@[l].tickets() == hands.levels_shutdown@[l].tickets(),
        next.levels == hands.levels,
        next.close_counter.steps() == hands.close_counter.steps(),
{
}

} // verus!
