//! What the channels promise over several calls.
use atomicmonitor::AtomMonitor;
use vstd::prelude::*;

use crate::bits;
use crate::channel::fifo::VecDequeChannel;
use crate::channel::multi;
use crate::channel::multi::MultiChannel;
use crate::channel::sdf;
use crate::channel::sdf::ShortestDeadlineFirst;
use crate::channel::{BitAssigner, Channel, Exec, ExecParam};
use crate::status::field::FieldWrite;
use crate::moment::Moment;
use crate::ordered;
use crate::status::StatusBit;
use crate::task::RunningTask;

verus! {

/// What is done to a channel.
pub enum ChannelStep<S> {
    /// A task is submitted.
    Submit(RunningTask<S>),
    /// The channel is polled, and gives this.
    Poll(Option<RunningTask<S>>),
}

/// Whether `states` are what a FIFO channel goes through as `steps` are done.
pub open spec fn fifo_run<S>(
    states: Seq<VecDequeChannel<S>>,
    steps: Seq<ChannelStep<S>>,
) -> bool {
    &&& states.len() == steps.len() + 1
    &&& forall|k: int|
        0 <= k < steps.len() ==> match #[trigger] steps[k] {
            ChannelStep::Submit(task) => states[k].submitted(states[k + 1], task),
            ChannelStep::Poll(found) => states[k].polled(states[k + 1], found),
        }
}

/// The tasks that the first `k` of `steps` submit, in order.
pub open spec fn tasks_in<S>(steps: Seq<ChannelStep<S>>, k: int) -> Seq<RunningTask<S>>
    decreases k,
{
    if k <= 0 {
        Seq::empty()
    } else {
        match steps[k - 1] {
            ChannelStep::Submit(task) => tasks_in(steps, k - 1).push(task),
            ChannelStep::Poll(_) => tasks_in(steps, k - 1),
        }
    }
}

/// The tasks that the first `k` of `steps` hand out, in order.
pub open spec fn tasks_out<S>(steps: Seq<ChannelStep<S>>, k: int) -> Seq<RunningTask<S>>
    decreases k,
{
    if k <= 0 {
        Seq::empty()
    } else {
        match steps[k - 1] {
            ChannelStep::Poll(Some(task)) => tasks_out(steps, k - 1).push(task),
            _ => tasks_out(steps, k - 1),
        }
    }
}

/// However submissions and polls are mixed, a FIFO channel hands out each task once, in the order in
/// which they were submitted, after those that were there already: what was there at first and what
/// came in is what went out and what is there at last. A poll gives none only when nothing is left.
pub proof fn law_first_in_first_out<S>(
    states: Seq<VecDequeChannel<S>>,
    steps: Seq<ChannelStep<S>>,
    k: int,
)
    requires
        fifo_run(states, steps),
        0 <= k <= steps.len(),
    ensures
        states[0].pending() + tasks_in(steps, k) == tasks_out(steps, k) + states[k].pending(),
        k < steps.len() && steps[k] == ChannelStep::<S>::Poll(None) ==> tasks_out(steps, k)
            == states[0].pending() + tasks_in(steps, k),
    decreases k,
{
    if k > 0 {
        law_first_in_first_out(states, steps, k - 1);
        let (before, after) = (states[k - 1].pending(), states[k].pending());
        match steps[k - 1] {
            ChannelStep::Submit(task) => {
                assert(states[k - 1].submitted(states[k - 1 + 1], task));
                assert(states[0].pending() + tasks_in(steps, k) =~= (states[0].pending() + tasks_in(
                    steps,
                    k - 1,
                )).push(task));
                assert(tasks_out(steps, k) + after =~= (tasks_out(steps, k - 1) + before).push(
                    task,
                ));
            },
            ChannelStep::Poll(found) => {
                assert(states[k - 1].polled(states[k - 1 + 1], found));
                if before.len() > 0 {
                    assert(before =~= seq![before[0]] + before.drop_first());
                    assert(tasks_out(steps, k) + after =~= tasks_out(steps, k - 1) + before);
                }
            },
        }
    } else {
        assert(states[0].pending() + tasks_in(steps, 0) =~= tasks_out(steps, 0)
            + states[0].pending());
    }
    if k < steps.len() && steps[k] == ChannelStep::<S>::Poll(None) {
        assert(states[k].polled(states[k + 1], None));
        assert(tasks_out(steps, k) + states[k].pending() =~= tasks_out(steps, k));
    }
}

/// Two bits that were dispatched at different indices of the present field are different bits.
pub proof fn law_dispatched_bits_differ(first: StatusBit, from: u64, second: StatusBit, later: u64)
    requires
        from < later < 64,
        first.mask() == 1u64 << from,
        second.mask() == 1u64 << later,
    ensures
        bits::disjoint(first.mask(), second.mask()),
{
    assert forall|i: int| !(#[trigger] bits::has_bit(first.mask(), i) && bits::has_bit(
        second.mask(),
        i,
    )) by {
        bits::lemma_one_bit(from, i);
        bits::lemma_one_bit(later, i);
    }
}

/// Whether `writes` are the writes to `monitor`, a field that held nothing at first, in the order in
/// which they took effect, and `field` is what it holds after them.
pub open spec fn history(
    monitor: AtomMonitor<u64>,
    writes: Seq<FieldWrite>,
    field: u64,
) -> bool
    decreases writes.len(),
{
    if writes.len() == 0 {
        field == 0
    } else {
        &&& writes.last().field() == monitor
        &&& history(monitor, writes.drop_last(), writes.last().before())
        &&& forall|i: int| #[trigger]
            bits::has_bit(field, i) == if bits::has_bit(writes.last().mask(), i) {
                writes.last().value()
            } else {
                bits::has_bit(writes.last().before(), i)
            }
    }
}

/// The latest of `writes` that went to `mask`.
pub open spec fn latest(writes: Seq<FieldWrite>, mask: u64) -> Option<FieldWrite>
    decreases writes.len(),
{
    if writes.len() == 0 {
        None
    } else if writes.last().mask() == mask {
        Some(writes.last())
    } else {
        latest(writes.drop_last(), mask)
    }
}

/// The present field shows for each status bit whether its latest write raised it, as long as the
/// other bits are different ones.
pub proof fn law_field_shows_latest_writes(
    monitor: AtomMonitor<u64>,
    writes: Seq<FieldWrite>,
    field: u64,
    mask: u64,
)
    requires
        history(monitor, writes, field),
        forall|k: int|
            0 <= k < writes.len() ==> (#[trigger] writes[k]).mask() == mask || bits::disjoint(
                writes[k].mask(),
                mask,
            ),
        mask != 0,
    ensures
        bits::meets(field, mask) <==> (latest(writes, mask) matches Some(write) && write.value()),
    decreases writes.len(),
{
    if writes.len() == 0 {
        assert forall|i: int| !(#[trigger] bits::has_bit(field, i) && bits::has_bit(mask, i)) by {
            bits::lemma_zero_has_no_bit(i);
        }
    } else {
        let last = writes.last();
        assert(writes[writes.len() - 1] == last);
        if last.mask() == mask {
            let i = bits::lemma_nonzero_has_bit(mask);
            if last.value() {
                assert(bits::has_bit(field, i) && bits::has_bit(mask, i));
            } else {
                assert forall|j: int| !(#[trigger] bits::has_bit(field, j) && bits::has_bit(
                    mask,
                    j,
                )) by {}
            }
        } else {
            assert forall|k: int| 0 <= k < writes.drop_last().len() implies (
            #[trigger] writes.drop_last()[k]).mask() == mask || bits::disjoint(
                writes.drop_last()[k].mask(),
                mask,
            ) by {
                assert(writes.drop_last()[k] == writes[k]);
            }
            law_field_shows_latest_writes(monitor, writes.drop_last(), last.before(), mask);
            assert(bits::disjoint(last.mask(), mask));
            assert forall|i: int| bits::has_bit(mask, i) implies #[trigger] bits::has_bit(field, i)
                == bits::has_bit(last.before(), i) by {
                assert(!(bits::has_bit(last.mask(), i) && bits::has_bit(mask, i)));
            }
            if bits::meets(field, mask) {
                let i = choose|i: int| #[trigger]
                    bits::has_bit(field, i) && bits::has_bit(mask, i);
                assert(bits::has_bit(last.before(), i) && bits::has_bit(mask, i));
            }
            if bits::meets(last.before(), mask) {
                let i = choose|i: int| #[trigger]
                    bits::has_bit(last.before(), i) && bits::has_bit(mask, i);
                assert(bits::has_bit(field, i) && bits::has_bit(mask, i));
            }
        }
    }
}

/// The present field shows whether there are any tasks in a FIFO channel, when `writes` are the
/// writes to the field in the order in which they took effect, and no other bit is that of the
/// channel.
pub proof fn law_field_shows_fifo_tasks<S>(
    channel: VecDequeChannel<S>,
    writes: Seq<FieldWrite>,
    field: u64,
)
    requires
        channel.wf(),
        channel.bit().is_active(),
        history(channel.bit().field(), writes, field),
        latest(writes, channel.bit().mask()) == channel.bit().last_write(),
        forall|k: int|
            0 <= k < writes.len() ==> (#[trigger] writes[k]).mask() == channel.bit().mask()
                || bits::disjoint(writes[k].mask(), channel.bit().mask()),
    ensures
        bits::meets(field, channel.bit().mask()) <==> channel.pending().len() > 0,
{
    lemma_active_mask(channel.bit());
    law_field_shows_latest_writes(
        channel.bit().field(),
        writes,
        field,
        channel.bit().mask(),
    );
}

/// The present field shows whether there are any tasks in a deadline channel, when `writes` are the
/// writes to the field in the order in which they took effect, and no other bit is that of the
/// channel.
pub proof fn law_field_shows_deadline_tasks<S>(
    channel: ShortestDeadlineFirst<S>,
    writes: Seq<FieldWrite>,
    field: u64,
)
    requires
        channel.wf(),
        channel.bit().is_active(),
        history(channel.bit().field(), writes, field),
        latest(writes, channel.bit().mask()) == channel.bit().last_write(),
        forall|k: int|
            0 <= k < writes.len() ==> (#[trigger] writes[k]).mask() == channel.bit().mask()
                || bits::disjoint(writes[k].mask(), channel.bit().mask()),
    ensures
        bits::meets(field, channel.bit().mask()) <==> !channel.tasks().is_empty(),
{
    lemma_active_mask(channel.bit());
    law_field_shows_latest_writes(
        channel.bit().field(),
        writes,
        field,
        channel.bit().mask(),
    );
}

proof fn lemma_active_mask(bit: StatusBit)
    requires
        bit.wf(),
        bit.is_active(),
    ensures
        bit.mask() != 0,
{
    let index = choose|index: u64| index < 64 && bit.mask() == #[trigger] (1u64 << index);
    bits::lemma_one_bit(index, index as int);
    bits::lemma_zero_has_no_bit(index as int);
}

/// The ticket that is drawn `k` draws after `ticket`. Tickets start over at zero when they run out.
pub open spec fn nth_ticket(ticket: usize, k: int) -> usize {
    ((ticket + k) % (usize::MAX + 1)) as usize
}

/// Whether the turns of `count` draws from `ticket` on are even: tickets do not start over between
/// them, or they run out just as a round of turns ends.
pub open spec fn even_turns(ticket: usize, count: nat) -> bool {
    ticket + count <= usize::MAX + 1 || (usize::MAX + 1) % count as int == 0
}

/// As many even turns as there are places lead to every place exactly once.
pub proof fn law_turns_reach_every_place(ticket: usize, count: nat, place: int)
    requires
        0 <= place < count,
        even_turns(ticket, count),
    ensures
        exists|k: int|
            0 <= k < count && multi::slot(#[trigger] nth_ticket(ticket, k), count) == place,
        forall|j: int, k: int|
            0 <= j < k < count ==> multi::slot(#[trigger] nth_ticket(ticket, j), count)
                != multi::slot(#[trigger] nth_ticket(ticket, k), count),
{
    let n = count as int;
    let start = ticket as int % n;
    let k = if place >= start {
        place - start
    } else {
        place - start + n
    };
    lemma_turn(ticket as int, n, k);
    lemma_even_turn(ticket, count, k);
    assert(multi::slot(nth_ticket(ticket, k), count) == place);
    assert forall|j: int, k: int| 0 <= j < k < count implies multi::slot(
        #[trigger] nth_ticket(ticket, j),
        count,
    ) != multi::slot(#[trigger] nth_ticket(ticket, k), count) by {
        lemma_turn(ticket as int, n, j);
        lemma_turn(ticket as int, n, k);
        lemma_even_turn(ticket, count, j);
        lemma_even_turn(ticket, count, k);
    }
}

/// Where an even turn leads.
pub proof fn lemma_even_turn(ticket: usize, count: nat, k: int)
    requires
        0 <= k,
        count > 0,
        ticket + k <= usize::MAX || (usize::MAX + 1) % count as int == 0,
    ensures
        multi::slot(nth_ticket(ticket, k), count) == turn(ticket, k, count),
{
    let n = count as int;
    let all = usize::MAX + 1;
    let t = ticket + k;
    assert(0 <= t % all < all);
    if t <= usize::MAX {
        assert(t % all == t) by {
            vstd::arithmetic::div_mod::lemma_small_mod(t as nat, all as nat);
        }
    } else {
        vstd::arithmetic::div_mod::lemma_fundamental_div_mod(t, all);
        vstd::arithmetic::div_mod::lemma_fundamental_div_mod(all, n);
        let (q, m) = (t / all, all / n);
        assert(all * q == n * (m * q)) by (nonlinear_arith)
            requires
                all == n * m,
        ;
        vstd::arithmetic::div_mod::lemma_mod_multiples_vanish(m * q, t % all, n);
        assert(t == n * (m * q) + t % all);
    }
}

/// Where turn `k` from `ticket` leads among `n` places.
proof fn lemma_turn(ticket: int, n: int, k: int)
    requires
        0 <= ticket,
        0 <= k < n,
    ensures
        (ticket + k) % n == if ticket % n + k < n {
            ticket % n + k
        } else {
            ticket % n + k - n
        },
{
    let q = ticket / n;
    let r = ticket % n;
    assert(ticket == n * q + r && 0 <= r < n) by {
        vstd::arithmetic::div_mod::lemma_fundamental_div_mod(ticket, n);
    }
    if r + k < n {
        vstd::arithmetic::div_mod::lemma_fundamental_div_mod_converse(ticket + k, n, q, r + k);
    } else {
        assert(n * (q + 1) == n * q + n) by (nonlinear_arith);
        vstd::arithmetic::div_mod::lemma_fundamental_div_mod_converse(
            ticket + k,
            n,
            q + 1,
            r + k - n,
        );
    }
}

/// The place that turn `k` from `ticket` on leads to.
pub open spec fn turn(ticket: usize, k: int, count: nat) -> int {
    (ticket + k) % count as int
}

/// Submissions to a multi channel go to its inner channels in turn: each draws the next ticket, and
/// goes where the turn leads unless tickets have started over unevenly.
pub proof fn law_submissions_take_turns<Inner: Exec>(
    states: Seq<MultiChannel<Inner>>,
    tasks: Seq<RunningTask<Inner::Spawn>>,
    k: int,
)
    requires
        states.len() == tasks.len() + 1,
        states[0].channels().len() > 0,
        forall|j: int|
            0 <= j < tasks.len() ==> (#[trigger] states[j]).submitted(states[j + 1], tasks[j]),
        0 <= k <= tasks.len(),
    ensures
        states[k].channels().len() == states[0].channels().len(),
        states[k].ticket() == nth_ticket(states[0].ticket(), k),
        ({
            let (ticket, count) = (states[0].ticket(), states[0].channels().len());
            ticket + k <= usize::MAX || (usize::MAX + 1) % count as int == 0
                ==> states[k].next_slot() == turn(ticket, k, count)
        }),
    decreases k,
{
    let (ticket, count) = (states[0].ticket(), states[0].channels().len());
    if k > 0 {
        law_submissions_take_turns(states, tasks, k - 1);
        assert(states[k - 1].submitted(states[k - 1 + 1], tasks[k - 1]));
        assert(0 <= states[k - 1].next_slot() < states[k - 1].channels().len());
    }
    lemma_next_ticket(ticket, k);
    if ticket + k <= usize::MAX || (usize::MAX + 1) % count as int == 0 {
        lemma_even_turn(ticket, count, k);
    }
}

/// Each draw gives the ticket after the last one.
proof fn lemma_next_ticket(ticket: usize, k: int)
    requires
        0 <= k,
    ensures
        nth_ticket(ticket, 0) == ticket,
        k > 0 ==> nth_ticket(ticket, k) == multi::next_ticket(nth_ticket(ticket, k - 1)),
{
    let all = usize::MAX + 1;
    vstd::arithmetic::div_mod::lemma_small_mod(ticket as nat, all as nat);
    if k > 0 {
        let (q, r) = ((ticket + k - 1) / all, (ticket + k - 1) % all);
        vstd::arithmetic::div_mod::lemma_fundamental_div_mod(ticket + k - 1, all);
        assert(0 <= r < all);
        if r + 1 < all {
            vstd::arithmetic::div_mod::lemma_fundamental_div_mod_converse(
                ticket + k,
                all,
                q,
                r + 1,
            );
        } else {
            assert(all * (q + 1) == all * q + all) by (nonlinear_arith);
            vstd::arithmetic::div_mod::lemma_fundamental_div_mod_converse(
                ticket + k,
                all,
                q + 1,
                0,
            );
        }
    }
}

/// Whether `to` is what `turns` polls in turn from `ticket` on make of `from`. All of them miss but
/// the last, which gives `task`.
pub open spec fn polled_in_turns<Inner: Channel>(
    from: Seq<Inner>,
    ticket: usize,
    turns: int,
    to: Seq<Inner>,
    task: Option<RunningTask<Inner::Spawn>>,
) -> bool {
    &&& to.len() == from.len()
    &&& forall|j: int|
        0 <= j < turns ==> from[#[trigger] turn(ticket, j, from.len())].polled(
            to[turn(ticket, j, from.len())],
            if j == turns - 1 {
                task
            } else {
                None
            },
        )
    &&& forall|i: int|
        0 <= i < from.len() && (forall|j: int|
            0 <= j < turns ==> i != #[trigger] turn(ticket, j, from.len())) ==> #[trigger] to[i]
            == from[i]
}

/// As long as the turns are even, a poll of a multi channel polls inner channels in turn, each at
/// most once, until one gives a task or all were polled. Gives the number of turns.
pub proof fn law_polls_take_turns<Inner: Channel>(
    channel: MultiChannel<Inner>,
    next: MultiChannel<Inner>,
    task: Option<RunningTask<Inner::Spawn>>,
) -> (turns: int)
    requires
        channel.polled(next, task),
        even_turns(channel.ticket(), channel.channels().len()),
    ensures
        0 <= turns <= channel.channels().len(),
        task is None ==> turns == channel.channels().len(),
        task is Some ==> turns > 0,
        next.ticket() == nth_ticket(channel.ticket(), turns),
        polled_in_turns(channel.channels(), channel.ticket(), turns, next.channels(), task),
{
    lemma_polls_take_turns(
        channel.channels(),
        channel.ticket(),
        channel.channels().len(),
        next.channels(),
        next.ticket(),
        task,
    )
}

proof fn lemma_polls_take_turns<Inner: Channel>(
    from: Seq<Inner>,
    ticket: usize,
    attempts: nat,
    to: Seq<Inner>,
    last: usize,
    task: Option<RunningTask<Inner::Spawn>>,
) -> (turns: int)
    requires
        multi::polls_in_turn(from, ticket, attempts, to, last, task),
        attempts <= from.len(),
        ticket + attempts <= usize::MAX + 1 || (usize::MAX + 1) % from.len() as int == 0,
    ensures
        0 <= turns <= attempts,
        task is None ==> turns == attempts,
        task is Some ==> turns > 0,
        last == nth_ticket(ticket, turns),
        polled_in_turns(from, ticket, turns, to, task),
    decreases attempts,
{
    lemma_next_ticket(ticket, 1);
    if attempts == 0 {
        0
    } else {
        let n = from.len();
        let place = multi::slot(ticket, n);
        let (polled, found) = choose|polled: Inner, found: Option<RunningTask<Inner::Spawn>>|
            {
                &&& #[trigger] from[multi::slot(ticket, n)].polled(polled, found)
                &&& if found is Some {
                    &&& task == found
                    &&& to == from.update(multi::slot(ticket, n), polled)
                    &&& last == multi::next_ticket(ticket)
                } else {
                    multi::polls_in_turn(
                        from.update(multi::slot(ticket, n), polled),
                        multi::next_ticket(ticket),
                        (attempts - 1) as nat,
                        to,
                        last,
                        task,
                    )
                }
            };
        assert(turn(ticket, 0, n) == place);
        lemma_turn(ticket as int, n as int, 0);
        if found is Some {
            1
        } else {
            let after = from.update(place, polled);
            let later = multi::next_ticket(ticket);
            let rest = lemma_polls_take_turns(
                after,
                later,
                (attempts - 1) as nat,
                to,
                last,
                task,
            );
            let turns = rest + 1;
            assert forall|j: int| 0 <= j < rest implies #[trigger] turn(later, j, n) == turn(
                ticket,
                j + 1,
                n,
            ) by {
                lemma_later_turn(ticket, n, j);
            }
            lemma_later_tickets(ticket, rest);
            assert forall|j: int| 1 <= j < attempts implies #[trigger] turn(ticket, j, n) != place
                && 0 <= turn(ticket, j, n) < n by {
                lemma_turn(ticket as int, n as int, j);
            }
            assert(to[place] == polled) by {
                assert forall|j: int| 0 <= j < rest implies place != #[trigger] turn(
                    later,
                    j,
                    n,
                ) by {
                    assert(turn(later, j, n) == turn(ticket, j + 1, n));
                }
                assert(to[place] == after[place]);
            }
            assert forall|j: int| 0 <= j < turns implies from[#[trigger] turn(
                ticket,
                j,
                n,
            )].polled(
                to[turn(ticket, j, n)],
                if j == turns - 1 {
                    task
                } else {
                    None
                },
            ) by {
                if j > 0 {
                    assert(turn(later, j - 1, n) == turn(ticket, j, n));
                    assert(after[turn(ticket, j, n)] == from[turn(ticket, j, n)]);
                }
            }
            assert forall|i: int|
                0 <= i < n && (forall|j: int|
                    0 <= j < turns ==> i != #[trigger] turn(ticket, j, n)) implies #[trigger] to[i]
                == from[i] by {
                assert(i != turn(ticket, 0, n));
                assert forall|j: int| 0 <= j < rest implies i != #[trigger] turn(later, j, n) by {
                    assert(turn(later, j, n) == turn(ticket, j + 1, n));
                }
                assert(to[i] == after[i]);
            }
            turns
        }
    }
}

/// The turns that are left after the first are those from the next ticket on.
proof fn lemma_later_turn(ticket: usize, count: nat, j: int)
    requires
        0 <= j,
        count > 0,
        ticket < usize::MAX || (usize::MAX + 1) % count as int == 0,
    ensures
        turn(multi::next_ticket(ticket), j, count) == turn(ticket, j + 1, count),
{
    if ticket == usize::MAX {
        let all = usize::MAX + 1;
        let n = count as int;
        vstd::arithmetic::div_mod::lemma_fundamental_div_mod(all, n);
        vstd::arithmetic::div_mod::lemma_mod_multiples_vanish(all / n, j, n);
        assert(ticket + (j + 1) == n * (all / n) + j);
    }
}

/// The tickets that are drawn after the first are those from the next ticket on.
proof fn lemma_later_tickets(ticket: usize, k: int)
    requires
        0 <= k,
    ensures
        nth_ticket(multi::next_ticket(ticket), k) == nth_ticket(ticket, k + 1),
    decreases k,
{
    lemma_next_ticket(multi::next_ticket(ticket), k);
    lemma_next_ticket(ticket, k + 1);
    if k > 0 {
        lemma_later_tickets(ticket, k - 1);
    }
}

/// As long as the turns are even, a poll of a multi channel of FIFO channels finds a task if there
/// is one in any of them.
pub proof fn law_multi_finds_any<S>(
    channel: MultiChannel<VecDequeChannel<S>>,
    next: MultiChannel<VecDequeChannel<S>>,
    task: Option<RunningTask<S>>,
)
    requires
        channel.polled(next, task),
        even_turns(channel.ticket(), channel.channels().len()),
    ensures
        task is None <==> forall|i: int|
            0 <= i < channel.channels().len() ==> (
            #[trigger] channel.channels()[i]).pending().len() == 0,
{
    let n = channel.channels().len();
    let turns = law_polls_take_turns(channel, next, task);
    if task is None {
        assert forall|i: int| 0 <= i < n implies (
        #[trigger] channel.channels()[i]).pending().len() == 0 by {
            law_turns_reach_every_place(channel.ticket(), n, i);
            let k = choose|k: int|
                0 <= k < n && multi::slot(#[trigger] nth_ticket(channel.ticket(), k), n) == i;
            lemma_even_turn(channel.ticket(), n, k);
            assert(turn(channel.ticket(), k, n) == i);
        }
    } else {
        let last = turn(channel.ticket(), turns - 1, n);
        lemma_turn(channel.ticket() as int, n as int, turns - 1);
        assert(channel.channels()[last].polled(next.channels()[last], task));
        assert(channel.channels()[last].pending().len() > 0);
    }
}

/// As long as the turns are even, a poll of a multi channel of deadline channels finds a task if
/// there is one in any of them.
pub proof fn law_multi_finds_any_deadline<S>(
    channel: MultiChannel<ShortestDeadlineFirst<S>>,
    next: MultiChannel<ShortestDeadlineFirst<S>>,
    task: Option<RunningTask<S>>,
)
    requires
        channel.polled(next, task),
        even_turns(channel.ticket(), channel.channels().len()),
    ensures
        task is None <==> forall|i: int|
            0 <= i < channel.channels().len() ==> (
            #[trigger] channel.channels()[i]).tasks().is_empty(),
{
    let n = channel.channels().len();
    let turns = law_polls_take_turns(channel, next, task);
    if task is None {
        assert forall|i: int| 0 <= i < n implies (
        #[trigger] channel.channels()[i]).tasks().is_empty() by {
            law_turns_reach_every_place(channel.ticket(), n, i);
            let k = choose|k: int|
                0 <= k < n && multi::slot(#[trigger] nth_ticket(channel.ticket(), k), n) == i;
            lemma_even_turn(channel.ticket(), n, k);
            assert(turn(channel.ticket(), k, n) == i);
        }
    } else {
        let last = turn(channel.ticket(), turns - 1, n);
        lemma_turn(channel.ticket() as int, n as int, turns - 1);
        assert(channel.channels()[last].polled(next.channels()[last], task));
        let deadline = choose|deadline: i128| #[trigger]
            ordered::is_earliest(channel.channels()[last].tasks(), deadline);
        assert(channel.channels()[last].tasks().contains_key(deadline));
    }
}

/// A deadline channel hands out a task with the earliest deadline: nothing that stays behind has an
/// earlier one.
pub proof fn law_earliest_deadline_first<S>(
    channel: ShortestDeadlineFirst<S>,
    next: ShortestDeadlineFirst<S>,
    task: RunningTask<S>,
) -> (deadline: i128)
    requires
        channel.polled(next, Some(task)),
    ensures
        channel.tasks().contains_key(deadline),
        task == channel.tasks()[deadline][0],
        forall|other: i128| #[trigger] next.tasks().contains_key(other) ==> deadline <= other,
{
    let deadline = choose|deadline: i128|
        {
            &&& #[trigger] ordered::is_earliest(channel.tasks(), deadline)
            &&& task == channel.tasks()[deadline][0]
            &&& next.tasks() == sdf::without_front(channel.tasks(), deadline)
        };
    assert forall|other: i128| #[trigger] next.tasks().contains_key(other) implies deadline
        <= other by {
        assert(channel.tasks().contains_key(other));
    }
    deadline
}

/// A task that is submitted with a deadline before all others is the next to be handed out, and
/// leaves the channel as it was.
pub proof fn law_most_urgent_leaves_first<S>(
    channel: ShortestDeadlineFirst<S>,
    submitted: ShortestDeadlineFirst<S>,
    polled: ShortestDeadlineFirst<S>,
    task: RunningTask<S>,
    deadline: Moment,
    found: Option<RunningTask<S>>,
)
    requires
        forall|other: i128| #[trigger]
            channel.tasks().contains_key(other) ==> deadline.nanos < other,
        channel.submitted_param(submitted, task, deadline),
        submitted.polled(polled, found),
    ensures
        found == Some(task),
        polled.tasks() == channel.tasks(),
{
    let before = channel.tasks();
    let tasks = submitted.tasks();
    assert(tasks.contains_key(deadline.nanos));
    assert(!before.contains_key(deadline.nanos));
    assert(tasks[deadline.nanos] =~= seq![task]);
    let key = choose|key: i128|
        {
            &&& #[trigger] ordered::is_earliest(tasks, key)
            &&& found == Some(tasks[key][0])
            &&& polled.tasks() == sdf::without_front(tasks, key)
        };
    if key != deadline.nanos {
        assert(before.contains_key(key));
    }
    assert(polled.tasks() =~= before);
}

/// Tasks with the same deadline leave a deadline channel in the order in which they came: a task
/// that is submitted where others have the deadline already is not the next to leave.
pub proof fn law_same_deadline_in_order<S>(
    channel: ShortestDeadlineFirst<S>,
    submitted: ShortestDeadlineFirst<S>,
    polled: ShortestDeadlineFirst<S>,
    task: RunningTask<S>,
    deadline: Moment,
    found: Option<RunningTask<S>>,
)
    requires
        channel.wf(),
        ordered::is_earliest(channel.tasks(), deadline.nanos),
        channel.submitted_param(submitted, task, deadline),
        submitted.polled(polled, found),
    ensures
        found == Some(channel.tasks()[deadline.nanos][0]),
        polled.tasks()[deadline.nanos] == channel.tasks()[deadline.nanos].drop_first().push(task),
{
    let before = channel.tasks();
    let tasks = submitted.tasks();
    let here = before[deadline.nanos];
    assert(tasks.contains_key(deadline.nanos));
    assert(here.len() > 0);
    let key = choose|key: i128|
        {
            &&& #[trigger] ordered::is_earliest(tasks, key)
            &&& found == Some(tasks[key][0])
            &&& polled.tasks() == sdf::without_front(tasks, key)
        };
    if key != deadline.nanos {
        assert(before.contains_key(key));
    }
    assert(here.push(task).drop_first() =~= here.drop_first().push(task));
}

/// What is done to a deadline channel.
pub enum DeadlineStep<S> {
    /// A task is submitted with a deadline.
    Submit { task: RunningTask<S>, deadline: Moment },
    /// The channel is polled, and gives this.
    Poll(Option<RunningTask<S>>),
}

/// Whether `states` are what a deadline channel goes through as `steps` are done.
pub open spec fn deadline_run<S>(
    states: Seq<ShortestDeadlineFirst<S>>,
    steps: Seq<DeadlineStep<S>>,
) -> bool {
    &&& states.len() == steps.len() + 1
    &&& forall|k: int| 0 <= k < states.len() ==> (#[trigger] states[k]).wf()
    &&& forall|k: int|
        0 <= k < steps.len() ==> match #[trigger] steps[k] {
            DeadlineStep::Submit { task, deadline } => states[k].submitted_param(
                states[k + 1],
                task,
                deadline,
            ),
            DeadlineStep::Poll(found) => states[k].polled(states[k + 1], found),
        }
}

/// The tasks that are there for `deadline`, the first in front.
pub open spec fn there<S>(tasks: Map<i128, Seq<RunningTask<S>>>, deadline: i128) -> Seq<
    RunningTask<S>,
> {
    if tasks.contains_key(deadline) {
        tasks[deadline]
    } else {
        Seq::empty()
    }
}

/// The tasks that the first `k` of `steps` submit with `deadline`, in order.
pub open spec fn came<S>(steps: Seq<DeadlineStep<S>>, deadline: i128, k: int) -> Seq<RunningTask<S>>
    decreases k,
{
    if k <= 0 {
        Seq::empty()
    } else {
        match steps[k - 1] {
            DeadlineStep::Submit { task, deadline: given } => if given.nanos == deadline {
                came(steps, deadline, k - 1).push(task)
            } else {
                came(steps, deadline, k - 1)
            },
            DeadlineStep::Poll(_) => came(steps, deadline, k - 1),
        }
    }
}

/// The tasks with `deadline` that the first `k` of `steps` hand out, in order, when the task that step
/// `j` hands out has the deadline `of[j]`.
pub open spec fn went<S>(
    steps: Seq<DeadlineStep<S>>,
    of: Seq<i128>,
    deadline: i128,
    k: int,
) -> Seq<RunningTask<S>>
    decreases k,
{
    if k <= 0 {
        Seq::empty()
    } else {
        match steps[k - 1] {
            DeadlineStep::Poll(Some(task)) => if of[k - 1] == deadline {
                went(steps, of, deadline, k - 1).push(task)
            } else {
                went(steps, of, deadline, k - 1)
            },
            _ => went(steps, of, deadline, k - 1),
        }
    }
}

proof fn lemma_went_agree<S>(
    steps: Seq<DeadlineStep<S>>,
    a: Seq<i128>,
    b: Seq<i128>,
    deadline: i128,
    k: int,
)
    requires
        k <= a.len(),
        k <= b.len(),
        forall|j: int| 0 <= j < k ==> a[j] == b[j],
    ensures
        went(steps, a, deadline, k) == went(steps, b, deadline, k),
    decreases k,
{
    if k > 0 {
        lemma_went_agree(steps, a, b, deadline, k - 1);
    }
}

/// However submissions and polls are mixed, a deadline channel hands out each task once: for each
/// deadline, what was there at first and what came in is what went out and what is there at last, in
/// order. Every task that goes out has the earliest deadline of all that are there. A poll gives none
/// only when nothing is left. Gives the deadline of the task that each step hands out.
pub proof fn law_deadline_channel_loses_nothing<S>(
    states: Seq<ShortestDeadlineFirst<S>>,
    steps: Seq<DeadlineStep<S>>,
    k: int,
) -> (of: Seq<i128>)
    requires
        deadline_run(states, steps),
        0 <= k <= steps.len(),
    ensures
        of.len() == k,
        forall|deadline: i128| #[trigger]
            there(states[0].tasks(), deadline) + came(steps, deadline, k) == went(
                steps,
                of,
                deadline,
                k,
            ) + there(states[k].tasks(), deadline),
        forall|j: int, other: i128|
            0 <= j < k && (#[trigger] steps[j] matches DeadlineStep::Poll(Some(_)))
                && #[trigger] there(states[j].tasks(), other).len() > 0 ==> of[j] <= other,
        k < steps.len() && steps[k] == DeadlineStep::<S>::Poll(None) ==> forall|deadline: i128|
            (#[trigger] there(states[k].tasks(), deadline)).len() == 0,
    decreases k,
{
    let of = if k > 0 {
        let earlier = law_deadline_channel_loses_nothing(states, steps, k - 1);
        let (before, after) = (states[k - 1].tasks(), states[k].tasks());
        assert(states[k - 1].wf());
        let step = steps[k - 1];
        let here = match step {
            DeadlineStep::Poll(Some(task)) => choose|deadline: i128|
                {
                    &&& #[trigger] ordered::is_earliest(before, deadline)
                    &&& task == before[deadline][0]
                    &&& after == sdf::without_front(before, deadline)
                },
            _ => 0,
        };
        let of = earlier.push(here);
        match step {
            DeadlineStep::Submit { task, deadline } => {
                assert(states[k - 1].submitted_param(states[k - 1 + 1], task, deadline));
            },
            DeadlineStep::Poll(found) => {
                assert(states[k - 1].polled(states[k - 1 + 1], found));
            },
        }
        assert forall|deadline: i128| #[trigger]
            there(states[0].tasks(), deadline) + came(steps, deadline, k) == went(
                steps,
                of,
                deadline,
                k,
            ) + there(states[k].tasks(), deadline) by {
            lemma_went_agree(steps, earlier, of, deadline, k - 1);
            let first = there(states[0].tasks(), deadline);
            assert(first + came(steps, deadline, k - 1) == went(steps, earlier, deadline, k - 1)
                + there(before, deadline));
            match step {
                DeadlineStep::Submit { task, deadline: given } => {
                    if given.nanos == deadline {
                        assert(there(after, deadline) =~= there(before, deadline).push(task));
                        assert(first + came(steps, deadline, k) =~= (first + came(
                            steps,
                            deadline,
                            k - 1,
                        )).push(task));
                        assert(went(steps, of, deadline, k) + there(after, deadline) =~= (went(
                            steps,
                            earlier,
                            deadline,
                            k - 1,
                        ) + there(before, deadline)).push(task));
                    } else {
                        assert(there(after, deadline) =~= there(before, deadline));
                    }
                },
                DeadlineStep::Poll(Some(task)) => {
                    if here == deadline {
                        let all = there(before, deadline);
                        assert(before.contains_key(deadline));
                        assert(all.len() > 0);
                        assert(there(after, deadline) =~= all.drop_first());
                        assert(all =~= seq![task] + all.drop_first());
                        assert(went(steps, of, deadline, k) + there(after, deadline) =~= went(
                            steps,
                            earlier,
                            deadline,
                            k - 1,
                        ) + all);
                    } else {
                        assert(there(after, deadline) =~= there(before, deadline));
                    }
                },
                DeadlineStep::Poll(None) => {},
            }
        }
        assert forall|j: int, other: i128|
            0 <= j < k && (#[trigger] steps[j] matches DeadlineStep::Poll(Some(_)))
                && #[trigger] there(states[j].tasks(), other).len() > 0 implies of[j] <= other by {
            if j < k - 1 {
                assert(of[j] == earlier[j]);
            } else {
                assert(before.contains_key(other));
            }
        }
        of
    } else {
        assert forall|deadline: i128| #[trigger]
            there(states[0].tasks(), deadline) + came(steps, deadline, 0) == went(
                steps,
                Seq::<i128>::empty(),
                deadline,
                0,
            ) + there(states[0].tasks(), deadline) by {
            assert(there(states[0].tasks(), deadline) + came(steps, deadline, 0) =~= went(
                steps,
                Seq::<i128>::empty(),
                deadline,
                0,
            ) + there(states[0].tasks(), deadline));
        }
        Seq::empty()
    };
    if k < steps.len() && steps[k] == DeadlineStep::<S>::Poll(None) {
        assert(states[k].polled(states[k + 1], None));
        assert forall|deadline: i128| (#[trigger] there(states[k].tasks(), deadline)).len() == 0 by {
            assert(!states[k].tasks().contains_key(deadline));
        }
    }
    of
}

/// The 64 bits of a present field are dispatched one after the other, each once: of requests for a bit
/// each, to an assigner that has dispatched none, the first 64 are granted, and gets bit `k` the one that
/// `k` others came before. All later ones are refused.
pub proof fn law_64_bits_are_dispatched(states: Seq<BitAssigner>, k: int)
    requires
        states.len() > 0,
        states[0].index() == 0,
        forall|j: int|
            0 <= j < states.len() - 1 ==> (#[trigger] states[j]).dispatched(states[j + 1], 1),
        0 <= k < states.len(),
    ensures
        states[k].field() == states[0].field(),
        states[k].suffices_for(1) <==> k < 64,
        k <= 64 ==> states[k].index() == k,
        k > 64 ==> states[k].index() == 64,
    decreases k,
{
    if k > 0 {
        law_64_bits_are_dispatched(states, k - 1);
        assert(states[k - 1].dispatched(states[k - 1 + 1], 1));
    }
}

/// A request for several bits is granted exactly when as many requests for one bit each would be.
pub proof fn law_bits_are_granted_together(assigner: BitAssigner, next: BitAssigner, count: nat)
    requires
        assigner.index() <= 64,
        assigner.dispatched(next, count),
    ensures
        assigner.suffices_for(count) <==> count <= 64 - assigner.index(),
        assigner.suffices_for(count) ==> next.index() == assigner.index() + count,
        !assigner.suffices_for(count) ==> next.index() == 64,
        next.field() == assigner.field(),
{
}

/// A multi channel of FIFO channels maintains one bit for each of them, and the bits of a field that it
/// claims from bit `from` on are those of its inner channels, in order. No task moves as it does.
pub proof fn law_multi_claims_a_bit_for_each<S>(
    channel: MultiChannel<VecDequeChannel<S>>,
    next: MultiChannel<VecDequeChannel<S>>,
    field: AtomMonitor<u64>,
    from: nat,
    i: int,
)
    requires
        channel.tied(next, field, from),
        0 <= i < channel.channels().len(),
        from + channel.channels().len() <= 64,
    ensures
        channel.bits_wanted() == channel.channels().len(),
        next.channels().len() == channel.channels().len(),
        next.ticket() == channel.ticket(),
        next.channels()[i].bit().is_active(),
        next.channels()[i].bit().field() == field,
        next.channels()[i].bit().mask() == 1u64 << ((from + i) as u64),
        next.channels()[i].pending() == channel.channels()[i].pending(),
{
    lemma_one_bit_each(channel.channels(), channel.channels().len());
    lemma_one_bit_each(channel.channels(), i as nat);
    assert(channel.channels()[i].tied(
        next.channels()[i],
        field,
        from + multi::bits_of_first(channel.channels(), i as nat),
    ));
}

proof fn lemma_one_bit_each<S>(channels: Seq<VecDequeChannel<S>>, count: nat)
    ensures
        multi::bits_of_first(channels, count) == count,
    decreases count,
{
    if count > 0 {
        lemma_one_bit_each(channels, (count - 1) as nat);
    }
}

/// A task that is submitted to a multi channel of FIFO channels comes to stand last in the one whose turn
/// it is, and the others stay as they are.
pub proof fn law_submission_reaches_one_channel<S>(
    channel: MultiChannel<VecDequeChannel<S>>,
    next: MultiChannel<VecDequeChannel<S>>,
    task: RunningTask<S>,
    i: int,
)
    requires
        channel.channels().len() > 0,
        channel.submitted(next, task),
        0 <= i < channel.channels().len(),
    ensures
        next.channels().len() == channel.channels().len(),
        ({
            let turn = channel.ticket() as int % channel.channels().len() as int;
            next.channels()[i].pending() == if i == turn {
                channel.channels()[i].pending().push(task)
            } else {
                channel.channels()[i].pending()
            }
        }),
        i != channel.ticket() as int % channel.channels().len() as int ==> next.channels()[i]
            == channel.channels()[i],
{
}

/// A task that is submitted with a deadline to a multi channel of deadline channels comes to stand last
/// of those with that deadline in the one whose turn it is, and the others stay as they are.
pub proof fn law_deadline_submission_reaches_one_channel<S>(
    channel: MultiChannel<ShortestDeadlineFirst<S>>,
    next: MultiChannel<ShortestDeadlineFirst<S>>,
    task: RunningTask<S>,
    deadline: Moment,
    i: int,
    other: i128,
)
    requires
        channel.channels().len() > 0,
        channel.submitted_param(next, task, deadline),
        0 <= i < channel.channels().len(),
    ensures
        next.channels().len() == channel.channels().len(),
        next.ticket() == nth_ticket(channel.ticket(), 1),
        ({
            let turn = channel.ticket() as int % channel.channels().len() as int;
            let before = there(channel.channels()[i].tasks(), other);
            there(next.channels()[i].tasks(), other) == if i == turn && other == deadline.nanos {
                before.push(task)
            } else {
                before
            }
        }),
{
    lemma_next_ticket(channel.ticket(), 1);
    lemma_next_ticket(channel.ticket(), 0);
}

/// Whether `states` are what the inner channels of a multi channel go through as they are polled one by
/// one, the first of them that of `ticket`, and the last poll gives `task`: each poll is of the channel
/// that its ticket leads to, and leaves the others as they are.
pub open spec fn polls_one_by_one<Inner: Channel>(
    states: Seq<Seq<Inner>>,
    ticket: usize,
    task: Option<RunningTask<Inner::Spawn>>,
) -> bool {
    forall|j: int| 0 <= j < states.len() - 1 ==> #[trigger] polls_at(states, ticket, task, j)
}

/// Whether poll `j` takes the channels from state `j` to the next.
pub open spec fn polls_at<Inner: Channel>(
    states: Seq<Seq<Inner>>,
    ticket: usize,
    task: Option<RunningTask<Inner::Spawn>>,
    j: int,
) -> bool {
    let n = states[j].len() as int;
    let place = nth_ticket(ticket, j) as int % n;
    &&& states[j + 1].len() == n
    &&& states[j][place].polled(
        states[j + 1][place],
        if j == states.len() - 2 {
            task
        } else {
            None
        },
    )
    &&& forall|i: int| 0 <= i < n && i != place ==> #[trigger] states[j + 1][i] == states[j][i]
}

/// A poll of a multi channel polls inner channels, each as its ticket says, until one gives a task or as
/// many polls were made as there are channels, however tickets start over. Gives what the inner channels
/// go through.
pub proof fn law_poll_follows_tickets<Inner: Channel>(
    channel: MultiChannel<Inner>,
    next: MultiChannel<Inner>,
    task: Option<RunningTask<Inner::Spawn>>,
) -> (states: Seq<Seq<Inner>>)
    requires
        channel.polled(next, task),
    ensures
        1 <= states.len() <= channel.channels().len() + 1,
        states[0] == channel.channels(),
        states.last() == next.channels(),
        next.ticket() == nth_ticket(channel.ticket(), states.len() - 1),
        task is None ==> states.len() == channel.channels().len() + 1,
        task is Some ==> states.len() > 1,
        polls_one_by_one(states, channel.ticket(), task),
{
    lemma_poll_follows_tickets(
        channel.channels(),
        channel.ticket(),
        channel.channels().len(),
        next.channels(),
        next.ticket(),
        task,
    )
}

proof fn lemma_poll_follows_tickets<Inner: Channel>(
    from: Seq<Inner>,
    ticket: usize,
    attempts: nat,
    to: Seq<Inner>,
    last: usize,
    task: Option<RunningTask<Inner::Spawn>>,
) -> (states: Seq<Seq<Inner>>)
    requires
        multi::polls_in_turn(from, ticket, attempts, to, last, task),
        attempts <= from.len(),
    ensures
        1 <= states.len() <= attempts + 1,
        states[0] == from,
        states.last() == to,
        last == nth_ticket(ticket, states.len() - 1),
        task is None ==> states.len() == attempts + 1,
        task is Some ==> states.len() > 1,
        polls_one_by_one(states, ticket, task),
    decreases attempts,
{
    lemma_next_ticket(ticket, 0);
    if attempts == 0 {
        seq![from]
    } else {
        lemma_next_ticket(ticket, 1);
        let n = from.len();
        let place = multi::slot(ticket, n);
        let (polled, found) = choose|polled: Inner, found: Option<RunningTask<Inner::Spawn>>|
            {
                &&& #[trigger] from[multi::slot(ticket, n)].polled(polled, found)
                &&& if found is Some {
                    &&& task == found
                    &&& to == from.update(multi::slot(ticket, n), polled)
                    &&& last == multi::next_ticket(ticket)
                } else {
                    multi::polls_in_turn(
                        from.update(multi::slot(ticket, n), polled),
                        multi::next_ticket(ticket),
                        (attempts - 1) as nat,
                        to,
                        last,
                        task,
                    )
                }
            };
        let then_at = from.update(place, polled);
        if found is Some {
            let states = seq![from, then_at];
            assert(polls_at(states, ticket, task, 0));
            states
        } else {
            let later = multi::next_ticket(ticket);
            let rest = lemma_poll_follows_tickets(
                then_at,
                later,
                (attempts - 1) as nat,
                to,
                last,
                task,
            );
            let states = seq![from] + rest;
            lemma_later_tickets(ticket, rest.len() - 1);
            assert forall|j: int| 0 <= j < states.len() - 1 implies #[trigger] polls_at(
                states,
                ticket,
                task,
                j,
            ) by {
                if j == 0 {
                    assert(states[1] == rest[0]);
                } else {
                    assert(polls_at(rest, later, task, j - 1));
                    assert(states[j] == rest[j - 1]);
                    assert(states[j + 1] == rest[j - 1 + 1]);
                    lemma_later_tickets(ticket, j - 1);
                }
            }
            assert(states.last() == rest.last());
            states
        }
    }
}

/// A multi channel of FIFO channels that is refused its bits loses no task, and its turns stay as they
/// are.
pub proof fn law_refused_claim_loses_no_task<S>(
    channel: MultiChannel<VecDequeChannel<S>>,
    next: MultiChannel<VecDequeChannel<S>>,
    field: AtomMonitor<u64>,
    from: nat,
    i: int,
)
    requires
        channel.refused(next, field, from),
        0 <= i < channel.channels().len(),
    ensures
        next.ticket() == channel.ticket(),
        next.channels().len() == channel.channels().len(),
        next.channels()[i].pending() == channel.channels()[i].pending(),
{
    let k = choose|k: int|
        0 <= k < channel.channels().len() && #[trigger] multi::refused_at(
            channel.channels(),
            next.channels(),
            field,
            from,
            k,
        );
    if i < k {
        assert(channel.channels()[i].tied(
            next.channels()[i],
            field,
            from + multi::bits_of_first(channel.channels(), i as nat),
        ));
    }
}

} // verus!
