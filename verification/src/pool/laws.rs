//! What a pool promises over several calls.
use atomicmonitor::AtomMonitor;
use vstd::prelude::*;

use crate::bits;
use crate::channel::laws as channel_laws;
use crate::moment::StdDuration;
use crate::pool;
use crate::pool::close;
use crate::pool::close::{CloseGoal, Closing};
use crate::pool::followup;
use crate::pool::followup::{AfterPoll, AfterYield};
use crate::pool::layout;
use crate::pool::layout::{ChannelIdentifier, Level, Turn};
use crate::pool::lifecycle::{LifecycleExchange, LifecycleHandle};
use crate::pool::owned;
use crate::pool::owned::OwnedPool;
use crate::pool::steps::Settled;
use crate::pool::worker;
use crate::pool::worker::{HighestFirst, RoundRobin};
use crate::pool::{
    ChannelParams, LifecycleState, NewPoolError, Pool, PoolBehavior, PoolConfig, PriorityLevel,
    ScheduleAlgorithm, WorkerSchedule,
};
use crate::scoped;
use crate::shared::CountStep;

verus! {

/// One poll of a task: what became of its status if it was not ready, whether it came from a
/// channel that is completed on close, and what the worker saw of the lifecycle.
pub struct PollRecord {
    pub yielded: Option<AfterYield>,
    pub critical: bool,
    pub lifecycle: LifecycleState,
}

/// Whether a new task is counted after `polls`.
pub open spec fn counted_after(polls: Seq<PollRecord>) -> bool
    decreases polls.len(),
{
    if polls.len() == 0 {
        false
    } else {
        let last = polls.last();
        followup::after_poll(
            counted_after(polls.drop_last()),
            last.yielded,
            last.critical,
            last.lifecycle,
        ).0
    }
}

/// What `polls` of a new task add to the close counter.
pub open spec fn added(polls: Seq<PollRecord>) -> int
    decreases polls.len(),
{
    if polls.len() == 0 {
        0
    } else {
        let last = polls.last();
        added(polls.drop_last()) + match followup::after_poll(
            counted_after(polls.drop_last()),
            last.yielded,
            last.critical,
            last.lifecycle,
        ).1 {
            AfterPoll::Leave { count } => if count {
                1int
            } else {
                0
            },
            AfterPoll::PollAgain => 0,
            AfterPoll::Finish(completion) => if completion.uncount {
                -1int
            } else {
                0
            },
        }
    }
}

/// A task is on the close counter once from the first time it is left to be woken, if it came from
/// a channel that is completed on close, until it is complete. It is never taken off before it was
/// added.
pub proof fn law_counted_until_complete(polls: Seq<PollRecord>)
    requires
        polls_of_task(polls),
    ensures
        added(polls) == if polls.len() > 0 && polls.last().yielded is None {
            0int
        } else if counted_after(polls) {
            1
        } else {
            0
        },
        counted_after(polls) <==> exists|k: int|
            0 <= k < polls.len() && (#[trigger] polls[k]).yielded == Some(AfterYield::Leave)
                && polls[k].critical,
    decreases polls.len(),
{
    if polls.len() > 0 {
        let earlier = polls.drop_last();
        assert forall|k: int| 0 <= k < earlier.len() implies (
        #[trigger] earlier[k]).yielded is Some by {
            assert(earlier[k] == polls[k]);
        }
        law_counted_until_complete(earlier);
        if earlier.len() > 0 {
            assert(earlier.last() == polls[earlier.len() - 1]);
        }
        if counted_after(earlier) {
            let k = choose|k: int|
                0 <= k < earlier.len() && (#[trigger] earlier[k]).yielded == Some(AfterYield::Leave)
                    && earlier[k].critical;
            assert(polls[k] == earlier[k]);
        }
        assert(polls[polls.len() - 1] == polls.last());
        if exists|k: int|
            0 <= k < polls.len() && (#[trigger] polls[k]).yielded == Some(AfterYield::Leave)
                && polls[k].critical {
            let k = choose|k: int|
                0 <= k < polls.len() && (#[trigger] polls[k]).yielded == Some(AfterYield::Leave)
                    && polls[k].critical;
            if k < earlier.len() {
                assert(earlier[k] == polls[k]);
            }
        }
    }
}

/// Whether `polls` are those of one task: none follows the one at which it was complete.
pub open spec fn polls_of_task(polls: Seq<PollRecord>) -> bool {
    forall|k: int| 0 <= k < polls.len() - 1 ==> (#[trigger] polls[k]).yielded is Some
}

/// Whether a task that came from a channel which is completed on close was left to be woken, and is
/// not complete.
pub open spec fn blocks_closing(polls: Seq<PollRecord>) -> bool {
    &&& polls.len() > 0 && polls.last().yielded is Some
    &&& exists|k: int|
        0 <= k < polls.len() && (#[trigger] polls[k]).yielded == Some(AfterYield::Leave)
            && polls[k].critical
}

/// What the polls of all `tasks` add to the close counter.
pub open spec fn total_added(tasks: Seq<Seq<PollRecord>>) -> int
    decreases tasks.len(),
{
    if tasks.len() == 0 {
        0
    } else {
        total_added(tasks.drop_last()) + added(tasks.last())
    }
}

/// The polls of all tasks ask for as much on the close counter as there are tasks that block closing, and
/// for nothing exactly when there is none.
pub proof fn law_counter_shows_what_blocks_closing(tasks: Seq<Seq<PollRecord>>)
    requires
        forall|i: int| 0 <= i < tasks.len() ==> polls_of_task(#[trigger] tasks[i]),
    ensures
        total_added(tasks) == tasks.filter(|polls: Seq<PollRecord>| blocks_closing(polls)).len(),
        total_added(tasks) == 0 <==> forall|i: int|
            0 <= i < tasks.len() ==> !blocks_closing(#[trigger] tasks[i]),
    decreases tasks.len(),
{
    let blocks = |polls: Seq<PollRecord>| blocks_closing(polls);
    reveal(Seq::filter);
    if tasks.len() > 0 {
        let earlier = tasks.drop_last();
        assert forall|i: int| 0 <= i < earlier.len() implies polls_of_task(#[trigger] earlier[i]) by {
            assert(earlier[i] == tasks[i]);
        }
        law_counter_shows_what_blocks_closing(earlier);
        assert(tasks[tasks.len() - 1] == tasks.last());
        law_counted_until_complete(tasks.last());
        assert(added(tasks.last()) == if blocks(tasks.last()) {
            1int
        } else {
            0
        });
        assert(forall|i: int| 0 <= i < earlier.len() ==> earlier[i] == #[trigger] tasks[i]);
        if total_added(tasks) == 0 {
            assert forall|i: int| 0 <= i < tasks.len() implies !blocks_closing(
                #[trigger] tasks[i],
            ) by {
                if i < earlier.len() {
                    assert(!blocks_closing(earlier[i]));
                }
            }
        }
        if forall|i: int| 0 <= i < tasks.len() ==> !blocks_closing(#[trigger] tasks[i]) {
            assert forall|i: int| 0 <= i < earlier.len() implies !blocks_closing(
                #[trigger] earlier[i],
            ) by {
                assert(!blocks_closing(tasks[i]));
            }
        }
    }
}

/// The close counter shows how many tasks block closing, as far as it has the bits for it, and shows
/// zero exactly when there is none: its steps went up as much more often than down as the polls of all
/// tasks ask for.
pub proof fn law_close_counter_shows_what_blocks_closing(
    counter: AtomMonitor<u64>,
    steps: Seq<CountStep>,
    count: u64,
    tasks: Seq<Seq<PollRecord>>,
)
    requires
        scoped::counted(counter, steps, count),
        scoped::net(steps) == total_added(tasks),
        scoped::net(steps) <= u64::MAX,
        forall|i: int| 0 <= i < tasks.len() ==> polls_of_task(#[trigger] tasks[i]),
    ensures
        count == tasks.filter(|polls: Seq<PollRecord>| blocks_closing(polls)).len(),
        count == 0 <==> forall|i: int|
            0 <= i < tasks.len() ==> !blocks_closing(#[trigger] tasks[i]),
{
    law_counter_shows_what_blocks_closing(tasks);
    scoped::law_batch_ends_when_all_complete(counter, steps, count);
}

/// Whether `settles` are what settling `polls` of a new task came to.
pub open spec fn settled_as<Behavior: PoolBehavior>(
    pool: Pool<Behavior>,
    settles: Seq<Settled>,
    polls: Seq<PollRecord>,
) -> bool {
    &&& settles.len() == polls.len()
    &&& forall|k: int|
        0 <= k < polls.len() ==> {
            &&& pool.counted_as(#[trigger] settles[k])
            &&& settles[k].next == followup::after_poll(
                counted_after(polls.take(k)),
                polls[k].yielded,
                polls[k].critical,
                polls[k].lifecycle,
            ).1
        }
}

/// The steps of the close counter that `settles` made.
pub open spec fn steps_of(settles: Seq<Settled>) -> Seq<CountStep>
    decreases settles.len(),
{
    if settles.len() == 0 {
        Seq::empty()
    } else {
        match settles.last().counted {
            Some(step) => steps_of(settles.drop_last()).push(step),
            None => steps_of(settles.drop_last()),
        }
    }
}

/// The steps of the close counter that settling the polls of all tasks made, task by task.
pub open spec fn all_steps(settles: Seq<Seq<Settled>>) -> Seq<CountStep>
    decreases settles.len(),
{
    if settles.len() == 0 {
        Seq::empty()
    } else {
        all_steps(settles.drop_last()) + steps_of(settles.last())
    }
}

/// Settling the polls of a task steps the close counter by what the polls ask for.
pub proof fn law_settling_adds_what_polls_ask_for<Behavior: PoolBehavior>(
    pool: Pool<Behavior>,
    settles: Seq<Settled>,
    polls: Seq<PollRecord>,
)
    requires
        settled_as(pool, settles, polls),
    ensures
        scoped::net(steps_of(settles)) == added(polls),
    decreases polls.len(),
{
    if polls.len() > 0 {
        let fewer = settles.drop_last();
        let earlier = polls.drop_last();
        assert(polls.take(polls.len() - 1) =~= earlier);
        assert(pool.counted_as(settles[polls.len() - 1]));
        assert forall|k: int| 0 <= k < earlier.len() implies {
            &&& pool.counted_as(#[trigger] fewer[k])
            &&& fewer[k].next == followup::after_poll(
                counted_after(earlier.take(k)),
                earlier[k].yielded,
                earlier[k].critical,
                earlier[k].lifecycle,
            ).1
        } by {
            assert(fewer[k] == settles[k]);
            assert(earlier.take(k) =~= polls.take(k));
        }
        law_settling_adds_what_polls_ask_for(pool, fewer, earlier);
        if let Some(step) = settles.last().counted {
            assert(steps_of(fewer).push(step).drop_last() =~= steps_of(fewer));
        }
    }
}

proof fn lemma_all_steps_add_up<Behavior: PoolBehavior>(
    pool: Pool<Behavior>,
    settles: Seq<Seq<Settled>>,
    tasks: Seq<Seq<PollRecord>>,
)
    requires
        settles.len() == tasks.len(),
        forall|i: int| 0 <= i < tasks.len() ==> settled_as(pool, settles[i], #[trigger] tasks[i]),
    ensures
        scoped::net(all_steps(settles)) == total_added(tasks),
    decreases tasks.len(),
{
    if tasks.len() > 0 {
        let earlier = tasks.drop_last();
        assert forall|i: int| 0 <= i < earlier.len() implies settled_as(
            pool,
            settles.drop_last()[i],
            #[trigger] earlier[i],
        ) by {
            assert(earlier[i] == tasks[i]);
        }
        lemma_all_steps_add_up(pool, settles.drop_last(), earlier);
        assert(settled_as(pool, settles.last(), tasks[tasks.len() - 1]));
        law_settling_adds_what_polls_ask_for(pool, settles.last(), tasks.last());
        scoped::lemma_net_add(all_steps(settles.drop_last()), steps_of(settles.last()));
    }
}

/// While workers settle polls, the close counter shows how many tasks block closing, as far as it has
/// the bits for it: its steps are those that settling made, in whatever order the workers made them.
pub proof fn law_settling_keeps_the_close_counter<Behavior: PoolBehavior>(
    pool: Pool<Behavior>,
    settles: Seq<Seq<Settled>>,
    tasks: Seq<Seq<PollRecord>>,
    steps: Seq<CountStep>,
    count: u64,
)
    requires
        settles.len() == tasks.len() <= u64::MAX,
        forall|i: int| 0 <= i < tasks.len() ==> settled_as(pool, settles[i], #[trigger] tasks[i]),
        forall|i: int| 0 <= i < tasks.len() ==> polls_of_task(#[trigger] tasks[i]),
        steps.to_multiset() == all_steps(settles).to_multiset(),
        scoped::counted(pool.close_counter.counter(), steps, count),
    ensures
        count == tasks.filter(|polls: Seq<PollRecord>| blocks_closing(polls)).len(),
        count == 0 <==> forall|i: int|
            0 <= i < tasks.len() ==> !blocks_closing(#[trigger] tasks[i]),
{
    lemma_all_steps_add_up(pool, settles, tasks);
    scoped::lemma_net_in_any_order(steps, all_steps(settles));
    law_counter_shows_what_blocks_closing(tasks);
    tasks.lemma_filter_len(|polls: Seq<PollRecord>| blocks_closing(polls));
    law_close_counter_shows_what_blocks_closing(
        pool.close_counter.counter(),
        steps,
        count,
        tasks,
    );
}

/// A worker is done closing only when no shutdown channel has a task, and, as long as the field did
/// not change since it stopped waiting, nothing that is critical for closing is blocked.
pub proof fn law_done_when_nothing_is_left<Key>(
    levels_shutdown: Seq<Level<Key>>,
    complete_shutdown_mask: u64,
    goal: CloseGoal,
    field: u64,
    close_counter: u64,
)
    requires
        close_counter == 0 || bits::meets(field, complete_shutdown_mask),
        (Closing::Idle { goal }).leads_to(
            levels_shutdown,
            complete_shutdown_mask,
            field,
            Closing::Done,
        ),
    ensures
        close_counter == 0,
        !bits::meets(field, complete_shutdown_mask),
{
}

/// A worker comes to be done closing only from waiting with all shutdown channels empty.
pub proof fn law_done_only_from_idle<Key>(
    state: Closing,
    levels_shutdown: Seq<Level<Key>>,
    complete_shutdown_mask: u64,
    field: u64,
)
    requires
        state.leads_to(levels_shutdown, complete_shutdown_mask, field, Closing::Done),
        state != Closing::Done,
    ensures
        state is Idle,
        !bits::meets(field, complete_shutdown_mask),
{
}

/// A worker turns to closing only when it sees that the pool is not running.
pub proof fn law_close_only_when_closing<Key>(
    highest: HighestFirst,
    robin: RoundRobin,
    levels: Seq<Level<Key>>,
    slices: Seq<StdDuration>,
    field: u64,
    lifecycle: LifecycleState,
    elapsed: StdDuration,
)
    requires
        lifecycle == LifecycleState::Running,
    ensures
        highest != HighestFirst::Close ==> !highest.leads_to(
            levels,
            field,
            lifecycle,
            HighestFirst::Close,
        ),
        robin != RoundRobin::Close ==> robin.next(levels, slices, field, lifecycle, elapsed)
            != RoundRobin::Close,
{
}

/// The level that a round-robin worker works on.
pub open spec fn robin_level(state: RoundRobin) -> Option<usize> {
    match state {
        RoundRobin::Enter { level }
        | RoundRobin::Check { level }
        | RoundRobin::Rest { level }
        | RoundRobin::Find { level }
        | RoundRobin::Missed { level } => Some(level),
        _ => None,
    }
}

/// A round-robin worker works on every level in order: it stays on a level, enters the next one, or
/// ends the round after the last one, unless the pool is closing.
pub proof fn law_round_visits_levels_in_order<Key>(
    state: RoundRobin,
    levels: Seq<Level<Key>>,
    slices: Seq<StdDuration>,
    field: u64,
    lifecycle: LifecycleState,
    elapsed: StdDuration,
    level: usize,
)
    requires
        state.valid(levels),
        robin_level(state) == Some(level),
        levels.len() <= usize::MAX,
    ensures
        ({
            let next = state.next(levels, slices, field, lifecycle, elapsed);
            ||| robin_level(next) == Some(level)
            ||| level + 1 < levels.len() && next == (RoundRobin::Enter {
                level: (level + 1) as usize,
            })
            ||| level + 1 == levels.len() && next == RoundRobin::Start
            ||| lifecycle != LifecycleState::Running && next == RoundRobin::Close
        }),
{
}

/// A round-robin worker starts no other task on a level once the time slice of the level is used up.
pub proof fn law_time_slice_ends_level<Key>(
    levels: Seq<Level<Key>>,
    slices: Seq<StdDuration>,
    field: u64,
    lifecycle: LifecycleState,
    elapsed: StdDuration,
    level: usize,
)
    requires
        level < levels.len() <= usize::MAX,
        slices.len() == levels.len(),
        elapsed.total() >= slices[level as int].total(),
    ensures
        (RoundRobin::Check { level }).next(levels, slices, field, lifecycle, elapsed)
            == RoundRobin::after_level(level, levels.len()),
        robin_level((RoundRobin::Rest { level }).next(levels, slices, field, lifecycle, elapsed))
            != Some(level),
{
}

/// Whether a level's bits in the field tell whether any of its channels has a task, if each
/// channel's bits do: the test of a whole level is exact.
pub proof fn law_level_test_is_exact<Key: Copy>(level: Level<Key>, field: u64, occupied: Seq<bool>)
    requires
        level.wf(),
        occupied.len() == level.channels@.len(),
        forall|c: int|
            0 <= c < occupied.len() ==> (#[trigger] occupied[c] == bits::meets(
                field,
                level.channels@[c].mask,
            )),
    ensures
        bits::meets(field, level.mask) <==> exists|c: int|
            0 <= c < occupied.len() && #[trigger] occupied[c],
{
    let channels = level.channels@;
    if bits::meets(field, level.mask) {
        let i = choose|i: int| #[trigger] bits::has_bit(field, i) && bits::has_bit(level.mask, i);
        assert(bits::has_bit(level.mask, i));
        let c = choose|c: int|
            0 <= c < channels.len() && bits::has_bit((#[trigger] channels[c]).mask, i);
        assert(bits::has_bit(field, i) && bits::has_bit(channels[c].mask, i));
        assert(occupied[c]);
    }
    if exists|c: int| 0 <= c < occupied.len() && #[trigger] occupied[c] {
        let c = choose|c: int| 0 <= c < occupied.len() && #[trigger] occupied[c];
        let i = choose|i: int| #[trigger]
            bits::has_bit(field, i) && bits::has_bit(channels[c].mask, i);
        assert(bits::has_bit(channels[c].mask, i));
        assert(bits::has_bit(level.mask, i));
    }
}

/// A closed pool's future is successful only after every worker has joined, and none has failed.
pub proof fn law_success_after_all_joined<E>(results: Seq<Result<(), E>>, k: int)
    requires
        0 <= k < results.len(),
        forall|j: int|
            0 <= j < k ==> close::outcome(#[trigger] results[j], results.len() - 1 - j) is None,
        close::outcome(results[k], results.len() - 1 - k) matches Some(result) && result is Ok,
    ensures
        k == results.len() - 1,
        forall|j: int| 0 <= j < results.len() ==> (#[trigger] results[j]) is Ok,
{
}

/// The sum of the first `few` widths is no more than that of the first `many`.
proof fn lemma_sum_monotonic(widths: Seq<nat>, few: int, many: int)
    requires
        0 <= few <= many <= widths.len(),
    ensures
        layout::sum(widths.take(few)) <= layout::sum(widths.take(many)),
    decreases many,
{
    if few < many {
        lemma_sum_monotonic(widths, few, many - 1);
        assert(widths.take(many).drop_last() =~= widths.take(many - 1));
    }
}

/// A level starts where the levels before it end.
proof fn lemma_start_monotonic(widths: Seq<Seq<nat>>, few: int, many: int)
    requires
        0 <= few < many <= widths.len(),
    ensures
        layout::level_start(widths, few as nat) + layout::sum(widths[few]) <= layout::level_start(
            widths,
            many as nat,
        ),
    decreases many,
{
    if few < many - 1 {
        lemma_start_monotonic(widths, few, many - 1);
    }
}

/// Every bit of a channel's mask lies between the ends of what the channel claimed.
proof fn lemma_spans_disjoint(a: u64, from: int, until: int, b: u64, later: int, end: int)
    requires
        bits::is_span(a, from, until),
        bits::is_span(b, later, end),
        until <= later,
    ensures
        bits::disjoint(a, b),
{
    assert forall|i: int| !(#[trigger] bits::has_bit(a, i) && bits::has_bit(b, i)) by {
        assert(bits::has_bit(b, i) <==> 0 <= i < 64 && later <= i < end);
    }
}

/// No bit of the present field belongs to two channels of a pool.
pub proof fn law_channels_share_no_bit<Behavior: PoolBehavior>(
    pool: Pool<Behavior>,
    config: Seq<PriorityLevel<Behavior>>,
    widths: Seq<Seq<nat>>,
    l1: int,
    c1: int,
    l2: int,
    c2: int,
)
    requires
        pool.laid_for(config, widths),
        0 <= l1 < config.len(),
        0 <= l2 < config.len(),
        0 <= c1 < config[l1].0@.len(),
        0 <= c2 < config[l2].0@.len(),
        l1 != l2 || c1 != c2,
    ensures
        bits::disjoint(pool.levels@[l1].channels@[c1].mask, pool.levels@[l2].channels@[c2].mask),
{
    if l1 < l2 || l1 == l2 && c1 < c2 {
        lemma_earlier_disjoint(pool, config, widths, l1, c1, l2, c2);
    } else {
        lemma_earlier_disjoint(pool, config, widths, l2, c2, l1, c1);
        let (a, b) = (pool.levels@[l1].channels@[c1].mask, pool.levels@[l2].channels@[c2].mask);
        assert forall|i: int| !(#[trigger] bits::has_bit(a, i) && bits::has_bit(b, i)) by {
            assert(!(bits::has_bit(b, i) && bits::has_bit(a, i)));
        }
    }
}

proof fn lemma_earlier_disjoint<Behavior: PoolBehavior>(
    pool: Pool<Behavior>,
    config: Seq<PriorityLevel<Behavior>>,
    widths: Seq<Seq<nat>>,
    l1: int,
    c1: int,
    l2: int,
    c2: int,
)
    requires
        pool.laid_for(config, widths),
        0 <= l1 < config.len(),
        0 <= l2 < config.len(),
        0 <= c1 < config[l1].0@.len(),
        0 <= c2 < config[l2].0@.len(),
        l1 < l2 || l1 == l2 && c1 < c2,
    ensures
        bits::disjoint(pool.levels@[l1].channels@[c1].mask, pool.levels@[l2].channels@[c2].mask),
{
    let (first, second) = (pool.levels@[l1], pool.levels@[l2]);
    let (s1, s2) = (layout::level_start(widths, l1 as nat), layout::level_start(widths, l2 as nat));
    assert(first.channels@[c1].key == config[l1].0@[c1].key);
    assert(second.channels@[c2].key == config[l2].0@[c2].key);
    if l1 < l2 {
        lemma_start_monotonic(widths, l1, l2);
        lemma_sum_monotonic(widths[l1], c1 + 1, widths[l1].len() as int);
        assert(widths[l1].take(widths[l1].len() as int) =~= widths[l1]);
    } else {
        lemma_sum_monotonic(widths[l1], c1 + 1, c2);
    }
    lemma_spans_disjoint(
        first.channels@[c1].mask,
        (s1 + layout::sum(widths[l1].take(c1))) as int,
        (s1 + layout::sum(widths[l1].take(c1 + 1))) as int,
        second.channels@[c2].mask,
        (s2 + layout::sum(widths[l2].take(c2))) as int,
        (s2 + layout::sum(widths[l2].take(c2 + 1))) as int,
    );
}

/// The channels of a shutdown level are those of the level which are completed on close.
pub proof fn law_shutdown_level_completes<Behavior: PoolBehavior>(
    params: Seq<ChannelParams<Behavior>>,
    channels: Seq<ChannelIdentifier<Behavior::ChannelKey>>,
    channel: ChannelIdentifier<Behavior::ChannelKey>,
)
    requires
        params.len() == channels.len(),
    ensures
        layout::completing(params, channels).contains(channel) <==> exists|c: int|
            0 <= c < params.len() && (#[trigger] params[c]).complete_on_close && channels[c]
                == channel,
    decreases params.len(),
{
    if params.len() > 0 {
        let (fewer, first) = (params.drop_last(), channels.drop_last());
        let kept = layout::completing(params, channels);
        let before = layout::completing(fewer, first);
        law_shutdown_level_completes(fewer, first, channel);
        if before.contains(channel) {
            let c = choose|c: int|
                0 <= c < fewer.len() && (#[trigger] fewer[c]).complete_on_close && first[c]
                    == channel;
            assert(params[c] == fewer[c] && channels[c] == first[c]);
            let k = before.index_of(channel);
            assert(kept[k] == channel);
        }
        if kept.contains(channel) && !before.contains(channel) {
            assert(params[params.len() - 1].complete_on_close && channels[params.len() - 1]
                == channel);
        }
        if exists|c: int|
            0 <= c < params.len() && (#[trigger] params[c]).complete_on_close && channels[c]
                == channel {
            let c = choose|c: int|
                0 <= c < params.len() && (#[trigger] params[c]).complete_on_close && channels[c]
                    == channel;
            if c < fewer.len() {
                assert(fewer[c] == params[c] && first[c] == channels[c]);
            } else {
                assert(kept[before.len() as int] == channel);
            }
        }
    } else {
        assert(!layout::completing(params, channels).contains(channel));
    }
}

/// The mask of what must be completed by shutdown holds every bit of the channels which are
/// completed on close, and no bit of the others.
pub proof fn law_shutdown_mask_is_exact<Behavior: PoolBehavior>(
    pool: Pool<Behavior>,
    config: Seq<PriorityLevel<Behavior>>,
    widths: Seq<Seq<nat>>,
    l: int,
    c: int,
)
    requires
        pool.laid_for(config, widths),
        0 <= l < config.len(),
        0 <= c < config[l].0@.len(),
    ensures
        config[l].0@[c].complete_on_close ==> bits::within(
            pool.levels@[l].channels@[c].mask,
            pool.complete_shutdown_mask,
        ),
        !config[l].0@[c].complete_on_close ==> bits::disjoint(
            pool.levels@[l].channels@[c].mask,
            pool.complete_shutdown_mask,
        ),
{
    let levels = pool.levels@;
    let shut = pool.levels_shutdown@;
    let channel = levels[l].channels@[c];
    assert(channel.key == config[l].0@[c].key);
    if config[l].0@[c].complete_on_close {
        law_shutdown_level_completes(config[l].0@, levels[l].channels@, channel);
        assert(shut[l].wf());
        assert(config[l].0@[c].complete_on_close && levels[l].channels@[c] == channel);
        let k = shut[l].channels@.index_of(channel);
        assert(shut[l].channels@[k] == channel);
        assert forall|i: int| #[trigger] bits::has_bit(channel.mask, i) implies bits::has_bit(
            pool.complete_shutdown_mask,
            i,
        ) by {
            assert(bits::has_bit(shut[l].channels@[k].mask, i));
            assert(bits::has_bit(shut[l].mask, i));
        }
    } else {
        assert forall|i: int| !(#[trigger] bits::has_bit(channel.mask, i) && bits::has_bit(
            pool.complete_shutdown_mask,
            i,
        )) by {
            if bits::has_bit(channel.mask, i) && bits::has_bit(pool.complete_shutdown_mask, i) {
                let l2 = choose|l2: int|
                    0 <= l2 < shut.len() && bits::has_bit((#[trigger] shut[l2]).mask, i);
                assert(shut[l2].wf());
                assert(bits::has_bit(shut[l2].mask, i));
                let k = choose|k: int|
                    0 <= k < shut[l2].channels@.len() && bits::has_bit(
                        (#[trigger] shut[l2].channels@[k]).mask,
                        i,
                    );
                let other = shut[l2].channels@[k];
                assert(shut[l2].channels@.contains(other));
                assert(levels[l2].wf());
                law_shutdown_level_completes(config[l2].0@, levels[l2].channels@, other);
                let c2 = choose|c2: int|
                    0 <= c2 < config[l2].0@.len() && (
                    #[trigger] config[l2].0@[c2]).complete_on_close && levels[l2].channels@[c2]
                        == other;
                law_channels_share_no_bit(pool, config, widths, l, c, l2, c2);
                assert(!(bits::has_bit(channel.mask, i) && bits::has_bit(other.mask, i)));
            }
        }
    }
}

/// When a worker is done closing, no channel which is completed on close shows a task.
pub proof fn law_done_leaves_no_critical_task<Behavior: PoolBehavior>(
    pool: Pool<Behavior>,
    config: Seq<PriorityLevel<Behavior>>,
    widths: Seq<Seq<nat>>,
    state: Closing,
    field: u64,
    l: int,
    c: int,
)
    requires
        pool.laid_for(config, widths),
        state.leads_to(
            pool.levels_shutdown@,
            pool.complete_shutdown_mask,
            field,
            Closing::Done,
        ),
        state != Closing::Done,
        0 <= l < config.len(),
        0 <= c < config[l].0@.len(),
        config[l].0@[c].complete_on_close,
    ensures
        !bits::meets(field, pool.levels@[l].channels@[c].mask),
{
    law_shutdown_mask_is_exact(pool, config, widths, l, c);
    let mask = pool.levels@[l].channels@[c].mask;
    if bits::meets(field, mask) {
        let i = choose|i: int| #[trigger] bits::has_bit(field, i) && bits::has_bit(mask, i);
        assert(bits::has_bit(mask, i));
        assert(bits::has_bit(field, i) && bits::has_bit(pool.complete_shutdown_mask, i));
    }
}

/// A closing worker polls only channels which are completed on close.
pub proof fn law_closing_polls_critical_channels<Behavior: PoolBehavior>(
    pool: Pool<Behavior>,
    config: Seq<PriorityLevel<Behavior>>,
    widths: Seq<Seq<nat>>,
    state: Closing,
    level: usize,
    ticket: usize,
) -> (c: int)
    requires
        pool.laid_for(config, widths),
        state == (Closing::Find { level }),
        state.valid(pool.levels_shutdown@),
    ensures
        ({
            let channels = pool.levels_shutdown@[level as int].channels@;
            &&& 0 <= c < config[level as int].0@.len()
            &&& config[level as int].0@[c].complete_on_close
            &&& pool.levels@[level as int].channels@[c] == channels[ticket as int
                % channels.len() as int]
        }),
{
    let params = config[level as int].0@;
    let all = pool.levels@[level as int].channels@;
    let channels = pool.levels_shutdown@[level as int].channels@;
    assert(pool.levels_shutdown@[level as int].wf());
    assert(pool.levels@[level as int].wf());
    let channel = channels[ticket as int % channels.len() as int];
    assert(channels.contains(channel));
    law_shutdown_level_completes(params, all, channel);
    choose|c: int|
        0 <= c < params.len() && (#[trigger] params[c]).complete_on_close && all[c] == channel
}

/// Whether channel `key` of a behavior wants `wants(behavior, key)` bits: it claims as many where the
/// field has them left, and is refused where it has not. What the channels of a behavior want stays the
/// same while they claim.
pub open spec fn claims_exactly<Behavior: PoolBehavior>(
    wants: spec_fn(Behavior, Behavior::ChannelKey) -> nat,
) -> bool {
    forall|
        behavior: Behavior,
        next: Behavior,
        key: Behavior::ChannelKey,
        field: AtomMonitor<u64>,
        from: nat,
        until: nat,
        granted: bool,
    | #[trigger]
        behavior.claimed(next, key, field, from, until, granted) ==> {
            &&& granted == (wants(behavior, key) == 0 || from + wants(behavior, key) <= 64)
            &&& granted ==> until == from + wants(behavior, key)
            &&& granted ==> forall|other: Behavior::ChannelKey| #[trigger]
                wants(next, other) == wants(behavior, other)
        }
}

/// How many bits the channels of a level want.
pub open spec fn level_wanted<Behavior: PoolBehavior>(
    params: Seq<ChannelParams<Behavior>>,
    behavior: Behavior,
    wants: spec_fn(Behavior, Behavior::ChannelKey) -> nat,
) -> Seq<nat> {
    params.map_values(|params: ChannelParams<Behavior>| wants(behavior, params.key))
}

/// How many bits the channels of each level want.
pub open spec fn pool_wanted<Behavior: PoolBehavior>(
    config: Seq<PriorityLevel<Behavior>>,
    behavior: Behavior,
    wants: spec_fn(Behavior, Behavior::ChannelKey) -> nat,
) -> Seq<Seq<nat>> {
    config.map_values(|level: PriorityLevel<Behavior>| level_wanted(level.0@, behavior, wants))
}

proof fn lemma_level_widths<Behavior: PoolBehavior>(
    params: Seq<ChannelParams<Behavior>>,
    behavior: Behavior,
    next: Behavior,
    field: AtomMonitor<u64>,
    start: nat,
    widths: Seq<nat>,
    wants: spec_fn(Behavior, Behavior::ChannelKey) -> nat,
)
    requires
        claims_exactly::<Behavior>(wants),
        owned::level_granted(params, behavior, next, field, start, widths),
    ensures
        widths == level_wanted(params, behavior, wants),
        start <= 64 ==> start + layout::sum(widths) <= 64,
        forall|other: Behavior::ChannelKey| #[trigger]
            wants(next, other) == wants(behavior, other),
    decreases params.len(),
{
    if params.len() > 0 {
        let asked = choose|asked: Behavior|
            {
                &&& owned::level_granted(
                    params.drop_last(),
                    behavior,
                    asked,
                    field,
                    start,
                    widths.drop_last(),
                )
                &&& #[trigger] asked.claimed(
                    next,
                    params.last().key,
                    field,
                    start + layout::sum(widths.drop_last()),
                    start + layout::sum(widths),
                    true,
                )
            };
        lemma_level_widths(
            params.drop_last(),
            behavior,
            asked,
            field,
            start,
            widths.drop_last(),
            wants,
        );
        assert(widths.last() == wants(behavior, params.last().key));
        assert(widths =~= widths.drop_last().push(widths.last()));
    }
    assert(widths =~= level_wanted(params, behavior, wants));
}

proof fn lemma_pool_widths<Behavior: PoolBehavior>(
    config: Seq<PriorityLevel<Behavior>>,
    behavior: Behavior,
    next: Behavior,
    field: AtomMonitor<u64>,
    widths: Seq<Seq<nat>>,
    wants: spec_fn(Behavior, Behavior::ChannelKey) -> nat,
)
    requires
        claims_exactly::<Behavior>(wants),
        owned::pool_granted(config, behavior, next, field, widths),
    ensures
        widths == pool_wanted(config, behavior, wants),
        layout::level_start(widths, config.len()) <= 64,
        forall|other: Behavior::ChannelKey| #[trigger]
            wants(next, other) == wants(behavior, other),
    decreases config.len(),
{
    if config.len() > 0 {
        let start = layout::level_start(widths.drop_last(), (config.len() - 1) as nat);
        let asked = choose|asked: Behavior|
            {
                &&& owned::pool_granted(
                    config.drop_last(),
                    behavior,
                    asked,
                    field,
                    widths.drop_last(),
                )
                &&& #[trigger] owned::level_granted(
                    config.last().0@,
                    asked,
                    next,
                    field,
                    layout::level_start(widths.drop_last(), (config.len() - 1) as nat),
                    widths.last(),
                )
            };
        lemma_pool_widths(
            config.drop_last(),
            behavior,
            asked,
            field,
            widths.drop_last(),
            wants,
        );
        lemma_level_widths(config.last().0@, asked, next, field, start, widths.last(), wants);
        assert(level_wanted(config.last().0@, asked, wants) =~= level_wanted(
            config.last().0@,
            behavior,
            wants,
        ));
        layout::lemma_level_start_agree(widths.drop_last(), widths, (config.len() - 1) as nat);
        assert(widths =~= widths.drop_last().push(widths.last()));
    }
    assert(widths =~= pool_wanted(config, behavior, wants));
}

/// A pool can be made exactly when its channels want no more than 64 bits together and the schedule is
/// valid. Too many bits are told of before what is wrong with the schedule.
pub proof fn law_pool_needs_64_bits_at_most<Behavior: PoolBehavior>(
    behavior: Behavior,
    config: PoolConfig<Behavior>,
    r: Result<OwnedPool<Behavior>, NewPoolError>,
    wants: spec_fn(Behavior, Behavior::ChannelKey) -> nat,
)
    requires
        claims_exactly::<Behavior>(wants),
        OwnedPool::made(behavior, config, r),
    ensures
        ({
            let fits = layout::level_start(
                pool_wanted(config.levels@, behavior, wants),
                config.levels@.len(),
            ) <= 64;
            &&& r is Ok <==> fits && pool::schedule_valid(config.schedule, config.levels@.len())
            &&& r matches Err(error) ==> if fits {
                pool::schedule_fault(config.schedule, config.levels@.len(), error)
            } else {
                error == NewPoolError::Over64Channels
            }
        }),
{
    let levels = config.levels@;
    let wanted = pool_wanted(levels, behavior, wants);
    match r {
        Ok(owned) => {
            let widths = choose|widths: Seq<Seq<nat>>|
                {
                    &&& #[trigger] owned.pool.laid_for(levels, widths)
                    &&& owned::pool_granted(
                        levels,
                        behavior,
                        owned.pool.behavior,
                        owned.pool.field(),
                        widths,
                    )
                };
            lemma_pool_widths(
                levels,
                behavior,
                owned.pool.behavior,
                owned.pool.field(),
                widths,
                wants,
            );
        },
        Err(error) => {
            let field = choose|field: AtomMonitor<u64>| #[trigger]
                OwnedPool::failed(behavior, config, field, error);
            if !owned::pool_refused(levels, behavior, field) || error
                != NewPoolError::Over64Channels {
                let (next, widths) = choose|next: Behavior, widths: Seq<Seq<nat>>| #[trigger]
                    owned::pool_granted(levels, behavior, next, field, widths);
                lemma_pool_widths(levels, behavior, next, field, widths, wants);
            } else {
                let (l, asked, widths) = choose|l: int, asked: Behavior, widths: Seq<Seq<nat>>|
                    {
                        &&& 0 <= l < levels.len()
                        &&& #[trigger] owned::pool_granted(
                            levels.take(l),
                            behavior,
                            asked,
                            field,
                            widths,
                        )
                        &&& owned::level_refused(
                            levels[l].0@,
                            asked,
                            field,
                            layout::level_start(widths, l as nat),
                        )
                    };
                lemma_pool_widths(levels.take(l), behavior, asked, field, widths, wants);
                let start = layout::level_start(widths, l as nat);
                assert(widths =~= wanted.take(l));
                layout::lemma_level_start_agree(widths, wanted, l as nat);
                let params = levels[l].0@;
                let (c, refused, next, claimed, until) = choose|
                    c: int,
                    refused: Behavior,
                    next: Behavior,
                    claimed: Seq<nat>,
                    until: nat,
                |
                    {
                        &&& 0 <= c < params.len()
                        &&& #[trigger] owned::level_granted(
                            params.take(c),
                            asked,
                            refused,
                            field,
                            start,
                            claimed,
                        )
                        &&& #[trigger] refused.claimed(
                            next,
                            params[c].key,
                            field,
                            start + layout::sum(claimed),
                            until,
                            false,
                        )
                    };
                lemma_level_widths(params.take(c), asked, refused, field, start, claimed, wants);
                assert(claimed =~= wanted[l].take(c));
                assert(wanted[l].take(c + 1).drop_last() =~= wanted[l].take(c));
                assert(wanted[l].take(c + 1).last() == wants(behavior, params[c].key));
                lemma_sum_monotonic(wanted[l], c + 1, wanted[l].len() as int);
                assert(wanted[l].take(wanted[l].len() as int) =~= wanted[l]);
                lemma_start_monotonic(wanted, l, levels.len() as int);
            }
        },
    }
}

/// Whether `turns` are the turns that were drawn of `level`, in the order of their tickets, from the
/// first that the level had.
pub open spec fn turns_of<Key>(level: Level<Key>, turns: Seq<Turn<Key>>) -> bool {
    forall|j: int|
        0 <= j < turns.len() ==> (#[trigger] turns[j]).of(level) && turns[j].ticket.drawn()
            == channel_laws::nth_ticket(0, j)
}

/// The channels of a level take turns, whether a poll finds a task or not: turn `j` is that of channel
/// `j`, counted round the channels, unless tickets have started over unevenly.
pub proof fn law_channels_of_level_take_turns<Key: Copy>(
    level: Level<Key>,
    turns: Seq<Turn<Key>>,
    j: int,
)
    requires
        level.wf(),
        level.channels@.len() > 0,
        turns_of(level, turns),
        0 <= j < turns.len(),
        j <= usize::MAX || (usize::MAX + 1) % level.channels@.len() as int == 0,
    ensures
        turns[j].channel == level.channels@[j % level.channels@.len() as int],
{
    channel_laws::lemma_even_turn(0, level.channels@.len(), j);
    assert(turns[j].of(level));
}

/// The workers of a pool do what its schedule says: a pool that is to serve the highest level first does,
/// and one that is to serve each level for a time gives each level as much as was asked for it, in the
/// same order. Such a schedule is valid exactly when it has one time for each level and none is negative.
pub proof fn law_schedule_is_followed(
    schedule: ScheduleAlgorithm,
    work: WorkerSchedule,
    num_levels: nat,
)
    requires
        pool::follows(work, schedule),
    ensures
        schedule is HighestFirst <==> work is HighestFirst,
        schedule is HighestFirst ==> pool::schedule_valid(schedule, num_levels),
        schedule matches ScheduleAlgorithm::RoundRobin(given) ==> {
            &&& work matches WorkerSchedule::RoundRobin(slices) && slices@.len() == given@.len()
                && forall|i: int|
                0 <= i < given@.len() ==> (#[trigger] slices@[i]).secs * 1_000_000_000
                    + slices@[i].nanos == given@[i].total() && slices@[i].nanos < 1_000_000_000
            &&& pool::schedule_valid(schedule, num_levels) <==> given@.len() == num_levels
                && forall|i: int| 0 <= i < given@.len() ==> 0 <= (#[trigger] given@[i]).total()
        },
{
}

/// What is told to be wrong with a schedule is: either the number of times is not that of the levels, and
/// both are told, or there is a negative time, and the first of them is told. Of a valid schedule nothing
/// is told.
pub proof fn law_schedule_fault_is_there(
    schedule: ScheduleAlgorithm,
    num_levels: nat,
    error: NewPoolError,
)
    requires
        pool::schedule_fault(schedule, num_levels, error),
    ensures
        !pool::schedule_valid(schedule, num_levels),
        schedule matches ScheduleAlgorithm::RoundRobin(given) && match error {
            NewPoolError::WrongNumberTimeslices { num_levels: levels, num_timeslices } => {
                &&& given@.len() != num_levels
                &&& levels == num_levels
                &&& num_timeslices == given@.len()
            },
            NewPoolError::NegativeTimeSlice { index, duration } => {
                &&& given@.len() == num_levels
                &&& index < given@.len()
                &&& duration == given@[index as int]
                &&& given@[index as int].total() < 0
                &&& forall|i: int| 0 <= i < index ==> 0 <= (#[trigger] given@[i]).total()
            },
            _ => false,
        },
{
}

/// A pool has the levels that its configuration asks for, in the same order, and each level the channels
/// that were asked for it, in the same order. For closing it has as many levels, with no other channels
/// than those.
pub proof fn law_pool_has_the_channels_asked_for<Behavior: PoolBehavior>(
    pool: Pool<Behavior>,
    config: Seq<PriorityLevel<Behavior>>,
    widths: Seq<Seq<nat>>,
    l: int,
)
    requires
        pool.laid_for(config, widths),
        0 <= l < config.len(),
    ensures
        pool.levels@.len() == config.len(),
        pool.levels_shutdown@.len() == config.len(),
        pool.levels@[l].channels@.len() == config[l].0@.len(),
        forall|c: int|
            0 <= c < config[l].0@.len() ==> (#[trigger] pool.levels@[l].channels@[c]).key
                == config[l].0@[c].key,
        forall|k: int|
            0 <= k < pool.levels_shutdown@[l].channels@.len()
                ==> pool.levels@[l].channels@.contains(
                #[trigger] pool.levels_shutdown@[l].channels@[k],
            ),
{
    assert(pool.levels@[l].wf());
    assert(pool.levels_shutdown@[l].wf());
    let (params, all) = (config[l].0@, pool.levels@[l].channels@);
    let kept = pool.levels_shutdown@[l].channels@;
    assert forall|k: int| 0 <= k < kept.len() implies all.contains(#[trigger] kept[k]) by {
        assert(kept.contains(kept[k]));
        law_shutdown_level_completes(params, all, kept[k]);
        let c = choose|c: int|
            0 <= c < params.len() && (#[trigger] params[c]).complete_on_close && all[c] == kept[k];
        assert(all[c] == kept[k]);
    }
}

/// Whether channel `key`, at its turn, claimed the bits of `field` from `from` up to, but not including,
/// `until`.
pub open spec fn claimed_bits<Behavior: PoolBehavior>(
    key: Behavior::ChannelKey,
    field: AtomMonitor<u64>,
    from: nat,
    until: nat,
) -> bool {
    exists|asked: Behavior, next: Behavior| #[trigger]
        asked.claimed(next, key, field, from, until, true)
}

proof fn lemma_level_claims<Behavior: PoolBehavior>(
    params: Seq<ChannelParams<Behavior>>,
    behavior: Behavior,
    next: Behavior,
    field: AtomMonitor<u64>,
    start: nat,
    widths: Seq<nat>,
    c: int,
)
    requires
        owned::level_granted(params, behavior, next, field, start, widths),
        0 <= c < params.len(),
    ensures
        widths.len() == params.len(),
        claimed_bits::<Behavior>(
            params[c].key,
            field,
            start + layout::sum(widths.take(c)),
            start + layout::sum(widths.take(c + 1)),
        ),
    decreases params.len(),
{
    let asked = choose|asked: Behavior|
        {
            &&& owned::level_granted(
                params.drop_last(),
                behavior,
                asked,
                field,
                start,
                widths.drop_last(),
            )
            &&& #[trigger] asked.claimed(
                next,
                params.last().key,
                field,
                start + layout::sum(widths.drop_last()),
                start + layout::sum(widths),
                true,
            )
        };
    if c < params.len() - 1 {
        lemma_level_claims(
            params.drop_last(),
            behavior,
            asked,
            field,
            start,
            widths.drop_last(),
            c,
        );
        assert(widths.drop_last().take(c) =~= widths.take(c));
        assert(widths.drop_last().take(c + 1) =~= widths.take(c + 1));
    } else {
        assert(widths.take(c) =~= widths.drop_last());
        assert(widths.take(c + 1) =~= widths);
    }
}

proof fn lemma_pool_claims<Behavior: PoolBehavior>(
    config: Seq<PriorityLevel<Behavior>>,
    behavior: Behavior,
    next: Behavior,
    field: AtomMonitor<u64>,
    widths: Seq<Seq<nat>>,
    l: int,
    c: int,
)
    requires
        owned::pool_granted(config, behavior, next, field, widths),
        0 <= l < config.len(),
        0 <= c < config[l].0@.len(),
    ensures
        claimed_bits::<Behavior>(
            config[l].0@[c].key,
            field,
            layout::level_start(widths, l as nat) + layout::sum(widths[l].take(c)),
            layout::level_start(widths, l as nat) + layout::sum(widths[l].take(c + 1)),
        ),
    decreases config.len(),
{
    let asked = choose|asked: Behavior|
        {
            &&& owned::pool_granted(
                config.drop_last(),
                behavior,
                asked,
                field,
                widths.drop_last(),
            )
            &&& #[trigger] owned::level_granted(
                config.last().0@,
                asked,
                next,
                field,
                layout::level_start(widths.drop_last(), (config.len() - 1) as nat),
                widths.last(),
            )
        };
    layout::lemma_level_start_agree(widths.drop_last(), widths, l as nat);
    if l < config.len() - 1 {
        lemma_pool_claims(
            config.drop_last(),
            behavior,
            asked,
            field,
            widths.drop_last(),
            l,
            c,
        );
    } else {
        lemma_level_claims(
            config.last().0@,
            asked,
            next,
            field,
            layout::level_start(widths.drop_last(), (config.len() - 1) as nat),
            widths.last(),
            c,
        );
    }
}

/// The mask by which a pool looks for tasks of a channel holds exactly the bits of the present field that
/// the channel claimed, those from `from` up to, but not including, `until`.
pub proof fn law_mask_is_what_the_channel_claimed<Behavior: PoolBehavior>(
    pool: Pool<Behavior>,
    behavior: Behavior,
    config: Seq<PriorityLevel<Behavior>>,
    widths: Seq<Seq<nat>>,
    l: int,
    c: int,
) -> (claim: (nat, nat))
    requires
        pool.laid_for(config, widths),
        owned::pool_granted(config, behavior, pool.behavior, pool.field(), widths),
        0 <= l < config.len(),
        0 <= c < config[l].0@.len(),
    ensures
        claimed_bits::<Behavior>(config[l].0@[c].key, pool.field(), claim.0, claim.1),
        forall|i: int| #[trigger]
            bits::has_bit(pool.levels@[l].channels@[c].mask, i) <==> 0 <= i < 64 && claim.0 <= i
                < claim.1,
{
    let start = layout::level_start(widths, l as nat);
    let claim = (start + layout::sum(widths[l].take(c)), start + layout::sum(widths[l].take(c + 1)));
    lemma_pool_claims(config, behavior, pool.behavior, pool.field(), widths, l, c);
    assert(pool.levels@[l].wf());
    assert(bits::is_span(
        pool.levels@[l].channels@[c].mask,
        claim.0 as int,
        claim.1 as int,
    ));
    claim
}

/// What becomes of a task by how its poll ended. One that was woken during the poll is polled again, and
/// nothing of it changes. One that was given away is left; if it came from a channel that is completed
/// on close it counts from then on, and is counted where it was not. One that is complete is finished;
/// it is counted off exactly if it was counted, and then the workers that wait to close are notified
/// exactly if the pool is closed.
pub proof fn law_poll_decides_what_becomes_of_task(
    counted: bool,
    critical: bool,
    lifecycle: LifecycleState,
)
    ensures
        ({
            let (still, next) = followup::after_poll(
                counted,
                Some(AfterYield::PollAgain),
                critical,
                lifecycle,
            );
            still == counted && next == AfterPoll::PollAgain
        }),
        ({
            let (still, next) = followup::after_poll(
                counted,
                Some(AfterYield::Leave),
                critical,
                lifecycle,
            );
            &&& next matches AfterPoll::Leave { count } && (count <==> still && !counted)
            &&& critical ==> still
            &&& !critical ==> still == counted
        }),
        ({
            let (_, next) = followup::after_poll(counted, None, critical, lifecycle);
            next matches AfterPoll::Finish(completion) && completion.uncount == counted
                && completion.notify == (counted && lifecycle == LifecycleState::Closed)
        }),
{
}

/// When a task that was counted completes, the close counter goes down, and if the pool is closed the
/// threads that wait upon the present field are woken after that: a worker that waits for the task sees
/// that it is complete. No other completion changes the counter or wakes anyone.
pub proof fn law_completion_wakes_closing_workers<Behavior: PoolBehavior>(
    pool: Pool<Behavior>,
    settled: Settled,
    counted: bool,
    critical: bool,
)
    requires
        settled.next == followup::after_poll(
            counted,
            None,
            critical,
            settled.lifecycle.shown(),
        ).1,
        pool.counted_as(settled),
        pool.notified_as(settled),
    ensures
        counted ==> (settled.counted matches Some(step) && step.counter()
            == pool.close_counter.counter() && !step.up()),
        counted && settled.lifecycle.shown() == LifecycleState::Closed ==> (
        settled.notice matches Some(notice) && notice.monitor() == pool.field() && notice.follows(
            settled.counted,
        )),
        settled.lifecycle.shown() == LifecycleState::Running ==> settled.notice is None,
        !counted ==> settled.counted is None && settled.notice is None,
{
}

/// A running pool is closed by the first attempt, and by no other: the attempt succeeds, and every one
/// after it finds the pool closed, and leaves it so.
pub proof fn law_pool_is_closed_once(
    first: LifecycleHandle,
    second: LifecycleHandle,
    third: LifecycleHandle,
    close: LifecycleExchange,
    again: LifecycleExchange,
)
    requires
        first.state() == LifecycleState::Running,
        first.closed(second, close),
        second.closed(third, again),
    ensures
        close.held() == Ok::<LifecycleState, LifecycleState>(LifecycleState::Running),
        second.state() == LifecycleState::Closed,
        again.held() == Err::<LifecycleState, LifecycleState>(LifecycleState::Closed),
        third.state() == LifecycleState::Closed,
        third.cell() == first.cell(),
        third.exchanges() == first.exchanges() + seq![close, again],
{
}

/// A pool that was just made runs, shows no task, has nothing counted, has as many workers as its
/// configuration asks for, and its workers follow the schedule of the configuration.
pub proof fn law_new_pool_runs<Behavior: PoolBehavior>(
    behavior: Behavior,
    config: PoolConfig<Behavior>,
    owned: OwnedPool<Behavior>,
)
    requires
        OwnedPool::made(behavior, config, Ok(owned)),
    ensures
        owned.lifecycle.state() == LifecycleState::Running,
        owned.lifecycle.cell() == owned.pool.lifecycle_state.cell(),
        owned.started.lifecycle_state.of(
            owned.pool.lifecycle_state.cell(),
            LifecycleState::Running,
        ),
        owned.started.present_field.of(owned.pool.field(), 0),
        owned.started.close_counter.of(owned.pool.close_counter.counter(), 0),
        owned.threads == config.threads,
        pool::follows(owned.work, config.schedule),
        config.schedule is HighestFirst <==> owned.work is HighestFirst,
{
}

/// The channels of a shutdown level stand in the order in which they stand in the level, each as often:
/// gives for each of them its place in the level.
pub proof fn law_shutdown_level_keeps_order<Behavior: PoolBehavior>(
    params: Seq<ChannelParams<Behavior>>,
    channels: Seq<ChannelIdentifier<Behavior::ChannelKey>>,
) -> (places: Seq<int>)
    requires
        params.len() == channels.len(),
    ensures
        places.len() == layout::completing(params, channels).len(),
        forall|k: int|
            0 <= k < places.len() ==> {
                &&& 0 <= (#[trigger] places[k]) < params.len()
                &&& params[places[k]].complete_on_close
                &&& layout::completing(params, channels)[k] == channels[places[k]]
            },
        forall|j: int, k: int| 0 <= j < k < places.len() ==> #[trigger] places[j] < #[trigger] places[k],
        forall|c: int|
            0 <= c < params.len() && (#[trigger] params[c]).complete_on_close ==> places.contains(c),
    decreases params.len(),
{
    if params.len() == 0 {
        Seq::empty()
    } else {
        let (fewer, first) = (params.drop_last(), channels.drop_last());
        let earlier = law_shutdown_level_keeps_order(fewer, first);
        let last = params.len() - 1;
        let places = if params.last().complete_on_close {
            earlier.push(last)
        } else {
            earlier
        };
        assert forall|k: int| 0 <= k < places.len() implies {
            &&& 0 <= (#[trigger] places[k]) < params.len()
            &&& params[places[k]].complete_on_close
            &&& layout::completing(params, channels)[k] == channels[places[k]]
        } by {
            if k < earlier.len() {
                assert(places[k] == earlier[k]);
                assert(fewer[earlier[k]] == params[earlier[k]]);
                assert(first[earlier[k]] == channels[earlier[k]]);
            }
        }
        assert forall|c: int|
            0 <= c < params.len() && (
            #[trigger] params[c]).complete_on_close implies places.contains(c) by {
            if c < last {
                assert(fewer[c] == params[c]);
                let k = earlier.index_of(c);
                assert(places[k] == c);
            } else {
                assert(places[earlier.len() as int] == c);
            }
        }
        places
    }
}

} // verus!
