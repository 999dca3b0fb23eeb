//! Which levels the workers of a pool serve, by the masks of the levels and what the present field shows.
use vstd::prelude::*;

use crate::bits;
use crate::moment::StdDuration;
use crate::pool::layout::Level;
use crate::pool::worker;
use crate::pool::worker::{HighestFirst, RoundRobin};
use crate::pool::LifecycleState;

verus! {

/// A highest-first worker that goes on to poll a level polls the highest one that has a task: the
/// field has a bit of that level, and none of any level before it.
pub proof fn law_highest_level_is_served<Key>(
    levels: Seq<Level<Key>>,
    field: u64,
    lifecycle: LifecycleState,
    level: usize,
)
    requires
        HighestFirst::Await.leads_to(levels, field, lifecycle, HighestFirst::Find { level }),
    ensures
        level < levels.len(),
        field & levels[level as int].mask != 0,
        forall|k: int| 0 <= k < level ==> field & (#[trigger] levels[k]).mask == 0,
{
    bits::lemma_meets(field, levels[level as int].mask);
    assert forall|k: int| 0 <= k < level implies field & (#[trigger] levels[k]).mask == 0 by {
        bits::lemma_meets(field, levels[k].mask);
    }
}

/// A highest-first worker that has waited serves some level if any level has a task, at the latest the
/// one that has it, and otherwise looks at the lifecycle before it waits again.
pub proof fn law_task_of_any_level_is_served<Key>(
    levels: Seq<Level<Key>>,
    field: u64,
    lifecycle: LifecycleState,
    next: HighestFirst,
)
    requires
        HighestFirst::Await.leads_to(levels, field, lifecycle, next),
    ensures
        forall|k: int|
            0 <= k < levels.len() && field & (#[trigger] levels[k]).mask != 0 ==> (
            next matches HighestFirst::Find { level } && level <= k),
        (forall|k: int| 0 <= k < levels.len() ==> field & (#[trigger] levels[k]).mask == 0) ==> next
            == HighestFirst::Start,
{
    if let HighestFirst::Find { level } = next {
        law_highest_level_is_served(levels, field, lifecycle, level);
    }
    assert forall|k: int| 0 <= k < levels.len() && field & (#[trigger] levels[k]).mask != 0 implies (
    next matches HighestFirst::Find { level } && level <= k) by {
        bits::lemma_meets(field, levels[k].mask);
    }
}

/// Of two levels that both have a task when a highest-first worker looks, the lower one is not served,
/// however the levels, the other bits of the field and the lifecycle are.
pub proof fn law_lower_level_waits<Key>(
    levels: Seq<Level<Key>>,
    field: u64,
    lifecycle: LifecycleState,
    high: int,
    low: usize,
)
    requires
        0 <= high < low < levels.len(),
        field & levels[high].mask != 0,
    ensures
        !HighestFirst::Await.leads_to(
            levels,
            field,
            lifecycle,
            HighestFirst::Find { level: low },
        ),
{
    if HighestFirst::Await.leads_to(levels, field, lifecycle, HighestFirst::Find { level: low }) {
        law_highest_level_is_served(levels, field, lifecycle, low);
    }
}

/// A highest-first worker works on while the pool runs, and turns to closing when it does not: before
/// each pass it waits if the pool runs and closes if not. A level of which a poll found nothing is
/// polled again as long as it shows a task and the pool runs, and is left as soon as it shows none.
pub proof fn law_highest_first_works_while_running<Key>(
    levels: Seq<Level<Key>>,
    field: u64,
    lifecycle: LifecycleState,
    level: usize,
    next: HighestFirst,
)
    requires
        level < levels.len(),
    ensures
        HighestFirst::Start.leads_to(levels, field, lifecycle, next) ==> {
            &&& lifecycle == LifecycleState::Running ==> next == HighestFirst::Await
            &&& lifecycle == LifecycleState::Closed ==> next == HighestFirst::Close
        },
        (HighestFirst::Missed { level }).leads_to(levels, field, lifecycle, next) ==> {
            &&& field & levels[level as int].mask == 0 ==> next == HighestFirst::Start
            &&& field & levels[level as int].mask != 0 && lifecycle == LifecycleState::Running
                ==> next == (HighestFirst::Find { level })
            &&& field & levels[level as int].mask != 0 && lifecycle == LifecycleState::Closed
                ==> next == HighestFirst::Close
        },
        HighestFirst::Close.leads_to(levels, field, lifecycle, next) ==> next
            == HighestFirst::Close,
{
    bits::lemma_meets(field, levels[level as int].mask);
}

/// A highest-first worker starts another pass after each task that it ran, and after a poll that found
/// nothing looks at the field before it polls the level again. No other state comes of a poll.
pub proof fn law_highest_first_looks_after_each_poll(level: usize)
    ensures
        (HighestFirst::Find { level }).after_poll(true) == HighestFirst::Start,
        (HighestFirst::Find { level }).after_poll(false) == (HighestFirst::Missed { level }),
{
}

/// What a round-robin worker sees, or does.
pub enum RobinEvent {
    /// It looks at the field, the lifecycle and its timer.
    Look { field: u64, lifecycle: LifecycleState, elapsed: StdDuration },
    /// It polls a channel, and runs the task if one was `found`.
    Poll { found: bool },
}

/// Whether `states` are where a round-robin worker stands as `events` happen.
pub open spec fn robin_run<Key>(
    levels: Seq<Level<Key>>,
    slices: Seq<StdDuration>,
    states: Seq<RoundRobin>,
    events: Seq<RobinEvent>,
) -> bool {
    &&& states.len() == events.len() + 1
    &&& forall|k: int| 0 <= k < events.len() ==> #[trigger] robin_step(levels, slices, states, events, k)
}

/// Whether event `k` takes the worker from state `k` to the next. It polls where it has a level to
/// poll, and looks elsewhere.
pub open spec fn robin_step<Key>(
    levels: Seq<Level<Key>>,
    slices: Seq<StdDuration>,
    states: Seq<RoundRobin>,
    events: Seq<RobinEvent>,
    k: int,
) -> bool {
    match events[k] {
        RobinEvent::Look { field, lifecycle, elapsed } => {
            &&& !(states[k] is Find)
            &&& states[k + 1] == states[k].next(levels, slices, field, lifecycle, elapsed)
        },
        RobinEvent::Poll { found } => {
            &&& states[k] is Find
            &&& states[k + 1] == states[k].after_poll(found)
        },
    }
}

/// Whether the worker enters `level` in state `m`.
pub open spec fn enters(states: Seq<RoundRobin>, level: int, m: int) -> bool {
    states[m] matches RoundRobin::Enter { level: at } && at == level
}

/// Whether the worker enters `level` in some state after state `i`, and before state `j`.
pub open spec fn enters_between(states: Seq<RoundRobin>, level: int, i: int, j: int) -> bool {
    exists|k: int| i < k < j && #[trigger] enters(states, level, k)
}

/// Whether the pool ran at every look from event `from` up to, but not including, event `until`.
pub open spec fn ran(events: Seq<RobinEvent>, from: int, until: int) -> bool {
    forall|k: int|
        from <= k < until ==> ((#[trigger] events[k]) matches RobinEvent::Look { lifecycle, .. }
            ==> lifecycle == LifecycleState::Running)
}

/// The level that a round-robin worker works on.
pub open spec fn works_on(state: RoundRobin) -> int {
    match state {
        RoundRobin::Enter { level } => level as int,
        RoundRobin::Check { level } => level as int,
        RoundRobin::Rest { level } => level as int,
        RoundRobin::Find { level } => level as int,
        RoundRobin::Missed { level } => level as int,
        _ => -1,
    }
}

/// A round of a running pool, from the look at the lifecycle in state `i` on: the worker waits once, and
/// then has entered every level up to the one it works on, one after the other.
proof fn lemma_round_so_far<Key>(
    levels: Seq<Level<Key>>,
    slices: Seq<StdDuration>,
    states: Seq<RoundRobin>,
    events: Seq<RobinEvent>,
    i: int,
    m: int,
)
    requires
        robin_run(levels, slices, states, events),
        0 < levels.len() <= usize::MAX,
        0 <= i < m < states.len(),
        states[i] == RoundRobin::Start,
        ran(events, i, m),
        forall|k: int| i < k < m ==> #[trigger] states[k] != RoundRobin::Start,
    ensures
        m == i + 1 ==> states[m] == RoundRobin::Await,
        m > i + 1 ==> {
            &&& states[m] == RoundRobin::Start || 0 <= works_on(states[m]) < levels.len()
            &&& forall|l: int|
                0 <= l <= works_on(states[m]) || states[m] == RoundRobin::Start && 0 <= l
                    < levels.len() ==> #[trigger] enters_between(states, l, i, m + 1)
            &&& forall|k: int|
                i + 1 < k <= m && states[m] != RoundRobin::Start ==> works_on(#[trigger] states[k])
                    <= works_on(states[m])
        },
    decreases m,
{
    assert(robin_step(levels, slices, states, events, m - 1));
    assert(events[m - 1] matches RobinEvent::Look { lifecycle, .. } ==> lifecycle
        == LifecycleState::Running);
    if m > i + 1 {
        assert(states[m - 1] != RoundRobin::Start);
        lemma_round_so_far(levels, slices, states, events, i, m - 1);
        if m == i + 2 {
            assert(enters(states, 0, m));
            assert(enters_between(states, 0, i, m + 1));
        } else {
            let before = works_on(states[m - 1]);
            if states[m] != RoundRobin::Start && works_on(states[m]) != before {
                assert(works_on(states[m]) == before + 1);
                assert(enters(states, before + 1, m));
            }
            assert forall|l: int|
                0 <= l <= works_on(states[m]) || states[m] == RoundRobin::Start && 0 <= l
                    < levels.len() implies #[trigger] enters_between(states, l, i, m + 1) by {
                if l <= before {
                    assert(enters_between(states, l, i, m - 1 + 1));
                    let k = choose|k: int| i < k < m && #[trigger] enters(states, l, k);
                    assert(i < k < m + 1 && enters(states, l, k));
                } else {
                    assert(l == before + 1);
                    assert(i < m < m + 1 && enters(states, l, m));
                }
            }
        }
    }
}

/// A round of a running pool serves every level, in order: between two looks at the lifecycle before a
/// round, the worker enters each level, from the first to the last, and no level after a later one.
pub proof fn law_round_enters_every_level_in_order<Key>(
    levels: Seq<Level<Key>>,
    slices: Seq<StdDuration>,
    states: Seq<RoundRobin>,
    events: Seq<RobinEvent>,
    i: int,
    j: int,
)
    requires
        robin_run(levels, slices, states, events),
        0 < levels.len() <= usize::MAX,
        0 <= i < j < states.len(),
        states[i] == RoundRobin::Start,
        states[j] == RoundRobin::Start,
        ran(events, i, j),
        forall|k: int| i < k < j ==> #[trigger] states[k] != RoundRobin::Start,
    ensures
        forall|l: int|
            0 <= l < levels.len() ==> #[trigger] enters_between(states, l, i, j),
        forall|a: int, b: int, k: int, m: int|
            i < k < j && i < m < j && a < b && #[trigger] enters(states, a, k) && #[trigger] enters(
                states,
                b,
                m,
            ) ==> k < m,
{
    lemma_round_so_far(levels, slices, states, events, i, j);
    assert forall|l: int| 0 <= l < levels.len() implies #[trigger] enters_between(
        states,
        l,
        i,
        j,
    ) by {
        assert(enters_between(states, l, i, j + 1));
        let k = choose|k: int| i < k < j + 1 && #[trigger] enters(states, l, k);
        assert(i < k < j && enters(states, l, k));
    }
    assert forall|a: int, b: int, k: int, m: int|
        i < k < j && i < m < j && a < b && #[trigger] enters(states, a, k) && #[trigger] enters(
            states,
            b,
            m,
        ) implies k < m by {
        if m <= k {
            lemma_round_so_far(levels, slices, states, events, i, k);
            if m == i + 1 {
                lemma_round_so_far(levels, slices, states, events, i, m);
            }
            assert(works_on(states[m]) <= works_on(states[k]));
        }
    }
}

/// A round begins with the first level, whatever the worker sees as it has waited: with any level there
/// is, the worker that waited enters level zero.
pub proof fn law_round_begins_with_first_level<Key>(
    levels: Seq<Level<Key>>,
    slices: Seq<StdDuration>,
    field: u64,
    lifecycle: LifecycleState,
    elapsed: StdDuration,
)
    ensures
        levels.len() > 0 ==> enters(
            seq![RoundRobin::Await.next(levels, slices, field, lifecycle, elapsed)],
            0,
            0,
        ),
        levels.len() == 0 ==> RoundRobin::Await.next(levels, slices, field, lifecycle, elapsed)
            == RoundRobin::Start,
{
}

/// Whether a timer that shows `elapsed` has used up `slice`.
pub open spec fn used_up(elapsed: StdDuration, slice: StdDuration) -> bool {
    elapsed.secs * 1_000_000_000 + elapsed.nanos >= slice.secs * 1_000_000_000 + slice.nanos
}

/// While the pool runs, a round-robin worker works on a level exactly as long as the level shows a task
/// and has time left: it looks at the level, waits, and polls it, and goes on to another level, or to
/// the next round, as soon as the level shows none or its time is used up. A poll that found nothing is
/// followed by another of the same level as long as the level shows a task.
pub proof fn law_level_is_served_for_its_slice<Key>(
    levels: Seq<Level<Key>>,
    slices: Seq<StdDuration>,
    field: u64,
    elapsed: StdDuration,
    level: usize,
)
    requires
        level < levels.len() <= usize::MAX,
        slices.len() == levels.len(),
    ensures
        ({
            let running = LifecycleState::Running;
            let shows = field & levels[level as int].mask != 0;
            let time = !used_up(elapsed, slices[level as int]);
            let entered = (RoundRobin::Enter { level }).next(
                levels,
                slices,
                field,
                running,
                elapsed,
            );
            let checked = (RoundRobin::Check { level }).next(
                levels,
                slices,
                field,
                running,
                elapsed,
            );
            let rested = (RoundRobin::Rest { level }).next(levels, slices, field, running, elapsed);
            let missed = (RoundRobin::Missed { level }).next(
                levels,
                slices,
                field,
                running,
                elapsed,
            );
            &&& entered == (RoundRobin::Check { level })
            &&& shows && time ==> checked == (RoundRobin::Rest { level })
            &&& shows && time ==> rested == (RoundRobin::Find { level })
            &&& shows ==> missed == (RoundRobin::Find { level })
            &&& !shows || !time ==> works_on(checked) != level && works_on(rested) != level
            &&& !shows ==> works_on(missed) != level
            &&& checked != RoundRobin::Close && rested != RoundRobin::Close && missed
                != RoundRobin::Close
        }),
{
    bits::lemma_meets(field, levels[level as int].mask);
}

/// A round-robin worker that leaves a level goes on with the next one, or ends the round after the last:
/// when the level shows no task, when its time is used up, and at the look before it waits also when the
/// pool does not run.
pub proof fn law_level_is_left_for_the_next<Key>(
    levels: Seq<Level<Key>>,
    slices: Seq<StdDuration>,
    field: u64,
    lifecycle: LifecycleState,
    elapsed: StdDuration,
    level: usize,
    state: RoundRobin,
    next: RoundRobin,
)
    requires
        level < levels.len() <= usize::MAX,
        slices.len() == levels.len(),
        ({
            let shows = field & levels[level as int].mask != 0;
            let time = !used_up(elapsed, slices[level as int]);
            let runs = lifecycle == LifecycleState::Running;
            ||| state == (RoundRobin::Check { level }) && !(shows && time && runs)
            ||| state == (RoundRobin::Rest { level }) && runs && !(shows && time)
            ||| state == (RoundRobin::Missed { level }) && !shows
        }),
        next == state.next(levels, slices, field, lifecycle, elapsed),
    ensures
        level + 1 < levels.len() ==> (next matches RoundRobin::Enter { level: entered } && entered
            == level + 1),
        level + 1 == levels.len() ==> next == RoundRobin::Start,
{
    bits::lemma_meets(field, levels[level as int].mask);
}

/// A round-robin worker turns to closing when it sees that the pool does not run, before it waits, after
/// it has waited at a level, and after a poll of a level that still shows a task. Before it waits, it
/// waits exactly when the pool runs.
pub proof fn law_round_robin_works_while_running<Key>(
    levels: Seq<Level<Key>>,
    slices: Seq<StdDuration>,
    field: u64,
    lifecycle: LifecycleState,
    elapsed: StdDuration,
    level: usize,
)
    requires
        level < levels.len() <= usize::MAX,
        slices.len() == levels.len(),
    ensures
        lifecycle == LifecycleState::Running ==> RoundRobin::Start.next(
            levels,
            slices,
            field,
            lifecycle,
            elapsed,
        ) == RoundRobin::Await,
        lifecycle == LifecycleState::Closed ==> {
            &&& RoundRobin::Start.next(levels, slices, field, lifecycle, elapsed)
                == RoundRobin::Close
            &&& (RoundRobin::Rest { level }).next(levels, slices, field, lifecycle, elapsed)
                == RoundRobin::Close
            &&& field & levels[level as int].mask != 0 ==> (RoundRobin::Missed { level }).next(
                levels,
                slices,
                field,
                lifecycle,
                elapsed,
            ) == RoundRobin::Close
            &&& works_on(
                (RoundRobin::Check { level }).next(levels, slices, field, lifecycle, elapsed),
            ) != level
        },
{
    bits::lemma_meets(field, levels[level as int].mask);
}

/// A round-robin worker looks at its level again after each poll of it, whether a task was found or
/// not, and polls it again only after it has looked.
pub proof fn law_round_robin_looks_after_each_poll(level: usize)
    ensures
        (RoundRobin::Find { level }).after_poll(true) == (RoundRobin::Check { level }),
        (RoundRobin::Find { level }).after_poll(false) == (RoundRobin::Missed { level }),
{
}

/// A worker of a running pool waits exactly while no bit of the field is raised, and no worker of a closed
/// pool waits. Where every bit that can be raised is one of some level, a worker that goes on while the
/// pool runs has a level to serve, and one that does not go on has none.
pub proof fn law_worker_wakes_when_there_is_work<Key>(
    levels: Seq<Level<Key>>,
    field: u64,
    lifecycle: LifecycleState,
    next: HighestFirst,
)
    requires
        forall|i: int| #[trigger]
            bits::has_bit(field, i) ==> exists|l: int|
                0 <= l < levels.len() && bits::has_bit((#[trigger] levels[l]).mask, i),
        HighestFirst::Await.leads_to(levels, field, lifecycle, next),
    ensures
        lifecycle == LifecycleState::Closed ==> worker::is_woken(field, lifecycle),
        lifecycle == LifecycleState::Running ==> (worker::is_woken(field, lifecycle) <==> field != 0),
        lifecycle == LifecycleState::Running ==> (worker::is_woken(field, lifecycle)
            <==> next is Find),
{
    if field != 0 {
        let i = bits::lemma_nonzero_has_bit(field);
        let l = choose|l: int|
            0 <= l < levels.len() && bits::has_bit((#[trigger] levels[l]).mask, i);
        assert(bits::has_bit(field, i) && bits::has_bit(levels[l].mask, i));
        bits::lemma_meets(field, levels[l].mask);
        law_task_of_any_level_is_served(levels, field, lifecycle, next);
    }
    if let HighestFirst::Find { level } = next {
        law_highest_level_is_served(levels, field, lifecycle, level);
        let mask = levels[level as int].mask;
        assert(field == 0 ==> field & mask == 0) by (bit_vector);
    }
}

} // verus!
