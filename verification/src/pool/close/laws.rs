//! What workers do while a pool closes, by the masks of the shutdown levels and what the present field
//! shows, and what becomes of the closing.
use vstd::prelude::*;

use crate::bits;
use crate::pool::close;
use crate::pool::close::{CloseGoal, ClosePoll, Closing, PoolClose};
use crate::pool::layout::Level;

verus! {

/// A closing worker that has finished waiting is done exactly when the field has no bit of the shutdown
/// mask, whatever the mask is, and whatever other bits the field has: tasks of other channels do not
/// keep it.
pub proof fn law_closing_ends_when_no_critical_task_shows<Key>(
    levels_shutdown: Seq<Level<Key>>,
    complete_shutdown_mask: u64,
    field: u64,
    goal: CloseGoal,
    next: Closing,
)
    ensures
        field & complete_shutdown_mask == 0 ==> ((Closing::Idle { goal }).leads_to(
            levels_shutdown,
            complete_shutdown_mask,
            field,
            next,
        ) <==> next == Closing::Done),
        field & complete_shutdown_mask != 0 ==> !(Closing::Idle { goal }).leads_to(
            levels_shutdown,
            complete_shutdown_mask,
            field,
            Closing::Done,
        ),
{
    bits::lemma_meets(field, complete_shutdown_mask);
}

/// A closing worker waits exactly when the field shows no critical task, and then knows what to go on
/// with. What it goes on with is the field as it saw it before the pass.
pub proof fn law_closing_waits_when_no_critical_task_shows<Key>(
    levels_shutdown: Seq<Level<Key>>,
    complete_shutdown_mask: u64,
    field: u64,
    goal: CloseGoal,
    next: Closing,
)
    ensures
        Closing::Start.leads_to(levels_shutdown, complete_shutdown_mask, field, next) ==> next == (
        Closing::Check { goal: CloseGoal::Search { captured: field } }),
        (Closing::Check { goal }).leads_to(levels_shutdown, complete_shutdown_mask, field, next) ==> (
        next == (Closing::Idle { goal }) <==> field & complete_shutdown_mask == 0),
        (Closing::Check { goal }).leads_to(levels_shutdown, complete_shutdown_mask, field, next)
            ==> next != Closing::Done,
        Closing::Done.leads_to(levels_shutdown, complete_shutdown_mask, field, next) ==> next
            == Closing::Done,
{
    bits::lemma_meets(field, complete_shutdown_mask);
}

/// A closing worker that is not done serves the highest shutdown level that had a task before the pass:
/// the captured field has a bit of that level, and none of any level before it. It starts another pass
/// only where no shutdown level had one.
pub proof fn law_closing_serves_highest_level<Key>(
    levels_shutdown: Seq<Level<Key>>,
    complete_shutdown_mask: u64,
    field: u64,
    captured: u64,
    state: Closing,
    next: Closing,
)
    requires
        state == (Closing::Check { goal: CloseGoal::Search { captured } }) || state == (
        Closing::Idle { goal: CloseGoal::Search { captured } }),
        field & complete_shutdown_mask != 0,
        state.leads_to(levels_shutdown, complete_shutdown_mask, field, next),
    ensures
        match next {
            Closing::Find { level } => {
                &&& level < levels_shutdown.len()
                &&& captured & levels_shutdown[level as int].mask != 0
                &&& forall|k: int|
                    0 <= k < level ==> captured & (#[trigger] levels_shutdown[k]).mask == 0
            },
            Closing::Start => forall|k: int|
                0 <= k < levels_shutdown.len() ==> captured & (#[trigger] levels_shutdown[k]).mask
                    == 0,
            _ => false,
        },
{
    bits::lemma_meets(field, complete_shutdown_mask);
    assert forall|k: int| 0 <= k < levels_shutdown.len() implies (captured & (
    #[trigger] levels_shutdown[k]).mask != 0 <==> bits::meets(captured, levels_shutdown[k].mask)) by {
        bits::lemma_meets(captured, levels_shutdown[k].mask);
    }
}

/// A closing worker whose poll found nothing polls the same level again as long as the level shows a
/// critical task, and otherwise starts another pass. While no critical task shows at all it waits first.
pub proof fn law_closing_tries_level_again<Key>(
    levels_shutdown: Seq<Level<Key>>,
    complete_shutdown_mask: u64,
    field: u64,
    level: usize,
    next: Closing,
)
    requires
        level < levels_shutdown.len(),
    ensures
        (Closing::Find { level }).after_poll(true) == Closing::Start,
        (Closing::Find { level }).after_poll(false) == (Closing::Check {
            goal: CloseGoal::Retry { level },
        }),
        (Closing::Check { goal: CloseGoal::Retry { level } }).leads_to(
            levels_shutdown,
            complete_shutdown_mask,
            field,
            next,
        ) ==> next == if field & complete_shutdown_mask == 0 {
            Closing::Idle { goal: CloseGoal::Retry { level } }
        } else {
            Closing::Missed { level }
        },
        (Closing::Idle { goal: CloseGoal::Retry { level } }).leads_to(
            levels_shutdown,
            complete_shutdown_mask,
            field,
            next,
        ) && field & complete_shutdown_mask != 0 ==> next == (Closing::Missed { level }),
        (Closing::Missed { level }).leads_to(levels_shutdown, complete_shutdown_mask, field, next)
            ==> {
            &&& field & complete_shutdown_mask & levels_shutdown[level as int].mask != 0 ==> next == (
            Closing::Find { level })
            &&& field & complete_shutdown_mask & levels_shutdown[level as int].mask == 0 ==> next
                == Closing::Start
        },
{
    bits::lemma_meets(field, complete_shutdown_mask);
    bits::lemma_meets(field & complete_shutdown_mask, levels_shutdown[level as int].mask);
}

/// As the workers of a pool join one after the other, the outcome of the closing is known no later than
/// when the last has joined, and it is that of the first worker that failed, or success if none did. A
/// pool without workers closes with success at once.
pub proof fn law_closing_has_outcome_of_workers<E>(results: Seq<Result<(), E>>) -> (k: int)
    ensures
        results.len() == 0 ==> close::outcome_at_first::<E>(0) == Some(Ok::<(), E>(())),
        results.len() > 0 ==> {
            &&& close::outcome_at_first::<E>(results.len() as int) is None
            &&& 0 <= k < results.len()
            &&& forall|j: int|
                0 <= j < k ==> close::outcome(#[trigger] results[j], results.len() - 1 - j) is None
            &&& forall|j: int| 0 <= j < k ==> (#[trigger] results[j]) is Ok
            &&& close::outcome(results[k], results.len() - 1 - k) == Some(results[k])
            &&& results[k] is Ok ==> k == results.len() - 1
        },
    decreases results.len(),
{
    lemma_first_known(results, 0)
}

proof fn lemma_first_known<E>(results: Seq<Result<(), E>>, from: int) -> (k: int)
    requires
        0 <= from <= results.len(),
    ensures
        from < results.len() ==> {
            &&& from <= k < results.len()
            &&& forall|j: int|
                from <= j < k ==> close::outcome(#[trigger] results[j], results.len() - 1 - j) is None
                    && results[j] is Ok
            &&& close::outcome(results[k], results.len() - 1 - k) == Some(results[k])
            &&& results[k] is Ok ==> k == results.len() - 1
        },
    decreases results.len() - from,
{
    if from >= results.len() - 1 || results[from] is Err {
        from
    } else {
        lemma_first_known(results, from + 1)
    }
}

/// Over the polls of the future of the closing, the handles of the workers are given to a thread to join
/// once, at the first poll to which no outcome has come in; until the outcome comes in the future is not
/// ready, and from then on each poll finishes with that outcome.
pub proof fn law_workers_are_joined_once<H, E>(
    states: Seq<PoolClose<H>>,
    completed: Seq<Option<Result<(), E>>>,
    steps: Seq<ClosePoll<H, E>>,
    handles: H,
    k: int,
)
    requires
        states.len() == steps.len() + 1,
        completed.len() == steps.len(),
        states[0].handles() == Some(handles),
        forall|j: int|
            0 <= j < steps.len() ==> (#[trigger] states[j]).polled(
                states[j + 1],
                completed[j],
                steps[j],
            ),
        0 <= k < steps.len(),
    ensures
        completed[k] matches Some(result) ==> steps[k] == ClosePoll::<H, E>::Finish(result),
        completed[k] is None && (forall|j: int|
            0 <= j < k ==> (#[trigger] completed[j]) is Some) ==> steps[k] == ClosePoll::<
            H,
            E,
        >::Join(handles),
        completed[k] is None && (exists|j: int|
            0 <= j < k && (#[trigger] completed[j]) is None) ==> steps[k] == ClosePoll::<
            H,
            E,
        >::Pending,
{
    lemma_handles_left(states, completed, steps, handles, k);
    assert(states[k].polled(states[k + 1], completed[k], steps[k]));
}

proof fn lemma_handles_left<H, E>(
    states: Seq<PoolClose<H>>,
    completed: Seq<Option<Result<(), E>>>,
    steps: Seq<ClosePoll<H, E>>,
    handles: H,
    k: int,
)
    requires
        states.len() == steps.len() + 1,
        completed.len() == steps.len(),
        states[0].handles() == Some(handles),
        forall|j: int|
            0 <= j < steps.len() ==> (#[trigger] states[j]).polled(
                states[j + 1],
                completed[j],
                steps[j],
            ),
        0 <= k <= steps.len(),
    ensures
        (forall|j: int| 0 <= j < k ==> (#[trigger] completed[j]) is Some) ==> states[k].handles()
            == Some(handles),
        (exists|j: int| 0 <= j < k && (#[trigger] completed[j]) is None) ==> states[k].handles()
            is None,
    decreases k,
{
    if k > 0 {
        lemma_handles_left(states, completed, steps, handles, k - 1);
        assert(states[k - 1].polled(states[k - 1 + 1], completed[k - 1], steps[k - 1]));
        if exists|j: int| 0 <= j < k && (#[trigger] completed[j]) is None {
            let j = choose|j: int| 0 <= j < k && (#[trigger] completed[j]) is None;
            if j < k - 1 {
                assert(0 <= j < k - 1 && completed[j] is None);
            }
        }
    }
}

/// A closing worker waits exactly while tasks that block closing are counted and the field shows no
/// critical task. One that goes on, and sees the field as it was, is done exactly when nothing is counted
/// and no critical task shows.
pub proof fn law_closing_worker_waits_for_blocked_tasks<Key>(
    levels_shutdown: Seq<Level<Key>>,
    complete_shutdown_mask: u64,
    close_counter: u64,
    field: u64,
    goal: CloseGoal,
    next: Closing,
)
    requires
        (Closing::Idle { goal }).leads_to(levels_shutdown, complete_shutdown_mask, field, next),
    ensures
        !close::is_woken(close_counter, field, complete_shutdown_mask) <==> close_counter > 0
            && field & complete_shutdown_mask == 0,
        close::is_woken(close_counter, field, complete_shutdown_mask) ==> (next == Closing::Done
            <==> close_counter == 0 && field & complete_shutdown_mask == 0),
{
    bits::lemma_meets(field, complete_shutdown_mask);
    law_closing_ends_when_no_critical_task_shows(
        levels_shutdown,
        complete_shutdown_mask,
        field,
        goal,
        next,
    );
}

} // verus!
