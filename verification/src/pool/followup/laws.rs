//! What holds over all changes of the status of a task, whoever makes them, and in whichever order they
//! take effect.
use atomicmonitor::atomic::Atomic;
use vstd::prelude::*;

use crate::pool::followup;
use crate::pool::followup::cell::Exchange;
use crate::pool::followup::{AfterNotify, AfterYield, Notified, RunStatus};

verus! {

/// Whether a worker takes the task up in this change.
pub open spec fn is_take_up(change: Exchange) -> bool {
    &&& change.expected() == RunStatus::RequestedAndWillBeTakenCareOf
    &&& change.put() == RunStatus::NotRequestedAndWillBeTakenCareOf
}

/// Whether a worker gives the task away in this change, or tries to.
pub open spec fn is_giving(change: Exchange) -> bool {
    &&& change.expected() == RunStatus::NotRequestedAndWillBeTakenCareOf
    &&& change.put() == RunStatus::NotRequestedAndWillNotBeTakenCareOf
}

/// Whether a wake-up call asks for the task in this change.
pub open spec fn is_ask(change: Exchange) -> bool {
    &&& change.expected() == RunStatus::NotRequestedAndWillBeTakenCareOf
    &&& change.put() == RunStatus::RequestedAndWillBeTakenCareOf
}

/// Whether a wake-up call claims the task in this change, or tries to.
pub open spec fn is_claim(change: Exchange) -> bool {
    &&& change.expected() == RunStatus::NotRequestedAndWillNotBeTakenCareOf
    &&& change.put() == RunStatus::RequestedAndWillBeTakenCareOf
}

/// The status after the first `k` of `changes`, of a task that was not polled yet.
pub open spec fn status_after(changes: Seq<Exchange>, k: int) -> RunStatus
    decreases k,
{
    if k <= 0 {
        RunStatus::NotRequestedAndWillBeTakenCareOf
    } else {
        let change = changes[k - 1];
        followup::exchanged(status_after(changes, k - 1), change.expected(), change.put()).0
    }
}

/// Whether change `k` of `changes` is one of the status in `cell` that a worker or a wake-up call makes,
/// and found what those before it had left.
pub open spec fn takes_effect(cell: Atomic<RunStatus>, changes: Seq<Exchange>, k: int) -> bool {
    let change = changes[k];
    &&& change.cell() == cell
    &&& is_take_up(change) || is_giving(change) || is_ask(change) || is_claim(change)
    &&& change.held() == followup::exchanged(
        status_after(changes, k),
        change.expected(),
        change.put(),
    ).1
}

/// Whether `changes` are the changes of the status in `cell`, of a task that was not polled yet, in the
/// order in which they took effect.
pub open spec fn history(cell: Atomic<RunStatus>, changes: Seq<Exchange>) -> bool {
    forall|k: int| 0 <= k < changes.len() ==> #[trigger] takes_effect(cell, changes, k)
}

/// Whether the changes in `log`, which were made through one handle, took effect as the changes `at` of
/// `changes`. Those of one handle take effect in the order in which they were made.
pub open spec fn in_order(log: Seq<Exchange>, changes: Seq<Exchange>, at: Seq<int>) -> bool {
    &&& at.len() == log.len()
    &&& forall|k: int|
        0 <= k < log.len() ==> 0 <= (#[trigger] at[k]) < changes.len() && changes[at[k]] == log[k]
    &&& forall|j: int, k: int| 0 <= j < k < log.len() ==> #[trigger] at[j] < #[trigger] at[k]
}

/// Whether the wake-up call that `call` came of asked for the task in change `asked` of `changes`, and
/// claimed it, if it did, in the later change `claimed`.
pub open spec fn placed(changes: Seq<Exchange>, call: Notified, asked: int, claimed: int) -> bool {
    &&& 0 <= asked < changes.len()
    &&& changes[asked] == call.asked
    &&& match call.claimed {
        Some(claim) => asked < claimed < changes.len() && changes[claimed] == claim,
        None => claimed == asked,
    }
}

/// A wake-up call claims the task after it asked for it: what the handle remembers of the call says so.
pub proof fn law_claim_comes_after_ask(
    before: Seq<Exchange>,
    after: Seq<Exchange>,
    call: Notified,
    changes: Seq<Exchange>,
    at: Seq<int>,
)
    requires
        after == match call.claimed {
            Some(claimed) => before.push(call.asked).push(claimed),
            None => before.push(call.asked),
        },
        in_order(after, changes, at),
    ensures
        placed(changes, call, at[before.len() as int], at[after.len() - 1]),
{
    let k = before.len() as int;
    assert(after[k] == call.asked);
    assert(changes[at[k]] == after[k]);
    if call.claimed is Some {
        assert(after[k + 1] == call.claimed->0);
        assert(changes[at[k + 1]] == after[k + 1]);
        assert(at[k] < at[k + 1]);
    }
}

/// A status that asks for the task lasts until a worker takes the task up.
proof fn lemma_request_lasts(cell: Atomic<RunStatus>, changes: Seq<Exchange>, k: int, m: int)
    requires
        history(cell, changes),
        0 <= k <= m <= changes.len(),
        status_after(changes, k) == RunStatus::RequestedAndWillBeTakenCareOf,
        forall|j: int| k <= j < m ==> !is_take_up(#[trigger] changes[j]),
    ensures
        status_after(changes, m) == RunStatus::RequestedAndWillBeTakenCareOf,
    decreases m,
{
    if k < m {
        lemma_request_lasts(cell, changes, k, m - 1);
        assert(takes_effect(cell, changes, m - 1));
        assert(!is_take_up(changes[m - 1]));
    }
}

/// A task that nobody gave away, and nobody took up since, is not left.
proof fn lemma_not_left(cell: Atomic<RunStatus>, changes: Seq<Exchange>, k: int)
    requires
        history(cell, changes),
        0 <= k <= changes.len(),
        forall|j: int| 0 <= j < k ==> !is_giving(#[trigger] changes[j]),
    ensures
        status_after(changes, k) != RunStatus::NotRequestedAndWillNotBeTakenCareOf,
    decreases k,
{
    if k > 0 {
        lemma_not_left(cell, changes, k - 1);
        assert(takes_effect(cell, changes, k - 1));
        assert(!is_giving(changes[k - 1]));
    }
}

/// While no worker takes it up, a task that was left stays left until it is claimed.
proof fn lemma_left_until_claimed(cell: Atomic<RunStatus>, changes: Seq<Exchange>, k: int, m: int)
    requires
        history(cell, changes),
        0 <= k <= m <= changes.len(),
        status_after(changes, k) == RunStatus::NotRequestedAndWillNotBeTakenCareOf,
        forall|j: int| k <= j < m ==> !is_take_up(#[trigger] changes[j]),
    ensures
        match status_after(changes, m) {
            RunStatus::NotRequestedAndWillNotBeTakenCareOf => forall|j: int|
                k <= j < m ==> !is_claim(#[trigger] changes[j]),
            RunStatus::RequestedAndWillBeTakenCareOf => exists|j: int|
                k <= j < m && is_claim(#[trigger] changes[j]) && changes[j].held() is Ok,
            RunStatus::NotRequestedAndWillBeTakenCareOf => false,
        },
    decreases m,
{
    if k < m {
        lemma_left_until_claimed(cell, changes, k, m - 1);
        assert(takes_effect(cell, changes, m - 1));
        assert(!is_take_up(changes[m - 1]));
        if is_claim(changes[m - 1]) && status_after(changes, m - 1)
            == RunStatus::NotRequestedAndWillNotBeTakenCareOf {
            assert(changes[m - 1].held() is Ok);
        }
        if status_after(changes, m - 1) == RunStatus::RequestedAndWillBeTakenCareOf {
            let j = choose|j: int|
                k <= j < m - 1 && is_claim(#[trigger] changes[j]) && changes[j].held() is Ok;
            assert(k <= j < m && is_claim(changes[j]) && changes[j].held() is Ok);
        }
    }
}

/// Only a task that is left is claimed, and until a worker takes it up it is claimed once.
proof fn lemma_claimed_once(cell: Atomic<RunStatus>, changes: Seq<Exchange>, j: int, k: int)
    requires
        history(cell, changes),
        0 <= j < k < changes.len(),
        is_claim(changes[j]),
        is_claim(changes[k]),
        changes[j].held() is Ok,
        forall|i: int| j < i < k ==> !is_take_up(#[trigger] changes[i]),
    ensures
        changes[k].held() is Err,
{
    assert(takes_effect(cell, changes, j));
    lemma_request_lasts(cell, changes, j + 1, k);
    assert(takes_effect(cell, changes, k));
}

/// Whether `calls` came of waking the task whose status `cell` holds, and call `i` made the changes at
/// `at[i]`. All the calls are over.
pub open spec fn calls_placed(
    cell: Atomic<RunStatus>,
    changes: Seq<Exchange>,
    calls: Seq<Notified>,
    at: Seq<(int, int)>,
) -> bool {
    &&& at.len() == calls.len()
    &&& forall|i: int|
        0 <= i < calls.len() ==> (#[trigger] calls[i]).of(cell) && placed(
            changes,
            calls[i],
            at[i].0,
            at[i].1,
        )
    &&& forall|i: int, j: int|
        0 <= i < j < calls.len() && (#[trigger] calls[i]).claimed is Some && (
        #[trigger] calls[j]).claimed is Some ==> at[i].1 != at[j].1
}

/// Whether change `k` of `changes` was made by one of `calls` to claim the task.
pub open spec fn claimed_by_call(calls: Seq<Notified>, at: Seq<(int, int)>, k: int) -> bool {
    exists|i: int| 0 <= i < calls.len() && (#[trigger] calls[i]).claimed is Some && at[i].1 == k
}

/// Whether every claim among `changes` was made by one of `calls`.
pub open spec fn claims_are_of(
    changes: Seq<Exchange>,
    calls: Seq<Notified>,
    at: Seq<(int, int)>,
) -> bool {
    forall|k: int|
        0 <= k < changes.len() && is_claim(changes[k]) ==> #[trigger] claimed_by_call(calls, at, k)
}

/// Whether call `i` re-inserts the task, and no other of `calls` does.
pub open spec fn re_inserts_alone(calls: Seq<Notified>, i: int) -> bool {
    &&& 0 <= i < calls.len()
    &&& calls[i].outcome == AfterNotify::Resubmit
    &&& forall|j: int|
        0 <= j < calls.len() && j != i ==> (#[trigger] calls[j]).outcome == AfterNotify::Nothing
}

/// A call that re-inserts the task claimed it while it was left.
proof fn lemma_re_insert_claims(
    cell: Atomic<RunStatus>,
    changes: Seq<Exchange>,
    call: Notified,
    asked: int,
    claimed: int,
)
    requires
        history(cell, changes),
        call.of(cell),
        placed(changes, call, asked, claimed),
        call.outcome == AfterNotify::Resubmit,
    ensures
        0 <= claimed < changes.len(),
        is_claim(changes[claimed]),
        changes[claimed].held() is Ok,
        status_after(changes, claimed) == RunStatus::NotRequestedAndWillNotBeTakenCareOf,
{
    assert(takes_effect(cell, changes, claimed));
}

/// A wake-up call re-inserts nothing that another has re-inserted already, and no worker has taken up
/// since.
pub proof fn law_re_inserted_at_most_once(
    cell: Atomic<RunStatus>,
    changes: Seq<Exchange>,
    first: Notified,
    first_at: (int, int),
    second: Notified,
    second_at: (int, int),
)
    requires
        history(cell, changes),
        first.of(cell),
        placed(changes, first, first_at.0, first_at.1),
        second.of(cell),
        placed(changes, second, second_at.0, second_at.1),
        first.outcome == AfterNotify::Resubmit,
        first_at.1 < second_at.1,
        forall|i: int| first_at.1 < i < second_at.1 ==> !is_take_up(#[trigger] changes[i]),
    ensures
        second.outcome == AfterNotify::Nothing,
{
    lemma_re_insert_claims(cell, changes, first, first_at.0, first_at.1);
    if second.outcome == AfterNotify::Resubmit {
        lemma_re_insert_claims(cell, changes, second, second_at.0, second_at.1);
        lemma_claimed_once(cell, changes, first_at.1, second_at.1);
    }
}

/// A task that is woken after it was left, with all calls over, was claimed.
proof fn lemma_claimed_if_woken(
    cell: Atomic<RunStatus>,
    changes: Seq<Exchange>,
    given: int,
    call: Notified,
    asked: int,
    claimed: int,
) -> (k: int)
    requires
        history(cell, changes),
        forall|j: int| 0 <= j < changes.len() ==> !is_take_up(#[trigger] changes[j]),
        0 <= given < changes.len(),
        forall|j: int| 0 <= j < given ==> !is_giving(#[trigger] changes[j]),
        is_giving(changes[given]),
        status_after(changes, given) == RunStatus::NotRequestedAndWillBeTakenCareOf,
        call.of(cell),
        placed(changes, call, asked, claimed),
    ensures
        given < k < changes.len(),
        is_claim(changes[k]),
        changes[k].held() is Ok,
{
    let n = changes.len() as int;
    assert(takes_effect(cell, changes, asked));
    if asked < given {
        lemma_not_left(cell, changes, asked);
        assert(status_after(changes, asked + 1) == RunStatus::RequestedAndWillBeTakenCareOf);
        lemma_request_lasts(cell, changes, asked + 1, given);
        assert(false);
    }
    assert(status_after(changes, given + 1) == RunStatus::NotRequestedAndWillNotBeTakenCareOf);
    lemma_left_until_claimed(cell, changes, given + 1, asked);
    lemma_left_until_claimed(cell, changes, given + 1, n);
    if status_after(changes, asked) == RunStatus::RequestedAndWillBeTakenCareOf {
        choose|j: int|
            given + 1 <= j < asked && is_claim(#[trigger] changes[j]) && changes[j].held() is Ok
    } else {
        assert(followup::found_left(changes[asked].held()));
        assert(is_claim(changes[claimed]));
        choose|j: int|
            given + 1 <= j < n && is_claim(#[trigger] changes[j]) && changes[j].held() is Ok
    }
}

/// A task that yields once and is woken, any number of times, comes to be polled again exactly once,
/// however the changes interleave: either the worker polls it again, and no wake-up call re-inserts
/// it, or the worker leaves it, and exactly one wake-up call re-inserts it. Change `given` is that in
/// which the worker gives the task away; it meets no status that is not expected.
pub proof fn law_exactly_one_takes_care(
    cell: Atomic<RunStatus>,
    changes: Seq<Exchange>,
    given: int,
    calls: Seq<Notified>,
    at: Seq<(int, int)>,
)
    requires
        history(cell, changes),
        forall|j: int| 0 <= j < changes.len() ==> !is_take_up(#[trigger] changes[j]),
        0 <= given < changes.len(),
        is_giving(changes[given]),
        forall|j: int|
            0 <= j < changes.len() && j != given ==> !is_giving(#[trigger] changes[j]),
        calls_placed(cell, changes, calls, at),
        claims_are_of(changes, calls, at),
        calls.len() > 0,
    ensures
        match followup::yielded(changes[given].held()) {
            Ok(AfterYield::PollAgain) => forall|i: int|
                0 <= i < calls.len() ==> (#[trigger] calls[i]).outcome == AfterNotify::Nothing,
            Ok(AfterYield::Leave) => exists|i: int| #[trigger] re_inserts_alone(calls, i),
            Err(_) => false,
        },
{
    lemma_not_left(cell, changes, given);
    assert(takes_effect(cell, changes, given));
    if status_after(changes, given) == RunStatus::RequestedAndWillBeTakenCareOf {
        assert forall|i: int| 0 <= i < calls.len() implies (#[trigger] calls[i]).outcome
            == AfterNotify::Nothing by {
            if calls[i].outcome == AfterNotify::Resubmit {
                lemma_re_insert_claims(cell, changes, calls[i], at[i].0, at[i].1);
                if at[i].1 < given {
                    lemma_not_left(cell, changes, at[i].1);
                } else {
                    lemma_request_lasts(cell, changes, given, at[i].1);
                }
            }
        }
    } else {
        let k = lemma_claimed_if_woken(cell, changes, given, calls[0], at[0].0, at[0].1);
        assert(claimed_by_call(calls, at, k));
        let i = choose|i: int|
            0 <= i < calls.len() && (#[trigger] calls[i]).claimed is Some && at[i].1 == k;
        assert(placed(changes, calls[i], at[i].0, at[i].1));
        assert forall|j: int| 0 <= j < calls.len() && j != i implies (#[trigger] calls[j]).outcome
            == AfterNotify::Nothing by {
            if calls[j].outcome == AfterNotify::Resubmit {
                lemma_re_insert_claims(cell, changes, calls[j], at[j].0, at[j].1);
                if at[j].1 < k {
                    lemma_claimed_once(cell, changes, at[j].1, k);
                } else {
                    assert(at[j].1 != k);
                    lemma_claimed_once(cell, changes, k, at[j].1);
                }
            }
        }
        assert(re_inserts_alone(calls, i));
    }
}

/// The first wake-up of a task that was given away re-inserts it. Change `given` is that in which the
/// worker gave the task away, and the call asks for it in the later change `asked`. No worker takes
/// the task up meanwhile, and no other call claims it before this one.
pub proof fn law_first_wake_up_re_inserts(
    cell: Atomic<RunStatus>,
    changes: Seq<Exchange>,
    given: int,
    call: Notified,
    asked: int,
    claimed: int,
)
    requires
        history(cell, changes),
        0 <= given < asked,
        is_giving(changes[given]),
        followup::yielded(changes[given].held()) == Ok::<AfterYield, RunStatus>(AfterYield::Leave),
        call.of(cell),
        placed(changes, call, asked, claimed),
        forall|j: int|
            given < j < claimed ==> !is_take_up(#[trigger] changes[j]) && !is_claim(changes[j]),
    ensures
        call.outcome == AfterNotify::Resubmit,
{
    assert(takes_effect(cell, changes, given));
    assert(takes_effect(cell, changes, asked));
    lemma_left_until_claimed(cell, changes, given + 1, asked);
    assert(followup::found_left(changes[asked].held()));
    lemma_left_until_claimed(cell, changes, given + 1, claimed);
    assert(takes_effect(cell, changes, claimed));
}

/// How many have the task after the first `k` of `changes`, and may poll or re-insert it: a worker that
/// leaves the task gives it up, and a claim that is made gets it.
pub open spec fn owners(changes: Seq<Exchange>, k: int) -> int
    decreases k,
{
    if k <= 0 {
        1
    } else {
        let change = changes[k - 1];
        owners(changes, k - 1) + if is_giving(change) && followup::yielded(change.held()) == Ok::<
            AfterYield,
            RunStatus,
        >(AfterYield::Leave) {
            -1int
        } else if is_claim(change) && followup::notified(Some(change.held()))
            == AfterNotify::Resubmit {
            1
        } else {
            0
        }
    }
}

/// Over all its polls a task has one owner, or none while it is left to whoever wakes it: no wake-up
/// call re-inserts a task that a worker has or a channel holds.
pub proof fn law_one_owner(cell: Atomic<RunStatus>, changes: Seq<Exchange>, k: int)
    requires
        history(cell, changes),
        0 <= k <= changes.len(),
    ensures
        owners(changes, k) == if status_after(changes, k)
            == RunStatus::NotRequestedAndWillNotBeTakenCareOf {
            0int
        } else {
            1
        },
    decreases k,
{
    if k > 0 {
        law_one_owner(cell, changes, k - 1);
        assert(takes_effect(cell, changes, k - 1));
    }
}

/// While no worker takes the task up, a status under which no worker polls it stays one.
proof fn lemma_no_worker_lasts(cell: Atomic<RunStatus>, changes: Seq<Exchange>, k: int, m: int)
    requires
        history(cell, changes),
        0 <= k <= m <= changes.len(),
        status_after(changes, k) != RunStatus::NotRequestedAndWillBeTakenCareOf,
        forall|j: int| k <= j < m ==> !is_take_up(#[trigger] changes[j]),
    ensures
        status_after(changes, m) != RunStatus::NotRequestedAndWillBeTakenCareOf,
    decreases m,
{
    if k < m {
        lemma_no_worker_lasts(cell, changes, k, m - 1);
        assert(takes_effect(cell, changes, m - 1));
        assert(!is_take_up(changes[m - 1]));
    }
}

/// No wake-up is lost, whichever poll its handle is of. Ever after the call, a worker has taken the task
/// up since the call asked for it, or the task is still asked for and has an owner.
pub proof fn law_wake_up_is_not_lost(
    cell: Atomic<RunStatus>,
    changes: Seq<Exchange>,
    call: Notified,
    asked: int,
    claimed: int,
    m: int,
)
    requires
        history(cell, changes),
        call.of(cell),
        placed(changes, call, asked, claimed),
        claimed < m <= changes.len(),
    ensures
        ({
            ||| exists|j: int| asked < j < m && is_take_up(#[trigger] changes[j])
            ||| status_after(changes, m) == RunStatus::RequestedAndWillBeTakenCareOf && owners(
                changes,
                m,
            ) == 1
        }),
{
    if forall|j: int| asked < j < m ==> !is_take_up(#[trigger] changes[j]) {
        assert(takes_effect(cell, changes, asked));
        if asked < claimed {
            lemma_no_worker_lasts(cell, changes, asked + 1, claimed);
            assert(takes_effect(cell, changes, claimed));
        }
        assert(status_after(changes, claimed + 1) == RunStatus::RequestedAndWillBeTakenCareOf);
        lemma_request_lasts(cell, changes, claimed + 1, m);
        law_one_owner(cell, changes, m);
    }
}

/// A worker that takes the task up may poll it exactly when the task was not left to whoever wakes it,
/// and whatever was asked for before is then answered by that poll. Giving the task away succeeds exactly
/// when nobody asked for it since it was taken up, and a worker that meets a request polls again.
pub proof fn law_worker_that_has_the_task_goes_on(
    cell: Atomic<RunStatus>,
    changes: Seq<Exchange>,
    k: int,
)
    requires
        history(cell, changes),
        0 <= k < changes.len(),
    ensures
        is_take_up(changes[k]) ==> {
            let had = status_after(changes, k) != RunStatus::NotRequestedAndWillNotBeTakenCareOf;
            &&& followup::taken_up(changes[k].held()) is Ok <==> had
            &&& had ==> status_after(changes, k + 1) == RunStatus::NotRequestedAndWillBeTakenCareOf
        },
        is_giving(changes[k]) ==> match status_after(changes, k) {
            RunStatus::NotRequestedAndWillBeTakenCareOf => followup::yielded(changes[k].held())
                == Ok::<AfterYield, RunStatus>(AfterYield::Leave) && owners(changes, k + 1) == 0,
            RunStatus::RequestedAndWillBeTakenCareOf => followup::yielded(changes[k].held()) == Ok::<
                AfterYield,
                RunStatus,
            >(AfterYield::PollAgain) && owners(changes, k + 1) == 1,
            RunStatus::NotRequestedAndWillNotBeTakenCareOf => followup::yielded(
                changes[k].held(),
            ) is Err,
        },
{
    assert(takes_effect(cell, changes, k));
    law_one_owner(cell, changes, k + 1);
}

} // verus!
