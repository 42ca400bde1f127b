//! What each call writes: the settings, the questions with their terms, the balances and the
//! earnings, and nothing else.
use crate::accounts::a_resolution_touches_only_its_quorum;
use crate::calls::{list_calls_have_a_frame, Call};
use crate::env::{fresh_state, Config, State};
use crate::seqs::contains_splits;
use crate::settlement::{
    credit_all_frame, platform_take, resolve_fits, resolve_next, resolve_outcome, share,
    slash_all_frame, slash_cap, slash_total_bounds, split_is_exact,
};
use crate::types::{Address, PendingUpgrade, Question, Status};
use vstd::prelude::*;

verus! {

/// The settings law: a call changes the settings it is for, to what it was given, and no others. An
/// upgrade that is proposed can run 138,240 ledgers later; running or dropping it clears it.
pub proof fn only_these_settings_change(s: State, call: Call)
    requires
        s.wf(),
        call.accepted(s),
    ensures
        ({
            let t = call.next(s);
            &&& t.this == s.this && t.sequence == s.sequence && t.max_ttl == s.max_ttl
            &&& t.config == (match call {
                Call::Initialize { admin, token, platform, timeout_ledgers } => Config {
                    admin: Some(admin),
                    token: Some(token),
                    platform: Some(platform),
                    timeout_ledgers: Some(timeout_ledgers),
                    ..s.config
                },
                Call::SetAdmin { new_admin } => Config { admin: Some(new_admin), ..s.config },
                Call::SetTimeoutLedgers { new_timeout_ledgers } => Config {
                    timeout_ledgers: Some(new_timeout_ledgers),
                    ..s.config
                },
                Call::ProposeUpgrade { new_wasm_hash } => Config {
                    pending_upgrade: Some(
                        PendingUpgrade {
                            wasm_hash: new_wasm_hash,
                            executable_at: if s.sequence <= u32::MAX - 138_240 {
                                (s.sequence + 138_240) as u32
                            } else {
                                u32::MAX
                            },
                        },
                    ),
                    ..s.config
                },
                Call::CancelUpgrade => Config { pending_upgrade: None, ..s.config },
                Call::ExecuteUpgrade => Config { pending_upgrade: None, ..s.config },
                Call::SetMigrationSource { source } => Config {
                    migration_source: Some(source),
                    ..s.config
                },
                Call::ClearMigrationSource => Config { migration_source: None, ..s.config },
                _ => s.config,
            })
        }),
{
    list_calls_have_a_frame(s, call);
}

/// The window law: a question opened here now is the payer's, for the amount, from now on. Its
/// window is the configured one, unless an upgrade is scheduled: then the window is the longest
/// one, up to the configured one, that ends before the upgrade can run.
pub proof fn a_question_opens_on_these_terms(s: State, call: Call, id: u64)
    requires
        s.wf(),
        call.accepted(s),
        call.opens(id),
        !(call is ImportQuestion),
        s.sequence < u32::MAX,
    ensures
        !s.questions.contains_key(id),
        call.next(s).questions.remove(id) == s.questions.remove(id),
        ({
            let q = call.next(s).questions[id];
            &&& call.next(s).questions.contains_key(id)
            &&& q.status == Status::Pending
            &&& q.created_at == s.sequence
            &&& call matches Call::Submit { payer, amount, .. } ==> q.payer == payer && q.amount
                == amount
            &&& call matches Call::Charge { payer, amount, .. } ==> q.payer == payer && q.amount
                == amount
            &&& s.config.timeout_ledgers is Some
            &&& q.timeout_ledgers <= s.config.timeout_ledgers->0
            &&& s.config.pending_upgrade is None ==> q.timeout_ledgers
                == s.config.timeout_ledgers->0
            &&& s.config.pending_upgrade matches Some(upgrade) ==> {
                &&& q.created_at + q.timeout_ledgers < upgrade.executable_at
                &&& q.timeout_ledgers < s.config.timeout_ledgers->0 ==> q.created_at
                    + q.timeout_ledgers == upgrade.executable_at - 1
                &&& q.timeout_ledgers > 0 || s.config.timeout_ledgers->0 == 0
            }
        }),
{
    let t = call.next(s);
    assert(t.questions.remove(id) =~= s.questions.remove(id));
}

/// An imported question is recorded with exactly the terms it came with.
pub proof fn an_imported_question_keeps_its_terms(s: State, call: Call)
    requires
        call.accepted(s),
        call is ImportQuestion,
    ensures
        call matches Call::ImportQuestion {
            id,
            payer,
            amount,
            created_at,
            timeout_ledgers,
            ..
        } ==> !s.questions.contains_key(id) && call.next(s).questions == s.questions.insert(
            id,
            (Question { payer, amount, status: Status::Pending, created_at, timeout_ledgers }),
        ),
{
}

/// The settlement law: a question is settled by exactly the calls that are for it, under the
/// status that the call stands for, and only if it was pending. Everything else about it, and every
/// other question, stays as it was.
pub proof fn a_settlement_changes_only_the_status(s: State, call: Call, id: u64)
    requires
        s.wf(),
        call.accepted(s),
        s.questions.contains_key(id),
    ensures
        ({
            let q = s.questions[id];
            let r = call.next(s).questions[id];
            let settled = match call {
                Call::Resolve { id: other, .. } => other == id,
                Call::Refund { id: other } => other == id,
                Call::RefundTimeout { id: other } => other == id,
                Call::MigratePending { ids, .. } => ids.contains(id),
                _ => false,
            };
            &&& call.next(s).questions.contains_key(id)
            &&& r.payer == q.payer && r.amount == q.amount
            &&& r.created_at == q.created_at && r.timeout_ledgers == q.timeout_ledgers
            &&& !settled ==> r.status == q.status
            &&& settled ==> q.status == Status::Pending
            &&& settled && call is Resolve ==> r.status == Status::Resolved
            &&& settled && (call is Refund || call is RefundTimeout) ==> r.status
                == Status::Refunded
            &&& settled && call is MigratePending ==> r.status == Status::Migrated
            &&& settled && call is RefundTimeout ==> s.sequence >= q.created_at + q.timeout_ledgers
                || s.sequence == u32::MAX
        }),
{
    list_calls_have_a_frame(s, call);
    if let Call::MigratePending { ids, target } = call {
        if ids.contains(id) {
            let i = choose|i: int| 0 <= i < ids.len() && ids[i] == id;
            assert(s.is_pending(ids[i]));
        }
    }
}

/// What is stored of an account in `map`.
pub open spec fn account(map: Map<u64, i128>, who: Address) -> int {
    if map.contains_key(who.id) {
        map[who.id] as int
    } else {
        0
    }
}

/// The balance law: a prepaid balance grows by what its payer deposits, and shrinks by what they
/// withdraw or are charged, to the unit. Nothing else moves it.
pub proof fn a_balance_moves_by_the_amount(s: State, call: Call, who: Address)
    requires
        s.wf(),
        call.accepted(s),
        call.fits(s),
    ensures
        ({
            let t = call.next(s);
            account(t.balances, who) - account(s.balances, who) == (match call {
                Call::Deposit { payer, amount } if payer.id == who.id => amount as int,
                Call::WithdrawBalance { payer, amount } if payer.id == who.id => -amount,
                Call::Charge { payer, amount, .. } if payer.id == who.id => -amount,
                _ => 0,
            })
        }),
{
    list_calls_have_a_frame(s, call);
}

/// The earnings law: earnings shrink by what the worker withdraws, to the unit, and grow only by
/// winning a quorum.
pub proof fn earnings_move_by_the_amount(s: State, call: Call, who: Address)
    requires
        s.wf(),
        call.accepted(s),
        call.fits(s),
        !(call matches Call::Resolve { workers, .. } && workers.contains(who)),
    ensures
        ({
            let t = call.next(s);
            account(t.owed, who) - account(s.owed, who) == (match call {
                Call::Withdraw { worker, amount, .. } if worker.id == who.id => -amount,
                _ => 0,
            })
        }),
{
    list_calls_have_a_frame(s, call);
    if let Call::Resolve { id, workers, losing_workers } = call {
        a_resolution_touches_only_its_quorum(s, id, workers, losing_workers, who);
    }
}

/// What the losers of a quorum lose together.
pub open spec fn lost_by(s: State, t: State, losers: Seq<Address>) -> int
    decreases losers.len(),
{
    if losers.len() == 0 {
        0
    } else {
        let l = losers.last().id;
        lost_by(s, t, losers.drop_last()) + (if s.stakes.contains_key(l) {
            (s.stakes[l].settled + s.stakes[l].warming + s.stakes[l].unbonding) - (
            t.stakes[l].settled + t.stakes[l].warming + t.stakes[l].unbonding)
        } else {
            0
        })
    }
}

proof fn losses_add_up(
    s: State,
    id: u64,
    workers: Seq<Address>,
    losing_workers: Seq<Address>,
    k: int,
)
    requires
        s.wf(),
        resolve_outcome(s, id, workers, losing_workers) is Ok,
        resolve_fits(s, id, workers, losing_workers),
        0 <= k <= losing_workers.len(),
    ensures
        lost_by(s, resolve_next(s, id, workers, losing_workers), losing_workers.take(k))
            == s.slash_total(losing_workers.take(k), slash_cap(s.questions[id].amount as int)),
    decreases k,
{
    if k > 0 {
        let l = losing_workers[k - 1];
        let amount = s.questions[id].amount as int;
        losses_add_up(s, id, workers, losing_workers, k - 1);
        assert(losing_workers.take(k).drop_last() == losing_workers.take(k - 1));
        a_resolution_touches_only_its_quorum(s, id, workers, losing_workers, l);
        assert(losing_workers.contains(l));
        let asked = s.ask_admin();
        let slashed = asked.slash_all(losing_workers, slash_cap(amount));
        slash_all_frame(asked, losing_workers, slash_cap(amount));
        credit_all_frame(slashed, workers, share(amount, workers.len() as int) as i128);
        assert(slashed.stakes.contains_key(l.id) <==> slashed.stakes.dom().contains(l.id));
    }
}

/// The split: four fifths of the amount, rounded up, are shared out evenly among the winners, as
/// far as they can be. The platform gets what is left, together with everything the losers lose.
pub proof fn a_resolution_splits_evenly(
    s: State,
    id: u64,
    workers: Seq<Address>,
    losing_workers: Seq<Address>,
    w: Address,
)
    requires
        s.wf(),
        resolve_outcome(s, id, workers, losing_workers) is Ok,
        resolve_fits(s, id, workers, losing_workers),
        workers.contains(w),
    ensures
        ({
            let t = resolve_next(s, id, workers, losing_workers);
            let amount = s.questions[id].amount;
            let n = workers.len() as int;
            let gain = account(t.owed, w) - account(s.owed, w);
            let pool = amount - amount as int / 5;
            &&& gain >= 0
            &&& gain * n <= pool < gain * n + n
            &&& t.effects.last() is Transfer
            &&& t.effects.last()->Transfer_amount == amount - gain * n + lost_by(
                s,
                t,
                losing_workers,
            )
            &&& lost_by(s, t, losing_workers) >= 0
        }),
{
    let t = resolve_next(s, id, workers, losing_workers);
    let amount = s.questions[id].amount as int;
    let n = workers.len() as int;
    let gain = share(amount, n);
    a_resolution_touches_only_its_quorum(s, id, workers, losing_workers, w);
    split_is_exact(amount, n);
    losses_add_up(s, id, workers, losing_workers, losing_workers.len() as int);
    assert(losing_workers.take(losing_workers.len() as int) == losing_workers);
    slash_total_bounds(s, losing_workers, slash_cap(amount));
    assert(gain * n <= amount - amount / 5 < gain * n + n);
    assert(slash_cap(amount) * losing_workers.len() <= amount * 64) by (nonlinear_arith)
        requires
            slash_cap(amount) == amount,
            amount > 0,
            losing_workers.len() <= 64,
    ;
    let take = platform_take(s, amount, n, losing_workers);
    assert(0 <= take <= i128::MAX);
}

/// An account that was opened stays open, even when it is empty, and accounts are opened by nothing
/// but a deposit, a charge or a withdrawal of their own, and by winning a quorum.
pub proof fn accounts_stay_open(s: State, call: Call, a: u64)
    requires
        s.wf(),
        call.accepted(s),
        call.fits(s),
    ensures
        call.next(s).balances.contains_key(a) <==> s.balances.contains_key(a) || (match call {
            Call::Deposit { payer, .. } => payer.id == a,
            Call::WithdrawBalance { payer, .. } => payer.id == a,
            Call::Charge { payer, .. } => payer.id == a,
            _ => false,
        }),
        call.next(s).owed.contains_key(a) <==> s.owed.contains_key(a) || (match call {
            Call::Withdraw { worker, .. } => worker.id == a,
            Call::Resolve { workers, .. } => workers.contains(Address { id: a }),
            _ => false,
        }),
{
    list_calls_have_a_frame(s, call);
    if let Call::Resolve { id, workers, losing_workers } = call {
        let amount = s.questions[id].amount as int;
        let asked = s.ask_admin();
        let slashed = asked.slash_all(losing_workers, slash_cap(amount));
        slash_all_frame(asked, losing_workers, slash_cap(amount));
        winners_have_accounts(slashed, workers, share(amount, workers.len() as int) as i128, a);
    }
}

proof fn winners_have_accounts(s: State, workers: Seq<Address>, amount: i128, a: u64)
    ensures
        s.credit_all(workers, amount).owed.contains_key(a) <==> s.owed.contains_key(a)
            || workers.contains(Address { id: a }),
    decreases workers.len(),
{
    if workers.len() > 0 {
        winners_have_accounts(s, workers.drop_last(), amount, a);
        contains_splits(workers, Address { id: a });
    }
}

/// A new instance has nothing: no settings, no entries, no requests.
pub proof fn a_fresh_instance_is_empty(this: Address, sequence: u32, max_ttl: u32)
    ensures
        ({
            let s = fresh_state(this, sequence, max_ttl);
            &&& s.this == this && s.sequence == sequence && s.max_ttl == max_ttl
            &&& s.config.admin is None && s.config.token is None && s.config.platform is None
            &&& s.config.timeout_ledgers is None && s.config.pending_upgrade is None
            &&& s.config.migration_source is None
            &&& s.questions.dom().is_empty() && s.stakes.dom().is_empty()
            &&& s.owed.dom().is_empty() && s.balances.dom().is_empty()
            &&& s.pending_count == 0 && s.pending_at.dom().is_empty()
                && s.pending_pos.dom().is_empty()
            &&& s.effects.len() == 0
        }),
{
}

} // verus!
