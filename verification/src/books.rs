//! Reconciliation: what the escrow owes against what it has been paid.
use crate::calls::Call;
use crate::env::State;
use crate::migration::{migrate_all_frame, movable_prefix_is_maximal};
use crate::questions::{funds_requested, opened_question};
use crate::settlement::{
    credit_all_credits_each, credit_all_frame, each_list_is_distinct, platform_take, resolve_fits,
    resolve_next, resolve_outcome, share, slash_all_frame, slash_cap, slash_total_bounds,
    split_is_exact,
};
use crate::sums::{sum_after_insert, sum_of};
use crate::types::{Address, Effect, Question, StakeInfo, Status};
use vstd::prelude::*;

verus! {

/// What a question locks: its amount while it is pending, nothing afterwards.
pub open spec fn locked() -> spec_fn(Question) -> int {
    |q: Question|
        if q.status == Status::Pending {
            q.amount as int
        } else {
            0
        }
}

/// What a bond locks, in whichever bucket.
pub open spec fn bonded() -> spec_fn(StakeInfo) -> int {
    |info: StakeInfo| info.total()
}

pub open spec fn plain() -> spec_fn(i128) -> int {
    |amount: i128| amount as int
}

impl State {
    /// Everything the escrow may have to pay out: pending questions, bonds, credits and
    /// prepaid balances.
    pub open spec fn obligations(self) -> int {
        sum_of(self.questions, locked()) + sum_of(self.stakes, bonded()) + sum_of(
            self.owed,
            plain(),
        ) + sum_of(self.balances, plain())
    }

    /// What the requests made so far have brought in, net of what they have sent out.
    pub open spec fn holdings(self) -> int {
        flow(self.effects, self.this)
    }
}

/// What one request moves into `this`. A question handed over takes its amount along.
pub open spec fn flow_of(effect: Effect, this: Address) -> int {
    match effect {
        Effect::Transfer { from, to, amount, .. } => (if to == this {
            amount as int
        } else {
            0
        }) - (if from == this {
            amount as int
        } else {
            0
        }),
        Effect::ImportQuestion { amount, .. } => -amount,
        _ => 0,
    }
}

/// What a sequence of requests moves into `this`.
pub open spec fn flow(effects: Seq<Effect>, this: Address) -> int
    decreases effects.len(),
{
    if effects.len() == 0 {
        0
    } else {
        flow(effects.drop_last(), this) + flow_of(effects.last(), this)
    }
}

/// One more request changes the flow by that request alone.
pub broadcast proof fn flow_after_push(effects: Seq<Effect>, effect: Effect, this: Address)
    ensures
        #[trigger] flow(effects.push(effect), this) == flow(effects, this) + flow_of(effect, this),
{
    assert(effects.push(effect).drop_last() == effects);
}

impl Call {
    /// Whoever the call pulls funds from. The host lets nobody sign as the escrow itself.
    pub open spec fn funded_by_others(self, s: State) -> bool {
        match self {
            Call::Deposit { payer, .. } => payer != s.this,
            Call::Submit { payer, .. } => payer != s.this,
            Call::Stake { worker, .. } => worker != s.this,
            Call::ImportQuestion { source, .. } => source != s.this,
            _ => true,
        }
    }

    /// Whoever the call pays. Paying the escrow's own address leaves the funds where they were.
    pub open spec fn pays_others(self, s: State) -> bool {
        match self {
            Call::WithdrawBalance { payer, .. } => payer != s.this,
            Call::Resolve { .. } => s.config.platform != Some(s.this),
            Call::Refund { id } => s.questions[id].payer != s.this,
            Call::RefundTimeout { id } => s.questions[id].payer != s.this,
            Call::CompleteUnstake { worker } => worker != s.this,
            Call::Withdraw { beneficiary, .. } => beneficiary != s.this,
            _ => true,
        }
    }
}

/// Settling a pending question releases exactly its amount and moves nothing.
proof fn settling_releases_the_amount(s: State, id: u64, status: Status)
    requires
        s.wf(),
        s.is_pending(id),
        status != Status::Pending,
    ensures
        s.settle_question(id, status).obligations() == s.obligations() - s.questions[id].amount,
        s.settle_question(id, status).holdings() == s.holdings(),
        s.settle_question(id, status).this == s.this,
        s.settle_question(id, status).config == s.config,
{
    broadcast use {sum_after_insert, flow_after_push};

    let a = s.put_question(id, s.questions[id].with_status(status));
    assert(a.obligations() == s.obligations() - s.questions[id].amount);
    let b = a.index_remove(id);
    assert(b.holdings() == s.holdings());
}

/// Recording a question locks exactly its amount and moves nothing.
pub proof fn recording_locks_the_amount(s: State, id: u64, question: Question)
    requires
        s.wf(),
        !s.questions.contains_key(id),
        question.status == Status::Pending,
    ensures
        s.record_question(id, question).obligations() == s.obligations() + question.amount,
        s.record_question(id, question).holdings() == s.holdings(),
{
    broadcast use {sum_after_insert, flow_after_push};

}

/// Slashing takes exactly the forfeited total out of the bonds and moves nothing.
proof fn slashing_takes_the_total(s: State, losers: Seq<Address>, cap: int)
    requires
        s.wf(),
        losers.no_duplicates(),
        forall|i: int|
            0 <= i < losers.len() && s.stakes.contains_key(losers[i].id) ==> s.recorded_stake(
                #[trigger] losers[i],
            ).total() <= i128::MAX,
    ensures
        s.slash_all(losers, cap).obligations() == s.obligations() - s.slash_total(losers, cap),
        s.slash_all(losers, cap).holdings() == s.holdings(),
    decreases losers.len(),
{
    broadcast use {sum_after_insert, flow_after_push};

    if losers.len() > 0 {
        let before = losers.drop_last();
        let last = losers.last();
        assert forall|i: int|
            0 <= i < before.len() && s.stakes.contains_key(before[i].id) implies s.recorded_stake(
            #[trigger] before[i],
        ).total() <= i128::MAX by {
            assert(before[i] == losers[i]);
        }
        slashing_takes_the_total(s, before, cap);
        slash_all_frame(s, before, cap);
        let mid = s.slash_all(before, cap);
        assert(losers[losers.len() - 1] == last);
        assert forall|i: int| 0 <= i < before.len() implies (#[trigger] before[i]).id
            != last.id by {
            assert(before[i] == losers[i]);
        }
        assert(mid.stakes[last.id] == s.stakes[last.id]);
        assert(mid.slash_of(last, cap) == s.slash_of(last, cap));
        assert(s.slash_all(losers, cap) == mid.slash_one(last, cap));
    }
}

/// Crediting `n` workers adds exactly `n` times the amount and moves nothing.
proof fn crediting_adds_the_shares(s: State, workers: Seq<Address>, amount: i128)
    requires
        s.wf(),
        workers.no_duplicates(),
        amount >= 0,
        forall|i: int|
            0 <= i < workers.len() ==> s.owed_to(#[trigger] workers[i]) + amount <= i128::MAX,
    ensures
        s.credit_all(workers, amount).obligations() == s.obligations() + amount * workers.len(),
        s.credit_all(workers, amount).holdings() == s.holdings(),
    decreases workers.len(),
{
    broadcast use {sum_after_insert, flow_after_push};

    if workers.len() > 0 {
        let before = workers.drop_last();
        let last = workers.last();
        assert forall|i: int| 0 <= i < before.len() implies s.owed_to(#[trigger] before[i])
            + amount <= i128::MAX by {
            assert(before[i] == workers[i]);
        }
        crediting_adds_the_shares(s, before, amount);
        credit_all_frame(s, before, amount);
        credit_all_credits_each(s, before, amount);
        let mid = s.credit_all(before, amount);
        assert(workers[workers.len() - 1] == last);
        assert forall|i: int| 0 <= i < before.len() implies (#[trigger] before[i]).id
            != last.id by {
            assert(before[i] == workers[i]);
        }
        assert(mid.owed_to(last) == s.owed_to(last));
        assert(amount * workers.len() == amount * before.len() + amount) by (nonlinear_arith)
            requires
                workers.len() == before.len() + 1,
        ;
    }
}

/// Resolving a question pays out exactly what it stops owing.
proof fn resolving_reconciles(
    s: State,
    id: u64,
    workers: Seq<Address>,
    losing_workers: Seq<Address>,
)
    requires
        s.wf(),
        resolve_outcome(s, id, workers, losing_workers) is Ok,
        resolve_fits(s, id, workers, losing_workers),
    ensures
        ({
            let end = resolve_next(s, id, workers, losing_workers);
            let paid = platform_take(
                s,
                s.questions[id].amount as int,
                workers.len() as int,
                losing_workers,
            );
            &&& paid >= 0
            &&& end.obligations() == s.obligations() - paid
            &&& end.holdings() == s.holdings() - (if s.config.platform == Some(s.this) {
                0
            } else {
                paid
            })
        }),
{
    broadcast use flow_after_push;

    let amount = s.questions[id].amount as int;
    let n = workers.len() as int;
    let cap = slash_cap(amount);
    let asked = s.ask_admin();
    each_list_is_distinct(workers, losing_workers);
    split_is_exact(amount, n);
    slash_total_bounds(s, losing_workers, cap);
    slash_totals_agree(s, asked, losing_workers, cap);
    slash_all_frame(asked, losing_workers, cap);
    slashing_takes_the_total(asked, losing_workers, cap);
    let slashed = asked.slash_all(losing_workers, cap);
    let each = share(amount, n) as i128;
    assert forall|i: int| 0 <= i < workers.len() implies slashed.owed_to(#[trigger] workers[i])
        + each <= i128::MAX by {
        assert(slashed.owed_to(workers[i]) == s.owed_to(workers[i]));
    }
    crediting_adds_the_shares(slashed, workers, each);
    credit_all_credits_each(slashed, workers, each);
    credit_all_frame(slashed, workers, each);
    let credited = slashed.credit_all(workers, each);
    settling_releases_the_amount(credited, id, Status::Resolved);
    let take = platform_take(s, amount, n, losing_workers);
    assert(cap * losing_workers.len() <= amount * 64) by (nonlinear_arith)
        requires
            cap == amount,
            amount > 0,
            losing_workers.len() <= 64,
    ;
    assert(0 <= take <= i128::MAX);
}

/// Asking the host for something does not change what a slash costs.
proof fn slash_totals_agree(s: State, t: State, losers: Seq<Address>, cap: int)
    requires
        s.same_entries(t),
    ensures
        s.slash_total(losers, cap) == t.slash_total(losers, cap),
    decreases losers.len(),
{
    if losers.len() > 0 {
        slash_totals_agree(s, t, losers.drop_last(), cap);
    }
}

/// Handing questions over sends along exactly what they locked.
pub proof fn migrating_reconciles(s: State, ids: Seq<u64>, target: Address)
    requires
        s.wf(),
        forall|i: int|
            0 <= i < ids.len() ==> s.is_pending(#[trigger] ids[i]) && !ids.take(i).contains(ids[i]),
    ensures
        s.migrate_all(ids, target).obligations() == s.obligations() - s.amount_of(ids),
        s.migrate_all(ids, target).holdings() == s.holdings() - s.amount_of(ids),
    decreases ids.len(),
{
    broadcast use flow_after_push;

    if ids.len() > 0 {
        let before = ids.drop_last();
        let last = ids.last();
        assert forall|i: int| 0 <= i < before.len() implies s.is_pending(#[trigger] before[i])
            && !before.take(i).contains(before[i]) by {
            assert(before[i] == ids[i]);
            assert(before.take(i) == ids.take(i));
        }
        migrating_reconciles(s, before, target);
        migrate_all_frame(s, before, target);
        assert(ids[ids.len() - 1] == last);
        assert(ids.take(ids.len() - 1) == before);
        let mid = s.migrate_all(before, target);
        assert(mid.is_pending(last));
        let asked = mid.hand_over(last, target);
        settling_releases_the_amount(asked, last, Status::Migrated);
    }
}

/// Paying in and out of a balance, a bond or a credit.
proof fn funds_calls_reconcile(s: State, call: Call)
    requires
        s.wf(),
        call.accepted(s),
        call.fits(s),
        call.funded_by_others(s),
        call is Deposit || call is WithdrawBalance || call is Stake || call is BeginUnstake
            || call is CompleteUnstake || call is Withdraw,
    ensures
        call.next(s).holdings() - call.next(s).obligations() >= s.holdings() - s.obligations(),
        call.pays_others(s) ==> call.next(s).holdings() - call.next(s).obligations()
            == s.holdings() - s.obligations(),
{
    broadcast use {sum_after_insert, flow_after_push};

    match call {
        Call::Deposit { payer, amount } => {},
        Call::WithdrawBalance { payer, amount } => {},
        Call::Stake { worker, amount } => {},
        Call::BeginUnstake { worker, amount } => {},
        Call::CompleteUnstake { worker } => {},
        Call::Withdraw { worker, beneficiary, amount } => {},
        _ => {},
    }
}

/// Opening a question locks what was just paid in, or what the prepaid balance gives up.
proof fn opening_calls_reconcile(s: State, call: Call)
    requires
        s.wf(),
        call.accepted(s),
        call.fits(s),
        call.funded_by_others(s),
        call is Submit || call is Charge || call is ImportQuestion,
    ensures
        call.next(s).holdings() - call.next(s).obligations() == s.holdings() - s.obligations(),
{
    broadcast use {sum_after_insert, flow_after_push};

    match call {
        Call::Submit { payer, id, amount } => {
            let a = funds_requested(s, payer, amount);
            recording_locks_the_amount(a, id, opened_question(a, payer, amount));
        },
        Call::Charge { payer, id, amount } => {
            let a = s.ask_admin().put_balance(payer, (s.balance_of(payer) - amount) as i128);
            assert(a.obligations() == s.obligations() - amount);
            recording_locks_the_amount(a, id, opened_question(a, payer, amount));
        },
        Call::ImportQuestion { source, id, payer, amount, created_at, timeout_ledgers, .. } => {
            recording_locks_the_amount(
                s.require_auth(source).transfer(s.config.token->0, source, s.this, amount),
                id,
                Question { payer, amount, status: Status::Pending, created_at, timeout_ledgers },
            );
        },
        _ => {},
    }
}

/// Closing a question pays out what it locked.
proof fn closing_calls_reconcile(s: State, call: Call)
    requires
        s.wf(),
        call.accepted(s),
        call.fits(s),
        call is Resolve || call is Refund || call is RefundTimeout || call is MigratePending,
    ensures
        call.next(s).holdings() - call.next(s).obligations() >= s.holdings() - s.obligations(),
        call.pays_others(s) ==> call.next(s).holdings() - call.next(s).obligations()
            == s.holdings() - s.obligations(),
{
    broadcast use flow_after_push;

    match call {
        Call::Resolve { id, workers, losing_workers } => {
            resolving_reconciles(s, id, workers, losing_workers);
        },
        Call::MigratePending { ids, target } => {
            movable_prefix_is_maximal(s, ids);
            migrating_reconciles(s.ask_admin(), ids, target);
        },
        Call::Refund { id } => {
            settling_releases_the_amount(s.ask_admin(), id, Status::Refunded);
        },
        Call::RefundTimeout { id } => {
            settling_releases_the_amount(s, id, Status::Refunded);
        },
        _ => {},
    }
}

/// The other calls neither move funds nor change what is owed.
proof fn other_calls_move_nothing(s: State, call: Call)
    requires
        call.accepted(s),
        call is Initialize || call is SetAdmin || call is SetTimeoutLedgers || call is Touch
            || call is TouchQuestion || call is ProposeUpgrade || call is CancelUpgrade
            || call is ExecuteUpgrade || call is SetMigrationSource || call is ClearMigrationSource,
    ensures
        call.next(s).holdings() == s.holdings(),
        call.next(s).obligations() == s.obligations(),
{
    broadcast use flow_after_push;

}

/// The reconciliation law: no call ever lets the escrow owe more than it holds. As long as it
/// pays others than itself, every call moves exactly what the books say.
pub proof fn every_call_reconciles(s: State, call: Call)
    requires
        s.wf(),
        call.accepted(s) ==> call.fits(s),
        call.funded_by_others(s),
    ensures
        call.after(s).holdings() - call.after(s).obligations() >= s.holdings() - s.obligations(),
        call.pays_others(s) ==> call.after(s).holdings() - call.after(s).obligations()
            == s.holdings() - s.obligations(),
{
    if call.accepted(s) {
        match call {
            Call::Deposit { .. }
            | Call::WithdrawBalance { .. }
            | Call::Stake { .. }
            | Call::BeginUnstake { .. }
            | Call::CompleteUnstake { .. }
            | Call::Withdraw { .. } => {
                funds_calls_reconcile(s, call);
            },
            Call::Submit { .. } | Call::Charge { .. } | Call::ImportQuestion { .. } => {
                opening_calls_reconcile(s, call);
            },
            Call::Resolve { .. }
            | Call::Refund { .. }
            | Call::RefundTimeout { .. }
            | Call::MigratePending { .. } => {
                closing_calls_reconcile(s, call);
            },
            _ => {
                other_calls_move_nothing(s, call);
            },
        }
    }
}

} // verus!
