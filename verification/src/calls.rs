//! Every state-changing call as one value, and histories of calls: what the laws quantify over.
use crate::env::State;
use crate::escrow::{
    admin_outcome, initialize_next, initialize_outcome, set_admin_next, set_timeout_ledgers_next,
    set_timeout_ledgers_outcome,
};
use crate::funds::{
    deposit_next, deposit_outcome, withdraw_balance_next, withdraw_balance_outcome, withdraw_next,
    withdraw_outcome,
};
use crate::migration::{
    import_question_next, import_question_outcome, migrate_all_frame, migrate_pending_fits,
    migrate_pending_next, migrate_pending_outcome, movable_prefix_is_maximal,
    set_migration_source_next, set_migration_source_outcome,
};
use crate::questions::{
    charge_next, charge_outcome, do_refund_next, refund_next, refund_outcome,
    refund_timeout_outcome, submit_next, submit_outcome,
};
use crate::settlement::{
    credit_all_credits_each, credit_all_frame, each_list_is_distinct, resolve_fits, resolve_next,
    resolve_outcome, share, slash_all_frame, slash_cap, split_is_exact,
};
use crate::staking::{
    begin_unstake_next, begin_unstake_outcome, complete_unstake_next, complete_unstake_outcome,
    stake_next, stake_outcome,
};
use crate::types::{Address, Question, Status};
use crate::upgrade::{
    cancel_upgrade_next, cancel_upgrade_outcome, execute_upgrade_next, execute_upgrade_outcome,
    propose_upgrade_next,
};
use crate::upkeep::{touch_next, touch_question_next};
use vstd::prelude::*;

verus! {

/// A call that can change the escrow's entries, with its arguments.
pub enum Call {
    Initialize { admin: Address, token: Address, platform: Address, timeout_ledgers: u32 },
    SetAdmin { new_admin: Address },
    SetTimeoutLedgers { new_timeout_ledgers: u32 },
    Deposit { payer: Address, amount: i128 },
    WithdrawBalance { payer: Address, amount: i128 },
    Submit { payer: Address, id: u64, amount: i128 },
    Charge { payer: Address, id: u64, amount: i128 },
    Resolve { id: u64, workers: Seq<Address>, losing_workers: Seq<Address> },
    Refund { id: u64 },
    RefundTimeout { id: u64 },
    Stake { worker: Address, amount: i128 },
    BeginUnstake { worker: Address, amount: i128 },
    CompleteUnstake { worker: Address },
    Withdraw { worker: Address, beneficiary: Address, amount: i128 },
    Touch { account: Address },
    TouchQuestion { id: u64 },
    ProposeUpgrade { new_wasm_hash: [u8; 32] },
    CancelUpgrade,
    ExecuteUpgrade,
    SetMigrationSource { source: Address },
    ClearMigrationSource,
    MigratePending { ids: Seq<u64>, target: Address },
    ImportQuestion {
        source: Address,
        token: Address,
        id: u64,
        payer: Address,
        amount: i128,
        created_at: u32,
        timeout_ledgers: u32,
    },
}

impl Call {
    /// Whether the call succeeds in `s`.
    pub open spec fn accepted(self, s: State) -> bool {
        match self {
            Call::Initialize { timeout_ledgers, .. } => initialize_outcome(
                s,
                timeout_ledgers,
            ) is Ok,
            Call::SetAdmin { .. } => admin_outcome(s) is Ok,
            Call::SetTimeoutLedgers { new_timeout_ledgers } => set_timeout_ledgers_outcome(
                s,
                new_timeout_ledgers,
            ) is Ok,
            Call::Deposit { amount, .. } => deposit_outcome(s, amount) is Ok,
            Call::WithdrawBalance { payer, amount } => withdraw_balance_outcome(
                s,
                payer,
                amount,
            ) is Ok,
            Call::Submit { id, amount, .. } => submit_outcome(s, id, amount) is Ok,
            Call::Charge { payer, id, amount } => charge_outcome(s, payer, id, amount) is Ok,
            Call::Resolve { id, workers, losing_workers } => resolve_outcome(
                s,
                id,
                workers,
                losing_workers,
            ) is Ok,
            Call::Refund { id } => refund_outcome(s, id) is Ok,
            Call::RefundTimeout { id } => refund_timeout_outcome(s, id) is Ok,
            Call::Stake { amount, .. } => stake_outcome(s, amount) is Ok,
            Call::BeginUnstake { worker, amount } => begin_unstake_outcome(s, worker, amount) is Ok,
            Call::CompleteUnstake { worker } => complete_unstake_outcome(s, worker) is Ok,
            Call::Withdraw { worker, amount, .. } => withdraw_outcome(s, worker, amount) is Ok,
            Call::Touch { .. } => true,
            Call::TouchQuestion { id } => s.questions.contains_key(id),
            Call::ProposeUpgrade { .. } => admin_outcome(s) is Ok,
            Call::CancelUpgrade => cancel_upgrade_outcome(s) is Ok,
            Call::ExecuteUpgrade => execute_upgrade_outcome(s) is Ok,
            Call::SetMigrationSource { source } => set_migration_source_outcome(s, source) is Ok,
            Call::ClearMigrationSource => admin_outcome(s) is Ok,
            Call::MigratePending { ids, target } => migrate_pending_outcome(s, ids, target) is Ok,
            Call::ImportQuestion {
                source,
                token,
                id,
                amount,
                created_at,
                timeout_ledgers,
                ..
            } => import_question_outcome(
                s,
                source,
                token,
                id,
                amount,
                created_at,
                timeout_ledgers,
            ) is Ok,
        }
    }

    /// Whether the call's figures stay within the number range and the index entries it reads
    /// are there.
    pub open spec fn fits(self, s: State) -> bool {
        match self {
            Call::Deposit { payer, amount } => s.balance_of(payer) + amount <= i128::MAX,
            Call::Submit { .. } => s.pending_count < u32::MAX,
            Call::Charge { .. } => s.pending_count < u32::MAX,
            Call::Resolve { id, workers, losing_workers } => resolve_fits(
                s,
                id,
                workers,
                losing_workers,
            ),
            Call::Refund { id } => s.index_ready(id),
            Call::RefundTimeout { id } => s.index_ready(id),
            Call::Stake { worker, amount } => s.stake_fits(worker) && s.stake_info(worker).warming
                + amount <= i128::MAX,
            Call::BeginUnstake { worker, amount } => s.recorded_stake(worker).active()
                <= i128::MAX && s.recorded_stake(worker).unbonding + amount <= i128::MAX,
            Call::CompleteUnstake { worker } => s.stake_fits(worker),
            Call::MigratePending { ids, target } => migrate_pending_fits(s, ids, target),
            Call::ImportQuestion { .. } => s.pending_count < u32::MAX,
            _ => true,
        }
    }

    /// What a successful call leaves behind.
    pub open spec fn next(self, s: State) -> State {
        match self {
            Call::Initialize { admin, token, platform, timeout_ledgers } => initialize_next(
                s,
                admin,
                token,
                platform,
                timeout_ledgers,
            ),
            Call::SetAdmin { new_admin } => set_admin_next(s, new_admin),
            Call::SetTimeoutLedgers { new_timeout_ledgers } => set_timeout_ledgers_next(
                s,
                new_timeout_ledgers,
            ),
            Call::Deposit { payer, amount } => deposit_next(s, payer, amount),
            Call::WithdrawBalance { payer, amount } => withdraw_balance_next(s, payer, amount),
            Call::Submit { payer, id, amount } => submit_next(s, payer, id, amount),
            Call::Charge { payer, id, amount } => charge_next(s, payer, id, amount),
            Call::Resolve { id, workers, losing_workers } => resolve_next(
                s,
                id,
                workers,
                losing_workers,
            ),
            Call::Refund { id } => refund_next(s, id),
            Call::RefundTimeout { id } => do_refund_next(s, id),
            Call::Stake { worker, amount } => stake_next(s, worker, amount),
            Call::BeginUnstake { worker, amount } => begin_unstake_next(s, worker, amount),
            Call::CompleteUnstake { worker } => complete_unstake_next(s, worker),
            Call::Withdraw { worker, beneficiary, amount } => withdraw_next(
                s,
                worker,
                beneficiary,
                amount,
            ),
            Call::Touch { account } => touch_next(s, account),
            Call::TouchQuestion { id } => touch_question_next(s, id),
            Call::ProposeUpgrade { new_wasm_hash } => propose_upgrade_next(s, new_wasm_hash),
            Call::CancelUpgrade => cancel_upgrade_next(s),
            Call::ExecuteUpgrade => execute_upgrade_next(s),
            Call::SetMigrationSource { source } => set_migration_source_next(s, Some(source)),
            Call::ClearMigrationSource => set_migration_source_next(s, None),
            Call::MigratePending { ids, target } => migrate_pending_next(s, ids, target),
            Call::ImportQuestion {
                source,
                id,
                payer,
                amount,
                created_at,
                timeout_ledgers,
                ..
            } => import_question_next(
                s,
                source,
                id,
                Question { payer, amount, status: Status::Pending, created_at, timeout_ledgers },
            ),
        }
    }

    /// What any call leaves behind: the host undoes a refused one.
    pub open spec fn after(self, s: State) -> State {
        if self.accepted(s) {
            self.next(s)
        } else {
            s
        }
    }
}

/// A call together with the ledger it lands in.
pub struct Landing {
    pub ledger: u32,
    pub call: Call,
}

impl State {
    /// The same entries at another ledger.
    pub open spec fn at(self, ledger: u32) -> State {
        State { sequence: ledger, ..self }
    }

    /// What a history of calls leaves behind.
    pub open spec fn history(self, landings: Seq<Landing>) -> State
        decreases landings.len(),
    {
        if landings.len() == 0 {
            self
        } else {
            let before = self.history(landings.drop_last());
            landings.last().call.after(before.at(landings.last().ledger))
        }
    }

    /// Whether a history can happen: ledgers only go forward, and no call leaves the number
    /// range.
    pub open spec fn possible(self, landings: Seq<Landing>) -> bool
        decreases landings.len(),
    {
        landings.len() > 0 ==> {
            let before = self.history(landings.drop_last());
            let last = landings.last();
            &&& self.possible(landings.drop_last())
            &&& before.sequence <= last.ledger
            &&& last.call.accepted(before.at(last.ledger)) ==> last.call.fits(
                before.at(last.ledger),
            )
        }
    }
}

/// Resolving a question keeps every entry well formed.
proof fn resolve_keeps_entries_well_formed(
    s: State,
    id: u64,
    workers: Seq<Address>,
    losing_workers: Seq<Address>,
)
    requires
        s.wf(),
        resolve_outcome(s, id, workers, losing_workers) is Ok,
        resolve_fits(s, id, workers, losing_workers),
    ensures
        resolve_next(s, id, workers, losing_workers).wf(),
{
    let amount = s.questions[id].amount as int;
    let n = workers.len() as int;
    let asked = s.ask_admin();
    each_list_is_distinct(workers, losing_workers);
    split_is_exact(amount, n);
    slash_all_frame(asked, losing_workers, slash_cap(amount));
    let slashed = asked.slash_all(losing_workers, slash_cap(amount));
    assert forall|i: int| 0 <= i < workers.len() implies slashed.owed_to(#[trigger] workers[i])
        + share(amount, n) as i128 <= i128::MAX by {
        assert(slashed.owed_to(workers[i]) == s.owed_to(workers[i]));
    }
    credit_all_credits_each(slashed, workers, share(amount, n) as i128);
    credit_all_frame(slashed, workers, share(amount, n) as i128);
}

/// What the calls that go over lists leave alone. Resolving touches one question's status, bonds,
/// credits and the index; handing over touches its questions' statuses and the index.
pub proof fn list_calls_have_a_frame(s: State, call: Call)
    requires
        s.wf(),
        call.accepted(s),
    ensures
        call matches Call::Resolve { id, .. } ==> {
            let end = call.next(s);
            &&& end == State {
                questions: s.questions.insert(
                    id,
                    s.questions[id].with_status(Status::Resolved),
                ),
                stakes: end.stakes,
                owed: end.owed,
                pending_count: end.pending_count,
                pending_at: end.pending_at,
                pending_pos: end.pending_pos,
                effects: end.effects,
                ..s
            }
        },
        call matches Call::MigratePending { ids, .. } ==> {
            let end = call.next(s);
            &&& end.same_but_questions(s)
            &&& end.questions.dom() == s.questions.dom()
            &&& forall|i: int| 0 <= i < ids.len() ==> s.is_pending(#[trigger] ids[i])
            &&& forall|id: u64| #[trigger]
                s.questions.contains_key(id) ==> end.questions[id] == (if ids.contains(id) {
                    s.questions[id].with_status(Status::Migrated)
                } else {
                    s.questions[id]
                })
        },
{
    match call {
        Call::Resolve { id, workers, losing_workers } => {
            let amount = s.questions[id].amount as int;
            let asked = s.ask_admin();
            let slashed = asked.slash_all(losing_workers, slash_cap(amount));
            slash_all_frame(asked, losing_workers, slash_cap(amount));
            credit_all_frame(slashed, workers, share(amount, workers.len() as int) as i128);
        },
        Call::MigratePending { ids, target } => {
            movable_prefix_is_maximal(s, ids);
            migrate_all_frame(s.ask_admin(), ids, target);
        },
        _ => {},
    }
}

/// No call writes a malformed entry.
pub proof fn calls_keep_entries_well_formed(s: State, call: Call)
    requires
        s.wf(),
        call.accepted(s) ==> call.fits(s),
    ensures
        call.after(s).wf(),
{
    if call.accepted(s) {
        match call {
            Call::Resolve { id, workers, losing_workers } => {
                resolve_keeps_entries_well_formed(s, id, workers, losing_workers);
            },
            Call::MigratePending { ids, target } => {
                movable_prefix_is_maximal(s, ids);
                migrate_all_frame(s.ask_admin(), ids, target);
            },
            _ => {},
        }
    }
}

} // verus!
