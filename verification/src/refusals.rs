//! Which calls go through, and how each of the others is refused.
use crate::env::State;
use crate::escrow::{admin_outcome, initialize_outcome, set_timeout_ledgers_outcome};
use crate::funds::{deposit_outcome, withdraw_balance_outcome, withdraw_outcome};
use crate::migration::{
    import_question_outcome, migrate_pending_outcome, movable_prefix_is_maximal,
    set_migration_source_outcome,
};
use crate::questions::{charge_outcome, refund_outcome, refund_timeout_outcome, submit_outcome};
use crate::settlement::resolve_outcome;
use crate::staking::stake_outcome;
use crate::terms::account;
use crate::types::{Address, ContractError, Status};
use crate::upgrade::{cancel_upgrade_outcome, execute_upgrade_outcome};
use vstd::prelude::*;

verus! {

/// Setting up works once, with a window of one ledger to seven days; so does changing the window,
/// for the administrator.
pub proof fn setup_refusals(s: State, ledgers: u32)
    ensures
        initialize_outcome(s, ledgers) is Ok <==> s.config.admin is None && 1 <= ledgers
            <= 120_960,
        s.config.admin is Some ==> initialize_outcome(s, ledgers) == Err::<(), ContractError>(
            ContractError::AlreadyInitialized,
        ),
        s.config.admin is None && (ledgers == 0 || ledgers > 120_960) ==> initialize_outcome(
            s,
            ledgers,
        ) == Err::<(), ContractError>(ContractError::InvalidTimeout),
        set_timeout_ledgers_outcome(s, ledgers) is Ok <==> s.config.admin is Some && 1 <= ledgers
            <= 120_960,
        s.config.admin is Some && (ledgers == 0 || ledgers > 120_960)
            ==> set_timeout_ledgers_outcome(s, ledgers) == Err::<(), ContractError>(
            ContractError::InvalidTimeout,
        ),
        s.config.admin is None ==> {
            &&& set_timeout_ledgers_outcome(s, ledgers) == Err::<(), ContractError>(
                ContractError::NotInitialized,
            )
            &&& admin_outcome(s) == Err::<(), ContractError>(ContractError::NotInitialized)
        },
        s.config.admin is Some ==> admin_outcome(s) is Ok,
{
}

/// Paying in takes any positive amount once the token is known.
pub proof fn payment_refusals(s: State, amount: i128)
    ensures
        deposit_outcome(s, amount) is Ok <==> amount > 0 && s.config.token is Some,
        deposit_outcome(s, amount) is Err ==> deposit_outcome(s, amount)->Err_0 == (if amount
            <= 0 {
            ContractError::InvalidAmount
        } else {
            ContractError::NotInitialized
        }),
        stake_outcome(s, amount) == deposit_outcome(s, amount),
{
}

/// A payer can take out any part of what they have prepaid, a worker any part of what they have
/// earned, and no more.
pub proof fn withdrawal_refusals(s: State, who: Address, amount: i128)
    requires
        s.wf(),
    ensures
        withdraw_balance_outcome(s, who, amount) is Ok <==> 0 < amount <= account(
            s.balances,
            who,
        ) && s.config.token is Some,
        withdraw_balance_outcome(s, who, amount) is Err ==> withdraw_balance_outcome(
            s,
            who,
            amount,
        )->Err_0 == (if amount <= 0 {
            ContractError::InvalidAmount
        } else if amount > account(s.balances, who) {
            ContractError::InsufficientBalance
        } else {
            ContractError::NotInitialized
        }),
        withdraw_outcome(s, who, amount) is Ok <==> 0 < amount <= account(s.owed, who)
            && s.config.token is Some,
        withdraw_outcome(s, who, amount) is Ok ==> withdraw_outcome(s, who, amount)->Ok_0
            == amount,
        withdraw_outcome(s, who, amount) is Err ==> withdraw_outcome(s, who, amount)->Err_0 == (
        if amount <= 0 {
            ContractError::InvalidAmount
        } else if account(s.owed, who) == 0 {
            ContractError::NothingOwed
        } else if amount > account(s.owed, who) {
            ContractError::InsufficientOwed
        } else {
            ContractError::NotInitialized
        }),
{
}

/// Whether a question under `id` can be opened now: the id is new, and there is at least one ledger
/// left before the last one in which the current code is sure to run.
pub open spec fn can_open(s: State, id: u64) -> bool {
    &&& s.config.timeout_ledgers is Some
    &&& !s.questions.contains_key(id)
    &&& s.config.pending_upgrade matches Some(upgrade) ==> s.sequence + 1
        < upgrade.executable_at
}

/// Why a question under `id` cannot be opened now.
pub open spec fn why_not_open(s: State, id: u64) -> ContractError {
    if s.config.timeout_ledgers is None {
        ContractError::NotInitialized
    } else if s.questions.contains_key(id) {
        ContractError::QuestionAlreadyExists
    } else {
        ContractError::UpgradeInProgress
    }
}

/// Opening a question takes a positive amount, paid in or prepaid, and an id and a window that are
/// free. The administrator signs for what is charged.
pub proof fn opening_refusals(s: State, payer: Address, id: u64, amount: i128)
    requires
        s.wf(),
    ensures
        submit_outcome(s, id, amount) is Ok <==> amount > 0 && s.config.token is Some && can_open(
            s,
            id,
        ),
        submit_outcome(s, id, amount) is Err ==> submit_outcome(s, id, amount)->Err_0 == (
        if amount <= 0 {
            ContractError::InvalidAmount
        } else if s.config.token is None {
            ContractError::NotInitialized
        } else {
            why_not_open(s, id)
        }),
        charge_outcome(s, payer, id, amount) is Ok <==> s.config.admin is Some && 0 < amount
            <= account(s.balances, payer) && can_open(s, id),
        charge_outcome(s, payer, id, amount) is Err ==> charge_outcome(
            s,
            payer,
            id,
            amount,
        )->Err_0 == (if s.config.admin is None {
            ContractError::NotInitialized
        } else if amount <= 0 {
            ContractError::InvalidAmount
        } else if amount > account(s.balances, payer) {
            ContractError::InsufficientBalance
        } else {
            why_not_open(s, id)
        }),
{
}

/// A refund takes a pending question: from the administrator at any time, from anyone once
/// `timeout_ledgers` have passed since it was opened, or no more ledger can come.
pub proof fn refund_refusals(s: State, id: u64)
    requires
        s.wf(),
    ensures
        refund_outcome(s, id) is Ok <==> s.config.admin is Some && s.config.token is Some
            && s.questions.contains_key(id) && s.questions[id].status == Status::Pending,
        refund_outcome(s, id) is Err ==> refund_outcome(s, id)->Err_0 == (
        if s.config.admin is None {
            ContractError::NotInitialized
        } else if !s.questions.contains_key(id) {
            ContractError::QuestionNotFound
        } else if s.questions[id].status != Status::Pending {
            ContractError::QuestionNotPending
        } else {
            ContractError::NotInitialized
        }),
        refund_timeout_outcome(s, id) is Ok <==> s.config.token is Some
            && s.questions.contains_key(id) && s.questions[id].status == Status::Pending && (s.sequence
            >= s.questions[id].created_at + s.questions[id].timeout_ledgers || s.sequence
            == u32::MAX),
        refund_timeout_outcome(s, id) is Err ==> refund_timeout_outcome(s, id)->Err_0 == (
        if !s.questions.contains_key(id) {
            ContractError::QuestionNotFound
        } else if s.questions[id].status != Status::Pending {
            ContractError::QuestionNotPending
        } else if s.sequence < s.questions[id].created_at + s.questions[id].timeout_ledgers
            && s.sequence < u32::MAX {
            ContractError::TooEarlyForTimeout
        } else {
            ContractError::NotInitialized
        }),
{
}

/// Whether `a` and `b` name nobody twice.
pub open spec fn nobody_twice(a: Seq<Address>, b: Seq<Address>) -> bool {
    &&& forall|i: int, j: int| 0 <= i < j < a.len() ==> a[i] != a[j]
    &&& forall|i: int, j: int| 0 <= i < j < b.len() ==> b[i] != b[j]
    &&& forall|i: int, j: int| 0 <= i < a.len() && 0 <= j < b.len() ==> a[i] != b[j]
}

/// A resolution takes a pending question and one to sixty-four workers, at least one of them a
/// winner, none of them named twice.
pub proof fn resolution_refusals(
    s: State,
    id: u64,
    workers: Seq<Address>,
    losing_workers: Seq<Address>,
)
    requires
        s.wf(),
    ensures
        resolve_outcome(s, id, workers, losing_workers) is Ok <==> {
            &&& s.config.admin is Some && s.config.platform is Some && s.config.token is Some
            &&& workers.len() > 0
            &&& workers.len() + losing_workers.len() <= 64
            &&& nobody_twice(workers, losing_workers)
            &&& s.questions.contains_key(id)
            &&& s.questions[id].status == Status::Pending
        },
        resolve_outcome(s, id, workers, losing_workers) is Err ==> resolve_outcome(
            s,
            id,
            workers,
            losing_workers,
        )->Err_0 == (if s.config.admin is None {
            ContractError::NotInitialized
        } else if workers.len() == 0 {
            ContractError::NoWorkers
        } else if workers.len() + losing_workers.len() > 64 {
            ContractError::QuorumTooLarge
        } else if !nobody_twice(workers, losing_workers) {
            ContractError::InvalidWorkerLists
        } else if !s.questions.contains_key(id) {
            ContractError::QuestionNotFound
        } else if s.questions[id].status != Status::Pending {
            ContractError::QuestionNotPending
        } else {
            ContractError::NotInitialized
        }),
{
    let all = workers + losing_workers;
    if nobody_twice(workers, losing_workers) {
        assert forall|i: int, j: int|
            0 <= i < all.len() && 0 <= j < all.len() && i != j implies all[i] != all[j] by {
            let (a, b) = if i < j {
                (i, j)
            } else {
                (j, i)
            };
            if b < workers.len() {
                assert(workers[a] != workers[b]);
            } else if a >= workers.len() {
                assert(losing_workers[a - workers.len()] != losing_workers[b - workers.len()]);
            } else {
                assert(workers[a] != losing_workers[b - workers.len()]);
            }
        }
    }
    if all.no_duplicates() {
        assert forall|i: int, j: int| 0 <= i < j < workers.len() implies workers[i]
            != workers[j] by {
            assert(all[i] != all[j]);
        }
        assert forall|i: int, j: int| 0 <= i < j < losing_workers.len() implies losing_workers[i]
            != losing_workers[j] by {
            assert(all[workers.len() + i] != all[workers.len() + j]);
        }
        assert forall|i: int, j: int|
            0 <= i < workers.len() && 0 <= j < losing_workers.len() implies workers[i]
            != losing_workers[j] by {
            assert(all[i] != all[workers.len() + j]);
        }
    }
}

/// Only the administrator schedules, drops or runs an upgrade; it can be dropped while it is
/// scheduled, and run from its ledger on.
pub proof fn upgrade_refusals(s: State)
    ensures
        cancel_upgrade_outcome(s) is Ok <==> s.config.admin is Some
            && s.config.pending_upgrade is Some,
        cancel_upgrade_outcome(s) is Err ==> cancel_upgrade_outcome(s)->Err_0 == (
        if s.config.admin is None {
            ContractError::NotInitialized
        } else {
            ContractError::NoUpgradePending
        }),
        execute_upgrade_outcome(s) is Ok <==> s.config.admin is Some && (
        s.config.pending_upgrade matches Some(upgrade) && upgrade.executable_at <= s.sequence),
        execute_upgrade_outcome(s) is Err ==> execute_upgrade_outcome(s)->Err_0 == (
        if s.config.admin is None {
            ContractError::NotInitialized
        } else if s.config.pending_upgrade is None {
            ContractError::NoUpgradePending
        } else {
            ContractError::UpgradeNotReady
        }),
{
}

/// Whether the id at `k` cannot be handed over once those in front of it have been.
pub open spec fn is_stuck(s: State, ids: Seq<u64>, k: int) -> bool {
    ||| !s.questions.contains_key(ids[k])
    ||| s.questions[ids[k]].status != Status::Pending
    ||| exists|j: int| 0 <= j < k && #[trigger] ids[j] == ids[k]
}

proof fn movable_until_stuck(s: State, ids: Seq<u64>)
    ensures
        forall|i: int| 0 <= i < s.movable_prefix(ids) ==> !#[trigger] is_stuck(s, ids, i),
        s.movable_prefix(ids) < ids.len() ==> is_stuck(s, ids, s.movable_prefix(ids)),
{
    movable_prefix_is_maximal(s, ids);
    let m = s.movable_prefix(ids);
    assert forall|i: int| 0 <= i < m implies !#[trigger] is_stuck(s, ids, i) by {
        assert(s.is_pending(ids[i]) && !ids.take(i).contains(ids[i]));
        if exists|j: int| 0 <= j < i && #[trigger] ids[j] == ids[i] {
            let j = choose|j: int| 0 <= j < i && #[trigger] ids[j] == ids[i];
            assert(ids.take(i)[j] == ids[i]);
        }
    }
    if m < ids.len() {
        assert(is_stuck(s, ids, m)) by {
            if ids.take(m).contains(ids[m]) {
                let j = choose|j: int| 0 <= j < ids.take(m).len() && ids.take(m)[j] == ids[m];
                assert(ids[j] == ids[m]);
            }
        }
    }
}

/// The questions that a batch can move are those in front of the first one that it cannot.
pub proof fn the_first_stuck_id_ends_the_front(s: State, ids: Seq<u64>, k: int)
    requires
        0 <= k < ids.len(),
        is_stuck(s, ids, k),
        forall|i: int| 0 <= i < k ==> !#[trigger] is_stuck(s, ids, i),
    ensures
        s.movable_prefix(ids) == k,
{
    movable_prefix_is_maximal(s, ids);
    movable_until_stuck(s, ids);
}

/// A batch goes to another contract, and only if every id in it is pending and named once. The
/// first one that is not decides the answer.
pub proof fn batch_refusals(s: State, ids: Seq<u64>, target: Address, k: int)
    ensures
        migrate_pending_outcome(s, ids, target) is Ok <==> s.config.admin is Some && target
            != s.this && s.config.token is Some && forall|i: int|
            0 <= i < ids.len() ==> !#[trigger] is_stuck(s, ids, i),
        s.config.admin is None ==> migrate_pending_outcome(s, ids, target) == Err::<
            i128,
            ContractError,
        >(ContractError::NotInitialized),
        s.config.admin is Some && target == s.this ==> migrate_pending_outcome(s, ids, target)
            == Err::<i128, ContractError>(ContractError::InvalidMigrationTarget),
        s.config.admin is Some && target != s.this && s.config.token is None
            ==> migrate_pending_outcome(s, ids, target) == Err::<i128, ContractError>(
            ContractError::NotInitialized,
        ),
        s.config.admin is Some && target != s.this && s.config.token is Some && 0 <= k < ids.len()
            && is_stuck(s, ids, k) && (forall|i: int| 0 <= i < k ==> !#[trigger] is_stuck(s, ids, i))
            ==> migrate_pending_outcome(s, ids, target) == Err::<i128, ContractError>(
            if s.questions.contains_key(ids[k]) {
                ContractError::QuestionNotPending
            } else {
                ContractError::QuestionNotFound
            },
        ),
        s.config.admin is Some ==> (set_migration_source_outcome(s, target) is Ok <==> target
            != s.this),
        s.config.admin is Some && target == s.this ==> set_migration_source_outcome(s, target)
            == Err::<(), ContractError>(ContractError::InvalidMigrationTarget),
        s.config.admin is None ==> set_migration_source_outcome(s, target) == Err::<
            (),
            ContractError,
        >(ContractError::NotInitialized),
{
    movable_prefix_is_maximal(s, ids);
    movable_until_stuck(s, ids);
    if 0 <= k < ids.len() && is_stuck(s, ids, k) && (forall|i: int|
        0 <= i < k ==> !#[trigger] is_stuck(s, ids, i)) {
        the_first_stuck_id_ends_the_front(s, ids, k);
    }
}

/// An import comes from the contract that was named, in the same token, with a positive amount and
/// a window, under a new id; its window and what is left of it are at most seven days, and end
/// before a scheduled upgrade can run.
pub proof fn import_refusals(
    s: State,
    source: Address,
    token: Address,
    id: u64,
    amount: i128,
    created_at: u32,
    timeout_ledgers: u32,
)
    ensures
        ({
            let outcome = import_question_outcome(
                s,
                source,
                token,
                id,
                amount,
                created_at,
                timeout_ledgers,
            );
            let due = created_at + timeout_ledgers;
            let beyond = timeout_ledgers > 120_960 || due - s.sequence > 120_960;
            let overtaken = s.config.pending_upgrade matches Some(upgrade)
                && upgrade.executable_at <= due;
            &&& outcome is Ok <==> s.config.migration_source == Some(source)
                && s.config.token == Some(token) && amount > 0 && timeout_ledgers > 0
                && !s.questions.contains_key(id) && !beyond && !overtaken
            &&& outcome is Err ==> outcome->Err_0 == (if s.config.migration_source != Some(
                source,
            ) {
                ContractError::MigrationNotAuthorized
            } else if s.config.token is None {
                ContractError::NotInitialized
            } else if s.config.token != Some(token) {
                ContractError::TokenMismatch
            } else if amount <= 0 {
                ContractError::InvalidAmount
            } else if timeout_ledgers == 0 {
                ContractError::InvalidTimeout
            } else if s.questions.contains_key(id) {
                ContractError::QuestionAlreadyExists
            } else if beyond {
                ContractError::InvalidTimeout
            } else {
                ContractError::UpgradeInProgress
            })
        }),
{
}

} // verus!
