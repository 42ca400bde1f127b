//! Ways out: everyone can take their funds at any time, and a scheduled upgrade never overtakes
//! a refund deadline.
use crate::bank::{carried_out, carried_out_after_push};
use crate::calls::{list_calls_have_a_frame, Call};
use crate::env::{Config, State};
use crate::funds::{
    deposit_next, deposit_outcome, withdraw_balance_next, withdraw_balance_outcome, withdraw_next,
    withdraw_outcome,
};
use crate::lifecycle::{questions_are_opened_pending, questions_only_change_status, setup_is_final};
use crate::limits::{MAX_TIMEOUT_LEDGERS, UPGRADE_DELAY_LEDGERS};
use crate::questions::{charge_next, charge_outcome};
use crate::staking::begin_unstake_outcome;
use crate::types::{Address, ContractError};
use crate::upgrade::{execute_upgrade_outcome, propose_upgrade_next, scheduled};
use vstd::prelude::*;

verus! {

/// Any part of a prepaid balance can be taken back at any time.
pub proof fn a_balance_can_always_be_withdrawn(s: State, payer: Address, amount: i128)
    requires
        s.config.token is Some,
        0 < amount <= s.balance_of(payer),
    ensures
        withdraw_balance_outcome(s, payer, amount) is Ok,
        withdraw_balance_next(s, payer, amount).balance_of(payer) == s.balance_of(payer) - amount,
{
}

/// Any part of a worker's earnings can be withdrawn at any time, to any address.
pub proof fn earnings_can_always_be_withdrawn(
    s: State,
    worker: Address,
    beneficiary: Address,
    amount: i128,
)
    requires
        s.config.token is Some,
        0 < amount <= s.owed_to(worker),
    ensures
        withdraw_outcome(s, worker, amount) == Ok::<i128, ContractError>(amount),
        withdraw_next(s, worker, beneficiary, amount).owed_to(worker) == s.owed_to(worker)
            - amount,
{
}

/// Any part of the active stake can start unbonding at any time.
pub proof fn stake_can_always_start_unbonding(s: State, worker: Address, amount: i128)
    requires
        s.config.timeout_ledgers is Some,
        0 < amount <= s.recorded_stake(worker).active(),
    ensures
        begin_unstake_outcome(s, worker, amount) is Ok,
{
}

/// Taking back what was just deposited leaves the balance as it was.
pub proof fn a_deposit_can_be_undone(s: State, payer: Address, amount: i128)
    requires
        deposit_outcome(s, amount) is Ok,
        s.balance_of(payer) >= 0,
        s.balance_of(payer) + amount <= i128::MAX,
    ensures
        deposit_next(s, payer, amount).balance_of(payer) == s.balance_of(payer) + amount,
        withdraw_balance_outcome(deposit_next(s, payer, amount), payer, amount) is Ok,
        withdraw_balance_next(deposit_next(s, payer, amount), payer, amount).balance_of(payer)
            == s.balance_of(payer),
{
}

/// A deposit is spent once: what a charge took is gone from what can be withdrawn, and the other
/// way round.
pub proof fn a_deposit_is_spent_once(
    s: State,
    payer: Address,
    id: u64,
    charged: i128,
    withdrawn: i128,
)
    requires
        s.config.admin is Some,
        charged > 0,
        withdrawn > 0,
        s.balance_of(payer) < charged + withdrawn,
    ensures
        charge_outcome(s, payer, id, charged) is Ok ==> withdraw_balance_outcome(
            charge_next(s, payer, id, charged),
            payer,
            withdrawn,
        ) == Err::<(), ContractError>(ContractError::InsufficientBalance),
        withdraw_balance_outcome(s, payer, withdrawn) is Ok ==> charge_outcome(
            withdraw_balance_next(s, payer, withdrawn),
            payer,
            id,
            charged,
        ) == Err::<(), ContractError>(ContractError::InsufficientBalance),
{
}

impl State {
    /// Every pending question has a window within the limit, comes due no later than one opened
    /// now with the longest window would, and before a scheduled upgrade can run.
    pub open spec fn exits_come_first(self) -> bool {
        &&& forall|id: u64| #[trigger]
            self.is_pending(id) ==> {
                &&& self.questions[id].timeout_ledgers <= MAX_TIMEOUT_LEDGERS
                &&& self.questions[id].created_at + self.questions[id].timeout_ledgers
                    <= self.sequence + MAX_TIMEOUT_LEDGERS
            }
        &&& self.config.pending_upgrade is Some ==> forall|id: u64| #[trigger]
            self.is_pending(id) ==> self.questions[id].spec_deadline()
                < self.config.pending_upgrade->0.executable_at
    }
}

/// The exit window: whatever is called, every pending question reaches its refund deadline
/// strictly before a scheduled upgrade can run. The ledger numbers must not be about to run
/// out.
pub proof fn every_call_leaves_an_exit(s: State, call: Call)
    requires
        s.wf(),
        s.setup_is_whole(),
        s.exits_come_first(),
        s.sequence + UPGRADE_DELAY_LEDGERS <= u32::MAX,
    ensures
        call.after(s).exits_come_first(),
{
    let t = call.after(s);
    setup_is_final(s, call);
    assert forall|id: u64| #[trigger] t.is_pending(id) implies {
        &&& t.questions[id].timeout_ledgers <= MAX_TIMEOUT_LEDGERS
        &&& t.questions[id].created_at + t.questions[id].timeout_ledgers <= t.sequence
            + MAX_TIMEOUT_LEDGERS
        &&& t.config.pending_upgrade is Some ==> t.questions[id].spec_deadline()
            < t.config.pending_upgrade->0.executable_at
    } by {
        if s.questions.contains_key(id) {
            questions_only_change_status(s, call, id);
            assert(s.is_pending(id));
            upgrade_changes_only_by_its_calls(s, call);
        } else {
            questions_are_opened_pending(s, call, id);
            upgrade_changes_only_by_its_calls(s, call);
        }
    }
}

/// Nothing but the upgrade calls touches a scheduled upgrade.
pub proof fn upgrade_changes_only_by_its_calls(s: State, call: Call)
    requires
        s.wf(),
    ensures
        call.after(s).config.pending_upgrade == (match call {
            Call::ProposeUpgrade { new_wasm_hash } => if call.accepted(s) {
                Some(scheduled(s, new_wasm_hash))
            } else {
                s.config.pending_upgrade
            },
            Call::CancelUpgrade | Call::ExecuteUpgrade => if call.accepted(s) {
                None
            } else {
                s.config.pending_upgrade
            },
            _ => s.config.pending_upgrade,
        }),
{
    if call.accepted(s) {
        list_calls_have_a_frame(s, call);
    }
}

/// When an upgrade can run, every pending question can already be refunded by anyone.
pub proof fn an_upgrade_runs_after_every_deadline(s: State, id: u64)
    requires
        s.exits_come_first(),
        s.is_pending(id),
        execute_upgrade_outcome(s) is Ok,
    ensures
        s.questions[id].spec_deadline() < s.sequence,
{
}

/// A proposal waits out the whole delay, even if it replaces an older one.
pub proof fn a_proposal_waits(s: State, new_wasm_hash: [u8; 32], later: State)
    requires
        s.config.admin is Some,
        s.sequence + UPGRADE_DELAY_LEDGERS <= u32::MAX,
        later.config == propose_upgrade_next(s, new_wasm_hash).config,
    ensures
        later.sequence < s.sequence + UPGRADE_DELAY_LEDGERS ==> execute_upgrade_outcome(later)
            == Err::<(), ContractError>(ContractError::UpgradeNotReady),
        later.sequence >= s.sequence + UPGRADE_DELAY_LEDGERS ==> execute_upgrade_outcome(
            later,
        ) is Ok,
{
}

/// Running an upgrade, like scheduling or dropping one, leaves every question, bond, credit,
/// balance and index entry as it is, and moves no tokens.
pub proof fn an_upgrade_keeps_everything(s: State, call: Call, held: Map<u64, i128>)
    requires
        call is ProposeUpgrade || call is CancelUpgrade || call is ExecuteUpgrade,
    ensures
        call.after(s) == (State {
            config: Config {
                pending_upgrade: call.after(s).config.pending_upgrade,
                ..s.config
            },
            effects: call.after(s).effects,
            ..s
        }),
        carried_out(held, call.after(s).effects) == carried_out(held, s.effects),
{
    broadcast use carried_out_after_push;

}

} // verus!
