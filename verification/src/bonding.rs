//! What holds of bonds over time: slashes are bounded, unbonding does not dodge them, and fresh
//! stake has to mature.
use crate::bond::min;
use crate::env::State;
use crate::limits::{BPS_DENOM, MIN_UNBONDING_LEDGERS, SLASH_BPS, STAKE_WARMUP_LEDGERS};
use crate::settlement::{slash_cap, split_is_exact};
use crate::staking::{
    begin_unstake_next, begin_unstake_outcome, complete_unstake_next, complete_unstake_outcome,
    release_ledger, stake_next, stake_outcome,
};
use crate::types::{Address, ContractError, StakeInfo};
use vstd::prelude::*;

verus! {

/// A lost quorum costs at most 5% of the bond, at most the question's amount, and never more
/// than there is; it costs nothing only if one of these rounds down to nothing.
pub proof fn a_slash_is_bounded(info: StakeInfo, amount: int)
    requires
        info.wf(),
        amount > 0,
    ensures
        0 <= info.slash_amount(slash_cap(amount)) <= amount,
        info.slash_amount(slash_cap(amount)) * BPS_DENOM <= info.total() * SLASH_BPS,
        info.slash_amount(slash_cap(amount)) <= info.total(),
        info.slash_amount(slash_cap(amount)) == min(
            amount,
            info.total() * SLASH_BPS / BPS_DENOM as int,
        ),
{
    split_is_exact(amount, 1);
}

/// A slash takes the least seasoned stake first: settled stake only after all that is warming,
/// unbonding stake only after all that is active.
pub proof fn a_slash_takes_fresh_stake_first(info: StakeInfo, amount: int)
    requires
        info.wf(),
        0 <= amount <= info.total(),
    ensures
        info.less(amount).wf(),
        info.less(amount).total() == info.total() - amount,
        info.less(amount).settled < info.settled ==> info.less(amount).warming == 0,
        info.less(amount).unbonding < info.unbonding ==> info.less(amount).active() == 0,
        info.less(amount).warming_since == info.warming_since,
        info.less(amount).unbonding_release_at == info.unbonding_release_at,
{
}

/// A worker cannot dodge a slash by starting to unbond: the slash costs the same afterwards, and
/// nothing is paid out yet.
pub proof fn unbonding_does_not_dodge_a_slash(s: State, worker: Address, amount: i128, cap: int)
    requires
        s.wf(),
        begin_unstake_outcome(s, worker, amount) is Ok,
        s.recorded_stake(worker).active() <= i128::MAX,
        s.recorded_stake(worker).unbonding + amount <= i128::MAX,
    ensures
        begin_unstake_next(s, worker, amount).slash_of(worker, cap) == s.slash_of(worker, cap),
        begin_unstake_next(s, worker, amount).recorded_stake(worker).total() == s.recorded_stake(
            worker,
        ).total(),
        begin_unstake_next(s, worker, amount).recorded_stake(worker).active()
            == s.recorded_stake(worker).active() - amount,
        begin_unstake_next(s, worker, amount).recorded_stake(worker).unbonding
            == s.recorded_stake(worker).unbonding + amount,
{
}

/// What starts unbonding cannot be claimed before the longer of the floor and the refund window
/// that applied when it started, whatever ledger the claim lands in.
pub proof fn unbonding_takes_its_time(s: State, worker: Address, amount: i128, later: State)
    requires
        s.wf(),
        begin_unstake_outcome(s, worker, amount) is Ok,
        s.recorded_stake(worker).active() <= i128::MAX,
        s.recorded_stake(worker).unbonding + amount <= i128::MAX,
        later.recorded_stake(worker) == begin_unstake_next(s, worker, amount).recorded_stake(
            worker,
        ),
        later.sequence < release_ledger(s),
    ensures
        complete_unstake_outcome(later, worker) == Err::<i128, ContractError>(
            ContractError::UnbondingNotElapsed,
        ),
        s.sequence + MIN_UNBONDING_LEDGERS <= u32::MAX ==> release_ledger(s) >= s.sequence
            + MIN_UNBONDING_LEDGERS,
        s.sequence + s.config.timeout_ledgers->0 <= u32::MAX ==> release_ledger(s) >= s.sequence
            + s.config.timeout_ledgers->0,
{
}

/// A bond outlasts every question it stands behind: whatever question is open when the stake
/// starts to leave, the stake cannot be claimed before that question's refund is due. The question
/// has to come due no later than one opened then would: shortening the refund window, or importing
/// a question with a later deadline, breaks that.
pub proof fn a_bond_outlasts_open_questions(
    s: State,
    id: u64,
    worker: Address,
    amount: i128,
    later: State,
)
    requires
        s.wf(),
        s.is_pending(id),
        s.questions[id].created_at + s.questions[id].timeout_ledgers <= s.sequence
            + s.config.timeout_ledgers->0,
        begin_unstake_outcome(s, worker, amount) is Ok,
        s.recorded_stake(worker).active() <= i128::MAX,
        s.recorded_stake(worker).unbonding + amount <= i128::MAX,
        later.recorded_stake(worker) == begin_unstake_next(s, worker, amount).recorded_stake(
            worker,
        ),
    ensures
        s.questions[id].spec_deadline() <= release_ledger(s),
        begin_unstake_next(s, worker, amount).recorded_stake(worker).unbonding_release_at
            == release_ledger(s),
        complete_unstake_outcome(later, worker) is Ok ==> s.questions[id].spec_deadline()
            <= later.sequence,
{
}

/// From the release ledger on the whole unbonding bucket is paid to the worker, and only it.
pub proof fn a_released_bond_is_paid_in_full(s: State, worker: Address)
    requires
        s.wf(),
        s.stake_fits(worker),
        s.config.token is Some,
        s.recorded_stake(worker).unbonding > 0,
        s.recorded_stake(worker).unbonding_release_at <= s.sequence,
    ensures
        complete_unstake_outcome(s, worker) == Ok::<i128, ContractError>(
            s.recorded_stake(worker).unbonding,
        ),
        complete_unstake_next(s, worker).recorded_stake(worker).unbonding == 0,
        complete_unstake_next(s, worker).recorded_stake(worker).active() == s.recorded_stake(
            worker,
        ).active(),
        complete_unstake_outcome(complete_unstake_next(s, worker), worker) == Err::<
            i128,
            ContractError,
        >(ContractError::NothingUnbonding),
{
}

/// Fresh stake does not count as matured until the warm-up period has passed, and what had
/// matured before keeps counting.
pub proof fn fresh_stake_has_to_mature(s: State, worker: Address, amount: i128, now: u32)
    requires
        s.wf(),
        stake_outcome(s, amount) is Ok,
        s.stake_fits(worker),
        s.stake_info(worker).warming + amount <= i128::MAX,
        s.sequence <= now,
        s.sequence + STAKE_WARMUP_LEDGERS <= u32::MAX,
    ensures
        now < s.sequence + STAKE_WARMUP_LEDGERS ==> stake_next(s, worker, amount).recorded_stake(
            worker,
        ).rolled(now).settled == s.stake_info(worker).settled,
        now >= s.sequence + STAKE_WARMUP_LEDGERS && s.recorded_stake(worker).active() + amount
            <= i128::MAX ==> stake_next(s, worker, amount).recorded_stake(worker).rolled(
            now,
        ).settled == s.recorded_stake(worker).active() + amount,
        stake_next(s, worker, amount).recorded_stake(worker).active() == s.recorded_stake(
            worker,
        ).active() + amount,
{
}

/// Time alone never changes how much a worker has bonded, only how much of it has matured, and
/// matured stake never becomes fresh again.
pub proof fn time_only_matures_stake(info: StakeInfo, now: u32, later: u32)
    requires
        info.wf(),
        info.active() <= i128::MAX,
        now <= later,
    ensures
        info.rolled(now).active() == info.active(),
        info.rolled(now).total() == info.total(),
        info.rolled(now).settled <= info.rolled(later).settled,
        info.rolled(now).rolled(later) == info.rolled(later),
{
}

} // verus!
