//! Worker bonds: posting, unbonding and claiming them.
use crate::env::{Env, State};
use crate::escrow::OracleEscrow;
use crate::limits::MIN_UNBONDING_LEDGERS;
use crate::maturity::{a_bond_is_read_as_it_stands, matured};
use crate::questions::funds_requested;
use crate::types::{Address, ContractError, StakeInfo};
use vstd::prelude::*;

verus! {

impl State {
    /// A worker's bond as it stands now.
    pub open spec fn stake_info(self, worker: Address) -> StakeInfo {
        self.recorded_stake(worker).rolled(self.sequence)
    }

    /// Whether reading the bond stays within the number range.
    pub open spec fn stake_fits(self, worker: Address) -> bool {
        self.recorded_stake(worker).roll_fits(self.sequence)
    }
}

pub open spec fn stake_outcome(s: State, amount: i128) -> Result<(), ContractError> {
    if amount <= 0 {
        Err(ContractError::InvalidAmount)
    } else if s.config.token is None {
        Err(ContractError::NotInitialized)
    } else {
        Ok(())
    }
}

/// The new amount joins whatever is still warming, and the warm-up clock restarts for both.
pub open spec fn stake_next(s: State, worker: Address, amount: i128) -> State {
    let info = s.stake_info(worker);
    funds_requested(s, worker, amount).put_stake(
        worker,
        StakeInfo {
            warming: (info.warming + amount) as i128,
            warming_since: s.sequence,
            ..info
        },
    ).bump_instance()
}

/// First ledger at which stake that starts unbonding now can be claimed.
pub open spec fn release_ledger(s: State) -> u32 {
    let timeout: u32 = s.config.timeout_ledgers->0;
    let delay: u32 = if timeout > MIN_UNBONDING_LEDGERS {
        timeout
    } else {
        MIN_UNBONDING_LEDGERS
    };
    if s.sequence + delay > u32::MAX {
        u32::MAX
    } else {
        (s.sequence + delay) as u32
    }
}

pub open spec fn begin_unstake_outcome(s: State, worker: Address, amount: i128) -> Result<
    u32,
    ContractError,
> {
    if amount <= 0 {
        Err(ContractError::InvalidAmount)
    } else if amount > s.recorded_stake(worker).active() {
        Err(ContractError::InsufficientStake)
    } else if s.config.timeout_ledgers is None {
        Err(ContractError::NotInitialized)
    } else {
        Ok(release_ledger(s))
    }
}

pub open spec fn begin_unstake_next(s: State, worker: Address, amount: i128) -> State {
    s.require_auth(worker).put_stake(
        worker,
        s.stake_info(worker).unbonded(amount as int, release_ledger(s)),
    ).bump_instance()
}

pub open spec fn complete_unstake_outcome(s: State, worker: Address) -> Result<
    i128,
    ContractError,
> {
    let info = s.recorded_stake(worker);
    if info.unbonding <= 0 {
        Err(ContractError::NothingUnbonding)
    } else if s.sequence < info.unbonding_release_at {
        Err(ContractError::UnbondingNotElapsed)
    } else if s.config.token is None {
        Err(ContractError::NotInitialized)
    } else {
        Ok(info.unbonding)
    }
}

pub open spec fn complete_unstake_next(s: State, worker: Address) -> State {
    let info = s.stake_info(worker);
    s.require_auth(worker).transfer(
        s.config.token->0,
        s.this,
        worker,
        info.unbonding,
    ).put_stake(
        worker,
        StakeInfo { unbonding: 0, unbonding_release_at: 0, ..info },
    ).bump_instance()
}

impl OracleEscrow {
    /// The worker posts a bond. It counts as matured only after the warm-up period.
    pub fn stake(env: &mut Env, worker: Address, amount: i128) -> (result: Result<
        (),
        ContractError,
    >)
        requires
            old(env)@.wf(),
            stake_outcome(old(env)@, amount) is Ok ==> old(env)@.stake_fits(worker) && old(
                env,
            )@.stake_info(worker).warming + amount <= i128::MAX,
        ensures
            result == stake_outcome(old(env)@, amount),
            result is Ok ==> final(env)@ == stake_next(old(env)@, worker, amount),
            result is Err ==> final(env)@ == funds_requested(old(env)@, worker, amount),
            final(env)@.wf(),
    {
        env.require_auth(worker);
        if amount <= 0 {
            return Err(ContractError::InvalidAmount);
        }
        let token: Address = match Self::token(env) {
            Ok(token) => token,
            Err(e) => {
                return Err(e);
            },
        };
        let this: Address = env.this;
        env.transfer(token, worker, this, amount);
        let mut info: StakeInfo = Self::stake_info(env, worker);
        info.warming = info.warming + amount;
        info.warming_since = env.sequence;
        env.put_stake(worker, info);
        env.bump_instance();
        Ok(())
    }

    /// First of two steps of unstaking. `amount` leaves the active stake at once, and stays
    /// slashable until the returned ledger. A second request adds to the bucket and restarts
    /// its clock.
    pub fn begin_unstake(env: &mut Env, worker: Address, amount: i128) -> (result: Result<
        u32,
        ContractError,
    >)
        requires
            old(env)@.wf(),
            amount > 0 ==> old(env)@.recorded_stake(worker).active() <= i128::MAX,
            begin_unstake_outcome(old(env)@, worker, amount) is Ok ==> old(env)@.recorded_stake(
                worker,
            ).unbonding + amount <= i128::MAX,
        ensures
            result == begin_unstake_outcome(old(env)@, worker, amount),
            result is Ok ==> final(env)@ == begin_unstake_next(old(env)@, worker, amount),
            result is Err ==> final(env)@ == old(env)@.require_auth(worker),
            final(env)@.wf(),
    {
        env.require_auth(worker);
        if amount <= 0 {
            return Err(ContractError::InvalidAmount);
        }
        let mut info: StakeInfo = Self::stake_info(env, worker);
        if amount > info.settled + info.warming {
            return Err(ContractError::InsufficientStake);
        }
        let from_warming: i128 = if amount < info.warming {
            amount
        } else {
            info.warming
        };
        info.warming = info.warming - from_warming;
        info.settled = info.settled - (amount - from_warming);
        let timeout_ledgers: u32 = match Self::get_timeout_ledgers(env) {
            Ok(timeout_ledgers) => timeout_ledgers,
            Err(e) => {
                return Err(e);
            },
        };
        let delay: u32 = if timeout_ledgers > MIN_UNBONDING_LEDGERS {
            timeout_ledgers
        } else {
            MIN_UNBONDING_LEDGERS
        };
        let release_at: u32 = env.sequence.saturating_add(delay);
        info.unbonding = info.unbonding + amount;
        info.unbonding_release_at = release_at;
        env.put_stake(worker, info);
        env.bump_instance();
        Ok(release_at)
    }

    /// Second step: pays out the whole unbonding bucket, net of slashes, once its ledger has
    /// come.
    pub fn complete_unstake(env: &mut Env, worker: Address) -> (result: Result<i128, ContractError>)
        requires
            old(env)@.wf(),
            old(env)@.stake_fits(worker),
        ensures
            result == complete_unstake_outcome(old(env)@, worker),
            result is Ok ==> final(env)@ == complete_unstake_next(old(env)@, worker),
            result is Err ==> final(env)@ == old(env)@.require_auth(worker),
            final(env)@.wf(),
    {
        env.require_auth(worker);
        let mut info: StakeInfo = Self::stake_info(env, worker);
        if info.unbonding <= 0 {
            return Err(ContractError::NothingUnbonding);
        }
        if env.sequence < info.unbonding_release_at {
            return Err(ContractError::UnbondingNotElapsed);
        }
        let amount: i128 = info.unbonding;
        let token: Address = match Self::token(env) {
            Ok(token) => token,
            Err(e) => {
                return Err(e);
            },
        };
        let this: Address = env.this;
        env.transfer(token, this, worker, amount);
        info.unbonding = 0;
        info.unbonding_release_at = 0;
        env.put_stake(worker, info);
        env.bump_instance();
        Ok(amount)
    }

    /// What the worker has bonded and not asked to withdraw.
    pub fn get_stake(env: &Env, worker: Address) -> (amount: i128)
        requires
            env@.wf(),
            env@.recorded_stake(worker).active() <= i128::MAX,
        ensures
            amount == env@.recorded_stake(worker).active(),
            amount == (if env@.stakes.contains_key(worker.id) {
                env@.stakes[worker.id].settled + env@.stakes[worker.id].warming
            } else {
                0
            }),
    {
        let info: StakeInfo = Self::stake_info(env, worker);
        info.settled + info.warming
    }

    /// The part of the active stake that has been bonded for the whole warm-up period: the
    /// figure to trust when a worker's credibility depends on it.
    pub fn get_matured_stake(env: &Env, worker: Address) -> (amount: i128)
        requires
            env@.wf(),
            env@.stake_fits(worker),
        ensures
            amount == env@.stake_info(worker).settled,
            amount == (if env@.stakes.contains_key(worker.id) {
                matured(env@.stakes[worker.id], env@.sequence)
            } else {
                0
            }),
    {
        proof {
            a_bond_is_read_as_it_stands(env@, worker);
        }
        Self::stake_info(env, worker).settled
    }

    pub fn get_stake_info(env: &Env, worker: Address) -> (info: StakeInfo)
        requires
            env@.wf(),
            env@.stake_fits(worker),
        ensures
            info == env@.stake_info(worker),
    {
        Self::stake_info(env, worker)
    }

    /// The worker's bond with matured top-ups already counted as settled.
    pub(crate) fn stake_info(env: &Env, worker: Address) -> (info: StakeInfo)
        requires
            env@.wf(),
            env@.stake_fits(worker),
        ensures
            info == env@.stake_info(worker),
            info.wf(),
            info.active() == env@.recorded_stake(worker).active(),
            info.total() == env@.recorded_stake(worker).total(),
    {
        env.recorded_stake(worker).roll(env.sequence)
    }
}

impl Default for StakeInfo {
    fn default() -> (info: StakeInfo)
        ensures
            info == StakeInfo::none(),
    {
        StakeInfo { settled: 0, warming: 0, warming_since: 0, unbonding: 0, unbonding_release_at: 0 }
    }
}

} // verus!
