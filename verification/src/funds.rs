//! Prepaid balances of payers and accrued earnings of workers.
use crate::env::{Env, State};
use crate::escrow::OracleEscrow;
use crate::questions::funds_requested;
use crate::types::{Address, ContractError};
use vstd::prelude::*;

verus! {

pub open spec fn deposit_outcome(s: State, amount: i128) -> Result<(), ContractError> {
    if amount <= 0 {
        Err(ContractError::InvalidAmount)
    } else if s.config.token is None {
        Err(ContractError::NotInitialized)
    } else {
        Ok(())
    }
}

pub open spec fn deposit_next(s: State, payer: Address, amount: i128) -> State {
    funds_requested(s, payer, amount).put_balance(
        payer,
        (s.balance_of(payer) + amount) as i128,
    ).bump_instance()
}

pub open spec fn withdraw_balance_outcome(s: State, payer: Address, amount: i128) -> Result<
    (),
    ContractError,
> {
    if amount <= 0 {
        Err(ContractError::InvalidAmount)
    } else if amount > s.balance_of(payer) {
        Err(ContractError::InsufficientBalance)
    } else if s.config.token is None {
        Err(ContractError::NotInitialized)
    } else {
        Ok(())
    }
}

pub open spec fn withdraw_balance_next(s: State, payer: Address, amount: i128) -> State {
    s.require_auth(payer).transfer(s.config.token->0, s.this, payer, amount).put_balance(
        payer,
        (s.balance_of(payer) - amount) as i128,
    ).bump_instance()
}

pub open spec fn withdraw_outcome(s: State, worker: Address, amount: i128) -> Result<
    i128,
    ContractError,
> {
    if amount <= 0 {
        Err(ContractError::InvalidAmount)
    } else if s.owed_to(worker) <= 0 {
        Err(ContractError::NothingOwed)
    } else if amount > s.owed_to(worker) {
        Err(ContractError::InsufficientOwed)
    } else if s.config.token is None {
        Err(ContractError::NotInitialized)
    } else {
        Ok(amount)
    }
}

pub open spec fn withdraw_next(
    s: State,
    worker: Address,
    recipient: Address,
    amount: i128,
) -> State {
    s.require_auth(worker).transfer(s.config.token->0, s.this, recipient, amount).put_owed(
        worker,
        (s.owed_to(worker) - amount) as i128,
    ).bump_instance()
}

impl OracleEscrow {
    /// The payer locks `amount` into a standing balance, not yet earmarked for any question.
    pub fn deposit(env: &mut Env, payer: Address, amount: i128) -> (result: Result<
        (),
        ContractError,
    >)
        requires
            deposit_outcome(old(env)@, amount) is Ok ==> old(env)@.balance_of(payer) + amount
                <= i128::MAX,
        ensures
            result == deposit_outcome(old(env)@, amount),
            result is Ok ==> final(env)@ == deposit_next(old(env)@, payer, amount),
            result is Err ==> final(env)@ == funds_requested(old(env)@, payer, amount),
            old(env)@.wf() ==> final(env)@.wf(),
    {
        env.require_auth(payer);
        if amount <= 0 {
            return Err(ContractError::InvalidAmount);
        }
        let token: Address = match Self::token(env) {
            Ok(token) => token,
            Err(e) => {
                return Err(e);
            },
        };
        let this: Address = env.this;
        env.transfer(token, payer, this, amount);
        let existing: i128 = env.balance_of(payer);
        env.put_balance(payer, existing + amount);
        env.bump_instance();
        Ok(())
    }

    /// The payer reclaims any part of the unused balance at any time.
    pub fn withdraw_balance(env: &mut Env, payer: Address, amount: i128) -> (result: Result<
        (),
        ContractError,
    >)
        ensures
            result == withdraw_balance_outcome(old(env)@, payer, amount),
            result is Ok ==> final(env)@ == withdraw_balance_next(old(env)@, payer, amount),
            result is Err ==> final(env)@ == old(env)@.require_auth(payer),
            old(env)@.wf() ==> final(env)@.wf(),
    {
        env.require_auth(payer);
        if amount <= 0 {
            return Err(ContractError::InvalidAmount);
        }
        let existing: i128 = env.balance_of(payer);
        if amount > existing {
            return Err(ContractError::InsufficientBalance);
        }
        let token: Address = match Self::token(env) {
            Ok(token) => token,
            Err(e) => {
                return Err(e);
            },
        };
        let this: Address = env.this;
        env.transfer(token, this, payer, amount);
        env.put_balance(payer, existing - amount);
        env.bump_instance();
        Ok(())
    }

    /// The worker withdraws any part of what past settlements credited, in one payout.
    pub fn withdraw(env: &mut Env, worker: Address, amount: i128) -> (result: Result<
        i128,
        ContractError,
    >)
        ensures
            result == withdraw_outcome(old(env)@, worker, amount),
            result is Ok ==> final(env)@ == withdraw_next(old(env)@, worker, worker, amount),
            result is Err ==> final(env)@ == old(env)@.require_auth(worker),
            old(env)@.wf() ==> final(env)@.wf(),
    {
        env.require_auth(worker);
        Self::do_withdraw(env, worker, worker, amount)
    }

    /// Like `withdraw`, but the payout goes to `beneficiary`. The worker still signs.
    pub fn withdraw_to(
        env: &mut Env,
        worker: Address,
        beneficiary: Address,
        amount: i128,
    ) -> (result: Result<i128, ContractError>)
        ensures
            result == withdraw_outcome(old(env)@, worker, amount),
            result is Ok ==> final(env)@ == withdraw_next(old(env)@, worker, beneficiary, amount),
            result is Err ==> final(env)@ == old(env)@.require_auth(worker),
            old(env)@.wf() ==> final(env)@.wf(),
    {
        env.require_auth(worker);
        Self::do_withdraw(env, worker, beneficiary, amount)
    }

    fn do_withdraw(env: &mut Env, worker: Address, recipient: Address, amount: i128) -> (result:
        Result<i128, ContractError>)
        ensures
            result == withdraw_outcome(old(env)@, worker, amount),
            result is Ok ==> final(env)@ == old(env)@.transfer(
                old(env)@.config.token->0,
                old(env)@.this,
                recipient,
                amount,
            ).put_owed(worker, (old(env)@.owed_to(worker) - amount) as i128).bump_instance(),
            result is Err ==> final(env)@ == old(env)@,
            old(env)@.wf() ==> final(env)@.wf(),
    {
        if amount <= 0 {
            return Err(ContractError::InvalidAmount);
        }
        let owed: i128 = env.owed_to(worker);
        if owed <= 0 {
            return Err(ContractError::NothingOwed);
        }
        if amount > owed {
            return Err(ContractError::InsufficientOwed);
        }
        let token: Address = match Self::token(env) {
            Ok(token) => token,
            Err(e) => {
                return Err(e);
            },
        };
        let this: Address = env.this;
        env.transfer(token, this, recipient, amount);
        env.put_owed(worker, owed - amount);
        env.bump_instance();
        Ok(amount)
    }
}

} // verus!
