//! Code upgrades behind a time lock.
use crate::env::{Config, Env, State};
use crate::escrow::{admin_outcome, OracleEscrow};
use crate::limits::UPGRADE_DELAY_LEDGERS;
use crate::types::{
    ContractError, Effect, Event, PendingUpgrade, UpgradeCancelled, UpgradeExecuted,
    UpgradeProposed,
};
use vstd::prelude::*;

verus! {

/// The upgrade that a proposal made now would schedule.
pub open spec fn scheduled(s: State, new_wasm_hash: [u8; 32]) -> PendingUpgrade {
    PendingUpgrade {
        wasm_hash: new_wasm_hash,
        executable_at: if s.sequence + UPGRADE_DELAY_LEDGERS > u32::MAX {
            u32::MAX
        } else {
            (s.sequence + UPGRADE_DELAY_LEDGERS) as u32
        },
    }
}

pub open spec fn propose_upgrade_next(s: State, new_wasm_hash: [u8; 32]) -> State {
    let upgrade = scheduled(s, new_wasm_hash);
    s.ask_admin().with_config(
        Config { pending_upgrade: Some(upgrade), ..s.config },
    ).bump_instance().publish(
        Event::Proposed(
            UpgradeProposed {
                wasm_hash: new_wasm_hash,
                executable_at: upgrade.executable_at,
            },
        ),
    )
}

pub open spec fn cancel_upgrade_outcome(s: State) -> Result<(), ContractError> {
    if s.config.admin is None {
        Err(ContractError::NotInitialized)
    } else if s.config.pending_upgrade is None {
        Err(ContractError::NoUpgradePending)
    } else {
        Ok(())
    }
}

pub open spec fn cancel_upgrade_next(s: State) -> State {
    s.ask_admin().with_config(
        Config { pending_upgrade: None, ..s.config },
    ).bump_instance().publish(
        Event::Cancelled(
            UpgradeCancelled { wasm_hash: s.config.pending_upgrade->0.wasm_hash },
        ),
    )
}

pub open spec fn execute_upgrade_outcome(s: State) -> Result<(), ContractError> {
    if s.config.admin is None {
        Err(ContractError::NotInitialized)
    } else if s.config.pending_upgrade is None {
        Err(ContractError::NoUpgradePending)
    } else if s.sequence < s.config.pending_upgrade->0.executable_at {
        Err(ContractError::UpgradeNotReady)
    } else {
        Ok(())
    }
}

pub open spec fn execute_upgrade_next(s: State) -> State {
    let wasm_hash = s.config.pending_upgrade->0.wasm_hash;
    s.ask_admin().with_config(
        Config { pending_upgrade: None, ..s.config },
    ).bump_instance().emit(Effect::UpdateWasm { wasm_hash }).publish(
        Event::Executed(UpgradeExecuted { wasm_hash }),
    )
}

impl OracleEscrow {
    /// Administrator only. Schedules an upgrade to code that is already uploaded. Proposing
    /// again replaces the proposal and restarts the delay.
    pub fn propose_upgrade(env: &mut Env, new_wasm_hash: [u8; 32]) -> (result: Result<
        (),
        ContractError,
    >)
        ensures
            result == admin_outcome(old(env)@),
            result is Ok ==> final(env)@ == propose_upgrade_next(old(env)@, new_wasm_hash),
            result is Err ==> final(env)@ == old(env)@,
            old(env)@.wf() ==> final(env)@.wf(),
    {
        Self::require_admin(env)?;
        let executable_at: u32 = env.sequence.saturating_add(UPGRADE_DELAY_LEDGERS);
        env.config.pending_upgrade = Some(
            PendingUpgrade { wasm_hash: new_wasm_hash, executable_at },
        );
        env.bump_instance();
        env.publish(
            Event::Proposed(UpgradeProposed { wasm_hash: new_wasm_hash, executable_at }),
        );
        Ok(())
    }

    /// Administrator only. Drops the proposal; the running code stays.
    pub fn cancel_upgrade(env: &mut Env) -> (result: Result<(), ContractError>)
        ensures
            result == cancel_upgrade_outcome(old(env)@),
            result is Ok ==> final(env)@ == cancel_upgrade_next(old(env)@),
            result is Err ==> final(env)@ == old(env)@.ask_admin(),
            old(env)@.wf() ==> final(env)@.wf(),
    {
        Self::require_admin(env)?;
        let upgrade: PendingUpgrade = match Self::pending_upgrade(env) {
            Ok(upgrade) => upgrade,
            Err(e) => {
                return Err(e);
            },
        };
        env.config.pending_upgrade = None;
        env.bump_instance();
        env.publish(Event::Cancelled(UpgradeCancelled { wasm_hash: upgrade.wasm_hash }));
        Ok(())
    }

    /// Administrator only. Swaps in the proposed code once its delay has passed.
    pub fn execute_upgrade(env: &mut Env) -> (result: Result<(), ContractError>)
        ensures
            result == execute_upgrade_outcome(old(env)@),
            result is Ok ==> final(env)@ == execute_upgrade_next(old(env)@),
            result is Err ==> final(env)@ == old(env)@.ask_admin(),
            old(env)@.wf() ==> final(env)@.wf(),
    {
        Self::require_admin(env)?;
        let upgrade: PendingUpgrade = match Self::pending_upgrade(env) {
            Ok(upgrade) => upgrade,
            Err(e) => {
                return Err(e);
            },
        };
        if env.sequence < upgrade.executable_at {
            return Err(ContractError::UpgradeNotReady);
        }
        env.config.pending_upgrade = None;
        env.bump_instance();
        env.emit(Effect::UpdateWasm { wasm_hash: upgrade.wasm_hash });
        env.publish(Event::Executed(UpgradeExecuted { wasm_hash: upgrade.wasm_hash }));
        Ok(())
    }

    fn pending_upgrade(env: &Env) -> (result: Result<PendingUpgrade, ContractError>)
        ensures
            result == (match env@.config.pending_upgrade {
                Some(upgrade) => Ok(upgrade),
                None => Err(ContractError::NoUpgradePending),
            }),
    {
        match env.config.pending_upgrade {
            Some(upgrade) => Ok(upgrade),
            None => Err(ContractError::NoUpgradePending),
        }
    }
}

} // verus!
