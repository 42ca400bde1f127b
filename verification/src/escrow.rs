//! The contract, its configuration and its read-only calls.
use crate::env::{Config, Env, State};
use crate::limits::{CONTRACT_VERSION, MAX_TIMEOUT_LEDGERS};
use crate::pending::{a_page_is_full, pages_hold_pending_questions};
use crate::types::{Address, ContractError, PendingUpgrade, Question};
use vstd::prelude::*;

verus! {

/// The escrow contract. Each call works on an [`Env`]: it either succeeds and leaves the new
/// entries and the requests to the host behind, or it returns an error, changes no entry, and
/// leaves only the requests that come before the error.
pub struct OracleEscrow;

impl State {
    /// The state after an administrator-only call has asked for the administrator's signature.
    pub open spec fn ask_admin(self) -> State {
        match self.config.admin {
            Some(admin) => self.require_auth(admin),
            None => self,
        }
    }

    pub open spec fn with_config(self, config: Config) -> State {
        State { config, ..self }
    }
}

/// Whether a refund window may be configured.
pub open spec fn timeout_accepted(timeout_ledgers: u32) -> bool {
    0 < timeout_ledgers <= MAX_TIMEOUT_LEDGERS
}

pub open spec fn initialize_outcome(s: State, timeout_ledgers: u32) -> Result<(), ContractError> {
    if s.config.admin is Some {
        Err(ContractError::AlreadyInitialized)
    } else if !timeout_accepted(timeout_ledgers) {
        Err(ContractError::InvalidTimeout)
    } else {
        Ok(())
    }
}

pub open spec fn initialize_next(
    s: State,
    admin: Address,
    token: Address,
    platform: Address,
    timeout_ledgers: u32,
) -> State {
    s.require_auth(admin).with_config(
        Config {
            admin: Some(admin),
            token: Some(token),
            platform: Some(platform),
            timeout_ledgers: Some(timeout_ledgers),
            ..s.config
        },
    ).bump_instance()
}

/// The outcome of a call that only the administrator may make and nothing else can refuse.
pub open spec fn admin_outcome(s: State) -> Result<(), ContractError> {
    if s.config.admin is None {
        Err(ContractError::NotInitialized)
    } else {
        Ok(())
    }
}

pub open spec fn set_admin_next(s: State, new_admin: Address) -> State {
    s.ask_admin().with_config(Config { admin: Some(new_admin), ..s.config }).bump_instance()
}

pub open spec fn set_timeout_ledgers_outcome(s: State, new_timeout_ledgers: u32) -> Result<
    (),
    ContractError,
> {
    if s.config.admin is None {
        Err(ContractError::NotInitialized)
    } else if !timeout_accepted(new_timeout_ledgers) {
        Err(ContractError::InvalidTimeout)
    } else {
        Ok(())
    }
}

pub open spec fn set_timeout_ledgers_next(s: State, new_timeout_ledgers: u32) -> State {
    s.ask_admin().with_config(
        Config { timeout_ledgers: Some(new_timeout_ledgers), ..s.config },
    ).bump_instance()
}

impl OracleEscrow {
    /// One-time setup. `timeout_ledgers` is how long a question may sit pending before anyone
    /// can force its refund.
    pub fn initialize(
        env: &mut Env,
        admin: Address,
        token: Address,
        platform: Address,
        timeout_ledgers: u32,
    ) -> (result: Result<(), ContractError>)
        ensures
            result == initialize_outcome(old(env)@, timeout_ledgers),
            result is Ok ==> final(env)@ == initialize_next(
                old(env)@,
                admin,
                token,
                platform,
                timeout_ledgers,
            ),
            result is Err ==> final(env)@ == old(env)@,
            old(env)@.wf() ==> final(env)@.wf(),
    {
        if env.config.admin.is_some() {
            return Err(ContractError::AlreadyInitialized);
        }
        if timeout_ledgers == 0 || timeout_ledgers > MAX_TIMEOUT_LEDGERS {
            return Err(ContractError::InvalidTimeout);
        }
        env.require_auth(admin);
        env.config.admin = Some(admin);
        env.config.token = Some(token);
        env.config.platform = Some(platform);
        env.config.timeout_ledgers = Some(timeout_ledgers);
        env.bump_instance();
        Ok(())
    }

    /// Hands control to another administrator; the current one signs.
    pub fn set_admin(env: &mut Env, new_admin: Address) -> (result: Result<(), ContractError>)
        ensures
            result == admin_outcome(old(env)@),
            result is Ok ==> final(env)@ == set_admin_next(old(env)@, new_admin),
            result is Err ==> final(env)@ == old(env)@,
            old(env)@.wf() ==> final(env)@.wf(),
    {
        Self::require_admin(env)?;
        env.config.admin = Some(new_admin);
        env.bump_instance();
        Ok(())
    }

    /// Changes the refund window of questions opened from now on. Pending questions keep the
    /// window they were opened with.
    pub fn set_timeout_ledgers(env: &mut Env, new_timeout_ledgers: u32) -> (result: Result<
        (),
        ContractError,
    >)
        ensures
            result == set_timeout_ledgers_outcome(old(env)@, new_timeout_ledgers),
            result is Ok ==> final(env)@ == set_timeout_ledgers_next(
                old(env)@,
                new_timeout_ledgers,
            ),
            result is Err ==> final(env)@ == old(env)@.ask_admin(),
            old(env)@.wf() ==> final(env)@.wf(),
    {
        Self::require_admin(env)?;
        if new_timeout_ledgers == 0 || new_timeout_ledgers > MAX_TIMEOUT_LEDGERS {
            return Err(ContractError::InvalidTimeout);
        }
        env.config.timeout_ledgers = Some(new_timeout_ledgers);
        env.bump_instance();
        Ok(())
    }

    /// The version of the running code.
    pub fn version(_env: &Env) -> (version: u32)
        ensures
            version == CONTRACT_VERSION,
    {
        CONTRACT_VERSION
    }

    pub fn get_question(env: &Env, question_id: u64) -> (result: Result<Question, ContractError>)
        ensures
            result == (if env@.questions.contains_key(question_id) {
                Ok(env@.questions[question_id])
            } else {
                Err(ContractError::QuestionNotFound)
            }),
    {
        match env.questions.get(&question_id) {
            Some(question) => Ok(*question),
            None => Err(ContractError::QuestionNotFound),
        }
    }

    /// The refund window that a question opened now would get.
    pub fn get_timeout_ledgers(env: &Env) -> (result: Result<u32, ContractError>)
        ensures
            result == (match env@.config.timeout_ledgers {
                Some(timeout_ledgers) => Ok(timeout_ledgers),
                None => Err(ContractError::NotInitialized),
            }),
    {
        match env.config.timeout_ledgers {
            Some(timeout_ledgers) => Ok(timeout_ledgers),
            None => Err(ContractError::NotInitialized),
        }
    }

    /// The escrowed token.
    pub fn get_token(env: &Env) -> (result: Result<Address, ContractError>)
        ensures
            result == (match env@.config.token {
                Some(token) => Ok(token),
                None => Err(ContractError::NotInitialized),
            }),
    {
        Self::token(env)
    }

    pub fn get_balance(env: &Env, payer: Address) -> (amount: i128)
        ensures
            amount == env@.balance_of(payer),
            amount == (if env@.balances.contains_key(payer.id) {
                env@.balances[payer.id]
            } else {
                0
            }),
    {
        env.balance_of(payer)
    }

    pub fn get_owed(env: &Env, worker: Address) -> (amount: i128)
        ensures
            amount == env@.owed_to(worker),
            amount == (if env@.owed.contains_key(worker.id) {
                env@.owed[worker.id]
            } else {
                0
            }),
    {
        env.owed_to(worker)
    }

    /// How many questions are pending.
    pub fn pending_count(env: &Env) -> (count: u32)
        ensures
            count == env@.pending_count,
    {
        env.pending_count
    }

    /// Up to `limit` pending ids (never more than a full page) from slot `start` on. A question
    /// that settles between two reads moves the last id into its slot, so a reader that settles
    /// what it reads should read from the front until nothing is left.
    pub fn list_pending(env: &Env, start: u32, limit: u32) -> (ids: Vec<u64>)
        ensures
            ids@ == env@.slots(start as int, env@.page_end(start, limit)),
            env@.indexed() ==> {
                &&& ids.len() <= limit && ids.len() <= 100
                &&& ids.len() == limit || ids.len() == 100 || ids.len() >= env@.pending_count
                    - start
                &&& forall|i: int|
                    0 <= i < ids.len() ==> #[trigger] ids@[i] == env@.pending_at[(start
                        + i) as u32] && env@.is_pending(ids@[i])
            },
    {
        proof {
            if env@.indexed() {
                a_page_is_full(env@, start, limit);
                pages_hold_pending_questions(env@, start, limit);
            }
        }
        env.page(start, limit)
    }

    pub fn get_migration_source(env: &Env) -> (source: Option<Address>)
        ensures
            source == env@.config.migration_source,
    {
        env.config.migration_source
    }

    pub fn get_pending_upgrade(env: &Env) -> (upgrade: Option<PendingUpgrade>)
        ensures
            upgrade == env@.config.pending_upgrade,
    {
        env.config.pending_upgrade
    }

    pub(crate) fn require_admin(env: &mut Env) -> (result: Result<(), ContractError>)
        ensures
            result == admin_outcome(old(env)@),
            final(env)@ == old(env)@.ask_admin(),
    {
        match env.config.admin {
            Some(admin) => {
                env.require_auth(admin);
                Ok(())
            },
            None => Err(ContractError::NotInitialized),
        }
    }

    pub(crate) fn token(env: &Env) -> (result: Result<Address, ContractError>)
        ensures
            result == (match env@.config.token {
                Some(token) => Ok(token),
                None => Err(ContractError::NotInitialized),
            }),
    {
        match env.config.token {
            Some(token) => Ok(token),
            None => Err(ContractError::NotInitialized),
        }
    }
}

} // verus!
