//! Opening questions, and the two ways of refunding them.
use crate::env::{Env, State};
use crate::escrow::OracleEscrow;
use crate::types::{
    Address, ContractError, Event, PendingUpgrade, Question, QuestionOpened, QuestionSettled,
    Status,
};
use vstd::prelude::*;

verus! {

impl State {
    /// The one way a question comes into existence.
    pub open spec fn record_question(self, id: u64, question: Question) -> State {
        State { questions: self.questions.insert(id, question), ..self }.extend_question(
            id,
            question,
        ).index_add(id).bump_instance().publish(
            Event::Opened(
                QuestionOpened {
                    question_id: id,
                    payer: question.payer,
                    amount: question.amount,
                    created_at: question.created_at,
                    timeout_ledgers: question.timeout_ledgers,
                },
            ),
        )
    }

    /// The one way a question leaves pending.
    pub open spec fn settle_question(self, id: u64, status: Status) -> State {
        self.put_question(id, self.questions[id].with_status(status)).index_remove(
            id,
        ).bump_instance().publish(Event::Settled(QuestionSettled { question_id: id, status }))
    }
}

/// Whether the upgrade lock leaves a question opened at ledger `now` no refund window at all.
pub open spec fn no_window_left(upgrade: Option<PendingUpgrade>, now: u32) -> bool {
    upgrade is Some && upgrade->0.executable_at - 1 <= now
}

/// The refund window of a question opened at ledger `now`: the configured one, cut short so that
/// the deadline falls before a scheduled upgrade can run.
pub open spec fn window(timeout_ledgers: u32, upgrade: Option<PendingUpgrade>, now: u32) -> u32 {
    match upgrade {
        Some(u) => if timeout_ledgers < u.executable_at - 1 - now {
            timeout_ledgers
        } else {
            (u.executable_at - 1 - now) as u32
        },
        None => timeout_ledgers,
    }
}

/// The question that `payer` would open now.
pub open spec fn opened_question(s: State, payer: Address, amount: i128) -> Question {
    Question {
        payer,
        amount,
        status: Status::Pending,
        created_at: s.sequence,
        timeout_ledgers: window(
            s.config.timeout_ledgers->0,
            s.config.pending_upgrade,
            s.sequence,
        ),
    }
}

pub open spec fn open_question_outcome(s: State, id: u64) -> Result<(), ContractError> {
    if s.config.timeout_ledgers is None {
        Err(ContractError::NotInitialized)
    } else if s.questions.contains_key(id) {
        Err(ContractError::QuestionAlreadyExists)
    } else if no_window_left(s.config.pending_upgrade, s.sequence) {
        Err(ContractError::UpgradeInProgress)
    } else {
        Ok(())
    }
}

pub open spec fn open_question_next(s: State, payer: Address, id: u64, amount: i128) -> State {
    s.record_question(id, opened_question(s, payer, amount))
}

pub open spec fn submit_outcome(s: State, id: u64, amount: i128) -> Result<(), ContractError> {
    if amount <= 0 {
        Err(ContractError::InvalidAmount)
    } else if s.config.token is None {
        Err(ContractError::NotInitialized)
    } else {
        open_question_outcome(s, id)
    }
}

/// What `submit` and `deposit` ask for before anything is recorded: the payer's signature, and
/// the funds once the amount and the token are known to be good.
pub open spec fn funds_requested(s: State, payer: Address, amount: i128) -> State {
    let a = s.require_auth(payer);
    if amount > 0 && s.config.token is Some {
        a.transfer(s.config.token->0, payer, s.this, amount)
    } else {
        a
    }
}

pub open spec fn submit_next(s: State, payer: Address, id: u64, amount: i128) -> State {
    open_question_next(funds_requested(s, payer, amount), payer, id, amount)
}

pub open spec fn charge_outcome(s: State, payer: Address, id: u64, amount: i128) -> Result<
    (),
    ContractError,
> {
    if s.config.admin is None {
        Err(ContractError::NotInitialized)
    } else if amount <= 0 {
        Err(ContractError::InvalidAmount)
    } else if amount > s.balance_of(payer) {
        Err(ContractError::InsufficientBalance)
    } else {
        open_question_outcome(s, id)
    }
}

pub open spec fn charge_next(s: State, payer: Address, id: u64, amount: i128) -> State {
    open_question_next(
        s.ask_admin().put_balance(payer, (s.balance_of(payer) - amount) as i128),
        payer,
        id,
        amount,
    )
}

/// The outcome of any refund whose caller is entitled to it.
pub open spec fn do_refund_outcome(s: State, id: u64) -> Result<(), ContractError> {
    if !s.questions.contains_key(id) {
        Err(ContractError::QuestionNotFound)
    } else if s.questions[id].status != Status::Pending {
        Err(ContractError::QuestionNotPending)
    } else if s.config.token is None {
        Err(ContractError::NotInitialized)
    } else {
        Ok(())
    }
}

/// The question is marked refunded first, then its full amount goes back to its payer.
pub open spec fn do_refund_next(s: State, id: u64) -> State {
    s.settle_question(id, Status::Refunded).transfer(
        s.config.token->0,
        s.this,
        s.questions[id].payer,
        s.questions[id].amount,
    )
}

pub open spec fn refund_outcome(s: State, id: u64) -> Result<(), ContractError> {
    if s.config.admin is None {
        Err(ContractError::NotInitialized)
    } else {
        do_refund_outcome(s, id)
    }
}

pub open spec fn refund_next(s: State, id: u64) -> State {
    do_refund_next(s.ask_admin(), id)
}

pub open spec fn refund_timeout_outcome(s: State, id: u64) -> Result<(), ContractError> {
    if s.is_pending(id) && s.sequence < s.questions[id].spec_deadline() {
        Err(ContractError::TooEarlyForTimeout)
    } else {
        do_refund_outcome(s, id)
    }
}

impl OracleEscrow {
    /// The payer locks `amount` for `question_id`. Any positive amount is accepted.
    pub fn submit(env: &mut Env, payer: Address, question_id: u64, amount: i128) -> (result: Result<
        (),
        ContractError,
    >)
        requires
            submit_outcome(old(env)@, question_id, amount) is Ok ==> old(env)@.pending_count
                < u32::MAX,
        ensures
            result == submit_outcome(old(env)@, question_id, amount),
            result is Ok ==> final(env)@ == submit_next(old(env)@, payer, question_id, amount),
            result is Err ==> final(env)@ == funds_requested(old(env)@, payer, amount),
            old(env)@.wf() ==> final(env)@.wf(),
    {
        env.require_auth(payer);
        if amount <= 0 {
            return Err(ContractError::InvalidAmount);
        }
        let token: Address = match Self::token(env) {
            Ok(token) => token,
            Err(e) => {
                return Err(e);
            },
        };
        let this: Address = env.this;
        env.transfer(token, payer, this, amount);
        Self::open_question(env, payer, question_id, amount)
    }

    /// Administrator only. Draws `amount` from the payer's prepaid balance and opens the
    /// question just as `submit` would, without a signature from the payer.
    pub fn charge(env: &mut Env, payer: Address, question_id: u64, amount: i128) -> (result: Result<
        (),
        ContractError,
    >)
        requires
            charge_outcome(old(env)@, payer, question_id, amount) is Ok
                ==> old(env)@.pending_count < u32::MAX,
        ensures
            result == charge_outcome(old(env)@, payer, question_id, amount),
            result is Ok ==> final(env)@ == charge_next(old(env)@, payer, question_id, amount),
            result is Err ==> final(env)@ == old(env)@.ask_admin(),
            old(env)@.wf() ==> final(env)@.wf(),
    {
        Self::require_admin(env)?;
        if amount <= 0 {
            return Err(ContractError::InvalidAmount);
        }
        let existing: i128 = env.balance_of(payer);
        if amount > existing {
            return Err(ContractError::InsufficientBalance);
        }
        Self::check_open(env, question_id)?;
        env.put_balance(payer, existing - amount);
        Self::open_question(env, payer, question_id, amount)
    }

    /// Whether `question_id` can be opened now.
    fn check_open(env: &Env, question_id: u64) -> (result: Result<(), ContractError>)
        ensures
            result == open_question_outcome(env@, question_id),
    {
        if env.config.timeout_ledgers.is_none() {
            return Err(ContractError::NotInitialized);
        }
        if env.questions.contains_key(&question_id) {
            return Err(ContractError::QuestionAlreadyExists);
        }
        if let Some(upgrade) = env.config.pending_upgrade {
            if upgrade.executable_at.saturating_sub(1) <= env.sequence {
                return Err(ContractError::UpgradeInProgress);
            }
        }
        Ok(())
    }

    /// Records a question whose funds are already in the contract. A scheduled upgrade cuts its
    /// refund window short, so that the deadline comes while the current code still runs.
    pub(crate) fn open_question(
        env: &mut Env,
        payer: Address,
        question_id: u64,
        amount: i128,
    ) -> (result: Result<(), ContractError>)
        requires
            open_question_outcome(old(env)@, question_id) is Ok ==> old(env)@.pending_count
                < u32::MAX,
        ensures
            result == open_question_outcome(old(env)@, question_id),
            result is Ok ==> final(env)@ == open_question_next(
                old(env)@,
                payer,
                question_id,
                amount,
            ),
            result is Err ==> final(env)@ == old(env)@,
    {
        Self::check_open(env, question_id)?;
        let mut timeout_ledgers: u32 = env.config.timeout_ledgers.unwrap();
        if let Some(upgrade) = env.config.pending_upgrade {
            let left: u32 = upgrade.executable_at - 1 - env.sequence;
            if left < timeout_ledgers {
                timeout_ledgers = left;
            }
        }
        let created_at: u32 = env.sequence;
        Self::record_question(
            env,
            question_id,
            Question { payer, amount, status: Status::Pending, created_at, timeout_ledgers },
        )
    }

    /// Stores, indexes and announces a new pending question.
    pub(crate) fn record_question(env: &mut Env, question_id: u64, question: Question) -> (result:
        Result<(), ContractError>)
        requires
            !old(env)@.questions.contains_key(question_id) ==> old(env)@.pending_count < u32::MAX,
        ensures
            result == (if old(env)@.questions.contains_key(question_id) {
                Err(ContractError::QuestionAlreadyExists)
            } else {
                Ok(())
            }),
            result is Ok ==> final(env)@ == old(env)@.record_question(question_id, question),
            result is Err ==> final(env)@ == old(env)@,
    {
        if env.questions.contains_key(&question_id) {
            return Err(ContractError::QuestionAlreadyExists);
        }
        env.questions.insert(question_id, question);
        env.extend_question_ttl(question_id, &question);
        env.index_add(question_id);
        env.bump_instance();
        env.publish(
            Event::Opened(
                QuestionOpened {
                    question_id,
                    payer: question.payer,
                    amount: question.amount,
                    created_at: question.created_at,
                    timeout_ledgers: question.timeout_ledgers,
                },
            ),
        );
        Ok(())
    }

    /// Administrator only: a discretionary refund. It never runs twice and never undoes a
    /// settlement.
    pub fn refund(env: &mut Env, question_id: u64) -> (result: Result<(), ContractError>)
        requires
            refund_outcome(old(env)@, question_id) is Ok ==> old(env)@.index_ready(question_id),
        ensures
            result == refund_outcome(old(env)@, question_id),
            result is Ok ==> final(env)@ == refund_next(old(env)@, question_id),
            result is Err ==> final(env)@ == old(env)@.ask_admin(),
            old(env)@.wf() ==> final(env)@.wf(),
    {
        Self::require_admin(env)?;
        Self::do_refund(env, question_id)
    }

    /// Once a question has sat pending for its whole window, anyone may force the full refund
    /// to its payer. No signature is asked for.
    pub fn refund_timeout(env: &mut Env, question_id: u64) -> (result: Result<(), ContractError>)
        requires
            refund_timeout_outcome(old(env)@, question_id) is Ok ==> old(env)@.index_ready(
                question_id,
            ),
        ensures
            result == refund_timeout_outcome(old(env)@, question_id),
            result is Ok ==> final(env)@ == do_refund_next(old(env)@, question_id),
            result is Err ==> final(env)@ == old(env)@,
            old(env)@.wf() ==> final(env)@.wf(),
    {
        let question: Question = match env.questions.get(&question_id) {
            Some(question) => *question,
            None => {
                return Err(ContractError::QuestionNotFound);
            },
        };
        if question.status != Status::Pending {
            return Err(ContractError::QuestionNotPending);
        }
        if env.sequence < question.deadline() {
            return Err(ContractError::TooEarlyForTimeout);
        }
        Self::do_refund(env, question_id)
    }

    fn do_refund(env: &mut Env, question_id: u64) -> (result: Result<(), ContractError>)
        requires
            do_refund_outcome(old(env)@, question_id) is Ok ==> old(env)@.index_ready(question_id),
        ensures
            result == do_refund_outcome(old(env)@, question_id),
            result is Ok ==> final(env)@ == do_refund_next(old(env)@, question_id),
            result is Err ==> final(env)@ == old(env)@,
            old(env)@.wf() ==> final(env)@.wf(),
    {
        let question: Question = match env.questions.get(&question_id) {
            Some(question) => *question,
            None => {
                return Err(ContractError::QuestionNotFound);
            },
        };
        if question.status != Status::Pending {
            return Err(ContractError::QuestionNotPending);
        }
        let token: Address = match Self::token(env) {
            Ok(token) => token,
            Err(e) => {
                return Err(e);
            },
        };
        let this: Address = env.this;
        Self::settle_question(env, question_id, question, Status::Refunded);
        env.transfer(token, this, question.payer, question.amount);
        Ok(())
    }

    /// Records the terminal status, drops the question from the index and announces it.
    pub(crate) fn settle_question(
        env: &mut Env,
        question_id: u64,
        question: Question,
        status: Status,
    )
        requires
            old(env)@.questions.contains_key(question_id),
            old(env)@.questions[question_id] == question,
            old(env)@.index_ready(question_id),
        ensures
            final(env)@ == old(env)@.settle_question(question_id, status),
    {
        let settled: Question = Question {
            payer: question.payer,
            amount: question.amount,
            status,
            created_at: question.created_at,
            timeout_ledgers: question.timeout_ledgers,
        };
        env.put_question(question_id, settled);
        env.index_remove(question_id);
        env.bump_instance();
        env.publish(Event::Settled(QuestionSettled { question_id, status }));
    }
}

} // verus!
