//! Keeping stored entries alive. Anyone may pay for that.
use crate::env::{Env, State};
use crate::escrow::OracleEscrow;
use crate::types::{Address, ContractError, DataKey, Question, Status};
use vstd::prelude::*;

verus! {

impl State {
    pub open spec fn extend_if(self, present: bool, key: DataKey) -> State {
        if present {
            self.extend_persistent(key)
        } else {
            self
        }
    }
}

pub open spec fn touch_next(s: State, account: Address) -> State {
    s.extend_if(s.owed.contains_key(account.id), DataKey::Owed(account)).extend_if(
        s.stakes.contains_key(account.id),
        DataKey::Stake(account),
    ).extend_if(
        s.balances.contains_key(account.id),
        DataKey::Balance(account),
    ).bump_instance()
}

/// A pending question is kept alive together with its index entries.
pub open spec fn touch_question_next(s: State, id: u64) -> State {
    let a = s.extend_question(id, s.questions[id]);
    let b = if s.is_pending(id) && s.pending_pos.contains_key(id) {
        a.extend_persistent(DataKey::PendingPos(id)).extend_persistent(
            DataKey::PendingAt(s.pending_pos[id]),
        ).extend_persistent(DataKey::PendingCount)
    } else {
        a
    };
    b.bump_instance()
}

impl OracleEscrow {
    /// Refreshes whichever of an address's entries exist. An address without any is no error.
    pub fn touch(env: &mut Env, account: Address) -> (result: Result<(), ContractError>)
        ensures
            result == Ok::<(), ContractError>(()),
            final(env)@ == touch_next(old(env)@, account),
            old(env)@.wf() ==> final(env)@.wf(),
    {
        if env.owed.contains_key(&account.id) {
            env.extend_persistent(DataKey::Owed(account));
        }
        if env.stakes.contains_key(&account.id) {
            env.extend_persistent(DataKey::Stake(account));
        }
        if env.balances.contains_key(&account.id) {
            env.extend_persistent(DataKey::Balance(account));
        }
        env.bump_instance();
        Ok(())
    }

    /// Refreshes one question, whatever its status.
    pub fn touch_question(env: &mut Env, question_id: u64) -> (result: Result<(), ContractError>)
        ensures
            result == (if old(env)@.questions.contains_key(question_id) {
                Ok(())
            } else {
                Err(ContractError::QuestionNotFound)
            }),
            result is Ok ==> final(env)@ == touch_question_next(old(env)@, question_id),
            result is Err ==> final(env)@ == old(env)@,
            old(env)@.wf() ==> final(env)@.wf(),
    {
        let question: Question = match env.questions.get(&question_id) {
            Some(question) => *question,
            None => {
                return Err(ContractError::QuestionNotFound);
            },
        };
        env.extend_question_ttl(question_id, &question);
        if question.status == Status::Pending {
            let slot: Option<u32> = match env.pending_pos.get(&question_id) {
                Some(slot) => Some(*slot),
                None => None,
            };
            if let Some(slot) = slot {
                env.extend_persistent(DataKey::PendingPos(question_id));
                env.extend_persistent(DataKey::PendingAt(slot));
                env.extend_persistent(DataKey::PendingCount);
            }
        }
        env.bump_instance();
        Ok(())
    }
}

} // verus!
