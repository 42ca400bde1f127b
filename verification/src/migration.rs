//! Moving pending questions to another instance.
use crate::env::{Config, Env, State};
use crate::escrow::{admin_outcome, OracleEscrow};
use crate::limits::MAX_TIMEOUT_LEDGERS;
use crate::seqs::contains_splits;
use crate::types::{
    Address, ContractError, Effect, Event, Question, QuestionMigrated, Status,
};
use std::collections::BTreeMap;
use vstd::prelude::*;

verus! {

pub open spec fn set_migration_source_outcome(s: State, source: Address) -> Result<
    (),
    ContractError,
> {
    if s.config.admin is None {
        Err(ContractError::NotInitialized)
    } else if source == s.this {
        Err(ContractError::InvalidMigrationTarget)
    } else {
        Ok(())
    }
}

pub open spec fn set_migration_source_next(s: State, source: Option<Address>) -> State {
    s.ask_admin().with_config(Config { migration_source: source, ..s.config }).bump_instance()
}

impl State {
    /// What handing a question over asks for: the target is let to pull the funds and told to
    /// record the question.
    pub open spec fn hand_over(self, id: u64, target: Address) -> State {
        let question = self.questions[id];
        let token = self.config.token->0;
        self.emit(
            Effect::AuthorizeTransfer {
                token,
                from: self.this,
                to: target,
                amount: question.amount,
            },
        ).emit(
            Effect::ImportQuestion {
                target,
                source: self.this,
                token,
                question_id: id,
                payer: question.payer,
                amount: question.amount,
                created_at: question.created_at,
                timeout_ledgers: question.timeout_ledgers,
            },
        ).publish(
            Event::Migrated(
                QuestionMigrated { question_id: id, target, amount: question.amount },
            ),
        )
    }

    /// One pending question handed over and marked migrated here.
    pub open spec fn migrate_one(self, id: u64, target: Address) -> State {
        self.hand_over(id, target).settle_question(id, Status::Migrated)
    }

    /// Every question of `ids` handed over, in order.
    pub open spec fn migrate_all(self, ids: Seq<u64>, target: Address) -> State
        decreases ids.len(),
    {
        if ids.len() == 0 {
            self
        } else {
            self.migrate_all(ids.drop_last(), target).migrate_one(ids.last(), target)
        }
    }

    /// What the questions of `ids` lock together.
    pub open spec fn amount_of(self, ids: Seq<u64>) -> int
        decreases ids.len(),
    {
        if ids.len() == 0 {
            0
        } else {
            self.amount_of(ids.drop_last()) + self.questions[ids.last()].amount
        }
    }

    /// How many ids from the front of `ids` can be handed over: each has to be pending, and
    /// not named before.
    pub open spec fn movable_prefix(self, ids: Seq<u64>) -> int
        decreases ids.len(),
    {
        if ids.len() == 0 {
            0
        } else {
            let before = ids.drop_last();
            let k = self.movable_prefix(before);
            if k == before.len() && self.is_pending(ids.last()) && !before.contains(ids.last()) {
                ids.len() as int
            } else {
                k
            }
        }
    }

    /// The same entries but for the questions' statuses and the index.
    pub open spec fn same_but_questions(self, other: State) -> bool {
        self == State {
            questions: self.questions,
            pending_count: self.pending_count,
            pending_at: self.pending_at,
            pending_pos: self.pending_pos,
            effects: self.effects,
            ..other
        }
    }
}

/// A batch is all or nothing: the first id that cannot move decides the error. An id that was
/// moved earlier in the same batch is no longer pending.
pub open spec fn migrate_pending_outcome(s: State, ids: Seq<u64>, target: Address) -> Result<
    i128,
    ContractError,
> {
    let k = s.movable_prefix(ids);
    if s.config.admin is None {
        Err(ContractError::NotInitialized)
    } else if target == s.this {
        Err(ContractError::InvalidMigrationTarget)
    } else if s.config.token is None {
        Err(ContractError::NotInitialized)
    } else if k == ids.len() {
        Ok(s.amount_of(ids) as i128)
    } else if !s.questions.contains_key(ids[k]) {
        Err(ContractError::QuestionNotFound)
    } else {
        Err(ContractError::QuestionNotPending)
    }
}

pub open spec fn migrate_pending_next(s: State, ids: Seq<u64>, target: Address) -> State {
    s.ask_admin().migrate_all(ids, target)
}

/// What a batch asks of the host before it fails: the handing over of the ids in front of the
/// one that could not move. No entry changes.
pub open spec fn migrate_pending_asked(s: State, ids: Seq<u64>, target: Address) -> State {
    if s.config.admin is None || s.config.token is None || target == s.this {
        s.ask_admin()
    } else {
        State {
            effects: s.ask_admin().migrate_all(ids.take(s.movable_prefix(ids)), target).effects,
            ..s
        }
    }
}

/// Whether a batch stays within the number range and finds the index entries it moves.
pub open spec fn migrate_pending_fits(s: State, ids: Seq<u64>, target: Address) -> bool {
    let k = s.movable_prefix(ids);
    &&& s.amount_of(ids.take(k)) <= i128::MAX
    &&& forall|j: int|
        0 <= j < k ==> (#[trigger] s.ask_admin().migrate_all(ids.take(j), target)).index_ready(
            ids[j],
        )
}

/// An imported question keeps its deadline, so one whose window is over the limit, that would come
/// due later than any question opened here now could, or only after a scheduled upgrade can run,
/// is turned away.
pub open spec fn import_question_outcome(
    s: State,
    source: Address,
    token: Address,
    id: u64,
    amount: i128,
    created_at: u32,
    timeout_ledgers: u32,
) -> Result<(), ContractError> {
    if s.config.migration_source != Some(source) {
        Err(ContractError::MigrationNotAuthorized)
    } else if s.config.token is None {
        Err(ContractError::NotInitialized)
    } else if s.config.token != Some(token) {
        Err(ContractError::TokenMismatch)
    } else if amount <= 0 {
        Err(ContractError::InvalidAmount)
    } else if timeout_ledgers == 0 {
        Err(ContractError::InvalidTimeout)
    } else if s.questions.contains_key(id) {
        Err(ContractError::QuestionAlreadyExists)
    } else if timeout_ledgers > MAX_TIMEOUT_LEDGERS || created_at + timeout_ledgers > s.sequence
        + MAX_TIMEOUT_LEDGERS {
        Err(ContractError::InvalidTimeout)
    } else if s.config.pending_upgrade is Some && created_at + timeout_ledgers
        >= s.config.pending_upgrade->0.executable_at {
        Err(ContractError::UpgradeInProgress)
    } else {
        Ok(())
    }
}

/// The funds are pulled first, then the question is recorded as it stood at the source.
pub open spec fn import_question_next(
    s: State,
    source: Address,
    id: u64,
    question: Question,
) -> State {
    s.require_auth(source).transfer(
        s.config.token->0,
        source,
        s.this,
        question.amount,
    ).record_question(id, question)
}

pub open spec fn import_question_asked(s: State, source: Address) -> State {
    if s.config.migration_source == Some(source) {
        s.require_auth(source)
    } else {
        s
    }
}

/// A movable prefix is a prefix, every id in it is pending and none is named twice; the id
/// behind it, if any, is not pending or was named before.
pub proof fn movable_prefix_is_maximal(s: State, ids: Seq<u64>)
    ensures
        0 <= s.movable_prefix(ids) <= ids.len(),
        forall|i: int|
            0 <= i < s.movable_prefix(ids) ==> s.is_pending(#[trigger] ids[i]) && !ids.take(
                i,
            ).contains(ids[i]),
        s.movable_prefix(ids) < ids.len() ==> {
            let k = s.movable_prefix(ids);
            !s.is_pending(ids[k]) || ids.take(k).contains(ids[k])
        },
    decreases ids.len(),
{
    if ids.len() > 0 {
        let before = ids.drop_last();
        movable_prefix_is_maximal(s, before);
        let k = s.movable_prefix(before);
        assert forall|i: int| 0 <= i < s.movable_prefix(ids) implies s.is_pending(
            #[trigger] ids[i],
        ) && !ids.take(i).contains(ids[i]) by {
            if i < before.len() {
                assert(before[i] == ids[i]);
                assert(before.take(i) == ids.take(i));
            } else {
                assert(ids.take(i) == before);
            }
        }
        if k < before.len() {
            assert(before[k] == ids[k]);
            assert(before.take(k) == ids.take(k));
        } else {
            assert(ids.take(k) == before);
        }
    }
}

/// A batch changes only its own questions' statuses, the index, and what was asked of the host.
pub proof fn migrate_all_frame(s: State, ids: Seq<u64>, target: Address)
    requires
        s.wf(),
        forall|i: int| 0 <= i < ids.len() ==> s.questions.contains_key(#[trigger] ids[i]),
    ensures
        s.migrate_all(ids, target).same_but_questions(s),
        s.migrate_all(ids, target).wf(),
        s.migrate_all(ids, target).questions.dom() == s.questions.dom(),
        forall|id: u64|
            s.questions.contains_key(id) ==> #[trigger] s.migrate_all(ids, target).questions[id]
                == (if ids.contains(id) {
                s.questions[id].with_status(Status::Migrated)
            } else {
                s.questions[id]
            }),
    decreases ids.len(),
{
    if ids.len() > 0 {
        let before = ids.drop_last();
        assert forall|i: int| 0 <= i < before.len() implies s.questions.contains_key(
            #[trigger] before[i],
        ) by {
            assert(before[i] == ids[i]);
        }
        migrate_all_frame(s, before, target);
        assert(s.questions.contains_key(ids[ids.len() - 1]));
        assert forall|id: u64| s.questions.contains_key(id) implies #[trigger] s.migrate_all(
            ids,
            target,
        ).questions[id] == (if ids.contains(id) {
            s.questions[id].with_status(Status::Migrated)
        } else {
            s.questions[id]
        }) by {
            contains_splits(ids, id);
        }
        assert(s.migrate_all(ids, target).questions.dom() =~= s.questions.dom());
    }
}

impl OracleEscrow {
    /// Administrator only, on a receiving instance: names the one contract that may hand
    /// questions over to it.
    pub fn set_migration_source(env: &mut Env, source: Address) -> (result: Result<
        (),
        ContractError,
    >)
        ensures
            result == set_migration_source_outcome(old(env)@, source),
            result is Ok ==> final(env)@ == set_migration_source_next(old(env)@, Some(source)),
            result is Err ==> final(env)@ == old(env)@.ask_admin(),
            old(env)@.wf() ==> final(env)@.wf(),
    {
        Self::require_admin(env)?;
        if source == env.this {
            return Err(ContractError::InvalidMigrationTarget);
        }
        env.config.migration_source = Some(source);
        env.bump_instance();
        Ok(())
    }

    /// Administrator only: nobody may hand questions over any more.
    pub fn clear_migration_source(env: &mut Env) -> (result: Result<(), ContractError>)
        ensures
            result == admin_outcome(old(env)@),
            result is Ok ==> final(env)@ == set_migration_source_next(old(env)@, None),
            result is Err ==> final(env)@ == old(env)@,
            old(env)@.wf() ==> final(env)@.wf(),
    {
        Self::require_admin(env)?;
        env.config.migration_source = None;
        env.bump_instance();
        Ok(())
    }

    /// Administrator only. Hands every listed question, each pending here, over to `target`,
    /// all in one transaction, and returns the total amount. A question is at any time pending
    /// on exactly one side, so a batch that was interrupted can be run again.
    pub fn migrate_pending(env: &mut Env, question_ids: &Vec<u64>, target: Address) -> (result:
        Result<i128, ContractError>)
        requires
            old(env)@.wf(),
            old(env)@.config.admin is Some && target != old(env)@.this && old(
                env,
            )@.config.token is Some ==> migrate_pending_fits(old(env)@, question_ids@, target),
        ensures
            result == migrate_pending_outcome(old(env)@, question_ids@, target),
            result is Ok ==> final(env)@ == migrate_pending_next(
                old(env)@,
                question_ids@,
                target,
            ),
            result is Err ==> final(env)@ == migrate_pending_asked(
                old(env)@,
                question_ids@,
                target,
            ),
            final(env)@.wf(),
    {
        let ghost s = env@;
        Self::require_admin(env)?;
        let this: Address = env.this;
        if target == this {
            return Err(ContractError::InvalidMigrationTarget);
        }
        let token: Address = match Self::token(env) {
            Ok(token) => token,
            Err(e) => {
                return Err(e);
            },
        };
        let questions: BTreeMap<u64, Question> = env.questions.clone();
        let pending_count: u32 = env.pending_count;
        let pending_at: BTreeMap<u32, u64> = env.pending_at.clone();
        let pending_pos: BTreeMap<u64, u32> = env.pending_pos.clone();
        let ghost asked = env@;
        let ghost ids = question_ids@;
        let ghost k = s.movable_prefix(ids);
        proof {
            movable_prefix_is_maximal(s, ids);
            assert(ids.take(ids.len() as int) == ids);
        }
        let mut total: i128 = 0;
        let mut i: usize = 0;
        while i < question_ids.len()
            invariant
                s == old(env)@,
                ids == question_ids@,
                asked == s.ask_admin(),
                s.wf(),
                s.this == this,
                s.config.token == Some(token),
                s.config.admin is Some,
                target != this,
                k == s.movable_prefix(ids),
                0 <= k <= ids.len(),
                0 <= i <= k,
                forall|j: int|
                    0 <= j < k ==> s.is_pending(#[trigger] ids[j]) && !ids.take(j).contains(ids[j]),
                k < ids.len() ==> !s.is_pending(ids[k]) || ids.take(k).contains(ids[k]),
                migrate_pending_fits(s, ids, target),
                questions@ == s.questions,
                pending_count == s.pending_count,
                pending_at@ == s.pending_at,
                pending_pos@ == s.pending_pos,
                env@ == asked.migrate_all(ids.take(i as int), target),
                total == s.amount_of(ids.take(i as int)),
            decreases question_ids.len() - i,
        {
            let ghost done = ids.take(i as int);
            let id: u64 = question_ids[i];
            proof {
                assert forall|j: int| 0 <= j < done.len() implies asked.questions.contains_key(
                    #[trigger] done[j],
                ) by {
                    assert(done[j] == ids[j]);
                }
                migrate_all_frame(asked, done, target);
                assert(i == k ==> !s.is_pending(id) || done.contains(id));
                assert(i < k ==> s.is_pending(id) && !done.contains(id));
                assert(done.contains(id) ==> s.questions.contains_key(id)) by {
                    if done.contains(id) {
                        let j = choose|j: int| 0 <= j < done.len() && done[j] == id;
                        assert(ids[j] == id);
                    }
                }
            }
            let found: Result<Question, ContractError> = match env.questions.get(&id) {
                Some(question) => if question.status == Status::Pending {
                    Ok(*question)
                } else {
                    Err(ContractError::QuestionNotPending)
                },
                None => Err(ContractError::QuestionNotFound),
            };
            let question: Question = match found {
                Ok(question) => question,
                Err(e) => {
                    env.questions = questions;
                    env.pending_count = pending_count;
                    env.pending_at = pending_at;
                    env.pending_pos = pending_pos;
                    return Err(e);
                },
            };
            proof {
                assert(i < k);
                assert(ids.take(i + 1).drop_last() == done);
                prefix_amount_grows(s, ids, i + 1, k);
                assert(asked.migrate_all(ids.take(i as int), target).index_ready(ids[i as int]));
            }
            env.emit(
                Effect::AuthorizeTransfer { token, from: this, to: target, amount: question.amount },
            );
            env.emit(
                Effect::ImportQuestion {
                    target,
                    source: this,
                    token,
                    question_id: id,
                    payer: question.payer,
                    amount: question.amount,
                    created_at: question.created_at,
                    timeout_ledgers: question.timeout_ledgers,
                },
            );
            total = total + question.amount;
            env.publish(
                Event::Migrated(
                    QuestionMigrated { question_id: id, target, amount: question.amount },
                ),
            );
            Self::settle_question(env, id, question, Status::Migrated);
            i = i + 1;
        }
        proof {
            assert(ids.take(i as int) == ids);
            migrate_all_frame(asked, ids, target);
        }
        Ok(total)
    }

    /// Called by the source contract while it hands a question over, never by a person. Only
    /// the named source may call, for the same token, and the funds are pulled before anything
    /// is recorded. The question keeps its age and its window. The window may not exceed the
    /// limit, and the deadline may be no later than that of a question opened here now with the
    /// longest window, and has to come before a scheduled upgrade can run.
    pub fn import_question(
        env: &mut Env,
        source: Address,
        token: Address,
        question_id: u64,
        payer: Address,
        amount: i128,
        created_at: u32,
        timeout_ledgers: u32,
    ) -> (result: Result<(), ContractError>)
        requires
            import_question_outcome(
                old(env)@,
                source,
                token,
                question_id,
                amount,
                created_at,
                timeout_ledgers,
            ) is Ok ==> old(env)@.pending_count < u32::MAX,
        ensures
            result == import_question_outcome(
                old(env)@,
                source,
                token,
                question_id,
                amount,
                created_at,
                timeout_ledgers,
            ),
            result is Ok ==> final(env)@ == import_question_next(
                old(env)@,
                source,
                question_id,
                (Question { payer, amount, status: Status::Pending, created_at, timeout_ledgers }),
            ),
            result is Err ==> final(env)@ == import_question_asked(old(env)@, source),
            old(env)@.wf() ==> final(env)@.wf(),
    {
        match env.config.migration_source {
            Some(allowed) => {
                if source != allowed {
                    return Err(ContractError::MigrationNotAuthorized);
                }
            },
            None => {
                return Err(ContractError::MigrationNotAuthorized);
            },
        }
        env.require_auth(source);
        let token_addr: Address = match Self::token(env) {
            Ok(token) => token,
            Err(e) => {
                return Err(e);
            },
        };
        if token != token_addr {
            return Err(ContractError::TokenMismatch);
        }
        if amount <= 0 {
            return Err(ContractError::InvalidAmount);
        }
        if timeout_ledgers == 0 {
            return Err(ContractError::InvalidTimeout);
        }
        if env.questions.contains_key(&question_id) {
            return Err(ContractError::QuestionAlreadyExists);
        }
        // The sums could leave the range, so what each side has to spare is compared.
        if timeout_ledgers > MAX_TIMEOUT_LEDGERS || (created_at > env.sequence && created_at
            - env.sequence > MAX_TIMEOUT_LEDGERS - timeout_ledgers) {
            return Err(ContractError::InvalidTimeout);
        }
        if let Some(upgrade) = env.config.pending_upgrade {
            if timeout_ledgers >= upgrade.executable_at || created_at >= upgrade.executable_at
                - timeout_ledgers {
                return Err(ContractError::UpgradeInProgress);
            }
        }
        let this: Address = env.this;
        env.transfer(token_addr, source, this, amount);
        Self::record_question(
            env,
            question_id,
            Question { payer, amount, status: Status::Pending, created_at, timeout_ledgers },
        )
    }
}

/// A longer prefix of pending questions locks no less.
proof fn prefix_amount_grows(s: State, ids: Seq<u64>, i: int, k: int)
    requires
        s.wf(),
        0 <= i <= k <= ids.len(),
        forall|j: int| 0 <= j < k ==> s.questions.contains_key(#[trigger] ids[j]),
    ensures
        0 <= s.amount_of(ids.take(i)) <= s.amount_of(ids.take(k)),
    decreases k,
{
    if k > 0 {
        assert(ids.take(k).drop_last() == ids.take(k - 1));
        assert(s.questions.contains_key(ids[k - 1]));
        prefix_amount_grows(s, ids, if i < k { i } else { i - 1 }, k - 1);
    }
}

} // verus!
