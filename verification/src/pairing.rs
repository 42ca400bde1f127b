//! Two instances during a migration: no question is lost or doubled, and no funds either.
use crate::books::{flow_after_push, migrating_reconciles, recording_locks_the_amount};
use crate::env::State;
use crate::migration::{
    import_question_next, import_question_outcome, migrate_all_frame, migrate_pending_next,
    migrate_pending_outcome, movable_prefix_is_maximal,
};
use crate::seqs::contains_splits;
use crate::types::{ContractError, Status};
use vstd::prelude::*;

verus! {

/// A source and a target instance.
pub struct Pair {
    pub source: State,
    pub target: State,
}

impl Pair {
    /// Whether the target takes question `id` as the source has it.
    pub open spec fn import_accepted(self, id: u64) -> bool {
        let question = self.source.questions[id];
        import_question_outcome(
            self.target,
            self.source.this,
            self.source.config.token->0,
            id,
            question.amount,
            question.created_at,
            question.timeout_ledgers,
        ) is Ok
    }

    /// The target after it has recorded every question of `ids`, in order.
    pub open spec fn received(self, ids: Seq<u64>) -> State
        decreases ids.len(),
    {
        if ids.len() == 0 {
            self.target
        } else {
            import_question_next(
                self.received(ids.drop_last()),
                self.source.this,
                ids.last(),
                self.source.questions[ids.last()],
            )
        }
    }

    /// Whether the target takes every question of `ids`, in order.
    pub open spec fn deliverable(self, ids: Seq<u64>) -> bool
        decreases ids.len(),
    {
        ids.len() > 0 ==> self.deliverable(ids.drop_last()) && Pair {
            target: self.received(ids.drop_last()),
            ..self
        }.import_accepted(ids.last())
    }

    /// Whether both the source and the target agree to the batch.
    pub open spec fn agreed(self, ids: Seq<u64>) -> bool {
        migrate_pending_outcome(self.source, ids, self.target.this) is Ok && self.deliverable(ids)
    }

    /// Both sides after the batch. If either refuses anything, the host undoes it all.
    pub open spec fn handover(self, ids: Seq<u64>) -> Pair {
        if self.agreed(ids) {
            Pair {
                source: migrate_pending_next(self.source, ids, self.target.this),
                target: self.received(ids),
            }
        } else {
            self
        }
    }

    /// Both instances are well formed and are two.
    pub open spec fn wf(self) -> bool {
        &&& self.source.wf()
        &&& self.target.wf()
        &&& self.source.this != self.target.this
    }
}

/// What the target takes: nothing but questions it does not know yet, from the source it has
/// named, in its own token, with windows and deadlines within its limits, that come due before any
/// upgrade it has scheduled.
pub proof fn what_is_deliverable(pair: Pair, ids: Seq<u64>)
    requires
        ids.no_duplicates(),
    ensures
        pair.deliverable(ids) <==> forall|i: int|
            0 <= i < ids.len() ==> pair.import_accepted(#[trigger] ids[i]),
        pair.received(ids).config == pair.target.config,
        pair.received(ids).this == pair.target.this,
        pair.received(ids).sequence == pair.target.sequence,
        forall|id: u64|
            #![trigger pair.received(ids).questions.contains_key(id)]
            pair.received(ids).questions.contains_key(id) <==> pair.target.questions.contains_key(
                id,
            ) || ids.contains(id),
        forall|id: u64|
            #![trigger pair.received(ids).questions[id]]
            pair.received(ids).questions[id] == (if ids.contains(id) {
                pair.source.questions[id]
            } else {
                pair.target.questions[id]
            }),
    decreases ids.len(),
{
    if ids.len() > 0 {
        let before = ids.drop_last();
        let last = ids.last();
        what_is_deliverable(pair, before);
        assert(ids == before.push(last));
        assert forall|id: u64| ids.contains(id) <==> before.contains(id) || id == last by {
            contains_splits(ids, id);
        }
        assert(!before.contains(last)) by {
            if before.contains(last) {
                let i = choose|i: int| 0 <= i < before.len() && before[i] == last;
                assert(ids[i] == ids[ids.len() - 1]);
            }
        }
        let mid = Pair { target: pair.received(before), ..pair };
        assert(mid.import_accepted(last) <==> pair.import_accepted(last));
        if forall|i: int| 0 <= i < ids.len() ==> pair.import_accepted(#[trigger] ids[i]) {
            assert forall|i: int| 0 <= i < before.len() implies pair.import_accepted(
                #[trigger] before[i],
            ) by {
                assert(before[i] == ids[i]);
            }
            assert(pair.import_accepted(ids[ids.len() - 1]));
        }
        if pair.deliverable(ids) {
            assert forall|i: int| 0 <= i < ids.len() implies pair.import_accepted(
                #[trigger] ids[i],
            ) by {
                if i < before.len() {
                    assert(before[i] == ids[i]);
                }
            }
        }
    } else {
        assert forall|id: u64| !ids.contains(id) by {}
    }
}

/// A batch that the source accepts names nobody's question twice.
proof fn an_accepted_batch_is_distinct(s: State, ids: Seq<u64>)
    requires
        s.movable_prefix(ids) == ids.len(),
    ensures
        ids.no_duplicates(),
        forall|i: int| 0 <= i < ids.len() ==> s.is_pending(#[trigger] ids[i]),
{
    movable_prefix_is_maximal(s, ids);
    assert forall|i: int, j: int|
        0 <= i < ids.len() && 0 <= j < ids.len() && i != j implies ids[i] != ids[j] by {
        if i < j {
            assert(ids.take(j)[i] == ids[i]);
        } else {
            assert(ids.take(i)[j] == ids[j]);
        }
    }
}

/// A question that is handed over arrives as it was: same payer, same amount, same age and same
/// window, so its refund deadline does not move by a ledger. The source marks it migrated.
/// Every other question stays as it was on both sides.
pub proof fn a_question_arrives_unchanged(pair: Pair, ids: Seq<u64>, id: u64)
    requires
        pair.wf(),
        pair.agreed(ids),
    ensures
        ids.contains(id) ==> {
            &&& pair.handover(ids).target.questions.contains_key(id)
            &&& pair.handover(ids).target.questions[id] == pair.source.questions[id]
            &&& pair.handover(ids).target.is_pending(id)
            &&& pair.handover(ids).target.questions[id].spec_deadline()
                == pair.source.questions[id].spec_deadline()
            &&& pair.handover(ids).source.questions.contains_key(id)
            &&& pair.handover(ids).source.questions[id] == pair.source.questions[id].with_status(
                Status::Migrated,
            )
        },
        !ids.contains(id) ==> {
            &&& pair.handover(ids).target.questions.contains_key(id)
                == pair.target.questions.contains_key(id)
            &&& pair.handover(ids).target.questions[id] == pair.target.questions[id]
            &&& pair.handover(ids).source.questions.contains_key(id)
                == pair.source.questions.contains_key(id)
            &&& pair.source.questions.contains_key(id)
                ==> pair.handover(ids).source.questions[id] == pair.source.questions[id]
        },
{
    an_accepted_batch_is_distinct(pair.source, ids);
    what_is_deliverable(pair, ids);
    movable_prefix_is_maximal(pair.source, ids);
    migrate_all_frame(pair.source.ask_admin(), ids, pair.target.this);
    if ids.contains(id) {
        let i = choose|i: int| 0 <= i < ids.len() && ids[i] == id;
        assert(pair.source.is_pending(ids[i]));
    }
}

/// The migration law: whatever batch is tried, and whether or not it goes through, a question
/// that was pending at the source and unknown to the target is afterwards either still so, or
/// migrated at the source and pending at the target; never both, never neither.
pub proof fn a_question_is_pending_on_one_side(pair: Pair, ids: Seq<u64>, id: u64)
    requires
        pair.wf(),
        pair.source.is_pending(id),
        !pair.target.questions.contains_key(id),
    ensures
        ({
            let end = pair.handover(ids);
            ||| end.source.is_pending(id) && !end.target.questions.contains_key(id)
            ||| end.source.questions[id].status == Status::Migrated && end.target.is_pending(id)
        }),
        pair.agreed(ids) && ids.contains(id) <==> pair.handover(ids).target.is_pending(id),
{
    if pair.agreed(ids) {
        a_question_arrives_unchanged(pair, ids, id);
    }
}

/// Sending a batch again moves nothing: the source answers that the question is not pending.
pub proof fn a_batch_cannot_be_replayed(pair: Pair, ids: Seq<u64>)
    requires
        pair.wf(),
        pair.agreed(ids),
        ids.len() > 0,
    ensures
        pair.handover(ids).handover(ids) == pair.handover(ids),
        migrate_pending_outcome(pair.handover(ids).source, ids, pair.target.this) == Err::<
            i128,
            ContractError,
        >(ContractError::QuestionNotPending),
{
    let end = pair.handover(ids);
    assert(ids.contains(ids[0]));
    a_question_arrives_unchanged(pair, ids, ids[0]);
    movable_prefix_is_maximal(end.source, ids);
    if end.source.movable_prefix(ids) > 0 {
        assert(end.source.is_pending(ids[0]));
    }
    migrate_all_frame_of_accepted(pair, ids);
    an_accepted_batch_is_distinct(pair.source, ids);
    what_is_deliverable(pair, ids);
}

proof fn migrate_all_frame_of_accepted(pair: Pair, ids: Seq<u64>)
    requires
        pair.wf(),
        pair.agreed(ids),
    ensures
        pair.handover(ids).source.config == pair.source.config,
        pair.handover(ids).source.this == pair.source.this,
{
    movable_prefix_is_maximal(pair.source, ids);
    migrate_all_frame(pair.source.ask_admin(), ids, pair.target.this);
}

/// Receiving questions locks and brings in exactly what they lock.
proof fn receiving_reconciles(pair: Pair, ids: Seq<u64>)
    requires
        pair.wf(),
        pair.deliverable(ids),
        ids.no_duplicates(),
        forall|i: int| 0 <= i < ids.len() ==> pair.source.is_pending(#[trigger] ids[i]),
    ensures
        pair.received(ids).wf(),
        pair.received(ids).obligations() == pair.target.obligations() + pair.source.amount_of(ids),
        pair.received(ids).holdings() == pair.target.holdings() + pair.source.amount_of(ids),
    decreases ids.len(),
{
    broadcast use flow_after_push;

    if ids.len() > 0 {
        let before = ids.drop_last();
        let last = ids.last();
        assert forall|i: int| 0 <= i < before.len() implies pair.source.is_pending(
            #[trigger] before[i],
        ) by {
            assert(before[i] == ids[i]);
        }
        receiving_reconciles(pair, before);
        what_is_deliverable(pair, before);
        assert(pair.source.is_pending(ids[ids.len() - 1]));
        let mid = pair.received(before);
        let question = pair.source.questions[last];
        let paid = mid.require_auth(pair.source.this).transfer(
            mid.config.token->0,
            pair.source.this,
            mid.this,
            question.amount,
        );
        recording_locks_the_amount(paid, last, question);
        assert(!mid.questions.contains_key(last));
    }
}

/// A batch that both sides agree to leaves both well formed and where they were, and moves no
/// negative amount.
pub proof fn batches_keep_both_well_formed(pair: Pair, ids: Seq<u64>)
    requires
        pair.wf(),
        pair.agreed(ids),
    ensures
        pair.handover(ids).wf(),
        pair.handover(ids).source.this == pair.source.this,
        pair.handover(ids).target.this == pair.target.this,
        pair.source.amount_of(ids) >= 0,
{
    an_accepted_batch_is_distinct(pair.source, ids);
    movable_prefix_is_maximal(pair.source, ids);
    migrate_all_frame(pair.source.ask_admin(), ids, pair.target.this);
    receiving_reconciles(pair, ids);
    what_is_deliverable(pair, ids);
    amounts_are_not_negative(pair.source, ids);
}

proof fn amounts_are_not_negative(s: State, ids: Seq<u64>)
    requires
        s.wf(),
        forall|i: int| 0 <= i < ids.len() ==> s.is_pending(#[trigger] ids[i]),
    ensures
        s.amount_of(ids) >= 0,
    decreases ids.len(),
{
    if ids.len() > 0 {
        let before = ids.drop_last();
        assert forall|i: int| 0 <= i < before.len() implies s.is_pending(#[trigger] before[i]) by {
            assert(before[i] == ids[i]);
        }
        amounts_are_not_negative(s, before);
        assert(s.is_pending(ids[ids.len() - 1]));
    }
}

/// The funds go with the questions: what the source stops owing and holding is exactly what the
/// target starts owing and holding, and that is the total the call returns.
pub proof fn a_migration_moves_exactly_the_total(pair: Pair, ids: Seq<u64>)
    requires
        pair.wf(),
        pair.agreed(ids),
    ensures
        ({
            let end = pair.handover(ids);
            let total = pair.source.amount_of(ids);
            &&& end.source.obligations() == pair.source.obligations() - total
            &&& end.source.holdings() == pair.source.holdings() - total
            &&& end.target.obligations() == pair.target.obligations() + total
            &&& end.target.holdings() == pair.target.holdings() + total
        }),
{
    broadcast use flow_after_push;

    an_accepted_batch_is_distinct(pair.source, ids);
    movable_prefix_is_maximal(pair.source, ids);
    migrating_reconciles(pair.source.ask_admin(), ids, pair.target.this);
    same_amounts(pair.source, pair.source.ask_admin(), ids);
    receiving_reconciles(pair, ids);
}

proof fn same_amounts(s: State, t: State, ids: Seq<u64>)
    requires
        s.questions == t.questions,
    ensures
        s.amount_of(ids) == t.amount_of(ids),
    decreases ids.len(),
{
    if ids.len() > 0 {
        same_amounts(s, t, ids.drop_last());
    }
}

} // verus!
