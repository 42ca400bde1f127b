//! Two instances side by side: calls on either one and batches from one to the other, in any
//! order and any ledgers.
use crate::authority::{a_call_asks_its_signer_first, asked_first};
use crate::books::every_call_reconciles;
use crate::calls::{calls_keep_entries_well_formed, list_calls_have_a_frame, Call};
use crate::env::{fresh_state, State};
use crate::histories::a_fresh_instance_is_sound;
use crate::lifecycle::{
    a_settled_question_is_final, questions_are_opened_pending, questions_only_change_status,
};
use crate::migration::{
    import_question_next, import_question_outcome, migrate_pending_fits, migrate_pending_next,
    migrate_pending_outcome,
};
use crate::pairing::{
    a_migration_moves_exactly_the_total, a_question_arrives_unchanged, batches_keep_both_well_formed,
    Pair,
};
use crate::requests::{handed, questions_are_handed_over_as_stored, sift, Kind};
use crate::types::{Address, ContractError, Effect, Question, Status};
use vstd::prelude::*;

verus! {

/// What can happen to a pair.
pub enum Act {
    Source { call: Call },
    Target { call: Call },
    Batch { ids: Seq<u64> },
}

/// An act together with the ledger it lands in.
pub struct Turn {
    pub ledger: u32,
    pub act: Act,
}

impl Pair {
    /// The same entries at another ledger.
    pub open spec fn at(self, ledger: u32) -> Pair {
        Pair { source: self.source.at(ledger), target: self.target.at(ledger) }
    }

    /// What an act leaves behind.
    pub open spec fn after(self, act: Act) -> Pair {
        match act {
            Act::Source { call } => Pair { source: call.after(self.source), ..self },
            Act::Target { call } => Pair { target: call.after(self.target), ..self },
            Act::Batch { ids } => self.handover(ids),
        }
    }

    /// Whether an act can happen. No call leaves the number range or draws its funds from the
    /// instance it is made on. Nobody opens on one side an id that the other side knows, and the
    /// source hands questions to the target only in batches that the target takes part in.
    pub open spec fn admits(self, act: Act) -> bool {
        match act {
            Act::Source { call } => {
                &&& call.accepted(self.source) ==> call.fits(self.source)
                &&& call.funded_by_others(self.source)
                &&& forall|id: u64| #[trigger]
                    self.target.questions.contains_key(id) ==> !call.opens(id)
                        || self.source.questions.contains_key(id)
                &&& !call.sends_to(self.target)
            },
            Act::Target { call } => {
                &&& call.accepted(self.target) ==> call.fits(self.target)
                &&& call.funded_by_others(self.target)
                &&& forall|id: u64| #[trigger]
                    self.source.questions.contains_key(id) ==> !call.opens(id)
                        || self.target.questions.contains_key(id)
            },
            Act::Batch { ids } => self.agreed(ids) ==> migrate_pending_fits(
                self.source,
                ids,
                self.target.this,
            ),
        }
    }

    /// Whether an act pays nobody out of one instance into the same.
    pub open spec fn pays_others(self, act: Act) -> bool {
        match act {
            Act::Source { call } => call.pays_others(self.source),
            Act::Target { call } => call.pays_others(self.target),
            Act::Batch { .. } => true,
        }
    }

    /// What always holds of a pair. A question that both sides know was handed over: the source
    /// has marked it migrated, and the target has it on the same terms. Each side holds what it
    /// owes.
    pub open spec fn apart(self) -> bool {
        &&& self.wf()
        &&& forall|id: u64|
            self.source.questions.contains_key(id) && #[trigger] self.target.questions.contains_key(
                id,
            ) ==> self.source.questions[id] == self.target.questions[id].with_status(
                Status::Migrated,
            )
        &&& self.source.holdings() >= self.source.obligations()
        &&& self.target.holdings() >= self.target.obligations()
    }

    /// Whatever the source has marked migrated, the target knows.
    pub open spec fn delivered(self) -> bool {
        forall|id: u64|
            self.source.questions.contains_key(id) && (#[trigger] self.source.questions[id]).status
                == Status::Migrated ==> self.target.questions.contains_key(id)
    }

    /// What a sequence of turns leaves behind.
    pub open spec fn history(self, turns: Seq<Turn>) -> Pair
        decreases turns.len(),
    {
        if turns.len() == 0 {
            self
        } else {
            self.history(turns.drop_last()).at(turns.last().ledger).after(turns.last().act)
        }
    }

    /// Whether a sequence of turns can happen: ledgers only go forward, and each act can happen
    /// when its turn comes.
    pub open spec fn possible(self, turns: Seq<Turn>) -> bool
        decreases turns.len(),
    {
        turns.len() > 0 ==> {
            let before = self.history(turns.drop_last());
            &&& self.possible(turns.drop_last())
            &&& before.source.sequence <= turns.last().ledger
            &&& before.at(turns.last().ledger).admits(turns.last().act)
        }
    }

    /// Whether no turn pays out of one instance into the same.
    pub open spec fn always_pays_others(self, turns: Seq<Turn>) -> bool
        decreases turns.len(),
    {
        turns.len() > 0 ==> {
            let before = self.history(turns.drop_last());
            &&& self.always_pays_others(turns.drop_last())
            &&& before.at(turns.last().ledger).pays_others(turns.last().act)
        }
    }
}

impl Call {
    /// Whether the call hands questions over to `other`.
    pub open spec fn sends_to(self, other: State) -> bool {
        self matches Call::MigratePending { target, .. } && target == other.this
    }
}

impl Act {
    /// Whether the source hands questions over to somebody else than the target.
    pub open spec fn sends_elsewhere(self) -> bool {
        self matches Act::Source { call } && call is MigratePending
    }
}

/// No call changes an instance's address.
proof fn calls_keep_the_address(s: State, call: Call)
    requires
        s.wf(),
    ensures
        call.after(s).this == s.this,
        call.after(s).sequence == s.sequence,
{
    if call.accepted(s) {
        list_calls_have_a_frame(s, call);
    }
}

/// A call on the source keeps the pair apart.
proof fn source_calls_keep_a_pair_apart(pair: Pair, call: Call)
    requires
        pair.apart(),
        pair.admits(Act::Source { call }),
    ensures
        pair.after(Act::Source { call }).apart(),
        pair.delivered() && !(call is MigratePending) ==> pair.after(
            Act::Source { call },
        ).delivered(),
{
    let end = pair.after(Act::Source { call });
    let s = pair.source;
    calls_keep_entries_well_formed(s, call);
    calls_keep_the_address(s, call);
    every_call_reconciles(s, call);
    assert forall|id: u64|
        end.source.questions.contains_key(id) && #[trigger] end.target.questions.contains_key(
            id,
        ) implies end.source.questions[id] == end.target.questions[id].with_status(
        Status::Migrated,
    ) by {
        assert(pair.target.questions.contains_key(id));
        if s.questions.contains_key(id) {
            a_settled_question_is_final(s, call, id);
        } else {
            questions_are_opened_pending(s, call, id);
        }
    }
    if pair.delivered() && !(call is MigratePending) {
        assert forall|id: u64|
            end.source.questions.contains_key(id) && (#[trigger] end.source.questions[id]).status
                == Status::Migrated implies end.target.questions.contains_key(id) by {
            if s.questions.contains_key(id) {
                questions_only_change_status(s, call, id);
                assert(s.questions[id].status == Status::Migrated);
            } else {
                questions_are_opened_pending(s, call, id);
            }
        }
    }
}

/// A call on the target keeps the pair apart.
proof fn target_calls_keep_a_pair_apart(pair: Pair, call: Call)
    requires
        pair.apart(),
        pair.admits(Act::Target { call }),
    ensures
        pair.after(Act::Target { call }).apart(),
        pair.delivered() ==> pair.after(Act::Target { call }).delivered(),
{
    let end = pair.after(Act::Target { call });
    let t = pair.target;
    calls_keep_entries_well_formed(t, call);
    calls_keep_the_address(t, call);
    every_call_reconciles(t, call);
    assert forall|id: u64|
        end.source.questions.contains_key(id) && #[trigger] end.target.questions.contains_key(
            id,
        ) implies end.source.questions[id] == end.target.questions[id].with_status(
        Status::Migrated,
    ) by {
        assert(pair.source.questions.contains_key(id));
        if t.questions.contains_key(id) {
            questions_only_change_status(t, call, id);
        } else {
            questions_are_opened_pending(t, call, id);
        }
    }
    if pair.delivered() {
        assert forall|id: u64|
            end.source.questions.contains_key(id) && (#[trigger] end.source.questions[id]).status
                == Status::Migrated implies end.target.questions.contains_key(id) by {
            assert(pair.source.questions[id].status == Status::Migrated);
            questions_only_change_status(t, call, id);
        }
    }
}

/// A batch keeps the pair apart, whether it goes through or not.
proof fn batches_keep_a_pair_apart(pair: Pair, ids: Seq<u64>)
    requires
        pair.apart(),
        pair.admits(Act::Batch { ids }),
    ensures
        pair.handover(ids).apart(),
        pair.delivered() ==> pair.handover(ids).delivered(),
{
    if pair.agreed(ids) {
        let end = pair.handover(ids);
        a_migration_moves_exactly_the_total(pair, ids);
        batches_keep_both_well_formed(pair, ids);
        assert forall|id: u64|
            end.source.questions.contains_key(id) && #[trigger] end.target.questions.contains_key(
                id,
            ) implies end.source.questions[id] == end.target.questions[id].with_status(
            Status::Migrated,
        ) by {
            a_question_arrives_unchanged(pair, ids, id);
        }
        if pair.delivered() {
            assert forall|id: u64|
                end.source.questions.contains_key(id) && (
                #[trigger] end.source.questions[id]).status == Status::Migrated implies
                end.target.questions.contains_key(id) by {
                a_question_arrives_unchanged(pair, ids, id);
                if !ids.contains(id) {
                    assert(pair.source.questions[id].status == Status::Migrated);
                }
            }
        }
    }
}

/// An instance whose books balance and a fresh one make a pair that is apart.
pub proof fn a_fresh_target_is_apart(source: State, this: Address, sequence: u32, max_ttl: u32)
    requires
        source.wf(),
        source.holdings() >= source.obligations(),
        source.this != this,
    ensures
        (Pair { source, target: fresh_state(this, sequence, max_ttl) }).apart(),
{
    a_fresh_instance_is_sound(this, sequence, max_ttl);
}

/// Whatever happens next, on either side or between them, keeps the pair apart. What a side holds
/// beyond what it owes never falls, and stays the same while nobody is paid out of an instance
/// into it. Nothing is marked migrated that did not arrive, unless it was sent elsewhere.
pub proof fn every_act_keeps_a_pair_apart(pair: Pair, act: Act)
    requires
        pair.apart(),
        pair.admits(act),
    ensures
        pair.after(act).apart(),
        pair.delivered() && !act.sends_elsewhere() ==> pair.after(act).delivered(),
        pair.after(act).source.holdings() - pair.after(act).source.obligations()
            >= pair.source.holdings() - pair.source.obligations(),
        pair.after(act).target.holdings() - pair.after(act).target.obligations()
            >= pair.target.holdings() - pair.target.obligations(),
        pair.pays_others(act) ==> pair.after(act).source.holdings() - pair.after(
            act,
        ).source.obligations() == pair.source.holdings() - pair.source.obligations(),
        pair.pays_others(act) ==> pair.after(act).target.holdings() - pair.after(
            act,
        ).target.obligations() == pair.target.holdings() - pair.target.obligations(),
{
    match act {
        Act::Source { call } => {
            source_calls_keep_a_pair_apart(pair, call);
            every_call_reconciles(pair.source, call);
        },
        Act::Target { call } => {
            target_calls_keep_a_pair_apart(pair, call);
            every_call_reconciles(pair.target, call);
        },
        Act::Batch { ids } => {
            batches_keep_a_pair_apart(pair, ids);
            if pair.agreed(ids) {
                a_migration_moves_exactly_the_total(pair, ids);
            }
        },
    }
}

/// The migration law, through any sequence of turns: the two sides stay apart, and as long as
/// nobody is paid out of an instance into it, each holds exactly what it owes if it did before.
/// Nothing is lost on the way: unless the source sends questions elsewhere, whatever it has marked
/// migrated, the target knows.
pub proof fn a_pair_stays_apart(pair: Pair, turns: Seq<Turn>)
    requires
        pair.apart(),
        pair.possible(turns),
    ensures
        pair.history(turns).apart(),
        pair.delivered() && (forall|i: int|
            0 <= i < turns.len() ==> !(#[trigger] turns[i]).act.sends_elsewhere())
            ==> pair.history(turns).delivered(),
        pair.always_pays_others(turns) ==> pair.history(turns).source.holdings() - pair.history(
            turns,
        ).source.obligations() == pair.source.holdings() - pair.source.obligations(),
        pair.always_pays_others(turns) ==> pair.history(turns).target.holdings() - pair.history(
            turns,
        ).target.obligations() == pair.target.holdings() - pair.target.obligations(),
    decreases turns.len(),
{
    if turns.len() > 0 {
        let earlier = turns.drop_last();
        let before = pair.history(earlier);
        let now = before.at(turns.last().ledger);
        a_pair_stays_apart(pair, earlier);
        assert(now.source.obligations() == before.source.obligations());
        assert(now.target.obligations() == before.target.obligations());
        assert(now.apart()) by {
            assert forall|id: u64|
                now.source.questions.contains_key(id)
                    && #[trigger] now.target.questions.contains_key(id) implies
                now.source.questions[id] == now.target.questions[id].with_status(
                Status::Migrated,
            ) by {
                assert(before.target.questions.contains_key(id));
            }
        }
        every_act_keeps_a_pair_apart(now, turns.last().act);
        if pair.delivered() && (forall|i: int|
            0 <= i < turns.len() ==> !(#[trigger] turns[i]).act.sends_elsewhere()) {
            assert forall|i: int| 0 <= i < earlier.len() implies !(
            #[trigger] earlier[i]).act.sends_elsewhere() by {
                assert(turns[i] == earlier[i]);
            }
            assert(!turns[turns.len() - 1].act.sends_elsewhere());
            assert(now.delivered()) by {
                assert forall|id: u64|
                    now.source.questions.contains_key(id) && (
                    #[trigger] now.source.questions[id]).status == Status::Migrated implies
                    now.target.questions.contains_key(id) by {
                    assert(before.source.questions[id].status == Status::Migrated);
                }
            }
        }
    }
}

/// No question is ever open on both sides, and none is paid twice: of a question that both sides
/// know, the source has only the mark, and only the target can settle it.
pub proof fn a_question_is_open_on_one_side(pair: Pair, turns: Seq<Turn>, id: u64)
    requires
        pair.apart(),
        pair.possible(turns),
    ensures
        !(pair.history(turns).source.is_pending(id) && pair.history(turns).target.is_pending(id)),
        pair.history(turns).source.questions.contains_key(id) && pair.history(
            turns,
        ).target.questions.contains_key(id) ==> {
            let end = pair.history(turns);
            &&& end.source.questions[id].status == Status::Migrated
            &&& end.source.questions[id].payer == end.target.questions[id].payer
            &&& end.source.questions[id].amount == end.target.questions[id].amount
            &&& end.source.questions[id].spec_deadline() == end.target.questions[id].spec_deadline()
        },
{
    a_pair_stays_apart(pair, turns);
    let end = pair.history(turns);
    if end.source.questions.contains_key(id) {
        assert(end.target.questions.contains_key(id) || !end.target.is_pending(id));
    }
}

/// A batch is all or nothing. If either side refuses anything, both stay as they were. If it goes
/// through, the source reports exactly the total that moved, and only its administrator had to
/// sign. An instance does not hand questions over to itself.
pub proof fn a_batch_is_all_or_nothing(pair: Pair, ids: Seq<u64>)
    requires
        pair.wf(),
        pair.agreed(ids) ==> migrate_pending_fits(pair.source, ids, pair.target.this),
    ensures
        !pair.agreed(ids) ==> pair.handover(ids) == pair,
        pair.agreed(ids) ==> {
            let end = pair.handover(ids);
            let reported = migrate_pending_outcome(pair.source, ids, pair.target.this);
            &&& reported is Ok
            &&& reported->Ok_0 == pair.source.obligations() - end.source.obligations()
            &&& reported->Ok_0 == pair.source.holdings() - end.source.holdings()
            &&& reported->Ok_0 == end.target.obligations() - pair.target.obligations()
            &&& reported->Ok_0 == end.target.holdings() - pair.target.holdings()
            &&& asked_first(pair.source, end.source, pair.source.config.admin)
        },
        pair.source.config.admin is Some ==> migrate_pending_outcome(
            pair.source,
            ids,
            pair.source.this,
        ) == Err::<i128, ContractError>(ContractError::InvalidMigrationTarget),
{
    if pair.agreed(ids) {
        a_migration_moves_exactly_the_total(pair, ids);
        batches_keep_both_well_formed(pair, ids);
        assert(ids.take(ids.len() as int) == ids);
        a_call_asks_its_signer_first(
            pair.source,
            Call::MigratePending { ids, target: pair.target.this },
        );
    }
}

/// Whether `s` goes along with a request to take a question over.
pub open spec fn takes_over(s: State, request: Effect) -> bool {
    request matches Effect::ImportQuestion {
        source,
        token,
        question_id,
        amount,
        created_at,
        timeout_ledgers,
        ..
    } && import_question_outcome(
        s,
        source,
        token,
        question_id,
        amount,
        created_at,
        timeout_ledgers,
    ) is Ok
}

/// `s` after a request to take a question over: the call that the request names, with the
/// arguments that it carries.
pub open spec fn taken_over(s: State, request: Effect) -> State {
    match request {
        Effect::ImportQuestion {
            source,
            question_id,
            payer,
            amount,
            created_at,
            timeout_ledgers,
            ..
        } => import_question_next(
            s,
            source,
            question_id,
            Question { payer, amount, status: Status::Pending, created_at, timeout_ledgers },
        ),
        _ => s,
    }
}

/// `s` after all of `requests`.
pub open spec fn all_taken_over(s: State, requests: Seq<Effect>) -> State
    decreases requests.len(),
{
    if requests.len() == 0 {
        s
    } else {
        taken_over(all_taken_over(s, requests.drop_last()), requests.last())
    }
}

/// Whether `s` goes along with all of `requests`, one after the other.
pub open spec fn takes_all_over(s: State, requests: Seq<Effect>) -> bool
    decreases requests.len(),
{
    requests.len() > 0 ==> takes_all_over(s, requests.drop_last()) && takes_over(
        all_taken_over(s, requests.drop_last()),
        requests.last(),
    )
}

/// The requests to take questions over that a batch adds.
pub open spec fn batch_requests(s: State, ids: Seq<u64>, target: Address) -> Seq<Effect> {
    sift(migrate_pending_next(s, ids, target).effects, Kind::Handover).skip(
        sift(s.effects, Kind::Handover).len() as int,
    )
}

/// The handover law: what the target agrees to and what it holds afterwards is what comes of
/// carrying out the source's requests, in order, with the arguments they carry. There is one for
/// each question of the batch, addressed to the target, and it carries what the source has stored.
pub proof fn a_handover_carries_out_its_requests(pair: Pair, ids: Seq<u64>)
    requires
        pair.wf(),
        migrate_pending_outcome(pair.source, ids, pair.target.this) is Ok,
    ensures
        ({
            let requests = batch_requests(pair.source, ids, pair.target.this);
            &&& requests.len() == ids.len()
            &&& forall|i: int|
                0 <= i < ids.len() ==> #[trigger] requests[i] == handed(
                    pair.source,
                    ids[i],
                    pair.target.this,
                )
            &&& pair.agreed(ids) <==> takes_all_over(pair.target, requests)
            &&& pair.agreed(ids) ==> pair.handover(ids).target == all_taken_over(
                pair.target,
                requests,
            )
        }),
{
    let call = Call::MigratePending { ids, target: pair.target.this };
    let expected = Seq::new(ids.len(), |i: int| handed(pair.source, ids[i], pair.target.this));
    questions_are_handed_over_as_stored(pair.source, call);
    assert(batch_requests(pair.source, ids, pair.target.this) =~= expected);
    list_calls_have_a_frame(pair.source, call);
    assert forall|i: int| 0 <= i < ids.len() implies pair.source.is_pending(#[trigger] ids[i]) by {}
    requests_do_as_the_entries(pair, ids);
}

proof fn requests_do_as_the_entries(pair: Pair, ids: Seq<u64>)
    requires
        forall|i: int| 0 <= i < ids.len() ==> pair.source.is_pending(#[trigger] ids[i]),
    ensures
        ({
            let requests = Seq::new(
                ids.len(),
                |i: int| handed(pair.source, ids[i], pair.target.this),
            );
            &&& pair.deliverable(ids) <==> takes_all_over(pair.target, requests)
            &&& pair.received(ids) == all_taken_over(pair.target, requests)
        }),
    decreases ids.len(),
{
    let requests = Seq::new(ids.len(), |i: int| handed(pair.source, ids[i], pair.target.this));
    if ids.len() > 0 {
        let before = ids.drop_last();
        assert forall|i: int| 0 <= i < before.len() implies pair.source.is_pending(
            #[trigger] before[i],
        ) by {
            assert(before[i] == ids[i]);
        }
        requests_do_as_the_entries(pair, before);
        assert(requests.drop_last() =~= Seq::new(
            before.len(),
            |i: int| handed(pair.source, before[i], pair.target.this),
        ));
        assert(pair.source.is_pending(ids[ids.len() - 1]));
        let q = pair.source.questions[ids.last()];
        assert(q == Question {
            payer: q.payer,
            amount: q.amount,
            status: Status::Pending,
            created_at: q.created_at,
            timeout_ledgers: q.timeout_ledgers,
        });
    }
}

} // verus!
