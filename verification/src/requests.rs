//! What each call asks of its host: which tokens to move, what to announce, which code to run,
//! which questions to hand over and what to keep alive, and nothing else.
use crate::calls::{list_calls_have_a_frame, Call};
use crate::env::State;
use crate::migration::{migrate_pending_asked, movable_prefix_is_maximal};
use crate::refusals::{is_stuck, the_first_stuck_id_ends_the_front};
use crate::settlement::{platform_take, share, slash_cap};
use crate::types::{
    Address, Effect, Event, Question, QuestionMigrated, QuestionOpened, QuestionSettled,
    Status, UpgradeCancelled, UpgradeExecuted, UpgradeProposed,
};
use vstd::prelude::*;

verus! {

/// What a request is about.
pub enum Kind {
    /// Tokens change hands.
    Move,
    /// Watchers are told something.
    News,
    /// Other code is to run.
    Code,
    /// The next call may pull tokens out of the contract.
    Grant,
    /// Another instance is to take a question over.
    Handover,
}

pub open spec fn is_about(effect: Effect, kind: Kind) -> bool {
    match kind {
        Kind::Move => effect is Transfer,
        Kind::News => effect is Publish,
        Kind::Code => effect is UpdateWasm,
        Kind::Grant => effect is AuthorizeTransfer,
        Kind::Handover => effect is ImportQuestion,
    }
}

/// The requests of one kind, in order.
pub open spec fn sift(effects: Seq<Effect>, kind: Kind) -> Seq<Effect>
    decreases effects.len(),
{
    if effects.len() == 0 {
        Seq::empty()
    } else if is_about(effects.last(), kind) {
        sift(effects.drop_last(), kind).push(effects.last())
    } else {
        sift(effects.drop_last(), kind)
    }
}

/// One more request is one more of its own kind, and of no other.
pub broadcast proof fn sift_after_push(effects: Seq<Effect>, effect: Effect, kind: Kind)
    ensures
        #[trigger] sift(effects.push(effect), kind) == (if is_about(effect, kind) {
            sift(effects, kind).push(effect)
        } else {
            sift(effects, kind)
        }),
{
    assert(effects.push(effect).drop_last() == effects);
}

/// Slashing and crediting ask for none of this.
proof fn lists_ask_for_nothing(
    s: State,
    losers: Seq<Address>,
    cap: int,
    workers: Seq<Address>,
    amount: i128,
    kind: Kind,
)
    ensures
        sift(s.slash_all(losers, cap).effects, kind) == sift(s.effects, kind),
        sift(s.credit_all(workers, amount).effects, kind) == sift(s.effects, kind),
    decreases losers.len() + workers.len(),
{
    broadcast use sift_after_push;

    if losers.len() > 0 {
        lists_ask_for_nothing(s, losers.drop_last(), cap, workers, amount, kind);
    }
    if workers.len() > 0 {
        lists_ask_for_nothing(s, losers, cap, workers.drop_last(), amount, kind);
    }
}

/// The announcement that `question` was opened under `id`.
pub open spec fn told_opened(id: u64, question: Question) -> Effect {
    Effect::Publish {
        event: Event::Opened(
            QuestionOpened {
                question_id: id,
                payer: question.payer,
                amount: question.amount,
                created_at: question.created_at,
                timeout_ledgers: question.timeout_ledgers,
            },
        ),
    }
}

/// The announcement that question `id` was settled.
pub open spec fn told_settled(id: u64, status: Status) -> Effect {
    Effect::Publish { event: Event::Settled(QuestionSettled { question_id: id, status }) }
}

/// The announcement that question `id` was moved.
pub open spec fn told_migrated(id: u64, target: Address, amount: i128) -> Effect {
    Effect::Publish {
        event: Event::Migrated(QuestionMigrated { question_id: id, target, amount }),
    }
}

/// The request to `target` to take over question `id` of `s` as it is stored there.
pub open spec fn handed(s: State, id: u64, target: Address) -> Effect {
    Effect::ImportQuestion {
        target,
        source: s.this,
        token: s.config.token->0,
        question_id: id,
        payer: s.questions[id].payer,
        amount: s.questions[id].amount,
        created_at: s.questions[id].created_at,
        timeout_ledgers: s.questions[id].timeout_ledgers,
    }
}

/// The permission to pull the amount of question `id` of `s` out to `target`.
pub open spec fn granted(s: State, id: u64, target: Address) -> Effect {
    Effect::AuthorizeTransfer {
        token: s.config.token->0,
        from: s.this,
        to: target,
        amount: s.questions[id].amount,
    }
}

/// What is announced while a batch is handed over: each question's move, and that it is settled.
pub open spec fn told_batch(s: State, ids: Seq<u64>, target: Address) -> Seq<Effect>
    decreases ids.len(),
{
    if ids.len() == 0 {
        Seq::empty()
    } else {
        told_batch(s, ids.drop_last(), target).push(
            told_migrated(ids.last(), target, s.questions[ids.last()].amount),
        ).push(told_settled(ids.last(), Status::Migrated))
    }
}

/// Handing a batch over asks, for each of its questions in order, for one takeover of the question
/// exactly as it is stored, and for the permission to pull exactly its amount.
proof fn a_batch_asks_for_each(s: State, ids: Seq<u64>, target: Address)
    requires
        forall|i: int|
            0 <= i < ids.len() ==> s.questions.contains_key(#[trigger] ids[i]) && !ids.take(
                i,
            ).contains(ids[i]),
    ensures
        ({
            let t = s.migrate_all(ids, target);
            &&& t.this == s.this && t.config == s.config
            &&& forall|id: u64|
                !ids.contains(id) ==> #[trigger] t.questions[id] == s.questions[id]
            &&& sift(t.effects, Kind::Handover) == sift(s.effects, Kind::Handover) + Seq::new(
                ids.len(),
                |i: int| handed(s, ids[i], target),
            )
            &&& sift(t.effects, Kind::Grant) == sift(s.effects, Kind::Grant) + Seq::new(
                ids.len(),
                |i: int| granted(s, ids[i], target),
            )
            &&& sift(t.effects, Kind::News) == sift(s.effects, Kind::News) + told_batch(
                s,
                ids,
                target,
            )
            &&& sift(t.effects, Kind::Move) == sift(s.effects, Kind::Move)
            &&& sift(t.effects, Kind::Code) == sift(s.effects, Kind::Code)
        }),
    decreases ids.len(),
{
    broadcast use sift_after_push;

    if ids.len() > 0 {
        let before = ids.drop_last();
        let last = ids.last();
        assert forall|i: int| 0 <= i < before.len() implies s.questions.contains_key(
            #[trigger] before[i],
        ) && !before.take(i).contains(before[i]) by {
            assert(before[i] == ids[i]);
            assert(before.take(i) == ids.take(i));
        }
        a_batch_asks_for_each(s, before, target);
        assert(ids.take(ids.len() - 1) == before);
        assert(ids[ids.len() - 1] == last);
        let mid = s.migrate_all(before, target);
        assert(mid.questions[last] == s.questions[last]);
        let t = s.migrate_all(ids, target);
        assert forall|id: u64| !ids.contains(id) implies #[trigger] t.questions[id]
            == s.questions[id] by {
            if before.contains(id) {
                let i = choose|i: int| 0 <= i < before.len() && before[i] == id;
                assert(ids[i] == id);
            }
            assert(ids[ids.len() - 1] != id);
            assert(mid.questions[id] == s.questions[id]);
        }
        let all = Seq::new(ids.len(), |i: int| handed(s, ids[i], target));
        let part = Seq::new(before.len(), |i: int| handed(s, before[i], target));
        assert(all =~= part.push(handed(s, last, target)));
        let all = Seq::new(ids.len(), |i: int| granted(s, ids[i], target));
        let part = Seq::new(before.len(), |i: int| granted(s, before[i], target));
        assert(all =~= part.push(granted(s, last, target)));
        assert(sift(t.effects, Kind::Handover) =~= sift(s.effects, Kind::Handover) + Seq::new(
            ids.len(),
            |i: int| handed(s, ids[i], target),
        ));
        assert(sift(t.effects, Kind::News) =~= sift(s.effects, Kind::News) + told_batch(
            s,
            ids,
            target,
        ));
    } else {
        assert(Seq::new(ids.len(), |i: int| handed(s, ids[i], target)) =~= Seq::empty());
        assert(Seq::new(ids.len(), |i: int| granted(s, ids[i], target)) =~= Seq::empty());
    }
}

/// The migration request law: for each question of an accepted batch, in order, the target is
/// asked once to take it over under its id, with the payer, the amount, the age and the window that
/// are stored here, from this very contract and in its token; and the target may pull that amount,
/// once. No other call asks anybody to take a question over or lets anybody pull anything.
pub proof fn questions_are_handed_over_as_stored(s: State, call: Call)
    requires
        s.wf(),
        call.accepted(s),
    ensures
        call matches Call::MigratePending { ids, target } ==> {
            let end = call.next(s).effects;
            &&& sift(end, Kind::Handover) == sift(s.effects, Kind::Handover) + Seq::new(
                ids.len(),
                |i: int| handed(s, ids[i], target),
            )
            &&& sift(end, Kind::Grant) == sift(s.effects, Kind::Grant) + Seq::new(
                ids.len(),
                |i: int| granted(s, ids[i], target),
            )
        },
        !(call is MigratePending) ==> {
            let end = call.next(s).effects;
            &&& sift(end, Kind::Handover) == sift(s.effects, Kind::Handover)
            &&& sift(end, Kind::Grant) == sift(s.effects, Kind::Grant)
        },
{
    broadcast use sift_after_push;

    match call {
        Call::MigratePending { ids, target } => {
            movable_prefix_is_maximal(s, ids);
            let asked = s.ask_admin();
            a_batch_asks_for_each(asked, ids, target);
            assert(Seq::new(ids.len(), |i: int| handed(s, ids[i], target)) =~= Seq::new(
                ids.len(),
                |i: int| handed(asked, ids[i], target),
            ));
            assert(Seq::new(ids.len(), |i: int| granted(s, ids[i], target)) =~= Seq::new(
                ids.len(),
                |i: int| granted(asked, ids[i], target),
            ));
        },
        Call::Resolve { id, workers, losing_workers } => {
            resolving_asks(s, call, Kind::Handover);
            resolving_asks(s, call, Kind::Grant);
        },
        Call::Touch { account } => {},
        Call::TouchQuestion { id } => {},
        _ => {},
    }
}

/// What resolving asks for, beyond signatures and lifetimes.
proof fn resolving_asks(s: State, call: Call, kind: Kind)
    requires
        call.accepted(s),
        call is Resolve,
    ensures
        call matches Call::Resolve { id, workers, losing_workers } ==> {
            let before = sift(s.effects, kind);
            let end = sift(call.next(s).effects, kind);
            &&& kind is Move ==> end == before.push(
                Effect::Transfer {
                    token: s.config.token->0,
                    from: s.this,
                    to: s.config.platform->0,
                    amount: platform_take(
                        s,
                        s.questions[id].amount as int,
                        workers.len() as int,
                        losing_workers,
                    ) as i128,
                },
            )
            &&& kind is News ==> end == before.push(told_settled(id, Status::Resolved))
            &&& !(kind is Move) && !(kind is News) ==> end == before
        },
{
    broadcast use sift_after_push;

    if let Call::Resolve { id, workers, losing_workers } = call {
        let amount = s.questions[id].amount as int;
        let each = share(amount, workers.len() as int) as i128;
        let cap = slash_cap(amount);
        let slashed = s.ask_admin().slash_all(losing_workers, cap);
        lists_ask_for_nothing(s.ask_admin(), losing_workers, cap, Seq::empty(), 0, kind);
        lists_ask_for_nothing(slashed, Seq::empty(), cap, workers, each, kind);
    }
}

/// The code law: running an upgrade asks the host, once, for exactly the code that is scheduled.
/// No other call asks for any code.
pub proof fn only_the_scheduled_code_is_asked_for(s: State, call: Call)
    requires
        s.wf(),
        call.accepted(s),
    ensures
        call is ExecuteUpgrade ==> s.config.pending_upgrade is Some && sift(
            call.next(s).effects,
            Kind::Code,
        ) == sift(s.effects, Kind::Code).push(
            Effect::UpdateWasm { wasm_hash: s.config.pending_upgrade->0.wasm_hash },
        ),
        !(call is ExecuteUpgrade) ==> sift(call.next(s).effects, Kind::Code) == sift(
            s.effects,
            Kind::Code,
        ),
{
    broadcast use sift_after_push;

    match call {
        Call::MigratePending { ids, target } => {
            movable_prefix_is_maximal(s, ids);
            a_batch_asks_for_each(s.ask_admin(), ids, target);
        },
        Call::Resolve { .. } => {
            resolving_asks(s, call, Kind::Code);
        },
        Call::Touch { account } => {},
        Call::TouchQuestion { id } => {},
        _ => {},
    }
}

/// A transfer of the escrowed token.
pub open spec fn moved(s: State, from: Address, to: Address, amount: i128) -> Effect {
    Effect::Transfer { token: s.config.token->0, from, to, amount }
}

/// The token law: which tokens a call has moved. Paying in takes the amount from whoever pays,
/// to the contract; paying out takes it from the contract to whoever it belongs to, or to whom
/// they name; and no other call moves anything. The platform gets one payment per resolution.
pub proof fn only_these_tokens_move(s: State, call: Call)
    requires
        s.wf(),
        call.accepted(s),
    ensures
        ({
            let end = sift(call.next(s).effects, Kind::Move);
            let before = sift(s.effects, Kind::Move);
            match call {
                Call::Deposit { payer, amount } => end == before.push(
                    moved(s, payer, s.this, amount),
                ),
                Call::Submit { payer, amount, .. } => end == before.push(
                    moved(s, payer, s.this, amount),
                ),
                Call::Stake { worker, amount } => end == before.push(
                    moved(s, worker, s.this, amount),
                ),
                Call::ImportQuestion { source, amount, .. } => end == before.push(
                    moved(s, source, s.this, amount),
                ),
                Call::WithdrawBalance { payer, amount } => end == before.push(
                    moved(s, s.this, payer, amount),
                ),
                Call::Withdraw { beneficiary, amount, .. } => end == before.push(
                    moved(s, s.this, beneficiary, amount),
                ),
                Call::CompleteUnstake { worker } => s.stakes.contains_key(worker.id) && end
                    == before.push(moved(s, s.this, worker, s.stakes[worker.id].unbonding)),
                Call::Refund { id } => end == before.push(
                    moved(s, s.this, s.questions[id].payer, s.questions[id].amount),
                ),
                Call::RefundTimeout { id } => end == before.push(
                    moved(s, s.this, s.questions[id].payer, s.questions[id].amount),
                ),
                Call::Resolve { .. } => {
                    &&& end.len() == before.len() + 1
                    &&& end.drop_last() == before
                    &&& end.last() == moved(
                        s,
                        s.this,
                        s.config.platform->0,
                        end.last()->Transfer_amount,
                    )
                },
                _ => end == before,
            }
        }),
{
    broadcast use sift_after_push;

    match call {
        Call::MigratePending { ids, target } => {
            movable_prefix_is_maximal(s, ids);
            a_batch_asks_for_each(s.ask_admin(), ids, target);
        },
        Call::Resolve { .. } => {
            resolving_asks(s, call, Kind::Move);
            let end = sift(call.next(s).effects, Kind::Move);
            assert(end.drop_last() =~= sift(s.effects, Kind::Move));
        },
        Call::Touch { account } => {},
        Call::TouchQuestion { id } => {},
        Call::CompleteUnstake { worker } => {
            if s.stakes.contains_key(worker.id) {
                assert(s.stakes[worker.id].wf());
            }
        },
        _ => {},
    }
}

/// The news law: which announcements a call makes. A question that is opened is announced with the
/// very terms it is stored with, one that is settled with its new status, one that is moved with
/// its target and amount; an upgrade is announced with its code and, when scheduled, its ledger.
/// No other call announces anything.
pub proof fn only_this_is_announced(s: State, call: Call)
    requires
        s.wf(),
        call.accepted(s),
    ensures
        ({
            let t = call.next(s);
            let end = sift(t.effects, Kind::News);
            let before = sift(s.effects, Kind::News);
            match call {
                Call::Submit { id, .. } => end == before.push(told_opened(id, t.questions[id])),
                Call::Charge { id, .. } => end == before.push(told_opened(id, t.questions[id])),
                Call::ImportQuestion { id, .. } => end == before.push(
                    told_opened(id, t.questions[id]),
                ),
                Call::Resolve { id, .. } => end == before.push(
                    told_settled(id, t.questions[id].status),
                ),
                Call::Refund { id } => end == before.push(
                    told_settled(id, t.questions[id].status),
                ),
                Call::RefundTimeout { id } => end == before.push(
                    told_settled(id, t.questions[id].status),
                ),
                Call::MigratePending { ids, target } => end == before + told_batch(s, ids, target),
                Call::ProposeUpgrade { new_wasm_hash } => end == before.push(
                    Effect::Publish {
                        event: Event::Proposed(
                            UpgradeProposed {
                                wasm_hash: new_wasm_hash,
                                executable_at: t.config.pending_upgrade->0.executable_at,
                            },
                        ),
                    },
                ),
                Call::CancelUpgrade => end == before.push(
                    Effect::Publish {
                        event: Event::Cancelled(
                            UpgradeCancelled {
                                wasm_hash: s.config.pending_upgrade->0.wasm_hash,
                            },
                        ),
                    },
                ),
                Call::ExecuteUpgrade => end == before.push(
                    Effect::Publish {
                        event: Event::Executed(
                            UpgradeExecuted { wasm_hash: s.config.pending_upgrade->0.wasm_hash },
                        ),
                    },
                ),
                _ => end == before,
            }
        }),
{
    broadcast use sift_after_push;

    match call {
        Call::MigratePending { ids, target } => {
            movable_prefix_is_maximal(s, ids);
            a_batch_asks_for_each(s.ask_admin(), ids, target);
            same_batch_same_news(s, s.ask_admin(), ids, target);
        },
        Call::Resolve { id, .. } => {
            resolving_asks(s, call, Kind::News);
            list_calls_have_a_frame(s, call);
        },
        Call::Touch { account } => {},
        Call::TouchQuestion { id } => {},
        _ => {},
    }
}

proof fn same_batch_same_news(s: State, t: State, ids: Seq<u64>, target: Address)
    requires
        s.questions == t.questions,
    ensures
        told_batch(s, ids, target) == told_batch(t, ids, target),
    decreases ids.len(),
{
    if ids.len() > 0 {
        same_batch_same_news(s, t, ids.drop_last(), target);
    }
}

/// Whether every takeover from position `from` on comes right after the permission to pull exactly
/// the amount that it is for.
pub open spec fn takeovers_are_granted(effects: Seq<Effect>, from: int) -> bool {
    forall|i: int|
        from <= i < effects.len() ==> (#[trigger] effects[i] matches Effect::ImportQuestion {
            target,
            source,
            token,
            amount,
            ..
        } ==> i > from && effects[i - 1] == (Effect::AuthorizeTransfer {
            token,
            from: source,
            to: target,
            amount,
        }))
}

/// A permission covers the very next request and is used up by it: whatever a call hands over, it
/// has just allowed the target to pull.
pub proof fn every_takeover_is_granted(s: State, ids: Seq<u64>, target: Address)
    ensures
        s.effects.is_prefix_of(s.migrate_all(ids, target).effects),
        takeovers_are_granted(s.migrate_all(ids, target).effects, s.effects.len() as int),
    decreases ids.len(),
{
    if ids.len() > 0 {
        let mid = s.migrate_all(ids.drop_last(), target);
        every_takeover_is_granted(s, ids.drop_last(), target);
        let end = mid.migrate_one(ids.last(), target);
        assert(mid.effects.is_prefix_of(end.effects));
        let k = mid.effects.len() as int;
        let from = s.effects.len() as int;
        assert forall|i: int| from <= i < end.effects.len() implies (
        #[trigger] end.effects[i] matches Effect::ImportQuestion {
            target,
            source,
            token,
            amount,
            ..
        } ==> i > from && end.effects[i - 1] == (Effect::AuthorizeTransfer {
            token,
            from: source,
            to: target,
            amount,
        })) by {
            if i < k {
                assert(end.effects[i] == mid.effects[i]);
                if i > from {
                    assert(end.effects[i - 1] == mid.effects[i - 1]);
                }
            }
        }
    }
}

/// Where in a call the tokens move. What comes in is the first thing after the signature, before
/// anything is written down; what a settled question pays out is the very last thing, once
/// everything is written down; and what an account pays out comes right after the signature.
pub proof fn tokens_move_in_their_place(s: State, call: Call)
    requires
        call.accepted(s),
    ensures
        ({
            let end = call.next(s).effects;
            let second = end[s.effects.len() as int + 1];
            &&& call matches Call::Deposit { payer, amount } ==> second == moved(
                s,
                payer,
                s.this,
                amount,
            )
            &&& call matches Call::Submit { payer, amount, .. } ==> second == moved(
                s,
                payer,
                s.this,
                amount,
            )
            &&& call matches Call::Stake { worker, amount } ==> second == moved(
                s,
                worker,
                s.this,
                amount,
            )
            &&& call matches Call::ImportQuestion { source, amount, .. } ==> second == moved(
                s,
                source,
                s.this,
                amount,
            )
            &&& call matches Call::WithdrawBalance { payer, amount } ==> second == moved(
                s,
                s.this,
                payer,
                amount,
            )
            &&& call matches Call::Withdraw { beneficiary, amount, .. } ==> second == moved(
                s,
                s.this,
                beneficiary,
                amount,
            )
            &&& call is CompleteUnstake ==> second is Transfer
            &&& call is Resolve || call is Refund || call is RefundTimeout ==> end.len() > 0
                && end.last() is Transfer
        }),
{
}

/// A batch that is refused has asked for the takeover of the questions in front of the first one
/// that cannot move, as they are stored, and of no other.
pub proof fn a_refused_batch_asks_for_its_front(
    s: State,
    ids: Seq<u64>,
    target: Address,
    k: int,
)
    requires
        s.config.admin is Some,
        s.config.token is Some,
        target != s.this,
        0 <= k < ids.len(),
        is_stuck(s, ids, k),
        forall|i: int| 0 <= i < k ==> !#[trigger] is_stuck(s, ids, i),
    ensures
        sift(migrate_pending_asked(s, ids, target).effects, Kind::Handover) == sift(
            s.effects,
            Kind::Handover,
        ) + Seq::new(k as nat, |i: int| handed(s, ids[i], target)),
{
    broadcast use sift_after_push;

    let asked = s.ask_admin();
    the_first_stuck_id_ends_the_front(s, ids, k);
    let front = ids.take(k);
    movable_prefix_is_maximal(s, ids);
    assert forall|i: int| 0 <= i < front.len() implies asked.questions.contains_key(
        #[trigger] front[i],
    ) && !front.take(i).contains(front[i]) by {
        assert(front[i] == ids[i]);
        assert(front.take(i) == ids.take(i));
        assert(s.is_pending(ids[i]));
    }
    a_batch_asks_for_each(asked, front, target);
    assert(Seq::new(front.len(), |i: int| handed(asked, front[i], target)) =~= Seq::new(
        k as nat,
        |i: int| handed(s, ids[i], target),
    ));
}

} // verus!
