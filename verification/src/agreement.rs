//! The contract does what the model predicts: whatever happens, its entries and everyone's
//! holdings keep agreeing with the model's books.
use crate::accounts::a_resolution_touches_only_its_quorum;
use crate::bank::{carried_out, carried_out_after_push, held_by, moved};
use crate::calls::{calls_keep_entries_well_formed, Call};
use crate::env::State;
use crate::escrow::{admin_outcome, set_timeout_ledgers_next, set_timeout_ledgers_outcome};
use crate::funds::{
    deposit_next, deposit_outcome, withdraw_balance_next, withdraw_balance_outcome, withdraw_next,
    withdraw_outcome,
};
use crate::lifecycle::{
    questions_are_opened_pending, questions_only_change_status, setup_is_final,
};
use crate::limits::SLASH_BPS;
use crate::model::{
    a_cut_is_bounded, claims_are_bounded, escrowed, halves_are_distinct, in_bounds, lesser,
    model_share, predicted, predicted_books, resolving_keeps_sound, Books, ModelQuestion, Op,
    Outcome, MINTED, PAYERS, T_BENEFICIARY, T_CONTRACT, T_PARTIES, T_PAYER0, T_PLATFORM, T_WORKER0,
    WORKERS,
};
use crate::pending::{
    an_index_in_order_is_ready, every_call_keeps_the_index, the_index_stays_in_order,
};
use crate::questions::{
    charge_next, charge_outcome, do_refund_next, funds_requested, open_question_outcome,
    opened_question, refund_outcome, refund_timeout_outcome, submit_next, submit_outcome,
};
use crate::routine::{
    crediting_is_routine, is_routine, recording_is_routine, routine_joins, routine_moves_nothing,
    settling_is_routine, slashing_is_routine,
};
use crate::settlement::{
    lists_disjoint, platform_take, resolve_fits, resolve_next, resolve_outcome, share, slash_cap,
    split_is_exact,
};
use crate::staking::{
    begin_unstake_next, begin_unstake_outcome, complete_unstake_next, complete_unstake_outcome,
    stake_next, stake_outcome,
};
use crate::sums::sum_counts;
use crate::types::{Address, ContractError, Effect, Question, Status};
use crate::upgrade::{
    cancel_upgrade_next, cancel_upgrade_outcome, execute_upgrade_next, execute_upgrade_outcome,
    propose_upgrade_next,
};
use crate::upkeep::touch_next;
use vstd::prelude::*;

verus! {

/// Where each party of the model sits on the ledger.
pub open spec fn seat(party: int) -> Address {
    Address { id: (party + 1) as u64 }
}

pub open spec fn token_seat() -> Address {
    Address { id: 20 }
}

pub open spec fn admin_seat() -> Address {
    Address { id: 21 }
}

/// The contract's entry for a question of the model.
pub open spec fn entry_of(q: ModelQuestion) -> Question {
    Question {
        payer: seat(T_PAYER0 + q.payer),
        amount: q.amount,
        status: q.status,
        created_at: q.created_at,
        timeout_ledgers: q.timeout_ledgers,
    }
}

/// The contract's entries and everyone's holdings are what the books say.
pub open spec fn agree(b: Books, s: State, held: Map<u64, i128>) -> bool {
    &&& s.wf()
    &&& s.indexed()
    &&& s.effects.len() == 0
    &&& s.configured()
    &&& s.this == seat(T_CONTRACT as int)
    &&& s.config.admin == Some(admin_seat())
    &&& s.config.token == Some(token_seat())
    &&& s.config.platform == Some(seat(T_PLATFORM as int))
    &&& s.config.timeout_ledgers == Some(b.timeout)
    &&& b.upgrade_at == (match s.config.pending_upgrade {
        Some(upgrade) => Some(upgrade.executable_at),
        None => None,
    })
    &&& s.sequence == b.ledger
    &&& questions_agree(b, s)
    &&& forall|p: int|
        0 <= p < PAYERS ==> s.balance_of(seat(T_PAYER0 + p)) == #[trigger] b.balance[p]
    &&& forall|w: int|
        0 <= w < WORKERS ==> s.recorded_stake(seat(T_WORKER0 + w)).active()
            == #[trigger] b.stake[w]
    &&& forall|w: int|
        0 <= w < WORKERS ==> s.recorded_stake(seat(T_WORKER0 + w)).unbonding
            == #[trigger] b.unbonding[w]
    &&& forall|w: int|
        0 <= w < WORKERS ==> s.recorded_stake(seat(T_WORKER0 + w)).unbonding_release_at
            == #[trigger] b.release_at[w]
    &&& forall|w: int|
        0 <= w < WORKERS ==> s.owed_to(seat(T_WORKER0 + w)) == #[trigger] b.owed[w]
    &&& forall|i: int| 0 <= i < T_PARTIES ==> held_by(held, seat(i)) == #[trigger] b.tokens[i]
}

/// The same questions on both sides.
pub open spec fn questions_agree(b: Books, s: State) -> bool {
    &&& forall|id: u64| #[trigger] s.questions.contains_key(id) <==> b.questions.contains_key(id)
    &&& forall|id: u64| #[trigger]
        s.questions.contains_key(id) ==> s.questions[id] == entry_of(b.questions[id])
}

/// Whether a call asks for other code. No code was ever uploaded, so the host turns that down.
pub open spec fn asks_for_code(effects: Seq<Effect>) -> bool {
    exists|i: int| 0 <= i < effects.len() && (#[trigger] effects[i]) is UpdateWasm
}

/// What the caller sees of a call that returned `result` and asked for `effects`.
pub open spec fn outcome_of(
    held: Map<u64, i128>,
    result: Result<(), ContractError>,
    effects: Seq<Effect>,
) -> Outcome {
    if asks_for_code(effects) || carried_out(held, effects) is None {
        Outcome::Rejected
    } else {
        match result {
            Ok(_) => Outcome::Done,
            Err(e) => Outcome::Refused(e),
        }
    }
}

/// The entries once the requests have been carried out.
pub open spec fn cleared(t: State) -> State {
    State { effects: Seq::empty(), ..t }
}

/// A call that returned `result` and left `t` behind went as predicted.
pub open spec fn follows(
    b: Books,
    held: Map<u64, i128>,
    op: Op,
    result: Result<(), ContractError>,
    t: State,
) -> bool {
    &&& outcome_of(held, result, t.effects) == predicted(b, op)
    &&& predicted(b, op) == Outcome::Done ==> agree(
        predicted_books(b, op),
        cleared(t),
        carried_out(held, t.effects)->0,
    )
}

/// Every pending question locks something, so there are far fewer of them than slots.
proof fn slots_are_left(b: Books, s: State, held: Map<u64, i128>)
    requires
        agree(b, s, held),
        b.sound(),
    ensures
        s.pending_count <= MINTED,
{
    claims_are_bounded(b);
    let ids = Seq::new(s.pending_count as nat, |i: int| s.pending_at[i as u32]);
    assert forall|i: int, j: int|
        0 <= i < ids.len() && 0 <= j < ids.len() && i != j implies ids[i] != ids[j] by {
        assert(s.pending_pos[s.pending_at[i as u32]] == i as u32);
        assert(s.pending_pos[s.pending_at[j as u32]] == j as u32);
    }
    assert forall|i: int| 0 <= i < ids.len() implies b.questions.contains_key(#[trigger] ids[i])
        && escrowed()(b.questions[ids[i]]) >= 1 by {
        assert(s.pending_pos.contains_key(s.pending_at[i as u32]));
        assert(s.is_pending(ids[i]));
        assert(s.questions.contains_key(ids[i]));
    }
    assert forall|id: u64| #[trigger] b.questions.contains_key(id) implies escrowed()(
        b.questions[id],
    ) >= 0 by {}
    sum_counts(b.questions, escrowed(), ids);
}

/// Opening: the window is cut short in the same way on both sides.
proof fn opening_agrees(
    b: Books,
    s: State,
    held: Map<u64, i128>,
    payer: usize,
    qid: u64,
    amount: i128,
)
    requires
        agree(b, s, held),
        payer < PAYERS,
    ensures
        open_question_outcome(s, qid) == (match b.not_open(qid) {
            Some(e) => Err(e),
            None => Ok(()),
        }),
        b.not_open(qid) is None ==> opened_question(s, seat(T_PAYER0 + payer), amount) == entry_of(
            b.opening(payer, qid, amount).questions[qid],
        ),
{
    assert(s.questions.contains_key(qid) <==> b.questions.contains_key(qid));
}

/// Submitting goes as predicted.
pub proof fn submit_follows(b: Books, s: State, held: Map<u64, i128>, op: Op)
    requires
        agree(b, s, held),
        b.sound(),
        in_bounds(b, op),
        op is Submit,
    ensures
        ({
            let (payer, qid, amount) = (op->Submit_payer, op->Submit_qid, op->Submit_amount);
            let who = seat(T_PAYER0 + payer);
            let result = submit_outcome(s, qid, amount);
            &&& s.pending_count < u32::MAX
            &&& follows(
                b,
                held,
                op,
                result,
                if result is Ok {
                    submit_next(s, who, qid, amount)
                } else {
                    funds_requested(s, who, amount)
                },
            )
        }),
{
    broadcast use carried_out_after_push;

    let (payer, qid, amount) = (op->Submit_payer, op->Submit_qid, op->Submit_amount);
    let who = seat(T_PAYER0 + payer);
    let this = seat(T_CONTRACT as int);
    slots_are_left(b, s, held);
    claims_are_bounded(b);
    opening_agrees(b, s, held, payer, qid, amount);
    let requested = funds_requested(s, who, amount);
    assert(carried_out(held, s.effects) == Some(held));
    assert(b.tokens[T_PAYER0 + payer] == held_by(held, who));
    assert(b.tokens[T_CONTRACT as int] == held_by(held, this));
    if predicted(b, op) == Outcome::Done {
        let t = submit_next(s, who, qid, amount);
        let call = Call::Submit { payer: who, id: qid, amount };
        calls_keep_entries_well_formed(s, call);
        every_call_keeps_the_index(s, call);
        the_index_stays_in_order(t, cleared(t));
        recording_is_routine(requested, qid, opened_question(requested, who, amount));
        routine_moves_nothing(held, requested, t);
        let after = moved(held, who, this, amount);
        assert(carried_out(held, t.effects) == Some(after));
        let c = predicted_books(b, op);
        assert(questions_agree(c, cleared(t)));
        assert(agree(c, cleared(t), after));
    }
}

/// Charging goes as predicted.
pub proof fn charge_follows(b: Books, s: State, held: Map<u64, i128>, op: Op)
    requires
        agree(b, s, held),
        b.sound(),
        in_bounds(b, op),
        op is Charge,
    ensures
        ({
            let (payer, qid, amount) = (op->Charge_payer, op->Charge_qid, op->Charge_amount);
            let who = seat(T_PAYER0 + payer);
            let result = charge_outcome(s, who, qid, amount);
            &&& s.pending_count < u32::MAX
            &&& follows(
                b,
                held,
                op,
                result,
                if result is Ok {
                    charge_next(s, who, qid, amount)
                } else {
                    s.ask_admin()
                },
            )
        }),
{
    broadcast use carried_out_after_push;

    let (payer, qid, amount) = (op->Charge_payer, op->Charge_qid, op->Charge_amount);
    let who = seat(T_PAYER0 + payer);
    slots_are_left(b, s, held);
    claims_are_bounded(b);
    opening_agrees(b, s, held, payer, qid, amount);
    assert(carried_out(held, s.effects) == Some(held));
    assert(b.balance[payer as int] == s.balance_of(who));
    if predicted(b, op) == Outcome::Done {
        let t = charge_next(s, who, qid, amount);
        let call = Call::Charge { payer: who, id: qid, amount };
        calls_keep_entries_well_formed(s, call);
        every_call_keeps_the_index(s, call);
        the_index_stays_in_order(t, cleared(t));
        let drawn = s.ask_admin().put_balance(who, (s.balance_of(who) - amount) as i128);
        recording_is_routine(drawn, qid, opened_question(drawn, who, amount));
        routine_moves_nothing(held, drawn, t);
        assert(carried_out(held, t.effects) == Some(held));
        let c = predicted_books(b, op);
        assert(questions_agree(c, cleared(t)));
        assert(agree(c, cleared(t), held));
    }
}

/// Depositing goes as predicted. A sum out of range means more than anyone holds.
pub proof fn deposit_follows(b: Books, s: State, held: Map<u64, i128>, op: Op)
    requires
        agree(b, s, held),
        b.sound(),
        in_bounds(b, op),
        op is Deposit,
    ensures
        ({
            let (payer, amount) = (op->Deposit_payer, op->Deposit_amount);
            let who = seat(T_PAYER0 + payer);
            let result = deposit_outcome(s, amount);
            &&& s.balance_of(who) + amount > i128::MAX ==> predicted(b, op) == Outcome::Rejected
            &&& s.balance_of(who) + amount <= i128::MAX ==> follows(
                b,
                held,
                op,
                result,
                if result is Ok {
                    deposit_next(s, who, amount)
                } else {
                    funds_requested(s, who, amount)
                },
            )
        }),
{
    broadcast use carried_out_after_push;

    let (payer, amount) = (op->Deposit_payer, op->Deposit_amount);
    let who = seat(T_PAYER0 + payer);
    let this = seat(T_CONTRACT as int);
    claims_are_bounded(b);
    assert(carried_out(held, s.effects) == Some(held));
    assert(b.balance[payer as int] == s.balance_of(who));
    assert(b.tokens[T_PAYER0 + payer] == held_by(held, who));
    assert(b.tokens[T_CONTRACT as int] == held_by(held, this));
    if predicted(b, op) == Outcome::Done {
        let t = deposit_next(s, who, amount);
        let call = Call::Deposit { payer: who, amount };
        calls_keep_entries_well_formed(s, call);
        the_index_stays_in_order(s, cleared(t));
        let after = moved(held, who, this, amount);
        assert(carried_out(held, t.effects) == Some(after));
        assert(agree(predicted_books(b, op), cleared(t), after));
    }
}

/// Withdrawing a balance goes as predicted.
pub proof fn withdraw_balance_follows(b: Books, s: State, held: Map<u64, i128>, op: Op)
    requires
        agree(b, s, held),
        b.sound(),
        in_bounds(b, op),
        op is WithdrawBalance,
    ensures
        ({
            let (payer, amount) = (op->WithdrawBalance_payer, op->WithdrawBalance_amount);
            let who = seat(T_PAYER0 + payer);
            let result = withdraw_balance_outcome(s, who, amount);
            follows(
                b,
                held,
                op,
                result,
                if result is Ok {
                    withdraw_balance_next(s, who, amount)
                } else {
                    s.require_auth(who)
                },
            )
        }),
{
    broadcast use carried_out_after_push;

    let (payer, amount) = (op->WithdrawBalance_payer, op->WithdrawBalance_amount);
    let who = seat(T_PAYER0 + payer);
    let this = seat(T_CONTRACT as int);
    claims_are_bounded(b);
    assert(carried_out(held, s.effects) == Some(held));
    assert(b.balance[payer as int] == s.balance_of(who));
    assert(b.tokens[T_PAYER0 + payer] == held_by(held, who));
    assert(b.tokens[T_CONTRACT as int] == held_by(held, this));
    if predicted(b, op) == Outcome::Done {
        let t = withdraw_balance_next(s, who, amount);
        let call = Call::WithdrawBalance { payer: who, amount };
        calls_keep_entries_well_formed(s, call);
        the_index_stays_in_order(s, cleared(t));
        let after = moved(held, this, who, amount);
        assert(carried_out(held, t.effects) == Some(after));
        assert(agree(predicted_books(b, op), cleared(t), after));
    }
}

/// Either way of withdrawing earnings goes as predicted.
pub proof fn withdraw_follows(
    b: Books,
    s: State,
    held: Map<u64, i128>,
    op: Op,
    worker: usize,
    to: int,
    amount: i128,
)
    requires
        agree(b, s, held),
        b.sound(),
        in_bounds(b, op),
        (op == (Op::Withdraw { worker, amount }) && to == T_WORKER0 + worker) || (op
            == (Op::WithdrawTo { worker, amount }) && to == T_BENEFICIARY),
    ensures
        ({
            let who = seat(T_WORKER0 + worker);
            let result = withdraw_outcome(s, who, amount);
            follows(
                b,
                held,
                op,
                match result {
                    Ok(_) => Ok(()),
                    Err(e) => Err(e),
                },
                if result is Ok {
                    withdraw_next(s, who, seat(to), amount)
                } else {
                    s.require_auth(who)
                },
            )
        }),
{
    broadcast use carried_out_after_push;

    let who = seat(T_WORKER0 + worker);
    let this = seat(T_CONTRACT as int);
    claims_are_bounded(b);
    assert(carried_out(held, s.effects) == Some(held));
    assert(b.owed[worker as int] == s.owed_to(who));
    assert(b.tokens[to] == held_by(held, seat(to)));
    assert(b.tokens[T_CONTRACT as int] == held_by(held, this));
    if predicted(b, op) == Outcome::Done {
        let t = withdraw_next(s, who, seat(to), amount);
        let call = Call::Withdraw { worker: who, beneficiary: seat(to), amount };
        calls_keep_entries_well_formed(s, call);
        the_index_stays_in_order(s, cleared(t));
        let after = moved(held, this, seat(to), amount);
        assert(carried_out(held, t.effects) == Some(after));
        assert(agree(predicted_books(b, op), cleared(t), after));
    }
}

/// Staking goes as predicted. A sum out of range means more than anyone holds.
pub proof fn stake_follows(b: Books, s: State, held: Map<u64, i128>, op: Op)
    requires
        agree(b, s, held),
        b.sound(),
        in_bounds(b, op),
        op is Stake,
    ensures
        ({
            let (worker, amount) = (op->Stake_worker, op->Stake_amount);
            let who = seat(T_WORKER0 + worker);
            let result = stake_outcome(s, amount);
            &&& s.stake_fits(who)
            &&& s.stake_info(who).warming + amount > i128::MAX ==> predicted(b, op)
                == Outcome::Rejected
            &&& s.stake_info(who).warming + amount <= i128::MAX ==> follows(
                b,
                held,
                op,
                result,
                if result is Ok {
                    stake_next(s, who, amount)
                } else {
                    funds_requested(s, who, amount)
                },
            )
        }),
{
    broadcast use carried_out_after_push;

    let (worker, amount) = (op->Stake_worker, op->Stake_amount);
    let who = seat(T_WORKER0 + worker);
    let this = seat(T_CONTRACT as int);
    claims_are_bounded(b);
    assert(carried_out(held, s.effects) == Some(held));
    assert(b.stake[worker as int] == s.recorded_stake(who).active());
    assert(b.tokens[T_WORKER0 + worker] == held_by(held, who));
    assert(b.tokens[T_CONTRACT as int] == held_by(held, this));
    assert(s.recorded_stake(who).wf());
    if predicted(b, op) == Outcome::Done {
        let t = stake_next(s, who, amount);
        let call = Call::Stake { worker: who, amount };
        calls_keep_entries_well_formed(s, call);
        the_index_stays_in_order(s, cleared(t));
        let after = moved(held, who, this, amount);
        assert(carried_out(held, t.effects) == Some(after));
        let c = predicted_books(b, op);
        assert(agree(c, cleared(t), after));
    }
}

/// Starting to unbond goes as predicted.
pub proof fn begin_unstake_follows(b: Books, s: State, held: Map<u64, i128>, op: Op)
    requires
        agree(b, s, held),
        b.sound(),
        in_bounds(b, op),
        op is BeginUnstake,
    ensures
        ({
            let (worker, amount) = (op->BeginUnstake_worker, op->BeginUnstake_amount);
            let who = seat(T_WORKER0 + worker);
            let result = begin_unstake_outcome(s, who, amount);
            &&& s.recorded_stake(who).active() <= i128::MAX
            &&& result is Ok ==> s.recorded_stake(who).unbonding + amount <= i128::MAX
            &&& follows(
                b,
                held,
                op,
                match result {
                    Ok(_) => Ok(()),
                    Err(e) => Err(e),
                },
                if result is Ok {
                    begin_unstake_next(s, who, amount)
                } else {
                    s.require_auth(who)
                },
            )
        }),
{
    broadcast use carried_out_after_push;

    let (worker, amount) = (op->BeginUnstake_worker, op->BeginUnstake_amount);
    let who = seat(T_WORKER0 + worker);
    claims_are_bounded(b);
    assert(carried_out(held, s.effects) == Some(held));
    assert(b.stake[worker as int] == s.recorded_stake(who).active());
    assert(b.unbonding[worker as int] == s.recorded_stake(who).unbonding);
    assert(s.recorded_stake(who).wf());
    if predicted(b, op) == Outcome::Done {
        let t = begin_unstake_next(s, who, amount);
        let call = Call::BeginUnstake { worker: who, amount };
        calls_keep_entries_well_formed(s, call);
        the_index_stays_in_order(s, cleared(t));
        assert(carried_out(held, t.effects) == Some(held));
        assert(agree(predicted_books(b, op), cleared(t), held));
    }
}

/// Claiming a bond goes as predicted.
pub proof fn complete_unstake_follows(b: Books, s: State, held: Map<u64, i128>, op: Op)
    requires
        agree(b, s, held),
        b.sound(),
        in_bounds(b, op),
        op is CompleteUnstake,
    ensures
        ({
            let who = seat(T_WORKER0 + op->CompleteUnstake_worker);
            let result = complete_unstake_outcome(s, who);
            &&& s.stake_fits(who)
            &&& follows(
                b,
                held,
                op,
                match result {
                    Ok(_) => Ok(()),
                    Err(e) => Err(e),
                },
                if result is Ok {
                    complete_unstake_next(s, who)
                } else {
                    s.require_auth(who)
                },
            )
        }),
{
    broadcast use carried_out_after_push;

    let worker = op->CompleteUnstake_worker;
    let who = seat(T_WORKER0 + worker);
    let this = seat(T_CONTRACT as int);
    claims_are_bounded(b);
    assert(carried_out(held, s.effects) == Some(held));
    assert(b.stake[worker as int] == s.recorded_stake(who).active());
    assert(b.unbonding[worker as int] == s.recorded_stake(who).unbonding);
    assert(b.release_at[worker as int] == s.recorded_stake(who).unbonding_release_at);
    assert(b.tokens[T_WORKER0 + worker] == held_by(held, who));
    assert(b.tokens[T_CONTRACT as int] == held_by(held, this));
    assert(s.recorded_stake(who).wf());
    if predicted(b, op) == Outcome::Done {
        let t = complete_unstake_next(s, who);
        let call = Call::CompleteUnstake { worker: who };
        calls_keep_entries_well_formed(s, call);
        the_index_stays_in_order(s, cleared(t));
        let after = moved(held, this, who, b.unbonding[worker as int]);
        assert(carried_out(held, t.effects) == Some(after));
        assert(agree(predicted_books(b, op), cleared(t), after));
    }
}

/// Either way of refunding goes as predicted.
pub proof fn refunding_follows(b: Books, s: State, held: Map<u64, i128>, op: Op, qid: u64)
    requires
        agree(b, s, held),
        b.sound(),
        op == (Op::Refund { qid }) || op == (Op::RefundTimeout { qid }),
    ensures
        s.index_ready(qid),
        ({
            let result = if op is Refund {
                refund_outcome(s, qid)
            } else {
                refund_timeout_outcome(s, qid)
            };
            let asked = if op is Refund {
                s.ask_admin()
            } else {
                s
            };
            follows(
                b,
                held,
                op,
                result,
                if result is Ok {
                    do_refund_next(asked, qid)
                } else {
                    asked
                },
            )
        }),
{
    broadcast use carried_out_after_push;

    an_index_in_order_is_ready(s, qid);
    claims_are_bounded(b);
    let this = seat(T_CONTRACT as int);
    let asked = if op is Refund {
        s.ask_admin()
    } else {
        s
    };
    assert(s.questions.contains_key(qid) <==> b.questions.contains_key(qid));
    assert(carried_out(held, s.effects) == Some(held));
    assert(carried_out(held, asked.effects) == Some(held));
    if predicted(b, op) == Outcome::Done {
        assert(b.is_pending(qid));
        let q = b.questions[qid];
        let who = seat(T_PAYER0 + q.payer);
        let t = do_refund_next(asked, qid);
        let call = if op is Refund {
            Call::Refund { id: qid }
        } else {
            Call::RefundTimeout { id: qid }
        };
        calls_keep_entries_well_formed(s, call);
        every_call_keeps_the_index(s, call);
        the_index_stays_in_order(t, cleared(t));
        let closed = asked.settle_question(qid, Status::Refunded);
        settling_is_routine(asked, qid, Status::Refunded);
        routine_moves_nothing(held, asked, closed);
        assert(b.tokens[T_PAYER0 + q.payer] == held_by(held, who));
        assert(b.tokens[T_CONTRACT as int] == held_by(held, this));
        let after = moved(held, this, who, q.amount);
        assert(carried_out(held, t.effects) == Some(after));
        let c = predicted_books(b, op);
        assert(questions_agree(c, cleared(t)));
        assert(agree(c, cleared(t), after));
    }
}

/// Keeping entries alive and setting the window go as predicted.
pub proof fn settings_follow(b: Books, s: State, held: Map<u64, i128>, op: Op)
    requires
        agree(b, s, held),
        b.sound(),
        in_bounds(b, op),
    ensures
        op matches Op::Touch { worker } ==> follows(
            b,
            held,
            op,
            Ok(()),
            touch_next(s, seat(T_WORKER0 + worker)),
        ),
        op matches Op::SetTimeout { ledgers } ==> follows(
            b,
            held,
            op,
            set_timeout_ledgers_outcome(s, ledgers),
            if set_timeout_ledgers_outcome(s, ledgers) is Ok {
                set_timeout_ledgers_next(s, ledgers)
            } else {
                s.ask_admin()
            },
        ),
{
    broadcast use carried_out_after_push;

    assert(carried_out(held, s.effects) == Some(held));
    if let Op::Touch { worker } = op {
        let t = touch_next(s, seat(T_WORKER0 + worker));
        the_index_stays_in_order(s, cleared(t));
        assert(carried_out(held, t.effects) == Some(held));
        assert(agree(b, cleared(t), held));
    }
    if let Op::SetTimeout { ledgers } = op {
        if predicted(b, op) == Outcome::Done {
            let t = set_timeout_ledgers_next(s, ledgers);
            the_index_stays_in_order(s, cleared(t));
            assert(carried_out(held, t.effects) == Some(held));
            assert(agree(predicted_books(b, op), cleared(t), held));
        }
    }
}

/// Scheduling and dropping an upgrade, and failing to run one, go as predicted.
pub proof fn upgrades_follow(b: Books, s: State, held: Map<u64, i128>, op: Op, hash: [u8; 32])
    requires
        agree(b, s, held),
        b.sound(),
    ensures
        op is ProposeUpgrade ==> follows(
            b,
            held,
            op,
            admin_outcome(s),
            propose_upgrade_next(s, hash),
        ),
        op is CancelUpgrade ==> follows(
            b,
            held,
            op,
            cancel_upgrade_outcome(s),
            if cancel_upgrade_outcome(s) is Ok {
                cancel_upgrade_next(s)
            } else {
                s.ask_admin()
            },
        ),
        op is ExecuteUpgrade ==> follows(
            b,
            held,
            op,
            execute_upgrade_outcome(s),
            if execute_upgrade_outcome(s) is Ok {
                execute_upgrade_next(s)
            } else {
                s.ask_admin()
            },
        ),
{
    broadcast use carried_out_after_push;

    assert(carried_out(held, s.effects) == Some(held));
    if op is ProposeUpgrade {
        let t = propose_upgrade_next(s, hash);
        the_index_stays_in_order(s, cleared(t));
        assert(carried_out(held, t.effects) == Some(held));
        assert(agree(predicted_books(b, op), cleared(t), held));
    }
    if op is CancelUpgrade && predicted(b, op) == Outcome::Done {
        let t = cancel_upgrade_next(s);
        the_index_stays_in_order(s, cleared(t));
        assert(carried_out(held, t.effects) == Some(held));
        assert(agree(predicted_books(b, op), cleared(t), held));
    }
    if op is ExecuteUpgrade && predicted(b, op) == Outcome::Rejected {
        let t = execute_upgrade_next(s);
        assert(t.effects[t.effects.len() - 2] is UpdateWasm);
    }
}

/// Time passing changes nothing but the ledger.
pub proof fn waiting_agrees(b: Books, s: State, held: Map<u64, i128>, ledger: u32)
    requires
        agree(b, s, held),
    ensures
        agree((Books { ledger, ..b }), s.at(ledger), held),
        b.sound() ==> (Books { ledger, ..b }).sound(),
{
    the_index_stays_in_order(s, s.at(ledger));
}

/// The workers at these positions.
pub open spec fn seats(positions: Seq<usize>) -> Seq<Address> {
    Seq::new(positions.len(), |i: int| seat(T_WORKER0 + positions[i]))
}

/// Seats are told apart just as positions are.
proof fn seats_are_distinct(workers: Seq<usize>, losers: Seq<usize>)
    requires
        forall|i: int| 0 <= i < workers.len() ==> #[trigger] workers[i] < WORKERS,
        forall|i: int| 0 <= i < losers.len() ==> #[trigger] losers[i] < WORKERS,
    ensures
        lists_disjoint(seats(workers), seats(losers)) <==> (workers + losers).no_duplicates(),
{
    let all = workers + losers;
    let seated = seats(workers) + seats(losers);
    assert forall|i: int| 0 <= i < all.len() implies #[trigger] seated[i] == seat(
        T_WORKER0 + all[i],
    ) && all[i] < WORKERS by {
        if i < workers.len() {
            assert(all[i] == workers[i]);
        } else {
            assert(all[i] == losers[i - workers.len()]);
        }
    }
    if all.no_duplicates() {
        assert forall|i: int, j: int|
            0 <= i < seated.len() && 0 <= j < seated.len() && i != j implies seated[i]
            != seated[j] by {
            assert(all[i] != all[j]);
        }
    }
    if seated.no_duplicates() {
        assert forall|i: int, j: int|
            0 <= i < all.len() && 0 <= j < all.len() && i != j implies all[i] != all[j] by {
            assert(seated[i] != seated[j]);
        }
    }
}

/// A worker is listed if and only if the position is.
proof fn seats_contain(positions: Seq<usize>, w: int)
    requires
        0 <= w < WORKERS,
        forall|i: int| 0 <= i < positions.len() ==> #[trigger] positions[i] < WORKERS,
    ensures
        seats(positions).contains(seat(T_WORKER0 + w)) <==> positions.contains(w as usize),
{
    if positions.contains(w as usize) {
        let i = choose|i: int| 0 <= i < positions.len() && positions[i] == w;
        assert(seats(positions)[i] == seat(T_WORKER0 + w));
    }
    if seats(positions).contains(seat(T_WORKER0 + w)) {
        let i = choose|i: int|
            0 <= i < positions.len() && seats(positions)[i] == seat(T_WORKER0 + w);
        assert(positions[i] < WORKERS);
        assert(positions[i] == w);
    }
}

/// What losing costs a worker is the same on both sides.
proof fn a_slash_is_the_cut(b: Books, s: State, held: Map<u64, i128>, w: int, amount: int)
    requires
        agree(b, s, held),
        b.sound(),
        0 <= w < WORKERS,
        amount > 0,
    ensures
        s.slash_of(seat(T_WORKER0 + w), amount) == b.cut(w, amount),
        s.recorded_stake(seat(T_WORKER0 + w)).total() == b.stake[w] + b.unbonding[w],
        s.recorded_stake(seat(T_WORKER0 + w)).wf(),
        s.recorded_stake(seat(T_WORKER0 + w)).total() <= MINTED,
        ({
            let after = s.slash_one(seat(T_WORKER0 + w), amount).recorded_stake(
                seat(T_WORKER0 + w),
            );
            &&& after.active() == b.stake[w] - lesser(b.cut(w, amount), b.stake[w] as int)
            &&& after.unbonding == b.unbonding[w] - (b.cut(w, amount) - lesser(
                b.cut(w, amount),
                b.stake[w] as int,
            ))
            &&& after.unbonding_release_at == b.release_at[w]
        }),
{
    claims_are_bounded(b);
    let who = seat(T_WORKER0 + w);
    assert(b.stake[w] == s.recorded_stake(who).active());
    assert(b.unbonding[w] == s.recorded_stake(who).unbonding);
    assert(b.release_at[w] == s.recorded_stake(who).unbonding_release_at);
    assert(s.recorded_stake(who).wf());
    a_cut_is_bounded(b, w, amount);
}

/// What the losers forfeit together is the same on both sides.
proof fn slashes_are_the_cuts(
    b: Books,
    s: State,
    held: Map<u64, i128>,
    losers: Seq<usize>,
    amount: int,
)
    requires
        agree(b, s, held),
        b.sound(),
        amount > 0,
        forall|i: int| 0 <= i < losers.len() ==> #[trigger] losers[i] < WORKERS,
    ensures
        s.slash_total(seats(losers), amount) == b.cuts(losers, amount),
    decreases losers.len(),
{
    if losers.len() > 0 {
        let before = losers.drop_last();
        assert(seats(losers).drop_last() == seats(before));
        assert forall|i: int| 0 <= i < before.len() implies #[trigger] before[i] < WORKERS by {
            assert(before[i] == losers[i]);
        }
        slashes_are_the_cuts(b, s, held, before, amount);
        assert(losers[losers.len() - 1] < WORKERS);
        a_slash_is_the_cut(b, s, held, losers.last() as int, amount);
    }
}

/// A resolution that is due succeeds, its one transfer goes through, and everyone ends up with
/// what the books say.
proof fn resolving_agrees(b: Books, s: State, held: Map<u64, i128>, op: Op)
    requires
        agree(b, s, held),
        b.sound(),
        b.room(),
        in_bounds(b, op),
        op is Resolve,
        predicted(b, op) == Outcome::Done,
    ensures
        ({
            let qid = op->Resolve_qid;
            let workers = seats(op->Resolve_workers@);
            let losers = seats(op->Resolve_losers@);
            let t = resolve_next(s, qid, workers, losers);
            &&& resolve_outcome(s, qid, workers, losers) is Ok
            &&& resolve_fits(s, qid, workers, losers)
            &&& !asks_for_code(t.effects)
            &&& carried_out(held, t.effects) is Some
            &&& agree(predicted_books(b, op), cleared(t), carried_out(held, t.effects)->0)
        }),
{
    broadcast use carried_out_after_push;

    let qid = op->Resolve_qid;
    let ws = op->Resolve_workers@;
    let ls = op->Resolve_losers@;
    let workers = seats(ws);
    let losers = seats(ls);
    let this = seat(T_CONTRACT as int);
    let platform = seat(T_PLATFORM as int);
    claims_are_bounded(b);
    seats_are_distinct(ws, ls);
    halves_are_distinct(ws, ls);
    assert(s.questions.contains_key(qid) <==> b.questions.contains_key(qid));
    assert(b.is_pending(qid));
    assert(resolve_outcome(s, qid, workers, losers) is Ok);
    an_index_in_order_is_ready(s, qid);
    let amount = b.questions[qid].amount as int;
    let n = ws.len() as int;
    let each = share(amount, n);
    split_is_exact(amount, n);
    resolving_keeps_sound(b, qid, ws, ls);
    assert(each == model_share(amount, n));
    assert forall|i: int| 0 <= i < losers.len() && s.stakes.contains_key(losers[i].id) implies
        s.recorded_stake(#[trigger] losers[i]).total() * SLASH_BPS <= i128::MAX by {
        assert(ls[i] < WORKERS);
        a_slash_is_the_cut(b, s, held, ls[i] as int, amount);
    }
    assert forall|i: int| 0 <= i < workers.len() implies s.owed_to(#[trigger] workers[i]) + each
        <= i128::MAX by {
        assert(ws[i] < WORKERS);
        assert(b.owed[ws[i] as int] == s.owed_to(workers[i]));
    }
    assert(resolve_fits(s, qid, workers, losers));
    let call = Call::Resolve { id: qid, workers, losing_workers: losers };
    calls_keep_entries_well_formed(s, call);
    every_call_keeps_the_index(s, call);
    setup_is_final(s, call);
    let t = resolve_next(s, qid, workers, losers);
    the_index_stays_in_order(t, cleared(t));
    let asked = s.ask_admin();
    let slashed = asked.slash_all(losers, slash_cap(amount));
    let credited = slashed.credit_all(workers, each as i128);
    let closed = credited.settle_question(qid, Status::Resolved);
    slashing_is_routine(asked, losers, slash_cap(amount));
    crediting_is_routine(slashed, workers, each as i128);
    settling_is_routine(credited, qid, Status::Resolved);
    routine_joins(asked, slashed, credited);
    routine_joins(asked, credited, closed);
    routine_moves_nothing(held, asked, closed);
    assert(carried_out(held, s.effects) == Some(held));
    assert(carried_out(held, asked.effects) == Some(held));
    slashes_are_the_cuts(b, s, held, ls, amount);
    let take = platform_take(s, amount, n, losers);
    assert(take == amount - each * n + b.cuts(ls, amount));
    assert(b.tokens[T_CONTRACT as int] == held_by(held, this));
    assert(b.tokens[T_PLATFORM as int] == held_by(held, platform));
    let after = moved(held, this, platform, take as i128);
    assert(carried_out(held, t.effects) == Some(after));
    assert(!asks_for_code(t.effects)) by {
        assert forall|i: int| 0 <= i < t.effects.len() implies !((
        #[trigger] t.effects[i]) is UpdateWasm) by {
            if asked.effects.len() <= i < closed.effects.len() {
                assert(is_routine(closed.effects[i]));
            } else if i < asked.effects.len() {
                assert(closed.effects[i] == asked.effects[i]);
            }
        }
    }
    let c = predicted_books(b, op);
    let done = cleared(t);
    assert(c.tokens == b.paying(T_CONTRACT as int, T_PLATFORM as int, take).tokens);
    resolved_questions_agree(b, s, held, qid, workers, losers, c);
    assert forall|w: int| 0 <= w < WORKERS implies done.recorded_stake(
        seat(T_WORKER0 + w),
    ).active() == #[trigger] c.stake[w] by {
        quorum_agrees(b, s, held, op, w);
    }
    assert forall|w: int| 0 <= w < WORKERS implies done.recorded_stake(
        seat(T_WORKER0 + w),
    ).unbonding == #[trigger] c.unbonding[w] by {
        quorum_agrees(b, s, held, op, w);
    }
    assert forall|w: int| 0 <= w < WORKERS implies done.recorded_stake(
        seat(T_WORKER0 + w),
    ).unbonding_release_at == #[trigger] c.release_at[w] by {
        quorum_agrees(b, s, held, op, w);
    }
    assert forall|w: int| 0 <= w < WORKERS implies done.owed_to(seat(T_WORKER0 + w))
        == #[trigger] c.owed[w] by {
        quorum_agrees(b, s, held, op, w);
    }
    assert forall|p: int| 0 <= p < PAYERS implies done.balance_of(seat(T_PAYER0 + p))
        == #[trigger] c.balance[p] by {
        a_resolution_touches_only_its_quorum(s, qid, workers, losers, seat(T_PAYER0 + p));
        assert(b.balance[p] == s.balance_of(seat(T_PAYER0 + p)));
    }
    assert forall|i: int| 0 <= i < T_PARTIES implies held_by(after, seat(i))
        == #[trigger] c.tokens[i] by {
        assert(b.tokens[i] == held_by(held, seat(i)));
    }
    assert(agree(c, done, after));
}

/// One worker after a resolution.
proof fn quorum_agrees(b: Books, s: State, held: Map<u64, i128>, op: Op, w: int)
    requires
        agree(b, s, held),
        b.sound(),
        in_bounds(b, op),
        op is Resolve,
        predicted(b, op) == Outcome::Done,
        resolve_outcome(
            s,
            op->Resolve_qid,
            seats(op->Resolve_workers@),
            seats(op->Resolve_losers@),
        ) is Ok,
        resolve_fits(s, op->Resolve_qid, seats(op->Resolve_workers@), seats(op->Resolve_losers@)),
        0 <= w < WORKERS,
    ensures
        ({
            let t = resolve_next(
                s,
                op->Resolve_qid,
                seats(op->Resolve_workers@),
                seats(op->Resolve_losers@),
            );
            let c = predicted_books(b, op);
            let who = seat(T_WORKER0 + w);
            &&& t.recorded_stake(who).active() == c.stake[w]
            &&& t.recorded_stake(who).unbonding == c.unbonding[w]
            &&& t.recorded_stake(who).unbonding_release_at == c.release_at[w]
            &&& t.owed_to(who) == c.owed[w]
        }),
{
    let qid = op->Resolve_qid;
    let ws = op->Resolve_workers@;
    let ls = op->Resolve_losers@;
    let who = seat(T_WORKER0 + w);
    claims_are_bounded(b);
    assert(s.questions.contains_key(qid));
    assert(b.is_pending(qid));
    let amount = b.questions[qid].amount as int;
    split_is_exact(amount, ws.len() as int);
    a_resolution_touches_only_its_quorum(s, qid, seats(ws), seats(ls), who);
    seats_contain(ws, w);
    seats_contain(ls, w);
    a_slash_is_the_cut(b, s, held, w, amount);
    a_cut_is_bounded(b, w, amount);
    assert(b.owed[w] == s.owed_to(who));
    assert(b.stake[w] == s.recorded_stake(who).active());
    assert(b.unbonding[w] == s.recorded_stake(who).unbonding);
    assert(b.release_at[w] == s.recorded_stake(who).unbonding_release_at);
}

/// The questions after a resolution.
proof fn resolved_questions_agree(
    b: Books,
    s: State,
    held: Map<u64, i128>,
    qid: u64,
    workers: Seq<Address>,
    losers: Seq<Address>,
    c: Books,
)
    requires
        agree(b, s, held),
        resolve_outcome(s, qid, workers, losers) is Ok,
        c.questions == b.questions.insert(
            qid,
            ModelQuestion { status: Status::Resolved, ..b.questions[qid] },
        ),
    ensures
        questions_agree(c, cleared(resolve_next(s, qid, workers, losers))),
{
    let t = cleared(resolve_next(s, qid, workers, losers));
    let call = Call::Resolve { id: qid, workers, losing_workers: losers };
    assert forall|id: u64| #[trigger]
        t.questions.contains_key(id) <==> c.questions.contains_key(id) by {
        assert(s.questions.contains_key(id) <==> b.questions.contains_key(id));
        if s.questions.contains_key(id) {
            questions_only_change_status(s, call, id);
        } else {
            questions_are_opened_pending(s, call, id);
        }
    }
    assert forall|id: u64| #[trigger] t.questions.contains_key(id) implies t.questions[id]
        == entry_of(c.questions[id]) by {
        if s.questions.contains_key(id) {
            questions_only_change_status(s, call, id);
        } else {
            questions_are_opened_pending(s, call, id);
        }
    }
}

/// Resolving goes as predicted.
pub proof fn resolve_follows(b: Books, s: State, held: Map<u64, i128>, op: Op)
    requires
        agree(b, s, held),
        b.sound(),
        b.room(),
        in_bounds(b, op),
        op is Resolve,
    ensures
        ({
            let qid = op->Resolve_qid;
            let workers = seats(op->Resolve_workers@);
            let losers = seats(op->Resolve_losers@);
            let result = resolve_outcome(s, qid, workers, losers);
            &&& result is Ok ==> resolve_fits(s, qid, workers, losers)
            &&& follows(
                b,
                held,
                op,
                result,
                if result is Ok {
                    resolve_next(s, qid, workers, losers)
                } else {
                    s.ask_admin()
                },
            )
        }),
{
    broadcast use carried_out_after_push;

    let qid = op->Resolve_qid;
    let workers = op->Resolve_workers@;
    let losers = op->Resolve_losers@;
    seats_are_distinct(workers, losers);
    assert(s.questions.contains_key(qid) <==> b.questions.contains_key(qid));
    assert(carried_out(held, s.effects) == Some(held));
    if predicted(b, op) == Outcome::Done {
        resolving_agrees(b, s, held, op);
    }
}

} // verus!
