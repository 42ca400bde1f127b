//! A watcher of the events alone knows what is pending.
use crate::calls::Call;
use crate::env::State;
use crate::migration::{migrate_all_frame, movable_prefix_is_maximal};
use crate::questions::{funds_requested, opened_question};
use crate::settlement::{credit_all_frame, share, slash_all_frame, slash_cap};
use crate::types::{Address, Effect, Event, Question, Status};
use vstd::prelude::*;

verus! {

/// The ids that were announced as opened and not yet as settled.
pub open spec fn announced(effects: Seq<Effect>) -> Set<u64>
    decreases effects.len(),
{
    if effects.len() == 0 {
        Set::empty()
    } else {
        announce(announced(effects.drop_last()), effects.last())
    }
}

pub open spec fn announce(pending: Set<u64>, effect: Effect) -> Set<u64> {
    match effect {
        Effect::Publish { event: Event::Opened(opened) } => pending.insert(opened.question_id),
        Effect::Publish { event: Event::Settled(settled) } => pending.remove(settled.question_id),
        _ => pending,
    }
}

/// One more request changes what is announced by that request alone.
pub broadcast proof fn announced_after_push(effects: Seq<Effect>, effect: Effect)
    ensures
        #[trigger] announced(effects.push(effect)) == announce(announced(effects), effect),
{
    assert(effects.push(effect).drop_last() == effects);
}

impl State {
    /// The events so far tell exactly what is pending.
    pub open spec fn announced_right(self) -> bool {
        forall|id: u64| #[trigger] announced(self.effects).contains(id) <==> self.is_pending(id)
    }
}

proof fn settling_is_announced(s: State, id: u64, status: Status)
    requires
        s.announced_right(),
        s.is_pending(id),
        status != Status::Pending,
    ensures
        s.settle_question(id, status).announced_right(),
{
    broadcast use announced_after_push;

    let a = s.put_question(id, s.questions[id].with_status(status)).index_remove(id);
    assert(announced(a.effects) == announced(s.effects));
    let t = s.settle_question(id, status);
    assert(announced(t.effects) == announced(s.effects).remove(id));
    assert forall|other: u64| #[trigger] announced(t.effects).contains(other) <==> t.is_pending(
        other,
    ) by {
        assert(announced(s.effects).contains(other) <==> s.is_pending(other));
    }
}

proof fn recording_is_announced(s: State, id: u64, question: Question)
    requires
        s.announced_right(),
        question.status == Status::Pending,
    ensures
        s.record_question(id, question).announced_right(),
{
    broadcast use announced_after_push;

    let t = s.record_question(id, question);
    assert(announced(t.effects) == announced(s.effects).insert(id));
    assert forall|other: u64| #[trigger] announced(t.effects).contains(other) <==> t.is_pending(
        other,
    ) by {
        assert(announced(s.effects).contains(other) <==> s.is_pending(other));
    }
}

proof fn slashing_announces_nothing(s: State, losers: Seq<Address>, cap: int)
    ensures
        announced(s.slash_all(losers, cap).effects) == announced(s.effects),
    decreases losers.len(),
{
    broadcast use announced_after_push;

    if losers.len() > 0 {
        slashing_announces_nothing(s, losers.drop_last(), cap);
    }
}

proof fn crediting_announces_nothing(s: State, workers: Seq<Address>, amount: i128)
    ensures
        announced(s.credit_all(workers, amount).effects) == announced(s.effects),
    decreases workers.len(),
{
    broadcast use announced_after_push;

    if workers.len() > 0 {
        crediting_announces_nothing(s, workers.drop_last(), amount);
    }
}

proof fn migrating_is_announced(s: State, ids: Seq<u64>, target: Address)
    requires
        s.wf(),
        s.announced_right(),
        forall|i: int|
            0 <= i < ids.len() ==> s.is_pending(#[trigger] ids[i]) && !ids.take(i).contains(ids[i]),
    ensures
        s.migrate_all(ids, target).announced_right(),
    decreases ids.len(),
{
    broadcast use announced_after_push;

    if ids.len() > 0 {
        let before = ids.drop_last();
        let last = ids.last();
        assert forall|i: int| 0 <= i < before.len() implies s.is_pending(#[trigger] before[i])
            && !before.take(i).contains(before[i]) by {
            assert(before[i] == ids[i]);
            assert(before.take(i) == ids.take(i));
        }
        migrating_is_announced(s, before, target);
        migrate_all_frame(s, before, target);
        assert(ids[ids.len() - 1] == last);
        assert(ids.take(ids.len() - 1) == before);
        let mid = s.migrate_all(before, target);
        assert(mid.is_pending(last));
        let asked = mid.hand_over(last, target);
        same_questions_same_announcements(mid, asked);
        settling_is_announced(asked, last, Status::Migrated);
    }
}

proof fn closing_calls_are_announced(s: State, call: Call)
    requires
        s.wf(),
        s.announced_right(),
        call.accepted(s),
        call is Resolve || call is Refund || call is RefundTimeout || call is MigratePending,
    ensures
        call.next(s).announced_right(),
{
    broadcast use announced_after_push;

    match call {
        Call::Resolve { id, workers, losing_workers } => {
            let amount = s.questions[id].amount as int;
            let each = share(amount, workers.len() as int) as i128;
            let asked = s.ask_admin();
            let slashed = asked.slash_all(losing_workers, slash_cap(amount));
            let credited = slashed.credit_all(workers, each);
            slash_all_frame(asked, losing_workers, slash_cap(amount));
            credit_all_frame(slashed, workers, each);
            slashing_announces_nothing(asked, losing_workers, slash_cap(amount));
            crediting_announces_nothing(slashed, workers, each);
            assert(announced(credited.effects) == announced(s.effects));
            assert forall|other: u64| #[trigger] announced(credited.effects).contains(
                other,
            ) <==> credited.is_pending(other) by {
                assert(announced(s.effects).contains(other) <==> s.is_pending(other));
            }
            settling_is_announced(credited, id, Status::Resolved);
            let settled = credited.settle_question(id, Status::Resolved);
            same_questions_same_announcements(settled, call.next(s));
        },
        Call::MigratePending { ids, target } => {
            movable_prefix_is_maximal(s, ids);
            same_questions_same_announcements(s, s.ask_admin());
            migrating_is_announced(s.ask_admin(), ids, target);
        },
        Call::Refund { id } => {
            same_questions_same_announcements(s, s.ask_admin());
            settling_is_announced(s.ask_admin(), id, Status::Refunded);
            let settled = s.ask_admin().settle_question(id, Status::Refunded);
            same_questions_same_announcements(settled, call.next(s));
        },
        Call::RefundTimeout { id } => {
            settling_is_announced(s, id, Status::Refunded);
            let settled = s.settle_question(id, Status::Refunded);
            same_questions_same_announcements(settled, call.next(s));
        },
        _ => {},
    }
}

proof fn same_questions_same_announcements(s: State, t: State)
    requires
        s.announced_right(),
        s.questions == t.questions,
        announced(s.effects) == announced(t.effects),
    ensures
        t.announced_right(),
{
    assert forall|id: u64| #[trigger] announced(t.effects).contains(id) <==> t.is_pending(id) by {
        assert(announced(s.effects).contains(id) <==> s.is_pending(id));
    }
}

proof fn opening_calls_are_announced(s: State, call: Call)
    requires
        s.announced_right(),
        call.accepted(s),
        call is Submit || call is Charge || call is ImportQuestion,
    ensures
        call.next(s).announced_right(),
{
    broadcast use announced_after_push;

    match call {
        Call::Submit { payer, id, amount } => {
            let a = funds_requested(s, payer, amount);
            same_questions_same_announcements(s, a);
            recording_is_announced(a, id, opened_question(a, payer, amount));
        },
        Call::Charge { payer, id, amount } => {
            let a = s.ask_admin().put_balance(payer, (s.balance_of(payer) - amount) as i128);
            same_questions_same_announcements(s, a);
            recording_is_announced(a, id, opened_question(a, payer, amount));
        },
        Call::ImportQuestion { source, id, payer, amount, created_at, timeout_ledgers, .. } => {
            let a = s.require_auth(source).transfer(s.config.token->0, source, s.this, amount);
            same_questions_same_announcements(s, a);
            recording_is_announced(
                a,
                id,
                Question { payer, amount, status: Status::Pending, created_at, timeout_ledgers },
            );
        },
        _ => {},
    }
}

proof fn funds_calls_announce_nothing(s: State, call: Call)
    requires
        call.accepted(s),
        call is Deposit || call is WithdrawBalance || call is Stake || call is BeginUnstake
            || call is CompleteUnstake || call is Withdraw,
    ensures
        announced(call.next(s).effects) == announced(s.effects),
        call.next(s).questions == s.questions,
{
    broadcast use announced_after_push;

    match call {
        Call::Deposit { payer, amount } => {},
        Call::WithdrawBalance { payer, amount } => {},
        Call::Stake { worker, amount } => {},
        Call::BeginUnstake { worker, amount } => {},
        Call::CompleteUnstake { worker } => {},
        Call::Withdraw { worker, beneficiary, amount } => {},
        _ => {},
    }
}

proof fn other_calls_announce_nothing(s: State, call: Call)
    requires
        call.accepted(s),
        call is Initialize || call is SetAdmin || call is SetTimeoutLedgers || call is Touch
            || call is TouchQuestion || call is ProposeUpgrade || call is CancelUpgrade
            || call is ExecuteUpgrade || call is SetMigrationSource || call is ClearMigrationSource,
    ensures
        announced(call.next(s).effects) == announced(s.effects),
        call.next(s).questions == s.questions,
{
    broadcast use announced_after_push;

}

/// The events law: whatever is called, replaying the opened and settled events yields exactly
/// the pending questions.
pub proof fn every_call_is_announced_right(s: State, call: Call)
    requires
        s.wf(),
        s.announced_right(),
    ensures
        call.after(s).announced_right(),
{
    if call.accepted(s) {
        match call {
            Call::Resolve { .. }
            | Call::Refund { .. }
            | Call::RefundTimeout { .. }
            | Call::MigratePending { .. } => {
                closing_calls_are_announced(s, call);
            },
            Call::Submit { .. } | Call::Charge { .. } | Call::ImportQuestion { .. } => {
                opening_calls_are_announced(s, call);
            },
            Call::Deposit { .. }
            | Call::WithdrawBalance { .. }
            | Call::Stake { .. }
            | Call::BeginUnstake { .. }
            | Call::CompleteUnstake { .. }
            | Call::Withdraw { .. } => {
                funds_calls_announce_nothing(s, call);
                same_questions_same_announcements(s, call.next(s));
            },
            _ => {
                other_calls_announce_nothing(s, call);
                same_questions_same_announcements(s, call.next(s));
            },
        }
    }
}

} // verus!
