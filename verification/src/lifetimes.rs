//! What is written is kept alive, and a question outlives its refund deadline.
use crate::calls::Call;
use crate::env::State;
use crate::limits::{MAX_TIMEOUT_LEDGERS, PERSISTENT_TTL_EXTEND_TO, REFUND_GRACE_LEDGERS};
use crate::questions::{funds_requested, opened_question};
use crate::settlement::{share, slash_cap};
use crate::types::{Address, DataKey, Effect, Question, Status};
use crate::upkeep::{touch_next, touch_question_next};
use vstd::prelude::*;

verus! {

/// Refreshing lifetimes changes no entry.
pub proof fn upkeep_changes_nothing(s: State, account: Address, id: u64)
    ensures
        touch_next(s, account).same_entries(s),
        touch_question_next(s, id).same_entries(s),
{
}

/// A question's entry is kept past its refund deadline by the whole grace period, as far as the
/// network allows.
pub proof fn a_question_outlives_its_deadline(s: State, question: Question)
    requires
        s.sequence <= question.spec_deadline(),
        question.spec_deadline() - s.sequence + REFUND_GRACE_LEDGERS <= s.max_ttl,
    ensures
        s.sequence + s.question_lifetime(question) >= question.spec_deadline()
            + REFUND_GRACE_LEDGERS,
        s.question_lifetime(question) <= s.max_ttl,
{
}

/// A question opened here with a configurable window gets the normal lifetime, which covers its
/// deadline and the grace period with room to spare.
pub proof fn opened_questions_get_the_normal_lifetime(s: State, question: Question)
    requires
        question.created_at == s.sequence,
        question.timeout_ledgers <= MAX_TIMEOUT_LEDGERS,
        PERSISTENT_TTL_EXTEND_TO <= s.max_ttl,
    ensures
        s.question_lifetime(question) == PERSISTENT_TTL_EXTEND_TO,
        MAX_TIMEOUT_LEDGERS + REFUND_GRACE_LEDGERS < PERSISTENT_TTL_EXTEND_TO,
{
}

/// Whether a request asks to keep `key` alive.
pub open spec fn extends(effect: Effect, key: DataKey) -> bool {
    effect matches Effect::ExtendEntry { key: k, .. } && k == key
}

/// Whether any request asks to keep `key` alive.
pub open spec fn asks_to_extend(effects: Seq<Effect>, key: DataKey) -> bool
    decreases effects.len(),
{
    effects.len() > 0 && (asks_to_extend(effects.drop_last(), key) || extends(effects.last(), key))
}

/// One more request extends an entry if it names it.
pub broadcast proof fn extended_after_push(effects: Seq<Effect>, effect: Effect, key: DataKey)
    ensures
        #[trigger] asks_to_extend(effects.push(effect), key) == (asks_to_extend(effects, key)
            || extends(effect, key)),
{
    assert(effects.push(effect).drop_last() == effects);
}

/// Whether any request asks to keep the instance alive.
pub open spec fn asks_to_extend_instance(effects: Seq<Effect>) -> bool
    decreases effects.len(),
{
    effects.len() > 0 && (asks_to_extend_instance(effects.drop_last())
        || effects.last() is ExtendInstance)
}

/// One more request extends the instance if it says so.
pub broadcast proof fn instance_extended_after_push(effects: Seq<Effect>, effect: Effect)
    ensures
        #[trigger] asks_to_extend_instance(effects.push(effect)) == (asks_to_extend_instance(
            effects,
        ) || effect is ExtendInstance),
{
    assert(effects.push(effect).drop_last() == effects);
}

/// From `s` to `t`: every entry that was written was also asked to be kept alive.
pub open spec fn writes_kept_alive(s: State, t: State) -> bool {
    &&& forall|id: u64|
        #![trigger t.questions.contains_key(id)]
        t.questions.contains_key(id) && !(s.questions.contains_key(id) && s.questions[id]
            == t.questions[id]) ==> asks_to_extend(t.effects, DataKey::Question(id))
    &&& forall|a: Address|
        #![trigger t.stakes.contains_key(a.id)]
        t.stakes.contains_key(a.id) && !(s.stakes.contains_key(a.id) && s.stakes[a.id]
            == t.stakes[a.id]) ==> asks_to_extend(t.effects, DataKey::Stake(a))
    &&& forall|a: Address|
        #![trigger t.owed.contains_key(a.id)]
        t.owed.contains_key(a.id) && !(s.owed.contains_key(a.id) && s.owed[a.id] == t.owed[a.id])
            ==> asks_to_extend(t.effects, DataKey::Owed(a))
    &&& forall|a: Address|
        #![trigger t.balances.contains_key(a.id)]
        t.balances.contains_key(a.id) && !(s.balances.contains_key(a.id) && s.balances[a.id]
            == t.balances[a.id]) ==> asks_to_extend(t.effects, DataKey::Balance(a))
    &&& forall|slot: u32|
        #![trigger t.pending_at.contains_key(slot)]
        t.pending_at.contains_key(slot) && !(s.pending_at.contains_key(slot) && s.pending_at[slot]
            == t.pending_at[slot]) ==> asks_to_extend(t.effects, DataKey::PendingAt(slot))
    &&& forall|id: u64|
        #![trigger t.pending_pos.contains_key(id)]
        t.pending_pos.contains_key(id) && !(s.pending_pos.contains_key(id) && s.pending_pos[id]
            == t.pending_pos[id]) ==> asks_to_extend(t.effects, DataKey::PendingPos(id))
    &&& t.pending_count != s.pending_count ==> asks_to_extend(t.effects, DataKey::PendingCount)
}

/// Requests only accumulate: what was asked before a step is still asked after it.
pub open spec fn requests_accumulate(s: State, t: State) -> bool {
    &&& forall|key: DataKey| #[trigger]
        asks_to_extend(t.effects, key) || !asks_to_extend(s.effects, key)
    &&& asks_to_extend_instance(s.effects) ==> asks_to_extend_instance(t.effects)
}

/// Two steps that keep their writes alive make one.
proof fn steps_join(s: State, mid: State, t: State)
    requires
        writes_kept_alive(s, mid),
        writes_kept_alive(mid, t),
        requests_accumulate(mid, t),
    ensures
        writes_kept_alive(s, t),
{
    assert forall|id: u64|
        #![trigger t.questions.contains_key(id)]
        t.questions.contains_key(id) && !(s.questions.contains_key(id) && s.questions[id]
            == t.questions[id]) implies asks_to_extend(t.effects, DataKey::Question(id)) by {
        assert(mid.questions.contains_key(id) || !mid.questions.contains_key(id));
        assert(asks_to_extend(t.effects, DataKey::Question(id)) || !asks_to_extend(
            mid.effects,
            DataKey::Question(id),
        ));
    }
    assert forall|a: Address|
        #![trigger t.stakes.contains_key(a.id)]
        t.stakes.contains_key(a.id) && !(s.stakes.contains_key(a.id) && s.stakes[a.id]
            == t.stakes[a.id]) implies asks_to_extend(t.effects, DataKey::Stake(a)) by {
        assert(mid.stakes.contains_key(a.id) || !mid.stakes.contains_key(a.id));
        assert(asks_to_extend(t.effects, DataKey::Stake(a)) || !asks_to_extend(
            mid.effects,
            DataKey::Stake(a),
        ));
    }
    assert forall|a: Address|
        #![trigger t.owed.contains_key(a.id)]
        t.owed.contains_key(a.id) && !(s.owed.contains_key(a.id) && s.owed[a.id]
            == t.owed[a.id]) implies asks_to_extend(t.effects, DataKey::Owed(a)) by {
        assert(mid.owed.contains_key(a.id) || !mid.owed.contains_key(a.id));
        assert(asks_to_extend(t.effects, DataKey::Owed(a)) || !asks_to_extend(
            mid.effects,
            DataKey::Owed(a),
        ));
    }
    assert forall|a: Address|
        #![trigger t.balances.contains_key(a.id)]
        t.balances.contains_key(a.id) && !(s.balances.contains_key(a.id) && s.balances[a.id]
            == t.balances[a.id]) implies asks_to_extend(t.effects, DataKey::Balance(a)) by {
        assert(mid.balances.contains_key(a.id) || !mid.balances.contains_key(a.id));
        assert(asks_to_extend(t.effects, DataKey::Balance(a)) || !asks_to_extend(
            mid.effects,
            DataKey::Balance(a),
        ));
    }
    assert forall|slot: u32|
        #![trigger t.pending_at.contains_key(slot)]
        t.pending_at.contains_key(slot) && !(s.pending_at.contains_key(slot) && s.pending_at[slot]
            == t.pending_at[slot]) implies asks_to_extend(
        t.effects,
        DataKey::PendingAt(slot),
    ) by {
        assert(mid.pending_at.contains_key(slot) || !mid.pending_at.contains_key(slot));
        assert(asks_to_extend(t.effects, DataKey::PendingAt(slot)) || !asks_to_extend(
            mid.effects,
            DataKey::PendingAt(slot),
        ));
    }
    assert forall|id: u64|
        #![trigger t.pending_pos.contains_key(id)]
        t.pending_pos.contains_key(id) && !(s.pending_pos.contains_key(id) && s.pending_pos[id]
            == t.pending_pos[id]) implies asks_to_extend(
        t.effects,
        DataKey::PendingPos(id),
    ) by {
        assert(mid.pending_pos.contains_key(id) || !mid.pending_pos.contains_key(id));
        assert(asks_to_extend(t.effects, DataKey::PendingPos(id)) || !asks_to_extend(
            mid.effects,
            DataKey::PendingPos(id),
        ));
    }
    assert(asks_to_extend(t.effects, DataKey::PendingCount) || !asks_to_extend(
        mid.effects,
        DataKey::PendingCount,
    ));
}

proof fn settling_is_kept_alive(s: State, id: u64, status: Status)
    ensures
        writes_kept_alive(s, s.settle_question(id, status)),
        requests_accumulate(s, s.settle_question(id, status)),
        asks_to_extend_instance(s.settle_question(id, status).effects),
{
    broadcast use {extended_after_push, instance_extended_after_push};

}

proof fn recording_is_kept_alive(s: State, id: u64, question: Question)
    ensures
        writes_kept_alive(s, s.record_question(id, question)),
        requests_accumulate(s, s.record_question(id, question)),
        asks_to_extend_instance(s.record_question(id, question).effects),
{
    broadcast use {extended_after_push, instance_extended_after_push};

}

proof fn slashing_is_kept_alive(s: State, losers: Seq<Address>, cap: int)
    ensures
        writes_kept_alive(s, s.slash_all(losers, cap)),
        requests_accumulate(s, s.slash_all(losers, cap)),
    decreases losers.len(),
{
    broadcast use {extended_after_push, instance_extended_after_push};

    if losers.len() > 0 {
        let mid = s.slash_all(losers.drop_last(), cap);
        slashing_is_kept_alive(s, losers.drop_last(), cap);
        steps_join(s, mid, mid.slash_one(losers.last(), cap));
    }
}

proof fn crediting_is_kept_alive(s: State, workers: Seq<Address>, amount: i128)
    ensures
        writes_kept_alive(s, s.credit_all(workers, amount)),
        requests_accumulate(s, s.credit_all(workers, amount)),
    decreases workers.len(),
{
    broadcast use {extended_after_push, instance_extended_after_push};

    if workers.len() > 0 {
        let mid = s.credit_all(workers.drop_last(), amount);
        crediting_is_kept_alive(s, workers.drop_last(), amount);
        steps_join(s, mid, s.credit_all(workers, amount));
    }
}

proof fn migrating_is_kept_alive(s: State, ids: Seq<u64>, target: Address)
    ensures
        writes_kept_alive(s, s.migrate_all(ids, target)),
        requests_accumulate(s, s.migrate_all(ids, target)),
        ids.len() > 0 ==> asks_to_extend_instance(s.migrate_all(ids, target).effects),
    decreases ids.len(),
{
    broadcast use {extended_after_push, instance_extended_after_push};

    if ids.len() > 0 {
        let mid = s.migrate_all(ids.drop_last(), target);
        let asked = mid.hand_over(ids.last(), target);
        migrating_is_kept_alive(s, ids.drop_last(), target);
        steps_join(s, mid, asked);
        settling_is_kept_alive(asked, ids.last(), Status::Migrated);
        steps_join(s, asked, s.migrate_all(ids, target));
    }
}

proof fn closing_calls_are_kept_alive(s: State, call: Call)
    requires
        call.accepted(s),
        call is Resolve || call is Refund || call is RefundTimeout || call is MigratePending,
    ensures
        writes_kept_alive(s, call.next(s)),
        asks_to_extend_instance(call.next(s).effects) || (call matches Call::MigratePending {
            ids,
            ..
        } && ids.len() == 0),
{
    broadcast use {extended_after_push, instance_extended_after_push};

    match call {
        Call::Resolve { id, workers, losing_workers } => {
            let amount = s.questions[id].amount as int;
            let each = share(amount, workers.len() as int) as i128;
            let asked = s.ask_admin();
            let slashed = asked.slash_all(losing_workers, slash_cap(amount));
            let credited = slashed.credit_all(workers, each);
            let settled = credited.settle_question(id, Status::Resolved);
            slashing_is_kept_alive(asked, losing_workers, slash_cap(amount));
            steps_join(s, asked, slashed);
            crediting_is_kept_alive(slashed, workers, each);
            steps_join(s, slashed, credited);
            settling_is_kept_alive(credited, id, Status::Resolved);
            steps_join(s, credited, settled);
            steps_join(s, settled, call.next(s));
        },
        Call::MigratePending { ids, target } => {
            migrating_is_kept_alive(s.ask_admin(), ids, target);
            steps_join(s, s.ask_admin(), call.next(s));
        },
        Call::Refund { id } => {
            let settled = s.ask_admin().settle_question(id, Status::Refunded);
            settling_is_kept_alive(s.ask_admin(), id, Status::Refunded);
            steps_join(s, s.ask_admin(), settled);
            steps_join(s, settled, call.next(s));
        },
        Call::RefundTimeout { id } => {
            let settled = s.settle_question(id, Status::Refunded);
            settling_is_kept_alive(s, id, Status::Refunded);
            steps_join(s, settled, call.next(s));
        },
        _ => {},
    }
}

proof fn opening_calls_are_kept_alive(s: State, call: Call)
    requires
        call.accepted(s),
        call is Submit || call is Charge || call is ImportQuestion,
    ensures
        writes_kept_alive(s, call.next(s)),
        asks_to_extend_instance(call.next(s).effects),
{
    broadcast use {extended_after_push, instance_extended_after_push};

    match call {
        Call::Submit { payer, id, amount } => {
            let a = funds_requested(s, payer, amount);
            recording_is_kept_alive(a, id, opened_question(a, payer, amount));
            steps_join(s, a, call.next(s));
        },
        Call::Charge { payer, id, amount } => {
            let a = s.ask_admin().put_balance(payer, (s.balance_of(payer) - amount) as i128);
            recording_is_kept_alive(a, id, opened_question(a, payer, amount));
            steps_join(s, a, call.next(s));
        },
        Call::ImportQuestion { source, id, payer, amount, created_at, timeout_ledgers, .. } => {
            let a = s.require_auth(source).transfer(s.config.token->0, source, s.this, amount);
            recording_is_kept_alive(
                a,
                id,
                Question { payer, amount, status: Status::Pending, created_at, timeout_ledgers },
            );
            steps_join(s, a, call.next(s));
        },
        _ => {},
    }
}

proof fn funds_calls_are_kept_alive(s: State, call: Call)
    requires
        call.accepted(s),
        call is Deposit || call is WithdrawBalance || call is Stake || call is BeginUnstake
            || call is CompleteUnstake || call is Withdraw,
    ensures
        writes_kept_alive(s, call.next(s)),
        asks_to_extend_instance(call.next(s).effects),
{
    broadcast use {extended_after_push, instance_extended_after_push};

    match call {
        Call::Deposit { payer, amount } => {},
        Call::WithdrawBalance { payer, amount } => {},
        Call::Stake { worker, amount } => {},
        Call::BeginUnstake { worker, amount } => {},
        Call::CompleteUnstake { worker } => {},
        Call::Withdraw { worker, beneficiary, amount } => {},
        _ => {},
    }
}

proof fn other_calls_are_kept_alive(s: State, call: Call)
    requires
        call.accepted(s),
        call is Initialize || call is SetAdmin || call is SetTimeoutLedgers || call is Touch
            || call is TouchQuestion || call is ProposeUpgrade || call is CancelUpgrade
            || call is ExecuteUpgrade || call is SetMigrationSource || call is ClearMigrationSource,
    ensures
        writes_kept_alive(s, call.next(s)),
        asks_to_extend_instance(call.next(s).effects),
{
    broadcast use instance_extended_after_push;

}

/// The upkeep law: every entry that a call writes is asked to be kept alive by that same call,
/// and so is the instance. Handing over no question at all is the one call that writes nothing
/// and asks for nothing.
pub proof fn every_write_is_kept_alive(s: State, call: Call)
    requires
        s.effects.len() == 0,
        call.accepted(s),
    ensures
        writes_kept_alive(s, call.next(s)),
        asks_to_extend_instance(call.next(s).effects) || (call matches Call::MigratePending {
            ids,
            ..
        } && ids.len() == 0),
{
    match call {
        Call::Resolve { .. }
        | Call::Refund { .. }
        | Call::RefundTimeout { .. }
        | Call::MigratePending { .. } => {
            closing_calls_are_kept_alive(s, call);
        },
        Call::Submit { .. } | Call::Charge { .. } | Call::ImportQuestion { .. } => {
            opening_calls_are_kept_alive(s, call);
        },
        Call::Deposit { .. }
        | Call::WithdrawBalance { .. }
        | Call::Stake { .. }
        | Call::BeginUnstake { .. }
        | Call::CompleteUnstake { .. }
        | Call::Withdraw { .. } => {
            funds_calls_are_kept_alive(s, call);
        },
        _ => {
            other_calls_are_kept_alive(s, call);
        },
    }
}

} // verus!
