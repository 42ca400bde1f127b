//! How long what a call keeps alive is kept alive, and what upkeep keeps alive.
use crate::calls::Call;
use crate::env::State;
use crate::migration::{import_question_asked, migrate_pending_asked};
use crate::questions::funds_requested;
use crate::settlement::{share, slash_cap};
use crate::types::{Address, DataKey, Effect, Status};
use crate::upkeep::{touch_next, touch_question_next};
use vstd::prelude::*;

verus! {

/// Whether a request keeps something alive for less than it should: the instance and every entry
/// are kept for 500,000 ledgers, or, a question's entry, for whatever it takes; and a request takes
/// effect as soon as a day of that is gone.
pub open spec fn is_short(effect: Effect) -> bool {
    match effect {
        Effect::ExtendInstance { threshold, extend_to } => threshold != 482_720 || extend_to
            != 500_000,
        Effect::ExtendEntry { key, threshold, extend_to } => {
            ||| !(key is Question) && extend_to != 500_000
            ||| extend_to >= 17_280 && threshold != extend_to - 17_280
            ||| extend_to < 17_280 && threshold != 0
        },
        _ => false,
    }
}

/// Whether any request falls short.
pub open spec fn any_short(effects: Seq<Effect>) -> bool
    decreases effects.len(),
{
    effects.len() > 0 && (any_short(effects.drop_last()) || is_short(effects.last()))
}

pub broadcast proof fn short_after_push(effects: Seq<Effect>, effect: Effect)
    ensures
        #[trigger] any_short(effects.push(effect)) == (any_short(effects) || is_short(effect)),
{
    assert(effects.push(effect).drop_last() == effects);
}

/// How often `effects` ask to keep `key` alive.
pub open spec fn times_extended(effects: Seq<Effect>, key: DataKey) -> nat
    decreases effects.len(),
{
    if effects.len() == 0 {
        0
    } else {
        times_extended(effects.drop_last(), key) + (if effects.last() matches Effect::ExtendEntry {
            key: k,
            ..
        } && k == key {
            1nat
        } else {
            0nat
        })
    }
}

pub broadcast proof fn times_after_push(effects: Seq<Effect>, effect: Effect, key: DataKey)
    ensures
        #[trigger] times_extended(effects.push(effect), key) == times_extended(effects, key) + (
        if effect matches Effect::ExtendEntry { key: k, .. } && k == key {
            1nat
        } else {
            0nat
        }),
{
    assert(effects.push(effect).drop_last() == effects);
}

/// For how long `key` was last asked to be kept alive.
pub open spec fn kept_for(effects: Seq<Effect>, key: DataKey) -> Option<u32>
    decreases effects.len(),
{
    if effects.len() == 0 {
        None
    } else {
        match effects.last() {
            Effect::ExtendEntry { key: k, extend_to, .. } if k == key => Some(extend_to),
            _ => kept_for(effects.drop_last(), key),
        }
    }
}

pub broadcast proof fn kept_after_push(effects: Seq<Effect>, effect: Effect, key: DataKey)
    ensures
        #[trigger] kept_for(effects.push(effect), key) == (match effect {
            Effect::ExtendEntry { key: k, extend_to, .. } if k == key => Some(extend_to),
            _ => kept_for(effects, key),
        }),
{
    assert(effects.push(effect).drop_last() == effects);
}

proof fn lists_fall_short_of_nothing(
    s: State,
    losers: Seq<Address>,
    cap: int,
    workers: Seq<Address>,
    amount: i128,
)
    ensures
        any_short(s.slash_all(losers, cap).effects) == any_short(s.effects),
        any_short(s.credit_all(workers, amount).effects) == any_short(s.effects),
    decreases losers.len() + workers.len(),
{
    broadcast use short_after_push;

    if losers.len() > 0 {
        lists_fall_short_of_nothing(s, losers.drop_last(), cap, workers, amount);
    }
    if workers.len() > 0 {
        lists_fall_short_of_nothing(s, losers, cap, workers.drop_last(), amount);
    }
}

proof fn batches_fall_short_of_nothing(s: State, ids: Seq<u64>, target: Address)
    ensures
        any_short(s.migrate_all(ids, target).effects) == any_short(s.effects),
    decreases ids.len(),
{
    broadcast use short_after_push;

    if ids.len() > 0 {
        batches_fall_short_of_nothing(s, ids.drop_last(), target);
    }
}

proof fn closing_calls_fall_short_of_nothing(s: State, call: Call)
    requires
        call is Resolve || call is Refund || call is RefundTimeout || call is MigratePending,
    ensures
        any_short(call.next(s).effects) == any_short(s.effects),
{
    broadcast use short_after_push;

    match call {
        Call::Resolve { id, workers, losing_workers } => {
            let amount = s.questions[id].amount as int;
            let each = share(amount, workers.len() as int) as i128;
            let cap = slash_cap(amount);
            let slashed = s.ask_admin().slash_all(losing_workers, cap);
            lists_fall_short_of_nothing(s.ask_admin(), losing_workers, cap, Seq::empty(), 0);
            lists_fall_short_of_nothing(slashed, Seq::empty(), cap, workers, each);
        },
        Call::MigratePending { ids, target } => {
            batches_fall_short_of_nothing(s.ask_admin(), ids, target);
        },
        _ => {},
    }
}

proof fn opening_calls_fall_short_of_nothing(s: State, call: Call)
    requires
        call is Submit || call is Charge || call is ImportQuestion,
    ensures
        any_short(call.next(s).effects) == any_short(s.effects),
{
    broadcast use short_after_push;

}

proof fn funds_calls_fall_short_of_nothing(s: State, call: Call)
    requires
        call is Deposit || call is WithdrawBalance || call is Stake || call is BeginUnstake
            || call is CompleteUnstake || call is Withdraw,
    ensures
        any_short(call.next(s).effects) == any_short(s.effects),
{
    broadcast use short_after_push;

}

proof fn upkeep_falls_short_of_nothing(s: State, call: Call)
    requires
        call is Touch || call is TouchQuestion,
    ensures
        any_short(call.next(s).effects) == any_short(s.effects),
{
    broadcast use short_after_push;

}

proof fn other_calls_fall_short_of_nothing(s: State, call: Call)
    requires
        call is Initialize || call is SetAdmin || call is SetTimeoutLedgers
            || call is ProposeUpgrade || call is CancelUpgrade || call is ExecuteUpgrade
            || call is SetMigrationSource || call is ClearMigrationSource,
    ensures
        any_short(call.next(s).effects) == any_short(s.effects),
{
    broadcast use short_after_push;

}

/// The extension law: whatever a call keeps alive, it keeps alive for the whole term.
pub proof fn no_extension_falls_short(s: State, call: Call)
    requires
        call.accepted(s),
    ensures
        any_short(call.next(s).effects) == any_short(s.effects),
{
    match call {
        Call::Resolve { .. }
        | Call::Refund { .. }
        | Call::RefundTimeout { .. }
        | Call::MigratePending { .. } => {
            closing_calls_fall_short_of_nothing(s, call);
        },
        Call::Submit { .. } | Call::Charge { .. } | Call::ImportQuestion { .. } => {
            opening_calls_fall_short_of_nothing(s, call);
        },
        Call::Deposit { .. }
        | Call::WithdrawBalance { .. }
        | Call::Stake { .. }
        | Call::BeginUnstake { .. }
        | Call::CompleteUnstake { .. }
        | Call::Withdraw { .. } => {
            funds_calls_fall_short_of_nothing(s, call);
        },
        Call::Touch { .. } | Call::TouchQuestion { .. } => {
            upkeep_falls_short_of_nothing(s, call);
        },
        _ => {
            other_calls_fall_short_of_nothing(s, call);
        },
    }
}

/// A question that is opened or touched is kept until seven days past its refund deadline, and for
/// at least 500,000 ledgers, as far as the network goes along: no longer than it takes, and no
/// longer than it grants.
pub proof fn a_question_is_kept_past_its_deadline(s: State, call: Call, id: u64)
    requires
        call.accepted(s),
        call.opens(id) || (call matches Call::TouchQuestion { id: other } && other == id),
    ensures
        ({
            let q = call.next(s).questions[id];
            let due = q.created_at + q.timeout_ledgers;
            let end = kept_for(call.next(s).effects, DataKey::Question(id));
            let kept = end->0;
            &&& end is Some
            &&& kept <= s.max_ttl
            &&& kept == s.max_ttl || kept >= 500_000
            &&& kept == s.max_ttl || due > u32::MAX || s.sequence + kept >= due + 120_960
            &&& kept <= 500_000 || s.sequence + kept <= due + 120_960
        }),
{
    broadcast use kept_after_push;

    match call {
        Call::Submit { .. } => {},
        Call::Charge { .. } => {},
        Call::ImportQuestion { .. } => {},
        Call::TouchQuestion { .. } => {},
        _ => {},
    }
}

/// Touching an account keeps alive, once, whichever of its earnings, its bond and its balance there
/// are, and nothing else.
pub proof fn touching_an_account_keeps_what_it_has(s: State, account: Address, key: DataKey)
    ensures
        times_extended(touch_next(s, account).effects, key) == times_extended(s.effects, key) + (
        match key {
            DataKey::Owed(a) if a == account && s.owed.contains_key(a.id) => 1nat,
            DataKey::Stake(a) if a == account && s.stakes.contains_key(a.id) => 1nat,
            DataKey::Balance(a) if a == account && s.balances.contains_key(a.id) => 1nat,
            _ => 0nat,
        }),
        touch_next(s, account).same_entries(s),
{
    broadcast use times_after_push;

}

/// Touching a question keeps its entry alive, once, and as long as it is pending also its two index
/// entries and their count; and nothing else.
pub proof fn touching_a_question_keeps_its_index(s: State, id: u64, key: DataKey)
    requires
        s.indexed(),
        s.questions.contains_key(id),
    ensures
        times_extended(touch_question_next(s, id).effects, key) == times_extended(s.effects, key)
            + (match key {
            DataKey::Question(other) if other == id => 1nat,
            DataKey::PendingPos(other) if other == id && s.questions[id].status
                == Status::Pending => 1nat,
            DataKey::PendingAt(slot) if s.questions[id].status == Status::Pending
                && s.pending_at.contains_key(slot) && s.pending_at[slot] == id => 1nat,
            DataKey::PendingCount if s.questions[id].status == Status::Pending => 1nat,
            _ => 0nat,
        }),
        touch_question_next(s, id).same_entries(s),
{
    broadcast use times_after_push;

    assert(s.pending_pos.contains_key(id) <==> s.is_pending(id));
    if let DataKey::PendingAt(slot) = key {
        if s.pending_at.contains_key(slot) {
            assert(s.pending_pos.contains_key(s.pending_at[slot]));
        }
    }
}

/// What a call that takes funds in has asked for when it is refused: the signature of whoever pays,
/// and the funds only if the amount and the token are good.
pub proof fn a_refused_payment_asks_for_little(s: State, payer: Address, amount: i128)
    ensures
        ({
            let t = funds_requested(s, payer, amount);
            let asked = s.effects.push(Effect::RequireAuth { address: payer });
            &&& t.same_entries(s)
            &&& amount <= 0 || s.config.token is None ==> t.effects == asked
            &&& amount > 0 && s.config.token is Some ==> t.effects == asked.push(
                Effect::Transfer {
                    token: s.config.token->0,
                    from: payer,
                    to: s.this,
                    amount,
                },
            )
        }),
{
}

/// What a refused import and a refused batch have asked for: the source's signature if it is the
/// one that was named, and the administrator's; and of a batch, the takeover of the questions in
/// front of the one that could not move. No entry changes.
pub proof fn a_refused_migration_asks_for_little(
    s: State,
    source: Address,
    ids: Seq<u64>,
    target: Address,
)
    requires
        s.config.admin is Some,
    ensures
        import_question_asked(s, source).same_entries(s),
        s.config.migration_source == Some(source) ==> import_question_asked(s, source).effects
            == s.effects.push(Effect::RequireAuth { address: source }),
        s.config.migration_source != Some(source) ==> import_question_asked(s, source) == s,
        migrate_pending_asked(s, ids, target).same_entries(s),
        target == s.this || s.config.token is None ==> migrate_pending_asked(
            s,
            ids,
            target,
        ).effects == s.effects.push(Effect::RequireAuth { address: s.config.admin->0 }),
{
}

} // verus!
