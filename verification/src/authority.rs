//! Who has to sign what.
use crate::calls::Call;
use crate::env::State;
use crate::escrow::set_admin_next;
use crate::migration::{import_question_asked, migrate_pending_asked};
use crate::questions::{funds_requested, opened_question};
use crate::routine::{
    adds_only_routine, crediting_is_routine, recording_is_routine, settling_is_routine,
    slashing_is_routine,
};
use crate::settlement::{share, slash_cap};
use crate::types::{Address, Effect, Question, Status};
use vstd::prelude::*;

verus! {

impl Call {
    /// Whether only the administrator may make the call.
    pub open spec fn is_administrative(self) -> bool {
        match self {
            Call::SetAdmin { .. }
            | Call::SetTimeoutLedgers { .. }
            | Call::Charge { .. }
            | Call::Resolve { .. }
            | Call::Refund { .. }
            | Call::ProposeUpgrade { .. }
            | Call::CancelUpgrade
            | Call::ExecuteUpgrade
            | Call::SetMigrationSource { .. }
            | Call::ClearMigrationSource
            | Call::MigratePending { .. } => true,
            _ => false,
        }
    }

    /// Whose signature the call asks for, if it gets that far.
    pub open spec fn signer(self, s: State) -> Option<Address> {
        if self.is_administrative() {
            s.config.admin
        } else {
            self.own_signer(s)
        }
    }

    /// The signer of a call that is not administrative.
    pub open spec fn own_signer(self, s: State) -> Option<Address> {
        match self {
            Call::Initialize { admin, .. } => Some(admin),
            Call::Deposit { payer, .. } => Some(payer),
            Call::WithdrawBalance { payer, .. } => Some(payer),
            Call::Submit { payer, .. } => Some(payer),
            Call::Stake { worker, .. } => Some(worker),
            Call::BeginUnstake { worker, .. } => Some(worker),
            Call::CompleteUnstake { worker } => Some(worker),
            Call::Withdraw { worker, .. } => Some(worker),
            Call::ImportQuestion { .. } => s.config.migration_source,
            _ => None,
        }
    }
}

/// Whether every request from position `from` on asks for nobody's signature.
pub open spec fn unsigned_from(effects: Seq<Effect>, from: int) -> bool {
    forall|i: int| from <= i < effects.len() ==> !((#[trigger] effects[i]) is RequireAuth)
}

/// Handing questions over asks for no signature of its own.
proof fn migrating_asks_no_signature(s: State, ids: Seq<u64>, target: Address)
    ensures
        s.effects.is_prefix_of(s.migrate_all(ids, target).effects),
        unsigned_from(s.migrate_all(ids, target).effects, s.effects.len() as int),
    decreases ids.len(),
{
    if ids.len() > 0 {
        migrating_asks_no_signature(s, ids.drop_last(), target);
        let mid = s.migrate_all(ids.drop_last(), target);
        let end = mid.migrate_one(ids.last(), target);
        assert(mid.effects.is_prefix_of(end.effects));
        assert(unsigned_from(end.effects, mid.effects.len() as int));
    }
}

/// From `s` to `t` requests were only added: first the signature of `signer`, if there is one,
/// and no other signature.
pub open spec fn asked_first(s: State, t: State, signer: Option<Address>) -> bool {
    &&& s.effects.is_prefix_of(t.effects)
    &&& match signer {
        Some(signer) => {
            let asked = s.effects.len() as int;
            &&& t.effects.len() > asked
            &&& t.effects[asked] == (Effect::RequireAuth { address: signer })
            &&& unsigned_from(t.effects, asked + 1)
        },
        None => unsigned_from(t.effects, s.effects.len() as int),
    }
}

/// Routine requests may follow.
proof fn routine_may_follow(s: State, mid: State, t: State, signer: Option<Address>)
    requires
        asked_first(s, mid, signer),
        adds_only_routine(mid, t),
    ensures
        asked_first(s, t, signer),
{
    more_may_follow(s, mid, t, signer);
}

/// Requests without signatures may follow.
proof fn more_may_follow(s: State, mid: State, t: State, signer: Option<Address>)
    requires
        asked_first(s, mid, signer),
        mid.effects.is_prefix_of(t.effects),
        unsigned_from(t.effects, mid.effects.len() as int),
    ensures
        asked_first(s, t, signer),
{
    assert forall|i: int|
        s.effects.len() + (if signer is Some { 1int } else { 0int }) <= i
            < t.effects.len() implies !((#[trigger] t.effects[i]) is RequireAuth) by {
        if i < mid.effects.len() {
            assert(t.effects[i] == mid.effects[i]);
        }
    }
}

proof fn closing_calls_ask_first(s: State, call: Call)
    requires
        call.accepted(s),
        call is Resolve || call is Refund || call is RefundTimeout || call is MigratePending,
    ensures
        asked_first(s, call.next(s), call.signer(s)),
{
    let signer = call.signer(s);
    match call {
        Call::Resolve { id, workers, losing_workers } => {
            let amount = s.questions[id].amount as int;
            let each = share(amount, workers.len() as int) as i128;
            let asked = s.ask_admin();
            let slashed = asked.slash_all(losing_workers, slash_cap(amount));
            let credited = slashed.credit_all(workers, each);
            let settled = credited.settle_question(id, Status::Resolved);
            slashing_is_routine(asked, losing_workers, slash_cap(amount));
            routine_may_follow(s, asked, slashed, signer);
            crediting_is_routine(slashed, workers, each);
            routine_may_follow(s, slashed, credited, signer);
            settling_is_routine(credited, id, Status::Resolved);
            routine_may_follow(s, credited, settled, signer);
            more_may_follow(s, settled, call.next(s), signer);
        },
        Call::MigratePending { ids, target } => {
            migrating_asks_no_signature(s.ask_admin(), ids, target);
            more_may_follow(s, s.ask_admin(), call.next(s), signer);
        },
        Call::Refund { id } => {
            let asked = s.ask_admin();
            let settled = asked.settle_question(id, Status::Refunded);
            settling_is_routine(asked, id, Status::Refunded);
            routine_may_follow(s, asked, settled, signer);
            more_may_follow(s, settled, call.next(s), signer);
        },
        Call::RefundTimeout { id } => {
            let settled = s.settle_question(id, Status::Refunded);
            settling_is_routine(s, id, Status::Refunded);
            routine_may_follow(s, s, settled, signer);
            more_may_follow(s, settled, call.next(s), signer);
        },
        _ => {},
    }
}

proof fn opening_calls_ask_first(s: State, call: Call)
    requires
        call.accepted(s),
        call is Submit || call is Charge || call is ImportQuestion,
    ensures
        asked_first(s, call.next(s), call.signer(s)),
{
    let signer = call.signer(s);
    match call {
        Call::Submit { payer, id, amount } => {
            let a = funds_requested(s, payer, amount);
            recording_is_routine(a, id, opened_question(a, payer, amount));
            routine_may_follow(s, a, call.next(s), signer);
        },
        Call::Charge { payer, id, amount } => {
            let a = s.ask_admin().put_balance(payer, (s.balance_of(payer) - amount) as i128);
            recording_is_routine(a, id, opened_question(a, payer, amount));
            routine_may_follow(s, a, call.next(s), signer);
        },
        Call::ImportQuestion { source, id, payer, amount, created_at, timeout_ledgers, .. } => {
            let a = s.require_auth(source).transfer(s.config.token->0, source, s.this, amount);
            recording_is_routine(
                a,
                id,
                Question { payer, amount, status: Status::Pending, created_at, timeout_ledgers },
            );
            routine_may_follow(s, a, call.next(s), signer);
        },
        _ => {},
    }
}

proof fn funds_calls_ask_first(s: State, call: Call)
    requires
        call.accepted(s),
        call is Deposit || call is WithdrawBalance || call is Stake || call is BeginUnstake
            || call is CompleteUnstake || call is Withdraw,
    ensures
        asked_first(s, call.next(s), call.signer(s)),
{
    match call {
        Call::Deposit { payer, amount } => {},
        Call::WithdrawBalance { payer, amount } => {},
        Call::Stake { worker, amount } => {},
        Call::BeginUnstake { worker, amount } => {},
        Call::CompleteUnstake { worker } => {},
        Call::Withdraw { worker, beneficiary, amount } => {},
        _ => {},
    }
}

proof fn admin_calls_ask_first(s: State, call: Call)
    requires
        call.accepted(s),
        call is Initialize || call is SetAdmin || call is SetTimeoutLedgers
            || call is ProposeUpgrade || call is CancelUpgrade || call is ExecuteUpgrade
            || call is SetMigrationSource || call is ClearMigrationSource,
    ensures
        asked_first(s, call.next(s), call.signer(s)),
{
}

proof fn upkeep_calls_ask_nobody(s: State, call: Call)
    requires
        call.accepted(s),
        call is Touch || call is TouchQuestion,
    ensures
        asked_first(s, call.next(s), None),
{
    match call {
        Call::Touch { account } => {},
        Call::TouchQuestion { id } => {},
        _ => {},
    }
}

/// The authority law: a successful call only adds requests. If it has a signer, the first thing
/// it asks for is that signature, and it asks for no other; if it has none, it asks for none.
pub proof fn a_call_asks_its_signer_first(s: State, call: Call)
    requires
        call.accepted(s),
    ensures
        asked_first(s, call.next(s), call.signer(s)),
{
    match call {
        Call::Resolve { .. }
        | Call::Refund { .. }
        | Call::RefundTimeout { .. }
        | Call::MigratePending { .. } => {
            closing_calls_ask_first(s, call);
        },
        Call::Submit { .. } | Call::Charge { .. } | Call::ImportQuestion { .. } => {
            opening_calls_ask_first(s, call);
        },
        Call::Deposit { .. }
        | Call::WithdrawBalance { .. }
        | Call::Stake { .. }
        | Call::BeginUnstake { .. }
        | Call::CompleteUnstake { .. }
        | Call::Withdraw { .. } => {
            funds_calls_ask_first(s, call);
        },
        Call::Touch { .. } | Call::TouchQuestion { .. } => {
            upkeep_calls_ask_nobody(s, call);
        },
        _ => {
            admin_calls_ask_first(s, call);
        },
    }
}

/// A refused call leaves every entry as it was: all it may have done is ask.
pub proof fn a_refused_call_changes_nothing(
    s: State,
    account: Address,
    amount: i128,
    ids: Seq<u64>,
    target: Address,
)
    ensures
        s.ask_admin().same_entries(s),
        s.require_auth(account).same_entries(s),
        funds_requested(s, account, amount).same_entries(s),
        import_question_asked(s, account).same_entries(s),
        migrate_pending_asked(s, ids, target).same_entries(s),
{
}

/// Handing over control takes effect at once: from then on every call that the old administrator
/// had to sign asks for the new one's signature.
pub proof fn a_new_admin_takes_over(s: State, new_admin: Address, call: Call)
    requires
        s.config.admin is Some,
        call.is_administrative(),
    ensures
        call.signer(s) == s.config.admin,
        call.signer(set_admin_next(s, new_admin)) == Some(new_admin),
{
}

} // verus!
