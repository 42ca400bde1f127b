//! A question is settled at most once, by the calls entitled to it, and never changes otherwise.
use crate::calls::{list_calls_have_a_frame, Call};
use crate::env::State;
use crate::escrow::timeout_accepted;
use crate::limits::MAX_TIMEOUT_LEDGERS;
use crate::questions::{
    charge_outcome, do_refund_next, open_question_outcome, opened_question, refund_next,
    refund_outcome, refund_timeout_outcome, submit_outcome,
};
use crate::settlement::{lists_disjoint, resolve_outcome};
use crate::types::{Address, ContractError, Effect, Status};
use vstd::prelude::*;

verus! {

impl Call {
    /// Whether the call would settle question `id`, and how.
    pub open spec fn settles(self, id: u64) -> Option<Status> {
        match self {
            Call::Resolve { id: other, .. } if other == id => Some(Status::Resolved),
            Call::Refund { id: other } if other == id => Some(Status::Refunded),
            Call::RefundTimeout { id: other } if other == id => Some(Status::Refunded),
            Call::MigratePending { ids, .. } if ids.contains(id) => Some(Status::Migrated),
            _ => None,
        }
    }

    /// Whether the call is one that can change the configuration.
    pub open spec fn configures(self) -> bool {
        match self {
            Call::Initialize { .. }
            | Call::SetAdmin { .. }
            | Call::SetTimeoutLedgers { .. }
            | Call::ProposeUpgrade { .. }
            | Call::CancelUpgrade
            | Call::ExecuteUpgrade
            | Call::SetMigrationSource { .. }
            | Call::ClearMigrationSource => true,
            _ => false,
        }
    }

    /// Whether the call would open question `id`.
    pub open spec fn opens(self, id: u64) -> bool {
        match self {
            Call::Submit { id: other, .. } => other == id,
            Call::Charge { id: other, .. } => other == id,
            Call::ImportQuestion { id: other, .. } => other == id,
            _ => false,
        }
    }
}

/// What every successful call does to a recorded question: it keeps its payer, its amount, its
/// age and its window, and its status changes only if the call settles it.
pub proof fn questions_only_change_status(s: State, call: Call, id: u64)
    requires
        s.wf(),
        s.questions.contains_key(id),
    ensures
        call.after(s).questions.contains_key(id),
        call.after(s).questions[id] == (match call.settles(id) {
            Some(status) => if call.accepted(s) {
                s.questions[id].with_status(status)
            } else {
                s.questions[id]
            },
            None => s.questions[id],
        }),
{
    if call.accepted(s) {
        list_calls_have_a_frame(s, call);
    }
}

/// Only pending questions are settled, so a settled question stays as it is for good.
pub proof fn a_settled_question_is_final(s: State, call: Call, id: u64)
    requires
        s.wf(),
        s.questions.contains_key(id),
        s.questions[id].status != Status::Pending,
    ensures
        call.settles(id) is Some ==> !call.accepted(s),
        call.opens(id) ==> !call.accepted(s),
        call.after(s).questions.contains_key(id),
        call.after(s).questions[id] == s.questions[id],
{
    questions_only_change_status(s, call, id);
    if let Call::MigratePending { ids, target } = call {
        if ids.contains(id) && call.accepted(s) {
            list_calls_have_a_frame(s, call);
            let i = choose|i: int| 0 <= i < ids.len() && ids[i] == id;
            assert(s.is_pending(ids[i]));
        }
    }
}

/// A question comes into existence only by a call that opens it, and then it is pending.
pub proof fn questions_are_opened_pending(s: State, call: Call, id: u64)
    requires
        s.wf(),
        !s.questions.contains_key(id),
    ensures
        call.after(s).questions.contains_key(id) <==> call.opens(id) && call.accepted(s),
        call.after(s).questions.contains_key(id) ==> call.after(s).questions[id].status
            == Status::Pending,
        call.settles(id) is Some ==> !call.accepted(s),
{
    if call.accepted(s) {
        list_calls_have_a_frame(s, call);
    }
}

/// Whoever comes second loses: once a question is settled, every further attempt to settle it
/// is answered "not pending", and every attempt to open it again "already exists".
pub proof fn a_late_attempt_is_refused(
    s: State,
    id: u64,
    workers: Seq<Address>,
    losing_workers: Seq<Address>,
    payer: Address,
    amount: i128,
)
    requires
        s.questions.contains_key(id),
        s.questions[id].status != Status::Pending,
        s.config.admin is Some,
        s.config.token is Some,
        s.config.timeout_ledgers is Some,
    ensures
        refund_timeout_outcome(s, id) == Err::<(), ContractError>(
            ContractError::QuestionNotPending,
        ),
        refund_outcome(s, id) == Err::<(), ContractError>(ContractError::QuestionNotPending),
        0 < workers.len() && workers.len() + losing_workers.len() <= 64 && lists_disjoint(
            workers,
            losing_workers,
        ) ==> resolve_outcome(s, id, workers, losing_workers) == Err::<(), ContractError>(
            ContractError::QuestionNotPending,
        ),
        amount > 0 ==> submit_outcome(s, id, amount) == Err::<(), ContractError>(
            ContractError::QuestionAlreadyExists,
        ),
        0 < amount <= s.balance_of(payer) ==> charge_outcome(s, payer, id, amount) == Err::<
            (),
            ContractError,
        >(ContractError::QuestionAlreadyExists),
{
}

/// The escape hatch: from its deadline on, a pending question can be refunded by anyone. The
/// call succeeds, asks for no signature, pays the payer the whole amount, and nobody else.
pub proof fn anyone_can_refund_after_the_deadline(s: State, id: u64)
    requires
        s.is_pending(id),
        s.config.token is Some,
        s.questions[id].spec_deadline() <= s.sequence,
    ensures
        refund_timeout_outcome(s, id) is Ok,
        do_refund_next(s, id).questions[id].status == Status::Refunded,
        do_refund_next(s, id).effects.last() == (Effect::Transfer {
            token: s.config.token->0,
            from: s.this,
            to: s.questions[id].payer,
            amount: s.questions[id].amount,
        }),
        s.effects.is_prefix_of(do_refund_next(s, id).effects),
        forall|i: int|
            s.effects.len() <= i < do_refund_next(s, id).effects.len() ==> !((
            #[trigger] do_refund_next(s, id).effects[i]) is RequireAuth),
        forall|i: int|
            s.effects.len() <= i < do_refund_next(s, id).effects.len() - 1 ==> !((
            #[trigger] do_refund_next(s, id).effects[i]) is Transfer),
{
}

/// Before its deadline nobody can force a refund.
pub proof fn nobody_can_force_an_early_refund(s: State, id: u64)
    requires
        s.is_pending(id),
        s.sequence < s.questions[id].spec_deadline(),
    ensures
        refund_timeout_outcome(s, id) == Err::<(), ContractError>(
            ContractError::TooEarlyForTimeout,
        ),
{
}

/// A refund by the administrator and one by timeout do the same to the question and its payer.
pub proof fn both_refunds_pay_the_payer_in_full(s: State, id: u64)
    requires
        refund_outcome(s, id) is Ok,
    ensures
        refund_next(s, id).same_entries(do_refund_next(s, id)),
        refund_next(s, id).effects.last() == do_refund_next(
            s,
            id,
        ).effects.last(),
{
}

impl State {
    /// What a completed setup guarantees from then on.
    pub open spec fn configured(self) -> bool {
        &&& self.config.admin is Some
        &&& self.config.token is Some
        &&& self.config.platform is Some
        &&& self.config.timeout_ledgers is Some
        &&& timeout_accepted(self.config.timeout_ledgers->0)
    }

    /// The instance was set up completely, or not at all.
    pub open spec fn setup_is_whole(self) -> bool {
        self.configured() || (self.config.admin is None && self.config.token is None
            && self.config.platform is None && self.config.timeout_ledgers is None)
    }
}

/// Setup happens once and as a whole; nothing takes it back. The token and the platform never
/// change afterwards, and the refund window stays within its bounds.
pub proof fn setup_is_final(s: State, call: Call)
    requires
        s.wf(),
        s.setup_is_whole(),
    ensures
        call.after(s).setup_is_whole(),
        s.configured() ==> call.after(s).configured(),
        s.configured() ==> call.after(s).config.token == s.config.token,
        s.configured() ==> call.after(s).config.platform == s.config.platform,
        s.configured() && call is Initialize ==> !call.accepted(s),
        call.after(s).this == s.this,
        call.after(s).sequence == s.sequence,
        call.after(s).max_ttl == s.max_ttl,
        call.after(s).config.admin == s.config.admin || (call is Initialize || call is SetAdmin)
            && call.accepted(s),
        call.after(s).config.timeout_ledgers == s.config.timeout_ledgers || (call is Initialize
            || call is SetTimeoutLedgers) && call.accepted(s),
        !call.configures() ==> call.after(s).config == s.config,
{
    if call.accepted(s) {
        list_calls_have_a_frame(s, call);
    }
}

/// A question opened here gets a window of at least one ledger and at most the largest one that
/// can be configured, so its deadline cannot be put out of reach.
pub proof fn opened_windows_are_bounded(s: State, payer: Address, id: u64, amount: i128)
    requires
        s.configured(),
        open_question_outcome(s, id) is Ok,
    ensures
        0 < opened_question(s, payer, amount).timeout_ledgers <= MAX_TIMEOUT_LEDGERS,
        opened_question(s, payer, amount).timeout_ledgers <= s.config.timeout_ledgers->0,
        s.config.pending_upgrade is None ==> opened_question(s, payer, amount).timeout_ledgers
            == s.config.timeout_ledgers->0,
        opened_question(s, payer, amount).created_at == s.sequence,
{
}

/// However a question comes into existence, submitted, charged or imported, its window is at least
/// one ledger and at most the limit, and its deadline is no further off than the limit, so it
/// cannot be put out of reach.
pub proof fn every_window_is_bounded(s: State, call: Call, id: u64)
    requires
        s.wf(),
        s.setup_is_whole(),
        !s.questions.contains_key(id),
        call.after(s).questions.contains_key(id),
    ensures
        0 < call.after(s).questions[id].timeout_ledgers <= MAX_TIMEOUT_LEDGERS,
        call.after(s).questions[id].created_at + call.after(s).questions[id].timeout_ledgers
            <= s.sequence + MAX_TIMEOUT_LEDGERS,
{
    questions_are_opened_pending(s, call, id);
}

} // verus!
