//! Small books never overflow: if everything owed stays far below the number range, no call that
//! would succeed can trap.
use crate::books::{bonded, locked, plain};
use crate::calls::Call;
use crate::env::State;
use crate::limits::{BPS_DENOM, SLASH_BPS};
use crate::migration::movable_prefix_is_maximal;
use crate::pending::{a_batch_finds_the_index_ready, an_index_in_order_is_ready};
use crate::settlement::{share, split_is_exact};
use crate::sums::{sum_dominates, sum_of, sum_splits};
use crate::types::{Address, Question, Status};
use vstd::prelude::*;

verus! {

/// No single entry is larger than everything that is owed.
pub proof fn no_entry_exceeds_the_obligations(s: State)
    requires
        s.wf(),
    ensures
        s.obligations() >= 0,
        forall|id: u64| #[trigger]
            s.is_pending(id) ==> 0 < s.questions[id].amount <= s.obligations(),
        forall|w: Address| 0 <= (#[trigger] s.recorded_stake(w)).total() <= s.obligations(),
        forall|w: Address| 0 <= #[trigger] s.owed_to(w) <= s.obligations(),
        forall|w: Address| 0 <= #[trigger] s.balance_of(w) <= s.obligations(),
        forall|id: u64, w: Address|
            #![trigger s.is_pending(id), s.owed_to(w)]
            s.is_pending(id) ==> s.questions[id].amount + s.owed_to(w) <= s.obligations(),
{
    sum_dominates(s.questions, locked());
    sum_dominates(s.stakes, bonded());
    sum_dominates(s.owed, plain());
    sum_dominates(s.balances, plain());
    assert forall|id: u64| #[trigger] s.is_pending(id) implies 0 < s.questions[id].amount
        <= sum_of(s.questions, locked()) by {
        assert(locked()(s.questions[id]) == s.questions[id].amount);
    }
    assert forall|w: Address| 0 <= (#[trigger] s.recorded_stake(w)).total() <= sum_of(
        s.stakes,
        bonded(),
    ) by {
        if s.stakes.contains_key(w.id) {
            assert(bonded()(s.stakes[w.id]) == s.stakes[w.id].total());
        }
    }
    assert forall|w: Address| 0 <= #[trigger] s.owed_to(w) <= sum_of(s.owed, plain()) by {
        if s.owed.contains_key(w.id) {
            assert(plain()(s.owed[w.id]) == s.owed[w.id]);
        }
    }
    assert forall|w: Address| 0 <= #[trigger] s.balance_of(w) <= sum_of(s.balances, plain()) by {
        if s.balances.contains_key(w.id) {
            assert(plain()(s.balances[w.id]) == s.balances[w.id]);
        }
    }
}

/// The pending questions of a batch lock no more than everything that is owed.
proof fn a_batch_locks_no_more_than_is_owed(m: Map<u64, Question>, s: State, ids: Seq<u64>)
    requires
        m.dom().finite(),
        forall|id: u64| #[trigger] m.contains_key(id) ==> m[id] == s.questions[id],
        forall|id: u64| #[trigger] m.contains_key(id) ==> m[id].amount > 0,
        ids.no_duplicates(),
        forall|i: int|
            0 <= i < ids.len() ==> m.contains_key(#[trigger] ids[i]) && m[ids[i]].status
                == Status::Pending,
    ensures
        s.amount_of(ids) <= sum_of(m, locked()),
    decreases ids.len(),
{
    if ids.len() == 0 {
        sum_dominates(m, locked());
    } else {
        let before = ids.drop_last();
        let last = ids.last();
        assert(ids[ids.len() - 1] == last);
        let rest = m.remove(last);
        assert forall|i: int| 0 <= i < before.len() implies rest.contains_key(#[trigger] before[i])
            && rest[before[i]].status == Status::Pending by {
            assert(before[i] == ids[i]);
        }
        assert forall|id: u64| #[trigger] rest.contains_key(id) implies rest[id].amount > 0 by {
            assert(m.contains_key(id));
        }
        a_batch_locks_no_more_than_is_owed(rest, s, before);
        sum_splits(m, locked(), last);
        assert(locked()(m[last]) == m[last].amount);
        assert(m.contains_key(last));
    }
}

impl Call {
    /// What the call would pay in.
    pub open spec fn pays_in(self) -> int {
        match self {
            Call::Deposit { amount, .. } => amount as int,
            Call::Submit { amount, .. } => amount as int,
            Call::Stake { amount, .. } => amount as int,
            Call::ImportQuestion { amount, .. } => amount as int,
            _ => 0,
        }
    }
}

/// The capacity law: as long as what is owed, with what the call pays in, is at most one ten
/// thousandth of the number range, a call that would succeed stays within it.
pub proof fn small_books_never_overflow(s: State, call: Call)
    requires
        s.wf(),
        s.indexed(),
        s.pending_count < u32::MAX,
        (s.obligations() + call.pays_in()) * BPS_DENOM <= i128::MAX,
        call.accepted(s),
    ensures
        call.fits(s),
{
    no_entry_exceeds_the_obligations(s);
    match call {
        Call::Resolve { id, workers, losing_workers } => {
            let amount = s.questions[id].amount as int;
            split_is_exact(amount, workers.len() as int);
            an_index_in_order_is_ready(s, id);
            assert(s.is_pending(id));
            assert forall|i: int|
                0 <= i < losing_workers.len() && s.stakes.contains_key(
                    losing_workers[i].id,
                ) implies s.recorded_stake(#[trigger] losing_workers[i]).total() * SLASH_BPS
                <= i128::MAX by {}
            assert forall|i: int| 0 <= i < workers.len() implies s.owed_to(#[trigger] workers[i])
                + share(amount, workers.len() as int) <= i128::MAX by {}
        },
        Call::Refund { id } => {
            an_index_in_order_is_ready(s, id);
        },
        Call::RefundTimeout { id } => {
            an_index_in_order_is_ready(s, id);
        },
        Call::MigratePending { ids, target } => {
            movable_prefix_is_maximal(s, ids);
            a_batch_finds_the_index_ready(s, ids, target);
            assert(ids.take(ids.len() as int) == ids);
            assert forall|i: int, j: int|
                0 <= i < ids.len() && 0 <= j < ids.len() && i != j implies ids[i] != ids[j] by {
                if i < j {
                    assert(ids.take(j)[i] == ids[i]);
                } else {
                    assert(ids.take(i)[j] == ids[j]);
                }
            }
            assert forall|i: int| 0 <= i < ids.len() implies s.questions.contains_key(
                #[trigger] ids[i],
            ) && s.questions[ids[i]].status == Status::Pending by {
                assert(s.is_pending(ids[i]));
            }
            a_batch_locks_no_more_than_is_owed(s.questions, s, ids);
            sum_dominates(s.stakes, bonded());
            sum_dominates(s.owed, plain());
            sum_dominates(s.balances, plain());
        },
        Call::Stake { worker, amount } => {
            assert(s.recorded_stake(worker).wf());
            assert(s.recorded_stake(worker).total() <= s.obligations());
        },
        Call::BeginUnstake { worker, amount } => {
            assert(s.recorded_stake(worker).wf());
            assert(s.recorded_stake(worker).total() <= s.obligations());
        },
        Call::CompleteUnstake { worker } => {
            assert(s.recorded_stake(worker).wf());
            assert(s.recorded_stake(worker).total() <= s.obligations());
        },
        Call::Deposit { payer, amount } => {
            assert(s.balance_of(payer) <= s.obligations());
        },
        _ => {},
    }
}

} // verus!
