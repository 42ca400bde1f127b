//! Nobody's account shrinks without a call that is entitled to it.
use crate::calls::Call;
use crate::env::State;
use crate::migration::{migrate_all_frame, movable_prefix_is_maximal};
use crate::settlement::{
    credit_all_credits_each, credit_all_frame, each_list_is_distinct, resolve_fits, resolve_next,
    resolve_outcome, share, slash_all_frame, slash_all_slashes_each, slash_cap, split_is_exact,
};
use crate::types::{Address, Status};
use vstd::prelude::*;

verus! {

/// What a resolution does to everyone: each winner gains exactly one share, each loser forfeits
/// exactly one slash, and nobody else's account moves.
pub proof fn a_resolution_touches_only_its_quorum(
    s: State,
    id: u64,
    workers: Seq<Address>,
    losing_workers: Seq<Address>,
    w: Address,
)
    requires
        s.wf(),
        resolve_outcome(s, id, workers, losing_workers) is Ok,
        resolve_fits(s, id, workers, losing_workers),
    ensures
        ({
            let t = resolve_next(s, id, workers, losing_workers);
            let amount = s.questions[id].amount as int;
            &&& t.owed_to(w) == s.owed_to(w) + (if workers.contains(w) {
                share(amount, workers.len() as int)
            } else {
                0
            })
            &&& t.recorded_stake(w).total() == s.recorded_stake(w).total() - (
            if losing_workers.contains(w) {
                s.slash_of(w, slash_cap(amount))
            } else {
                0
            })
            &&& t.recorded_stake(w) == (if losing_workers.contains(w) {
                s.slash_one(w, slash_cap(amount)).recorded_stake(w)
            } else {
                s.recorded_stake(w)
            })
            &&& t.balance_of(w) == s.balance_of(w)
            &&& t.questions[id] == s.questions[id].with_status(Status::Resolved)
        }),
{
    let amount = s.questions[id].amount as int;
    let n = workers.len() as int;
    let cap = slash_cap(amount);
    let each = share(amount, n) as i128;
    let asked = s.ask_admin();
    let slashed = asked.slash_all(losing_workers, cap);
    each_list_is_distinct(workers, losing_workers);
    split_is_exact(amount, n);
    slash_all_frame(asked, losing_workers, cap);
    slash_all_slashes_each(asked, losing_workers, cap);
    assert forall|i: int| 0 <= i < workers.len() implies slashed.owed_to(#[trigger] workers[i])
        + each <= i128::MAX by {
        assert(slashed.owed_to(workers[i]) == s.owed_to(workers[i]));
    }
    credit_all_credits_each(slashed, workers, each);
    credit_all_frame(slashed, workers, each);
    if workers.contains(w) {
        let i = choose|i: int| 0 <= i < workers.len() && workers[i] == w;
        assert(slashed.credit_all(workers, each).owed_to(workers[i]) == slashed.owed_to(workers[i])
            + each);
    } else {
        assert forall|i: int| 0 <= i < workers.len() implies (#[trigger] workers[i]).id != w.id by {
            assert(workers.contains(workers[i]));
        }
        assert(slashed.credit_all(workers, each).owed_to(w) == slashed.owed_to(w));
    }
    if losing_workers.contains(w) {
        let i = choose|i: int| 0 <= i < losing_workers.len() && losing_workers[i] == w;
        assert(slashed.recorded_stake(losing_workers[i]).total() == asked.recorded_stake(
            losing_workers[i],
        ).total() - asked.slash_of(losing_workers[i], cap));
        assert(slashed.recorded_stake(losing_workers[i]) == asked.slash_one(
            losing_workers[i],
            cap,
        ).recorded_stake(losing_workers[i]));
        assert(asked.slash_of(w, cap) == s.slash_of(w, cap));
    } else {
        assert forall|i: int| 0 <= i < losing_workers.len() implies (
        #[trigger] losing_workers[i]).id != w.id by {
            assert(losing_workers.contains(losing_workers[i]));
        }
        assert(slashed.stakes[w.id] == asked.stakes[w.id]);
    }
}

/// A prepaid balance shrinks only when its payer withdraws from it or the administrator charges
/// it; earnings only when the worker withdraws; a bond only when the worker claims what was
/// released, or loses a quorum.
pub proof fn accounts_shrink_only_when_entitled(s: State, call: Call, w: Address)
    requires
        s.wf(),
        call.accepted(s),
        call.fits(s),
    ensures
        call.next(s).balance_of(w) < s.balance_of(w) ==> match call {
            Call::WithdrawBalance { payer, .. } => payer == w,
            Call::Charge { payer, .. } => payer == w,
            _ => false,
        },
        call.next(s).owed_to(w) < s.owed_to(w) ==> match call {
            Call::Withdraw { worker, .. } => worker == w,
            _ => false,
        },
        call.next(s).recorded_stake(w).total() < s.recorded_stake(w).total() ==> match call {
            Call::CompleteUnstake { worker } => worker == w,
            Call::Resolve { losing_workers, .. } => losing_workers.contains(w),
            _ => false,
        },
{
    match call {
        Call::Resolve { id, workers, losing_workers } => {
            a_resolution_touches_only_its_quorum(s, id, workers, losing_workers, w);
            split_is_exact(s.questions[id].amount as int, workers.len() as int);
        },
        Call::MigratePending { ids, target } => {
            movable_prefix_is_maximal(s, ids);
            migrate_all_frame(s.ask_admin(), ids, target);
        },
        Call::Stake { worker, amount } => {},
        Call::BeginUnstake { worker, amount } => {},
        Call::CompleteUnstake { worker } => {},
        _ => {},
    }
}

} // verus!
