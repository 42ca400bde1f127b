//! When stake counts: what every call on a bond does to the stake that has matured, bucket by
//! bucket, and to the clocks.
use crate::accounts::a_resolution_touches_only_its_quorum;
use crate::calls::{list_calls_have_a_frame, Call};
use crate::env::State;
use crate::settlement::{
    credit_all_frame, resolve_fits, resolve_next, resolve_outcome, share, slash_all_frame, slash_cap,
    split_is_exact,
};
use crate::staking::{
    begin_unstake_next, begin_unstake_outcome, complete_unstake_next, complete_unstake_outcome,
    stake_next, stake_outcome,
};
use crate::types::{Address, ContractError, StakeInfo};
use vstd::prelude::*;

verus! {

/// How much of a bond, as written, has been in it for a day by ledger `now`. The last ledger there
/// is counts as late enough for everything.
pub open spec fn matured(info: StakeInfo, now: u32) -> int {
    if now - info.warming_since >= 17_280 || now == u32::MAX {
        info.settled + info.warming
    } else {
        info.settled as int
    }
}

/// Everything in a bond.
pub open spec fn whole(info: StakeInfo) -> int {
    info.settled + info.warming + info.unbonding
}

/// What is read of a bond is what was written, with exactly the stake that has matured by now
/// counted as settled. A worker who never staked has nothing.
pub proof fn a_bond_is_read_as_it_stands(s: State, w: Address)
    requires
        s.wf(),
        s.stake_fits(w),
    ensures
        s.stakes.contains_key(w.id) ==> {
            let b = s.stakes[w.id];
            let seen = s.stake_info(w);
            &&& seen.settled == matured(b, s.sequence)
            &&& seen.settled + seen.warming == b.settled + b.warming
            &&& seen.warming_since == b.warming_since
            &&& seen.unbonding == b.unbonding
            &&& seen.unbonding_release_at == b.unbonding_release_at
        },
        !s.stakes.contains_key(w.id) ==> {
            let seen = s.stake_info(w);
            &&& seen.settled == 0 && seen.warming == 0 && seen.unbonding == 0
            &&& seen.warming_since == 0 && seen.unbonding_release_at == 0
        },
{
}

/// Losing a quorum makes no stake credible: the clock of the latest top-up keeps running from
/// where it was, so that at no later ledger more has matured than without the loss. The loss is a
/// twentieth of the bond, rounded down, or the question's amount if that is less. It comes out of
/// what has not matured, then out of what has, and out of what is unbonding only when nothing else
/// is left.
pub proof fn a_slash_leaves_the_clock_alone(
    s: State,
    id: u64,
    workers: Seq<Address>,
    losing_workers: Seq<Address>,
    l: Address,
    now: u32,
)
    requires
        s.wf(),
        resolve_outcome(s, id, workers, losing_workers) is Ok,
        resolve_fits(s, id, workers, losing_workers),
        losing_workers.contains(l),
        s.stakes.contains_key(l.id),
        s.sequence <= now,
    ensures
        ({
            let t = resolve_next(s, id, workers, losing_workers);
            let b = s.stakes[l.id];
            let a = t.stakes[l.id];
            let lost = whole(b) - whole(a);
            let amount = s.questions[id].amount;
            &&& t.stakes.contains_key(l.id)
            &&& a.warming_since == b.warming_since
            &&& a.unbonding_release_at == b.unbonding_release_at
            &&& matured(a, now) <= matured(b, now)
            &&& 0 <= lost <= amount
            &&& lost * 20 <= whole(b)
            &&& lost == amount || lost * 20 + 20 > whole(b)
            &&& matured(a, s.sequence) < matured(b, s.sequence) ==> a.settled + a.warming
                == matured(a, s.sequence)
            &&& a.unbonding < b.unbonding ==> a.settled == 0 && a.warming == 0
            &&& a.unbonding <= b.unbonding
            &&& a.settled >= 0 && a.warming >= 0 && a.unbonding >= 0
        }),
{
    let t = resolve_next(s, id, workers, losing_workers);
    let amount = s.questions[id].amount as int;
    a_resolution_touches_only_its_quorum(s, id, workers, losing_workers, l);
    split_is_exact(amount, workers.len() as int);
    only_bonds_of_losers_move(s, id, workers, losing_workers, l.id);
    let i = choose|i: int| 0 <= i < losing_workers.len() && losing_workers[i] == l;
    assert(s.recorded_stake(losing_workers[i]).total() * 500 <= i128::MAX);
    assert(s.stakes[l.id].wf());
    assert(t.stakes[l.id] == s.slash_one(l, slash_cap(amount)).stakes[l.id]);
}

/// A resolution writes no bond but the losers', and opens none.
pub proof fn only_bonds_of_losers_move(
    s: State,
    id: u64,
    workers: Seq<Address>,
    losing_workers: Seq<Address>,
    a: u64,
)
    requires
        s.wf(),
        resolve_outcome(s, id, workers, losing_workers) is Ok,
    ensures
        ({
            let t = resolve_next(s, id, workers, losing_workers);
            &&& t.stakes.contains_key(a) <==> s.stakes.contains_key(a)
            &&& t.stakes[a] == s.stakes[a] || losing_workers.contains(Address { id: a })
        }),
{
    let amount = s.questions[id].amount as int;
    let asked = s.ask_admin();
    let slashed = asked.slash_all(losing_workers, slash_cap(amount));
    slash_all_frame(asked, losing_workers, slash_cap(amount));
    credit_all_frame(slashed, workers, share(amount, workers.len() as int) as i128);
    assert(slashed.stakes.contains_key(a) <==> slashed.stakes.dom().contains(a));
    if !losing_workers.contains(Address { id: a }) {
        assert forall|i: int| 0 <= i < losing_workers.len() implies (
        #[trigger] losing_workers[i]).id != a by {
            assert(losing_workers.contains(losing_workers[i]));
        }
        assert(slashed.stakes[a] == asked.stakes[a]);
    }
}

/// What starts to unbond leaves the stake that has not matured first: matured stake shrinks only
/// once nothing else is left, and by no more than what is missing. The clock of the latest top-up
/// keeps running.
pub proof fn unbonding_takes_unmatured_stake_first(
    s: State,
    w: Address,
    amount: i128,
    now: u32,
)
    requires
        s.wf(),
        s.stakes.contains_key(w.id),
        begin_unstake_outcome(s, w, amount) is Ok,
        s.stakes[w.id].settled + s.stakes[w.id].warming <= i128::MAX,
        s.stakes[w.id].unbonding + amount <= i128::MAX,
        s.sequence <= now,
    ensures
        ({
            let t = begin_unstake_next(s, w, amount);
            let b = s.stakes[w.id];
            let a = t.stakes[w.id];
            let fresh = b.settled + b.warming - matured(b, s.sequence);
            &&& a.unbonding == b.unbonding + amount
            &&& a.settled + a.warming == b.settled + b.warming - amount
            &&& a.warming_since == b.warming_since
            &&& amount <= fresh ==> matured(a, s.sequence) == matured(b, s.sequence)
            &&& amount > fresh ==> matured(a, s.sequence) == matured(b, s.sequence) - (amount
                - fresh) && a.settled + a.warming == matured(a, s.sequence)
            &&& matured(a, now) <= matured(b, now)
            &&& a.settled >= 0 && a.warming >= 0
            &&& t.stakes.remove(w.id) == s.stakes.remove(w.id)
            &&& Ok::<u32, ContractError>(a.unbonding_release_at) == begin_unstake_outcome(
                s,
                w,
                amount,
            )
        }),
{
    let t = begin_unstake_next(s, w, amount);
    assert(s.stakes[w.id].wf());
    assert(t.stakes.remove(w.id) =~= s.stakes.remove(w.id));
}

/// What can start to unbond is what is bonded and not unbonding, all of it and no more, and it is
/// released after the refund window or three days, whichever is longer.
pub proof fn what_can_unbond(s: State, w: Address, amount: i128)
    requires
        s.wf(),
    ensures
        begin_unstake_outcome(s, w, amount) is Ok <==> {
            &&& s.stakes.contains_key(w.id)
            &&& 0 < amount <= s.stakes[w.id].settled + s.stakes[w.id].warming
            &&& s.config.timeout_ledgers is Some
        },
        amount <= 0 ==> begin_unstake_outcome(s, w, amount) == Err::<u32, ContractError>(
            ContractError::InvalidAmount,
        ),
        amount > 0 && (!s.stakes.contains_key(w.id) || amount > s.stakes[w.id].settled
            + s.stakes[w.id].warming) ==> begin_unstake_outcome(s, w, amount) == Err::<
            u32,
            ContractError,
        >(ContractError::InsufficientStake),
        s.stakes.contains_key(w.id) && 0 < amount <= s.stakes[w.id].settled
            + s.stakes[w.id].warming && s.config.timeout_ledgers is None
            ==> begin_unstake_outcome(s, w, amount) == Err::<u32, ContractError>(
            ContractError::NotInitialized,
        ),
        begin_unstake_outcome(s, w, amount) matches Ok(release) ==> {
            let window = s.config.timeout_ledgers->0;
            &&& release == u32::MAX || (release - s.sequence >= 51_840 && release - s.sequence
                >= window)
            &&& release - s.sequence <= 51_840 || release - s.sequence <= window
            &&& release >= s.sequence
        },
{
}

/// Posting a bond puts exactly the amount in, unmatured, and starts the clock anew for what had
/// not matured before; what had matured stays matured. Nothing else about the bond changes, and
/// nobody else's does.
pub proof fn a_new_bond_starts_the_clock(s: State, w: Address, amount: i128)
    requires
        s.wf(),
        stake_outcome(s, amount) is Ok,
        s.stake_fits(w),
        s.stake_info(w).warming + amount <= i128::MAX,
    ensures
        ({
            let t = stake_next(s, w, amount);
            let a = t.stakes[w.id];
            &&& t.stakes.contains_key(w.id)
            &&& a.warming_since == s.sequence
            &&& a.warming >= amount
            &&& s.stakes.contains_key(w.id) ==> {
                let b = s.stakes[w.id];
                &&& a.settled == matured(b, s.sequence)
                &&& a.settled + a.warming == b.settled + b.warming + amount
                &&& a.unbonding == b.unbonding
                &&& a.unbonding_release_at == b.unbonding_release_at
            }
            &&& !s.stakes.contains_key(w.id) ==> a.settled == 0 && a.warming == amount
                && a.unbonding == 0 && a.unbonding_release_at == 0
            &&& t.stakes.remove(w.id) == s.stakes.remove(w.id)
        }),
{
    let t = stake_next(s, w, amount);
    if s.stakes.contains_key(w.id) {
        assert(s.stakes[w.id].wf());
    }
    assert(t.stakes.remove(w.id) =~= s.stakes.remove(w.id));
}

/// Claiming empties the unbonding bucket and nothing else: what is bonded, what has matured and
/// the clock of the latest top-up stay as they are, at every later ledger.
pub proof fn claiming_leaves_the_bond_alone(s: State, w: Address, now: u32)
    requires
        s.wf(),
        s.stake_fits(w),
        complete_unstake_outcome(s, w) is Ok,
        s.sequence <= now,
    ensures
        ({
            let t = complete_unstake_next(s, w);
            let b = s.stakes[w.id];
            let a = t.stakes[w.id];
            &&& s.stakes.contains_key(w.id)
            &&& complete_unstake_outcome(s, w) == Ok::<i128, ContractError>(b.unbonding)
            &&& b.unbonding > 0 && b.unbonding_release_at <= s.sequence
            &&& a.unbonding == 0
            &&& a.unbonding_release_at == 0
            &&& a.warming_since == b.warming_since
            &&& a.settled + a.warming == b.settled + b.warming
            &&& matured(a, now) == matured(b, now)
            &&& t.stakes.remove(w.id) == s.stakes.remove(w.id)
        }),
{
    let t = complete_unstake_next(s, w);
    assert(s.stakes[w.id].wf());
    assert(t.stakes.remove(w.id) =~= s.stakes.remove(w.id));
}

/// When an unbonding bucket can be claimed: as soon as there is one and its ledger has come.
pub proof fn when_a_bond_can_be_claimed(s: State, w: Address)
    requires
        s.wf(),
    ensures
        !s.stakes.contains_key(w.id) || s.stakes[w.id].unbonding == 0
            ==> complete_unstake_outcome(s, w) == Err::<i128, ContractError>(
            ContractError::NothingUnbonding,
        ),
        s.stakes.contains_key(w.id) && s.stakes[w.id].unbonding > 0 ==> {
            &&& s.sequence < s.stakes[w.id].unbonding_release_at ==> complete_unstake_outcome(
                s,
                w,
            ) == Err::<i128, ContractError>(ContractError::UnbondingNotElapsed)
            &&& s.sequence >= s.stakes[w.id].unbonding_release_at && s.config.token is Some
                ==> complete_unstake_outcome(s, w) is Ok
            &&& s.sequence >= s.stakes[w.id].unbonding_release_at && s.config.token is None
                ==> complete_unstake_outcome(s, w) == Err::<i128, ContractError>(
                ContractError::NotInitialized,
            )
        },
{
    if s.stakes.contains_key(w.id) {
        assert(s.stakes[w.id].wf());
    }
}

/// No call but the worker's own staking, unbonding and claiming, and a lost quorum, writes a bond.
pub proof fn bonds_move_only_by_their_calls(s: State, call: Call, a: u64)
    requires
        s.wf(),
        call.accepted(s),
        !(call matches Call::Stake { worker, .. } && worker.id == a),
        !(call matches Call::BeginUnstake { worker, .. } && worker.id == a),
        !(call matches Call::CompleteUnstake { worker } && worker.id == a),
        !(call matches Call::Resolve { losing_workers, .. } && losing_workers.contains(
            Address { id: a },
        )),
    ensures
        call.next(s).stakes.contains_key(a) <==> s.stakes.contains_key(a),
        call.next(s).stakes[a] == s.stakes[a],
{
    list_calls_have_a_frame(s, call);
    if let Call::Resolve { id, workers, losing_workers } = call {
        only_bonds_of_losers_move(s, id, workers, losing_workers, a);
    }
}

/// The maturity law: no call makes stake mature before its time. Whatever is called, of what is
/// in a bond afterwards, no more counts as matured at any ledger than if nothing had been called.
pub proof fn no_call_makes_stake_mature_early(s: State, call: Call, w: Address, now: u32)
    requires
        s.wf(),
        call.accepted(s),
        call.fits(s),
        s.stakes.contains_key(w.id),
        s.sequence <= now,
        s.sequence < u32::MAX,
        s.stakes[w.id].settled + s.stakes[w.id].warming <= i128::MAX,
        !(call is Stake) || now - s.sequence < 17_280 && now < u32::MAX,
    ensures
        call.next(s).stakes.contains_key(w.id),
        matured(call.next(s).stakes[w.id], now) <= matured(s.stakes[w.id], now),
{
    assert(s.stakes[w.id].wf());
    match call {
        Call::Stake { worker, amount } if worker.id == w.id => {
            a_new_bond_starts_the_clock(s, w, amount);
        },
        Call::BeginUnstake { worker, amount } if worker.id == w.id => {
            unbonding_takes_unmatured_stake_first(s, w, amount, now);
        },
        Call::CompleteUnstake { worker } if worker.id == w.id => {
            claiming_leaves_the_bond_alone(s, w, now);
        },
        Call::Resolve { id, workers, losing_workers } if losing_workers.contains(w) => {
            a_slash_leaves_the_clock_alone(s, id, workers, losing_workers, w, now);
        },
        _ => {
            bonds_move_only_by_their_calls(s, call, w.id);
        },
    }
}

} // verus!
