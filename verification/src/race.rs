//! Settlement races: one contested question, and everyone who may try to settle it. Whatever
//! order they land in, and in whichever ledgers, the outcome is predicted exactly.
use crate::accounts::a_resolution_touches_only_its_quorum;
use crate::bank::{can_move, carried_out, carried_out_after_push, held_by, moved, Bank};
use crate::calls::{calls_keep_entries_well_formed, Call};
use crate::env::{Env, State};
use crate::escrow::OracleEscrow;
use crate::lifecycle::setup_is_final;
use crate::orders::{non_decreasing, Racer};
use crate::pending::{
    an_index_in_order_is_ready, every_call_keeps_the_index, the_index_stays_in_order,
};
use crate::questions::{funds_requested, opened_question};
use crate::routine::{
    crediting_is_routine, recording_is_routine, routine_joins,
    routine_moves_nothing, settling_is_routine, slashing_is_routine,
};
use crate::seqs::total;
use crate::settlement::{
    dust, fee, lists_disjoint, platform_take, resolve_fits, resolve_next, resolve_outcome, share,
    slash_cap,
};
use crate::types::{Address, ContractError, Question, Status};
use vstd::prelude::*;

verus! {

/// Chosen so that both quorums leave dust.
pub const AMOUNT: i128 = 2_500_003;

pub const TIMEOUT: u32 = 100;

pub const LOSER_STAKE: i128 = 1_000_000;

/// The contested question.
pub const QID: u64 = 7;

/// The ledger in which it is opened.
pub const OPENED_AT: u32 = 1_000;

/// One pending question, a staked losing worker, two quorums that could win it, and everyone's
/// token holdings.
#[derive(Debug)]
pub struct World {
    pub escrow: Env,
    pub bank: Bank,
    pub token: Address,
    pub admin: Address,
    pub platform: Address,
    pub payer: Address,
    pub third_party: Address,
    /// The quorum of the first resolution.
    pub workers_a: Vec<Address>,
    /// The quorum of a competing resolution.
    pub workers_b: Vec<Address>,
    pub loser: Address,
    pub deadline: u32,
}

/// What a race can change.
#[derive(Debug, PartialEq, Eq)]
pub struct Snapshot {
    pub status: Status,
    pub contract: i128,
    pub platform: i128,
    pub payer: i128,
    pub third_party: i128,
    pub loser_stake: i128,
    /// The first quorum, then the second.
    pub owed: Vec<i128>,
}

/// The mathematical content of a [`Snapshot`].
#[verifier::ext_equal]
pub struct Shot {
    pub status: Status,
    pub contract: i128,
    pub platform: i128,
    pub payer: i128,
    pub third_party: i128,
    pub loser_stake: i128,
    pub owed: Seq<i128>,
}

impl View for Snapshot {
    type V = Shot;

    open spec fn view(&self) -> Shot {
        Shot {
            status: self.status,
            contract: self.contract,
            platform: self.platform,
            payer: self.payer,
            third_party: self.third_party,
            loser_stake: self.loser_stake,
            owed: self.owed@,
        }
    }
}

/// What the administrator's resolution for `winners` workers pays the platform, with `slashed`
/// taken from the loser.
pub open spec fn taken(winners: int, slashed: int) -> int {
    fee(AMOUNT as int) + dust(AMOUNT as int, winners) + slashed
}

/// What the loser forfeits to the first quorum.
pub open spec fn slash_in_race() -> int {
    LOSER_STAKE * 500 / 10_000
}

/// The end state after `winner` has settled the question.
pub open spec fn settled(before: Shot, winner: Racer) -> Shot {
    match winner {
        Racer::ResolveA => Shot {
            status: Status::Resolved,
            contract: (before.contract - taken(2, slash_in_race())) as i128,
            platform: (before.platform + taken(2, slash_in_race())) as i128,
            loser_stake: (before.loser_stake - slash_in_race()) as i128,
            owed: Seq::new(
                before.owed.len(),
                |i: int|
                    if i < 2 {
                        (before.owed[i] + share(AMOUNT as int, 2)) as i128
                    } else {
                        before.owed[i]
                    },
            ),
            ..before
        },
        Racer::ResolveB => Shot {
            status: Status::Resolved,
            contract: (before.contract - taken(3, 0)) as i128,
            platform: (before.platform + taken(3, 0)) as i128,
            owed: Seq::new(
                before.owed.len(),
                |i: int|
                    if i >= 2 {
                        (before.owed[i] + share(AMOUNT as int, 3)) as i128
                    } else {
                        before.owed[i]
                    },
            ),
            ..before
        },
        Racer::AdminRefund | Racer::TimeoutRefund | Racer::TimeoutRefundByPayer => Shot {
            status: Status::Refunded,
            contract: (before.contract - AMOUNT) as i128,
            payer: (before.payer + AMOUNT) as i128,
            ..before
        },
    }
}

/// Whether a racer is bound to the deadline.
pub open spec fn waits_for_deadline(r: Racer) -> bool {
    r == Racer::TimeoutRefund || r == Racer::TimeoutRefundByPayer
}

/// The error that a racer gets, or nothing if it settles the question.
pub open spec fn prediction(r: Racer, pending: bool, ledger: u32, deadline: u32) -> Option<
    ContractError,
> {
    if !pending {
        Some(ContractError::QuestionNotPending)
    } else if waits_for_deadline(r) && ledger < deadline {
        Some(ContractError::TooEarlyForTimeout)
    } else {
        None
    }
}

/// What the contract should do with `r` landing at `ledger`, given whether the question is still
/// pending.
pub fn expected(r: Racer, pending: bool, ledger: u32, deadline: u32) -> (error: Option<
    ContractError,
>)
    ensures
        error == prediction(r, pending, ledger, deadline),
{
    if !pending {
        return Some(ContractError::QuestionNotPending);
    }
    match r {
        Racer::TimeoutRefund | Racer::TimeoutRefundByPayer => if ledger < deadline {
            Some(ContractError::TooEarlyForTimeout)
        } else {
            None
        },
        _ => None,
    }
}

/// The books before a settlement balance, and stay within the number range after it.
pub open spec fn settleable(before: Shot, winner: Racer) -> bool {
    &&& before.owed.len() == 5
    &&& before.contract == AMOUNT + total(before.owed) + before.loser_stake
    &&& match winner {
        Racer::ResolveA => {
            &&& before.contract - taken(2, slash_in_race()) >= i128::MIN
            &&& before.platform + taken(2, slash_in_race()) <= i128::MAX
            &&& before.loser_stake - slash_in_race() >= i128::MIN
            &&& before.owed[0] + share(AMOUNT as int, 2) <= i128::MAX
            &&& before.owed[1] + share(AMOUNT as int, 2) <= i128::MAX
        },
        Racer::ResolveB => {
            &&& before.contract - taken(3, 0) >= i128::MIN
            &&& before.platform + taken(3, 0) <= i128::MAX
            &&& before.owed[2] + share(AMOUNT as int, 3) <= i128::MAX
            &&& before.owed[3] + share(AMOUNT as int, 3) <= i128::MAX
            &&& before.owed[4] + share(AMOUNT as int, 3) <= i128::MAX
        },
        Racer::AdminRefund | Racer::TimeoutRefund | Racer::TimeoutRefundByPayer => {
            &&& before.contract - AMOUNT >= i128::MIN
            &&& before.payer + AMOUNT <= i128::MAX
        },
    }
}

/// The exact end state after `winner` settled the question. Whoever wins, the contract is left
/// holding exactly what it still owes.
pub fn settled_by(before: &Snapshot, winner: Racer) -> (after: Snapshot)
    requires
        settleable(before@, winner),
    ensures
        after@ == settled(before@, winner),
        after.contract == total(after.owed@) + after.loser_stake,
{
    proof {
        reveal_with_fuel(total, 6);
        assert(fee(AMOUNT as int) == 500_000);
        assert(share(AMOUNT as int, 2) == 1_000_001);
        assert(share(AMOUNT as int, 3) == 666_667);
        assert(dust(AMOUNT as int, 2) == 1);
        assert(dust(AMOUNT as int, 3) == 2);
        assert(before.owed@[0] + before.owed@[1] + before.owed@[2] + before.owed@[3]
            + before.owed@[4] == total(before.owed@));
    }
    let fee: i128 = AMOUNT * 2000 / 10_000;
    let pool: i128 = AMOUNT - fee;
    let mut after: Snapshot = Snapshot {
        status: before.status,
        contract: before.contract,
        platform: before.platform,
        payer: before.payer,
        third_party: before.third_party,
        loser_stake: before.loser_stake,
        owed: before.owed.clone(),
    };
    match winner {
        Racer::ResolveA => {
            let share: i128 = pool / 2;
            let slash: i128 = LOSER_STAKE * 500 / 10_000;
            let take: i128 = fee + (pool - share * 2) + slash;
            after.status = Status::Resolved;
            after.platform = after.platform + take;
            after.loser_stake = after.loser_stake - slash;
            let first: i128 = after.owed[0] + share;
            after.owed.set(0, first);
            let second: i128 = after.owed[1] + share;
            after.owed.set(1, second);
            after.contract = after.contract - take;
        },
        Racer::ResolveB => {
            let share: i128 = pool / 3;
            let take: i128 = fee + (pool - share * 3);
            after.status = Status::Resolved;
            after.platform = after.platform + take;
            let first: i128 = after.owed[2] + share;
            after.owed.set(2, first);
            let second: i128 = after.owed[3] + share;
            after.owed.set(3, second);
            let third: i128 = after.owed[4] + share;
            after.owed.set(4, third);
            after.contract = after.contract - take;
        },
        Racer::AdminRefund | Racer::TimeoutRefund | Racer::TimeoutRefundByPayer => {
            after.status = Status::Refunded;
            after.payer = after.payer + AMOUNT;
            after.contract = after.contract - AMOUNT;
        },
    }
    assert(after@ == settled(before@, winner));
    assert(after.owed@[0] + after.owed@[1] + after.owed@[2] + after.owed@[3] + after.owed@[4]
        == total(after.owed@));
    after
}

pub open spec fn party(id: u64) -> Address {
    Address { id }
}

/// The first quorum.
pub open spec fn quorum_a() -> Seq<Address> {
    seq![party(11), party(12)]
}

/// The second quorum.
pub open spec fn quorum_b() -> Seq<Address> {
    seq![party(21), party(22), party(23)]
}

/// What a race can change, as it stands.
pub open spec fn shot_of(s: State, held: Map<u64, i128>) -> Shot {
    Shot {
        status: s.questions[QID].status,
        contract: held_by(held, party(1)),
        platform: held_by(held, party(4)),
        payer: held_by(held, party(5)),
        third_party: held_by(held, party(6)),
        loser_stake: s.recorded_stake(party(31)).active() as i128,
        owed: seq![
            s.owed_to(party(11)),
            s.owed_to(party(12)),
            s.owed_to(party(21)),
            s.owed_to(party(22)),
            s.owed_to(party(23)),
        ],
    }
}

/// The escrow is in order, the contested question keeps its terms, and as long as it is pending
/// the funds are all in escrow.
pub open spec fn in_race(s: State, held: Map<u64, i128>) -> bool {
    &&& s.this == party(1)
    &&& s.wf()
    &&& s.indexed()
    &&& s.effects.len() == 0
    &&& s.configured()
    &&& s.config.admin == Some(party(3))
    &&& s.config.token == Some(party(2))
    &&& s.config.platform == Some(party(4))
    &&& s.questions.contains_key(QID)
    &&& s.questions[QID] == (Question {
        payer: party(5),
        amount: AMOUNT,
        status: s.questions[QID].status,
        created_at: OPENED_AT,
        timeout_ledgers: TIMEOUT,
    })
    &&& s.recorded_stake(party(31)).active() <= i128::MAX
    &&& s.is_pending(QID) ==> {
        &&& s.stakes.contains_key(31)
        &&& s.recorded_stake(party(31)).unbonding == 0
        &&& shot_of(s, held) == start()
    }
}

impl World {
    /// What a race can change, as it stands.
    pub open spec fn shot(self) -> Shot {
        shot_of(self.escrow@, self.bank@)
    }

    /// The cast is fixed: everyone is somebody else.
    pub open spec fn cast(self) -> bool {
        &&& self.token == party(2)
        &&& self.admin == party(3)
        &&& self.platform == party(4)
        &&& self.payer == party(5)
        &&& self.third_party == party(6)
        &&& self.workers_a@ == quorum_a()
        &&& self.workers_b@ == quorum_b()
        &&& self.loser == party(31)
        &&& self.deadline == OPENED_AT + TIMEOUT
    }

    pub open spec fn wf(self) -> bool {
        self.cast() && in_race(self.escrow@, self.bank@)
    }

    /// Whether the contested question is still open.
    pub open spec fn pending(self) -> bool {
        self.escrow@.is_pending(QID)
    }
}

/// How every race starts.
pub open spec fn start() -> Shot {
    Shot {
        status: Status::Pending,
        contract: (AMOUNT + LOSER_STAKE) as i128,
        platform: 0,
        payer: (AMOUNT * 9) as i128,
        third_party: 0,
        loser_stake: LOSER_STAKE,
        owed: seq![0i128, 0i128, 0i128, 0i128, 0i128],
    }
}

impl World {
    /// One pending question opened at ledger 1000, a staked losing worker, and the ledger left
    /// at `deadline + offset`.
    pub fn new(offset: i64) -> (world: World)
        requires
            -(TIMEOUT as int) <= offset <= u32::MAX - OPENED_AT - TIMEOUT,
        ensures
            world.wf(),
            world.pending(),
            world.escrow@.sequence == world.deadline + offset,
    {
        let this: Address = Address { id: 1 };
        let token: Address = Address { id: 2 };
        let admin: Address = Address { id: 3 };
        let platform: Address = Address { id: 4 };
        let payer: Address = Address { id: 5 };
        let third_party: Address = Address { id: 6 };
        let loser: Address = Address { id: 31 };
        let mut workers_a: Vec<Address> = Vec::new();
        workers_a.push(Address { id: 11 });
        workers_a.push(Address { id: 12 });
        let mut workers_b: Vec<Address> = Vec::new();
        workers_b.push(Address { id: 21 });
        workers_b.push(Address { id: 22 });
        workers_b.push(Address { id: 23 });
        assert(workers_a@ == quorum_a());
        assert(workers_b@ == quorum_b());
        let mut bank: Bank = Bank::new();
        bank.mint(payer, AMOUNT * 10);
        bank.mint(loser, LOSER_STAKE);
        let ghost minted = bank@;
        let mut escrow: Env = Env::new(this, OPENED_AT, 6_312_000);
        let ghost fresh = escrow@;
        let set_up: Result<(), ContractError> = OracleEscrow::initialize(
            &mut escrow,
            admin,
            token,
            platform,
            TIMEOUT,
        );
        let ghost ready = escrow@;
        let staked: Result<(), ContractError> = OracleEscrow::stake(
            &mut escrow,
            loser,
            LOSER_STAKE,
        );
        let ghost bonded = escrow@;
        let submitted: Result<(), ContractError> = OracleEscrow::submit(
            &mut escrow,
            payer,
            QID,
            AMOUNT,
        );
        proof {
            broadcast use carried_out_after_push;

            every_call_keeps_the_index(
                fresh,
                Call::Initialize { admin, token, platform, timeout_ledgers: TIMEOUT },
            );
            every_call_keeps_the_index(ready, Call::Stake { worker: loser, amount: LOSER_STAKE });
            every_call_keeps_the_index(bonded, Call::Submit { payer, id: QID, amount: AMOUNT });
            let requested = funds_requested(bonded, payer, AMOUNT);
            assert(carried_out(minted, fresh.effects) == Some(minted));
            assert(carried_out(minted, ready.effects) == Some(minted));
            assert(carried_out(minted, bonded.effects) == Some(
                moved(minted, loser, this, LOSER_STAKE),
            ));
            recording_is_routine(requested, QID, opened_question(requested, payer, AMOUNT));
            routine_moves_nothing(minted, requested, escrow@);
        }
        let paid: bool = bank.carry_out(&escrow.effects);
        let ghost opened = escrow@;
        escrow.effects = Vec::new();
        proof {
            the_index_stays_in_order(opened, escrow@);
        }
        let mut world: World = World {
            escrow,
            bank,
            token,
            admin,
            platform,
            payer,
            third_party,
            workers_a,
            workers_b,
            loser,
            deadline: OPENED_AT + TIMEOUT,
        };
        assert(world.shot() == start());
        world.land_at(offset);
        world
    }

    /// The escrow under contest.
    pub fn client(&self) -> (escrow: &Env)
        ensures
            escrow == self.escrow,
    {
        &self.escrow
    }

    /// Moves on to ledger `deadline + offset`. Ledgers only move forward.
    pub fn land_at(&mut self, offset: i64)
        requires
            old(self).escrow@.sequence <= old(self).deadline + offset <= u32::MAX,
        ensures
            final(self).escrow@ == old(self).escrow@.at((old(self).deadline + offset) as u32),
            *final(self) == (World { escrow: final(self).escrow, ..*old(self) }),
            final(self).shot() == old(self).shot(),
            old(self).wf() ==> final(self).wf(),
    {
        let ledger: i64 = self.deadline as i64 + offset;
        self.escrow.sequence = ledger as u32;
        proof {
            if old(self).wf() {
                the_index_stays_in_order(old(self).escrow@, self.escrow@);
            }
        }
    }
}

/// From `s` to `t` racer `r` has settled the question: the transfers go through and everyone ends
/// up with exactly what they should.
pub open spec fn won(s: State, held: Map<u64, i128>, t: State, r: Racer) -> bool {
    let paid = carried_out(held, t.effects);
    &&& paid is Some
    &&& shot_of(t, paid->0) == settled(start(), r)
    &&& t.indexed()
    &&& t.wf()
    &&& t.this == s.this
    &&& t.config == s.config
    &&& t.sequence == s.sequence
    &&& t.questions.contains_key(QID)
    &&& t.questions[QID] == s.questions[QID].with_status(t.questions[QID].status)
    &&& t.questions[QID].status != Status::Pending
    &&& t.recorded_stake(party(31)).active() <= i128::MAX
}

/// A won race is still in order once its requests have been carried out.
proof fn a_won_race_is_in_order(s: State, held: Map<u64, i128>, t: State, r: Racer)
    requires
        in_race(s, held),
        won(s, held, t, r),
    ensures
        ({
            let done = State { effects: Seq::empty(), ..t };
            let paid = carried_out(held, t.effects)->0;
            &&& in_race(done, paid)
            &&& shot_of(done, paid) == settled(start(), r)
            &&& !done.is_pending(QID)
        }),
{
    let done = State { effects: Seq::empty(), ..t };
    the_index_stays_in_order(t, done);
    assert(shot_of(done, carried_out(held, t.effects)->0) == shot_of(
        t,
        carried_out(held, t.effects)->0,
    ));
}

/// A resolution: the call succeeds, its one transfer goes through, and everyone ends up
/// with exactly what they should.
#[verifier::rlimit(40)]
proof fn resolving_settles(
    s: State,
    held: Map<u64, i128>,
    workers: Seq<Address>,
    losers: Seq<Address>,
    r: Racer,
)
    requires
        in_race(s, held),
        s.is_pending(QID),
        (r == Racer::ResolveA && workers == quorum_a() && losers == seq![party(31)]) || (r
            == Racer::ResolveB && workers == quorum_b() && losers == Seq::<Address>::empty()),
    ensures
        resolve_outcome(s, QID, workers, losers) is Ok,
        resolve_fits(s, QID, workers, losers),
        won(s, held, resolve_next(s, QID, workers, losers), r),
{
    broadcast use carried_out_after_push;

    let all = workers + losers;
    assert(start().owed[0] == 0 && start().owed[1] == 0 && start().owed[2] == 0 && start().owed[3]
        == 0 && start().owed[4] == 0);
    assert(shot_of(s, held).owed == start().owed);
    assert(shot_of(s, held).owed[0] == s.owed_to(party(11)));
    assert(shot_of(s, held).owed[1] == s.owed_to(party(12)));
    assert(shot_of(s, held).owed[2] == s.owed_to(party(21)));
    assert(shot_of(s, held).owed[3] == s.owed_to(party(22)));
    assert(shot_of(s, held).owed[4] == s.owed_to(party(23)));
    if r == Racer::ResolveA {
        assert(all[0] == party(11) && all[1] == party(12) && all[2] == party(31));
    } else {
        assert(all[0] == party(21) && all[1] == party(22) && all[2] == party(23));
    }
    assert(lists_disjoint(workers, losers));
    an_index_in_order_is_ready(s, QID);
    let amount = AMOUNT as int;
    let n = workers.len() as int;
    assert(fee(amount) == 500_000);
    assert(share(amount, 2) == 1_000_001);
    assert(share(amount, 3) == 666_667);
    assert(dust(amount, 2) == 1);
    assert(dust(amount, 3) == 2);
    assert(slash_cap(amount) == amount);
    assert forall|i: int| 0 <= i < losers.len() implies #[trigger] losers[i] == party(31) by {}
    assert(s.recorded_stake(party(31)).total() == LOSER_STAKE);
    assert(s.slash_of(party(31), amount) == 50_000);
    assert(resolve_fits(s, QID, workers, losers));
    let call = Call::Resolve { id: QID, workers, losing_workers: losers };
    calls_keep_entries_well_formed(s, call);
    every_call_keeps_the_index(s, call);
    setup_is_final(s, call);
    let t = resolve_next(s, QID, workers, losers);
    a_resolution_touches_only_its_quorum(s, QID, workers, losers, party(11));
    a_resolution_touches_only_its_quorum(s, QID, workers, losers, party(12));
    a_resolution_touches_only_its_quorum(s, QID, workers, losers, party(21));
    a_resolution_touches_only_its_quorum(s, QID, workers, losers, party(22));
    a_resolution_touches_only_its_quorum(s, QID, workers, losers, party(23));
    a_resolution_touches_only_its_quorum(s, QID, workers, losers, party(31));
    let asked = s.ask_admin();
    let slashed = asked.slash_all(losers, slash_cap(amount));
    let credited = slashed.credit_all(workers, share(amount, n) as i128);
    let closed = credited.settle_question(QID, Status::Resolved);
    slashing_is_routine(asked, losers, slash_cap(amount));
    crediting_is_routine(slashed, workers, share(amount, n) as i128);
    settling_is_routine(credited, QID, Status::Resolved);
    routine_joins(asked, slashed, credited);
    routine_joins(asked, credited, closed);
    routine_moves_nothing(held, asked, closed);
    assert(carried_out(held, s.effects) == Some(held));
    assert(carried_out(held, asked.effects) == Some(held));
    assert(s.slash_total(losers, amount) == (if r == Racer::ResolveA {
        50_000int
    } else {
        0
    })) by {
        reveal_with_fuel(State::slash_total, 2);
        if r == Racer::ResolveA {
            assert(losers.drop_last().len() == 0);
            assert(losers.last() == party(31));
        }
    }
    assert(forall|i: int| 0 <= i < workers.len() ==> (#[trigger] workers[i]).id < 30);
    assert(can_move(held, party(1), party(4), platform_take(s, amount, n, losers) as i128));
    if r == Racer::ResolveA {
        assert(workers.contains(party(11))) by {
            assert(workers[0] == party(11));
        }
        assert(workers.contains(party(12))) by {
            assert(workers[1] == party(12));
        }
        assert(losers.contains(party(31))) by {
            assert(losers[0] == party(31));
        }
    } else {
        assert(workers.contains(party(21))) by {
            assert(workers[0] == party(21));
        }
        assert(workers.contains(party(22))) by {
            assert(workers[1] == party(22));
        }
        assert(workers.contains(party(23))) by {
            assert(workers[2] == party(23));
        }
    }
    assert(shot_of(t, carried_out(held, t.effects)->0) == settled(start(), r));
}

/// A refund: its one transfer goes through, and the payer has the whole amount back.
proof fn refunding_settles(s: State, held: Map<u64, i128>, call: Call, r: Racer)
    requires
        in_race(s, held),
        s.is_pending(QID),
        (r == Racer::AdminRefund && call == (Call::Refund { id: QID })) || (waits_for_deadline(r)
            && call == (Call::RefundTimeout { id: QID }) && s.sequence >= OPENED_AT + TIMEOUT),
    ensures
        call.accepted(s),
        s.index_ready(QID),
        won(s, held, call.next(s), r),
{
    broadcast use carried_out_after_push;

    an_index_in_order_is_ready(s, QID);
    calls_keep_entries_well_formed(s, call);
    every_call_keeps_the_index(s, call);
    setup_is_final(s, call);
    let asked = if r == Racer::AdminRefund {
        s.ask_admin()
    } else {
        s
    };
    let closed = asked.settle_question(QID, Status::Refunded);
    settling_is_routine(asked, QID, Status::Refunded);
    routine_moves_nothing(held, asked, closed);
    assert(carried_out(held, s.effects) == Some(held));
    assert(carried_out(held, asked.effects) == Some(held));
    assert(shot_of(s, held).contract == start().contract);
    assert(shot_of(s, held).payer == start().payer);
    assert(can_move(held, party(1), party(5), AMOUNT));
    let t = call.next(s);
    assert(carried_out(held, t.effects) == Some(moved(held, party(1), party(5), AMOUNT)));
    assert(shot_of(s, held).owed == start().owed);
    assert(shot_of(t, carried_out(held, t.effects)->0) == settled(start(), r));
}

impl World {
    /// What a race can change, as it stands.
    pub fn snapshot(&self) -> (shot: Snapshot)
        requires
            self.wf(),
        ensures
            shot@ == self.shot(),
    {
        let mut owed: Vec<i128> = Vec::new();
        owed.push(OracleEscrow::get_owed(&self.escrow, self.workers_a[0]));
        owed.push(OracleEscrow::get_owed(&self.escrow, self.workers_a[1]));
        owed.push(OracleEscrow::get_owed(&self.escrow, self.workers_b[0]));
        owed.push(OracleEscrow::get_owed(&self.escrow, self.workers_b[1]));
        owed.push(OracleEscrow::get_owed(&self.escrow, self.workers_b[2]));
        let question: Question = *self.escrow.questions.get(&QID).unwrap();
        let shot: Snapshot = Snapshot {
            status: question.status,
            contract: self.bank.balance(self.escrow.this),
            platform: self.bank.balance(self.platform),
            payer: self.bank.balance(self.payer),
            third_party: self.bank.balance(self.third_party),
            loser_stake: OracleEscrow::get_stake(&self.escrow, self.loser),
            owed,
        };
        assert(shot@.owed == self.shot().owed);
        shot
    }

    /// Lands one racer. If it is refused, nothing at all has changed.
    pub fn apply(&mut self, r: Racer) -> (result: Result<(), ContractError>)
        requires
            old(self).wf(),
        ensures
            result == (match prediction(
                r,
                old(self).pending(),
                old(self).escrow@.sequence,
                old(self).deadline,
            ) {
                None => Ok(()),
                Some(error) => Err(error),
            }),
            result is Ok ==> final(self).shot() == settled(old(self).shot(), r),
            result is Ok ==> !final(self).pending(),
            result is Err ==> final(self).escrow@ == old(self).escrow@,
            result is Err ==> final(self).bank@ == old(self).bank@,
            final(self).wf(),
            final(self).escrow@.sequence == old(self).escrow@.sequence,
            final(self).deadline == old(self).deadline,
    {
        let ghost s = self.escrow@;
        let ghost held = self.bank@;
        let mut next: Env = self.escrow.clone();
        let result: Result<(), ContractError> = match r {
            Racer::ResolveA => {
                let mut losers: Vec<Address> = Vec::new();
                losers.push(self.loser);
                proof {
                    assert(losers@ == seq![party(31)]);
                    let all = quorum_a() + losers@;
                    assert(all[0] == party(11) && all[1] == party(12) && all[2] == party(31));
                    if self.pending() {
                        resolving_settles(s, held, quorum_a(), losers@, r);
                    }
                }
                OracleEscrow::resolve(&mut next, QID, &self.workers_a, &losers)
            },
            Racer::ResolveB => {
                let losers: Vec<Address> = Vec::new();
                proof {
                    let all = quorum_b() + losers@;
                    assert(all[0] == party(21) && all[1] == party(22) && all[2] == party(23));
                    if self.pending() {
                        resolving_settles(s, held, quorum_b(), losers@, r);
                    }
                }
                OracleEscrow::resolve(&mut next, QID, &self.workers_b, &losers)
            },
            Racer::AdminRefund => {
                proof {
                    if self.pending() {
                        refunding_settles(s, held, Call::Refund { id: QID }, r);
                    }
                }
                OracleEscrow::refund(&mut next, QID)
            },
            Racer::TimeoutRefund | Racer::TimeoutRefundByPayer => {
                proof {
                    if self.pending() && s.sequence >= OPENED_AT + TIMEOUT {
                        refunding_settles(s, held, Call::RefundTimeout { id: QID }, r);
                    }
                }
                OracleEscrow::refund_timeout(&mut next, QID)
            },
        };
        if result.is_ok() {
            proof {
                a_won_race_is_in_order(s, held, next@, r);
            }
            self.bank.carry_out(&next.effects);
            next.effects = Vec::new();
            self.escrow = next;
        }
        result
    }
}

/// Who settles the question when `racers` land in this order, each at its own offset from the
/// deadline: the first that is entitled to.
pub open spec fn winner(racers: Seq<Racer>, offsets: Seq<i64>) -> Option<Racer>
    decreases racers.len(),
{
    if racers.len() == 0 || offsets.len() == 0 {
        None
    } else if racers.len() > offsets.len() {
        winner(racers.take(offsets.len() as int), offsets)
    } else {
        match winner(racers.drop_last(), offsets) {
            Some(first) => Some(first),
            None => if waits_for_deadline(racers.last()) && offsets[racers.len() - 1] < 0 {
                None
            } else {
                Some(racers.last())
            },
        }
    }
}

/// The end of a race: the start, or what its winner makes of it.
pub open spec fn finish(winner: Option<Racer>) -> Shot {
    match winner {
        None => start(),
        Some(first) => settled(start(), first),
    }
}

/// Runs `racers` in this order, each landing at its own offset from the deadline, and returns
/// who settled the question, if anyone. At most one does, with exact accounting; every other
/// racer is refused and changes nothing.
pub fn run(racers: &Vec<Racer>, offsets: &Vec<i64>) -> (first: Option<Racer>)
    requires
        offsets.len() > 0,
        non_decreasing(offsets@),
        -(TIMEOUT as int) <= offsets@[0],
        forall|i: int|
            0 <= i < offsets.len() ==> #[trigger] offsets@[i] <= u32::MAX - OPENED_AT - TIMEOUT,
    ensures
        first == winner(racers@, offsets@),
{
    let mut world: World = World::new(offsets[0]);
    let n: usize = if racers.len() < offsets.len() {
        racers.len()
    } else {
        offsets.len()
    };
    let mut first: Option<Racer> = None;
    let mut i: usize = 0;
    while i < n
        invariant
            0 <= i <= n <= racers.len(),
            n <= offsets.len(),
            offsets.len() > 0,
            non_decreasing(offsets@),
            forall|j: int|
                0 <= j < offsets.len() ==> #[trigger] offsets@[j] <= u32::MAX - OPENED_AT - TIMEOUT,
            world.wf(),
            world.pending() <==> first is None,
            world.shot() == finish(first),
            first == winner(racers@.take(i as int), offsets@),
            i == 0 ==> world.escrow@.sequence == world.deadline + offsets@[0],
            i > 0 ==> world.escrow@.sequence == world.deadline + offsets@[i - 1],
        decreases n - i,
    {
        let r: Racer = racers[i];
        let offset: i64 = offsets[i];
        world.land_at(offset);
        assert(racers@.take(i + 1).drop_last() == racers@.take(i as int));
        match expected(r, first.is_none(), world.escrow.sequence, world.deadline) {
            None => {
                let result: Result<(), ContractError> = world.apply(r);
                assert(result is Ok);
                first = Some(r);
            },
            Some(error) => {
                let result: Result<(), ContractError> = world.apply(r);
                assert(result == Err::<(), ContractError>(error));
            },
        }
        i = i + 1;
    }
    proof {
        if racers.len() <= offsets.len() {
            assert(racers@.take(i as int) == racers@);
        }
    }
    first
}

/// Whether a racer that lands `offset` ledgers from the deadline is entitled to settle a pending
/// question: everyone is from the deadline on, and whoever does not have to wait for it always is.
pub open spec fn is_entitled(r: Racer, offset: i64) -> bool {
    offset >= 0 || r == Racer::ResolveA || r == Racer::ResolveB || r == Racer::AdminRefund
}

/// The winner of a race is whoever comes first of those entitled; if nobody is, there is none.
pub proof fn the_first_entitled_racer_wins(racers: Seq<Racer>, offsets: Seq<i64>)
    requires
        racers.len() <= offsets.len(),
    ensures
        winner(racers, offsets) is None <==> forall|i: int|
            0 <= i < racers.len() ==> !is_entitled(#[trigger] racers[i], offsets[i]),
        winner(racers, offsets) matches Some(first) ==> exists|i: int|
            {
                &&& 0 <= i < racers.len()
                &&& #[trigger] racers[i] == first
                &&& is_entitled(racers[i], offsets[i])
                &&& forall|j: int| 0 <= j < i ==> !is_entitled(#[trigger] racers[j], offsets[j])
            },
    decreases racers.len(),
{
    if racers.len() > 0 {
        let before = racers.drop_last();
        let last = racers.len() - 1;
        the_first_entitled_racer_wins(before, offsets);
        assert forall|i: int| 0 <= i < before.len() implies racers[i] == #[trigger] before[i] by {}
        match winner(before, offsets) {
            Some(first) => {
                let i = choose|i: int|
                    {
                        &&& 0 <= i < before.len()
                        &&& #[trigger] before[i] == first
                        &&& is_entitled(before[i], offsets[i])
                        &&& forall|j: int|
                            0 <= j < i ==> !is_entitled(#[trigger] before[j], offsets[j])
                    };
                assert(racers[i] == first);
                assert forall|j: int| 0 <= j < i implies !is_entitled(
                    #[trigger] racers[j],
                    offsets[j],
                ) by {
                    assert(before[j] == racers[j]);
                }
            },
            None => {
                assert forall|j: int| 0 <= j < last implies !is_entitled(
                    #[trigger] racers[j],
                    offsets[j],
                ) by {
                    assert(before[j] == racers[j]);
                }
                assert(racers[last] == racers.last());
            },
        }
    }
}

/// What a racer is told: that it comes too late once the question is settled, that it comes too
/// early if it has to wait, and nothing otherwise.
pub proof fn what_a_racer_is_told(r: Racer, pending: bool, ledger: u32, deadline: u32)
    ensures
        !pending ==> prediction(r, pending, ledger, deadline) == Some(
            ContractError::QuestionNotPending,
        ),
        pending && is_entitled(r, (ledger - deadline) as i64) ==> prediction(
            r,
            pending,
            ledger,
            deadline,
        ) is None,
        pending && !is_entitled(r, (ledger - deadline) as i64) ==> prediction(
            r,
            pending,
            ledger,
            deadline,
        ) == Some(ContractError::TooEarlyForTimeout),
{
}

/// Whoever settles, the tokens that leave the contract arrive: at the platform, or at the payer.
/// Winners of one quorum gain alike, those of the other nothing, and the third party never gains.
pub proof fn a_settlement_moves_no_more_than_there_is(before: Shot, r: Racer)
    requires
        settleable(before, r),
    ensures
        ({
            let after = settled(before, r);
            &&& before.contract - after.contract == (after.platform - before.platform) + (
            after.payer - before.payer)
            &&& after.third_party == before.third_party
            &&& after.owed.len() == 5
            &&& r == Racer::ResolveA || r == Racer::ResolveB ==> after.status == Status::Resolved
                && after.payer == before.payer
            &&& r != Racer::ResolveA && r != Racer::ResolveB ==> after.status == Status::Refunded
                && after.platform == before.platform && after.owed == before.owed
                && after.payer - before.payer == AMOUNT && after.loser_stake == before.loser_stake
            &&& r == Racer::ResolveA ==> {
                &&& after.owed[0] - before.owed[0] == after.owed[1] - before.owed[1] == 1_000_001
                &&& after.owed[2] == before.owed[2] && after.owed[3] == before.owed[3]
                    && after.owed[4] == before.owed[4]
                &&& before.loser_stake - after.loser_stake == 50_000
            }
            &&& r == Racer::ResolveB ==> {
                &&& after.owed[2] - before.owed[2] == after.owed[3] - before.owed[3] == 666_667
                &&& after.owed[4] - before.owed[4] == 666_667
                &&& after.owed[0] == before.owed[0] && after.owed[1] == before.owed[1]
                &&& after.loser_stake == before.loser_stake
            }
        }),
{
    assert(fee(AMOUNT as int) == 500_000);
    assert(share(AMOUNT as int, 2) == 1_000_001);
    assert(share(AMOUNT as int, 3) == 666_667);
    assert(dust(AMOUNT as int, 2) == 1);
    assert(dust(AMOUNT as int, 3) == 2);
}

} // verus!
