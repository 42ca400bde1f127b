//! The escrow and the model side by side: every operation is run on both, and after each one the
//! contract has to report exactly what the model predicted.
use crate::agreement::{
    agree, asks_for_code, begin_unstake_follows, charge_follows, complete_unstake_follows,
    deposit_follows, entry_of, refunding_follows, resolve_follows, seat, seats, settings_follow,
    stake_follows, submit_follows, upgrades_follow, waiting_agrees, withdraw_balance_follows,
    withdraw_follows,
};
use crate::bank::{held_by, Bank};
use crate::env::{Env, State};
use crate::escrow::OracleEscrow;
use crate::fixture::fake_hash;
use crate::model::{
    claims_are_bounded, done_keeps_sound, escrowed, first_books, first_books_are_sound, in_bounds,
    none_negative, opened, predicted, predicted_books, Books, Model, ModelQuestion, Op, Outcome,
    INITIAL_TIMEOUT, MINTED, PAYERS, PAYER_FUNDS, QUESTION_IDS, T_BENEFICIARY, T_CONTRACT,
    T_PARTIES, T_PAYER0, T_PLATFORM, T_WORKER0, WORKERS, WORKER_FUNDS,
};
use crate::seqs::{total, total_dominates, total_of_nothing};
use crate::sums::{
    sum_after_insert, sum_below, sum_below_agrees, sum_below_grows, sum_below_is_all, sum_of,
    sum_of_nothing, sum_splits,
};
use crate::types::{Address, ContractError, Effect, Question, StakeInfo, Status};
use std::collections::BTreeMap;
use vstd::prelude::*;

verus! {

/// The ledger in which every sequence starts.
pub const FIRST_LEDGER: u32 = 1_000;

/// An escrow, everyone's holdings, and the addresses of the model's parties.
pub struct Harness {
    pub escrow: Env,
    pub bank: Bank,
    pub platform: Address,
    pub beneficiary: Address,
    pub payers: Vec<Address>,
    pub workers: Vec<Address>,
    /// What the model's books say.
    pub books: Ghost<Books>,
}

/// The books after an operation, done or not.
pub open spec fn after_op(b: Books, op: Op) -> Books {
    if predicted(b, op) == Outcome::Done {
        predicted_books(b, op)
    } else {
        b
    }
}

impl Harness {
    /// Everyone sits in their own place.
    pub open spec fn seated(self) -> bool {
        &&& self.platform == seat(T_PLATFORM as int)
        &&& self.beneficiary == seat(T_BENEFICIARY as int)
        &&& self.payers.len() == PAYERS
        &&& self.workers.len() == WORKERS
        &&& forall|p: int| 0 <= p < PAYERS ==> #[trigger] self.payers@[p] == seat(T_PAYER0 + p)
        &&& forall|w: int| 0 <= w < WORKERS ==> #[trigger] self.workers@[w] == seat(T_WORKER0 + w)
    }

    /// The contract and everyone's holdings agree with sound books.
    pub open spec fn wf(self) -> bool {
        &&& self.seated()
        &&& self.books@.sound()
        &&& agree(self.books@, self.escrow@, self.bank@)
    }

    /// A new escrow, and the payers and workers with their funds.
    pub fn new() -> (harness: Harness)
        ensures
            harness.wf(),
            harness.books@ == first_books(FIRST_LEDGER),
    {
        let this: Address = Address { id: 2 };
        let token: Address = Address { id: 20 };
        let admin: Address = Address { id: 21 };
        let platform: Address = Address { id: 1 };
        let beneficiary: Address = Address { id: 3 };
        let mut bank: Bank = Bank::new();
        let mut payers: Vec<Address> = Vec::new();
        let mut p: usize = 0;
        while p < PAYERS
            invariant
                0 <= p <= PAYERS,
                payers.len() == p,
                forall|i: int| 0 <= i < p ==> #[trigger] payers@[i] == seat(T_PAYER0 + i),
                forall|i: int|
                    0 <= i < T_PARTIES ==> held_by(bank@, #[trigger] seat(i)) == (if T_PAYER0 <= i
                        < T_PAYER0 + p {
                        PAYER_FUNDS
                    } else {
                        0i128
                    }),
            decreases PAYERS - p,
        {
            let payer: Address = Address { id: (T_PAYER0 + p + 1) as u64 };
            assert(payer == seat(T_PAYER0 + p));
            bank.mint(payer, PAYER_FUNDS);
            payers.push(payer);
            p = p + 1;
        }
        let mut workers: Vec<Address> = Vec::new();
        let mut w: usize = 0;
        while w < WORKERS
            invariant
                0 <= w <= WORKERS,
                workers.len() == w,
                forall|i: int| 0 <= i < w ==> #[trigger] workers@[i] == seat(T_WORKER0 + i),
                forall|i: int|
                    0 <= i < T_PARTIES ==> held_by(bank@, #[trigger] seat(i)) == (if T_PAYER0 <= i
                        < T_WORKER0 {
                        PAYER_FUNDS
                    } else if T_WORKER0 <= i < T_WORKER0 + w {
                        WORKER_FUNDS
                    } else {
                        0i128
                    }),
            decreases WORKERS - w,
        {
            let worker: Address = Address { id: (T_WORKER0 + w + 1) as u64 };
            assert(worker == seat(T_WORKER0 + w));
            bank.mint(worker, WORKER_FUNDS);
            workers.push(worker);
            w = w + 1;
        }
        let mut escrow: Env = Env::new(this, FIRST_LEDGER, 100_000_000);
        let ready: Result<(), ContractError> = OracleEscrow::initialize(
            &mut escrow,
            admin,
            token,
            platform,
            INITIAL_TIMEOUT,
        );
        escrow.effects = Vec::new();
        let ghost b = first_books(FIRST_LEDGER);
        proof {
            first_books_are_sound(FIRST_LEDGER);
            assert forall|i: int| 0 <= i < T_PARTIES implies held_by(bank@, seat(i))
                == #[trigger] b.tokens[i] by {}
            assert(agree(b, escrow@, bank@));
        }
        Harness { escrow, bank, platform, beneficiary, payers, workers, books: Ghost(b) }
    }

    /// The escrow under test.
    pub fn client(&self) -> (escrow: &Env)
        ensures
            escrow == self.escrow,
    {
        &self.escrow
    }

    /// The workers at these positions.
    pub fn addrs(&self, positions: &Vec<usize>) -> (addrs: Vec<Address>)
        requires
            self.seated(),
            forall|i: int| 0 <= i < positions.len() ==> #[trigger] positions@[i] < WORKERS,
        ensures
            addrs@ == seats(positions@),
    {
        let mut addrs: Vec<Address> = Vec::new();
        let mut i: usize = 0;
        while i < positions.len()
            invariant
                0 <= i <= positions.len(),
                addrs.len() == i,
                self.seated(),
                forall|i: int| 0 <= i < positions.len() ==> #[trigger] positions@[i] < WORKERS,
                forall|j: int| 0 <= j < i ==> #[trigger] addrs@[j] == seats(positions@)[j],
            decreases positions.len() - i,
        {
            addrs.push(self.workers[positions[i]]);
            i = i + 1;
        }
        assert(addrs@ == seats(positions@));
        addrs
    }

    /// What a party holds.
    pub fn token_balance(&self, party: usize) -> (amount: i128)
        requires
            self.seated(),
            party < T_PARTIES,
            self.escrow@.this == seat(T_CONTRACT as int),
        ensures
            amount == held_by(self.bank@, seat(party as int)),
    {
        let who: Address = if party == T_PLATFORM {
            self.platform
        } else if party == T_CONTRACT {
            self.escrow.this
        } else if party == T_BENEFICIARY {
            self.beneficiary
        } else if party < T_WORKER0 {
            self.payers[party - T_PAYER0]
        } else {
            self.workers[party - T_WORKER0]
        };
        self.bank.balance(who)
    }

    /// Moves to another ledger.
    fn land_at(&mut self, ledger: u32)
        requires
            old(self).wf(),
        ensures
            final(self).wf(),
            final(self).books@ == (Books { ledger, ..old(self).books@ }),
    {
        proof {
            waiting_agrees(self.books@, self.escrow@, self.bank@, ledger);
        }
        self.escrow.sequence = ledger;
        self.books = Ghost(Books { ledger, ..self.books@ });
    }
}

/// Whether a call asks for other code.
fn wants_code(effects: &Vec<Effect>) -> (wants: bool)
    ensures
        wants == asks_for_code(effects@),
{
    let mut i: usize = 0;
    while i < effects.len()
        invariant
            0 <= i <= effects.len(),
            forall|j: int| 0 <= j < i ==> !((#[trigger] effects@[j]) is UpdateWasm),
        decreases effects.len() - i,
    {
        if let Effect::UpdateWasm { .. } = effects[i] {
            assert(effects@[i as int] is UpdateWasm);
            return true;
        }
        i = i + 1;
    }
    false
}

/// Whether a call went through, whatever it returned.
fn settled_as<T>(result: Result<T, ContractError>) -> (plain: Result<(), ContractError>)
    ensures
        plain == (match result {
            Ok(_) => Ok(()),
            Err(e) => Err(e),
        }),
{
    match result {
        Ok(_) => Ok(()),
        Err(e) => Err(e),
    }
}

impl Harness {
    /// Runs one operation on the contract. The model has already worked out where a jump in time
    /// leads. The outcome is the predicted one, and so is everything that the contract and the
    /// token ledger hold afterwards.
    pub fn apply(&mut self, op: &Op, model: &Model) -> (outcome: Outcome)
        requires
            old(self).wf(),
            old(self).books@.room(),
            in_bounds(old(self).books@, *op),
            (op is Advance || op is AdvanceNearUpgrade) ==> model.ledger == predicted_books(
                old(self).books@,
                *op,
            ).ledger,
        ensures
            outcome == predicted(old(self).books@, *op),
            final(self).books@ == after_op(old(self).books@, *op),
            final(self).wf(),
    {
        let ghost b = self.books@;
        let ghost s = self.escrow@;
        let ghost held = self.bank@;
        let hash: [u8; 32] = fake_hash(7);
        let mut next: Env = self.escrow.clone();
        let result: Result<(), ContractError> = match op {
            Op::Submit { payer, qid, amount } => {
                proof {
                    submit_follows(b, s, held, *op);
                }
                OracleEscrow::submit(&mut next, self.payers[*payer], *qid, *amount)
            },
            Op::Deposit { payer, amount } => {
                proof {
                    deposit_follows(b, s, held, *op);
                }
                let who: Address = self.payers[*payer];
                // Nobody holds that much, so the transfer would fail before the sum is formed.
                if *amount > 0 && OracleEscrow::get_balance(&self.escrow, who) > i128::MAX
                    - *amount {
                    return Outcome::Rejected;
                }
                OracleEscrow::deposit(&mut next, who, *amount)
            },
            Op::WithdrawBalance { payer, amount } => {
                proof {
                    withdraw_balance_follows(b, s, held, *op);
                }
                OracleEscrow::withdraw_balance(&mut next, self.payers[*payer], *amount)
            },
            Op::Charge { payer, qid, amount } => {
                proof {
                    charge_follows(b, s, held, *op);
                }
                OracleEscrow::charge(&mut next, self.payers[*payer], *qid, *amount)
            },
            Op::Resolve { qid, workers, losers } => {
                proof {
                    resolve_follows(b, s, held, *op);
                }
                let winning: Vec<Address> = self.addrs(workers);
                let losing: Vec<Address> = self.addrs(losers);
                OracleEscrow::resolve(&mut next, *qid, &winning, &losing)
            },
            Op::Refund { qid } => {
                proof {
                    refunding_follows(b, s, held, *op, *qid);
                }
                OracleEscrow::refund(&mut next, *qid)
            },
            Op::RefundTimeout { qid } => {
                proof {
                    refunding_follows(b, s, held, *op, *qid);
                }
                OracleEscrow::refund_timeout(&mut next, *qid)
            },
            Op::Stake { worker, amount } => {
                proof {
                    stake_follows(b, s, held, *op);
                }
                let who: Address = self.workers[*worker];
                // As with a deposit.
                if *amount > 0 && OracleEscrow::get_stake_info(&self.escrow, who).warming
                    > i128::MAX - *amount {
                    return Outcome::Rejected;
                }
                OracleEscrow::stake(&mut next, who, *amount)
            },
            Op::BeginUnstake { worker, amount } => {
                proof {
                    begin_unstake_follows(b, s, held, *op);
                }
                settled_as(OracleEscrow::begin_unstake(&mut next, self.workers[*worker], *amount))
            },
            Op::CompleteUnstake { worker } => {
                proof {
                    complete_unstake_follows(b, s, held, *op);
                }
                settled_as(OracleEscrow::complete_unstake(&mut next, self.workers[*worker]))
            },
            Op::Withdraw { worker, amount } => {
                proof {
                    withdraw_follows(b, s, held, *op, *worker, T_WORKER0 + *worker, *amount);
                }
                settled_as(OracleEscrow::withdraw(&mut next, self.workers[*worker], *amount))
            },
            Op::WithdrawTo { worker, amount } => {
                proof {
                    withdraw_follows(b, s, held, *op, *worker, T_BENEFICIARY as int, *amount);
                }
                settled_as(
                    OracleEscrow::withdraw_to(
                        &mut next,
                        self.workers[*worker],
                        self.beneficiary,
                        *amount,
                    ),
                )
            },
            Op::Touch { worker } => {
                proof {
                    settings_follow(b, s, held, *op);
                }
                OracleEscrow::touch(&mut next, self.workers[*worker])
            },
            Op::SetTimeout { ledgers } => {
                proof {
                    settings_follow(b, s, held, *op);
                }
                OracleEscrow::set_timeout_ledgers(&mut next, *ledgers)
            },
            Op::ProposeUpgrade => {
                proof {
                    upgrades_follow(b, s, held, *op, hash);
                }
                OracleEscrow::propose_upgrade(&mut next, hash)
            },
            Op::CancelUpgrade => {
                proof {
                    upgrades_follow(b, s, held, *op, hash);
                }
                OracleEscrow::cancel_upgrade(&mut next)
            },
            Op::ExecuteUpgrade => {
                proof {
                    upgrades_follow(b, s, held, *op, hash);
                }
                OracleEscrow::execute_upgrade(&mut next)
            },
            Op::Advance { .. } | Op::AdvanceNearUpgrade { .. } => {
                self.land_at(model.ledger);
                return Outcome::Done;
            },
        };
        let mut paid: Bank = self.bank.clone();
        if wants_code(&next.effects) || !paid.carry_out(&next.effects) {
            return Outcome::Rejected;
        }
        match result {
            Ok(()) => {
                proof {
                    done_keeps_sound(b, *op);
                }
                next.effects = Vec::new();
                self.escrow = next;
                self.bank = paid;
                self.books = Ghost(predicted_books(b, *op));
                Outcome::Done
            },
            Err(e) => Outcome::Refused(e),
        }
    }
}

/// What the contract or the token ledger got wrong.
#[derive(Clone, Copy, PartialEq, Eq, Structural, Debug)]
pub enum Violation {
    /// The contract does not hold exactly what it owes.
    Unreconciled { held: i128, escrowed: i128, prepaid: i128, staked: i128, owed: i128 },
    /// Tokens appeared or vanished.
    Supply { supply: i128 },
    /// Question funds are neither escrowed, nor paid out, nor refunded.
    QuestionFunds { opened: i128, escrowed: i128 },
    Ledger,
    /// This question is not what the model says.
    Question { id: u64 },
    Balances,
    /// Bonds or earnings are not what the model says.
    Bonds,
    Tokens,
    Upgrade,
    /// Someone could not get out what is theirs.
    Stuck,
    /// The contract still holds this much after everyone has left.
    Remainder { left: i128 },
}

/// What a stored question still locks.
pub open spec fn locked() -> spec_fn(Question) -> int {
    |q: Question|
        if q.status == Status::Pending {
            q.amount as int
        } else {
            0
        }
}

/// What a stored question was opened with.
pub open spec fn amounts() -> spec_fn(Question) -> int {
    |q: Question| q.amount as int
}

/// The model's way of writing down a stored question.
pub open spec fn seen(q: Question) -> ModelQuestion {
    ModelQuestion {
        payer: (q.payer.id - 1 - T_PAYER0) as usize,
        amount: q.amount,
        status: q.status,
        created_at: q.created_at,
        timeout_ledgers: q.timeout_ledgers,
    }
}

pub open spec fn differs(m: Books, s: State, id: u64) -> bool {
    if s.questions.contains_key(id) {
        !m.questions.contains_key(id) || m.questions[id] != seen(s.questions[id])
    } else {
        m.questions.contains_key(id)
    }
}

/// The first question below `n` that the model has differently.
pub open spec fn first_difference(m: Books, s: State, n: u64) -> Option<u64>
    decreases n,
{
    if n == 0 {
        None
    } else {
        match first_difference(m, s, (n - 1) as u64) {
            Some(id) => Some(id),
            None => if differs(m, s, (n - 1) as u64) {
                Some((n - 1) as u64)
            } else {
                None
            },
        }
    }
}

pub open spec fn read_balances(s: State) -> Seq<i128> {
    Seq::new(PAYERS as nat, |p: int| s.balance_of(seat(T_PAYER0 + p)))
}

pub open spec fn read_stakes(s: State) -> Seq<i128> {
    Seq::new(WORKERS as nat, |w: int| s.recorded_stake(seat(T_WORKER0 + w)).active() as i128)
}

pub open spec fn read_unbonding(s: State) -> Seq<i128> {
    Seq::new(WORKERS as nat, |w: int| s.recorded_stake(seat(T_WORKER0 + w)).unbonding)
}

pub open spec fn read_releases(s: State) -> Seq<u32> {
    Seq::new(WORKERS as nat, |w: int| s.recorded_stake(seat(T_WORKER0 + w)).unbonding_release_at)
}

pub open spec fn read_owed(s: State) -> Seq<i128> {
    Seq::new(WORKERS as nat, |w: int| s.owed_to(seat(T_WORKER0 + w)))
}

pub open spec fn read_tokens(held: Map<u64, i128>) -> Seq<i128> {
    Seq::new(T_PARTIES as nat, |i: int| held_by(held, seat(i)))
}

/// The first violated property, if any: escrow reconciliation and conservation from what the
/// contract and the token ledger report, then exact agreement with the model.
pub open spec fn verdict(m: Books, s: State, held: Map<u64, i128>) -> Result<(), Violation> {
    let escrowed: int = sum_below(s.questions, locked(), QUESTION_IDS);
    let opened: int = sum_below(s.questions, amounts(), QUESTION_IDS);
    let prepaid: int = total(read_balances(s));
    let staked: int = total(read_stakes(s)) + total(read_unbonding(s));
    let owed: int = total(read_owed(s));
    let tokens: Seq<i128> = read_tokens(held);
    if tokens[T_CONTRACT as int] != escrowed + prepaid + staked + owed {
        Err(
            Violation::Unreconciled {
                held: tokens[T_CONTRACT as int],
                escrowed: escrowed as i128,
                prepaid: prepaid as i128,
                staked: staked as i128,
                owed: owed as i128,
            },
        )
    } else if total(tokens) != MINTED {
        Err(Violation::Supply { supply: total(tokens) as i128 })
    } else if opened != escrowed + m.paid_to_platform + m.credited_to_workers + m.refunded {
        Err(Violation::QuestionFunds { opened: opened as i128, escrowed: escrowed as i128 })
    } else if s.sequence != m.ledger {
        Err(Violation::Ledger)
    } else if first_difference(m, s, QUESTION_IDS) is Some {
        Err(Violation::Question { id: first_difference(m, s, QUESTION_IDS)->0 })
    } else if read_balances(s) != m.balance {
        Err(Violation::Balances)
    } else if read_stakes(s) != m.stake || read_unbonding(s) != m.unbonding || read_releases(s)
        != m.release_at || read_owed(s) != m.owed {
        Err(Violation::Bonds)
    } else if tokens != m.tokens {
        Err(Violation::Tokens)
    } else if m.upgrade_at != (match s.config.pending_upgrade {
        Some(upgrade) => Some(upgrade.executable_at),
        None => None,
    }) {
        Err(Violation::Upgrade)
    } else {
        Ok(())
    }
}

/// What is read is what the books say.
proof fn reads_agree(b: Books, s: State, held: Map<u64, i128>)
    requires
        agree(b, s, held),
        b.sound(),
    ensures
        read_balances(s) == b.balance,
        read_stakes(s) == b.stake,
        read_unbonding(s) == b.unbonding,
        read_releases(s) == b.release_at,
        read_owed(s) == b.owed,
        read_tokens(held) == b.tokens,
        forall|id: u64| #[trigger] s.questions.contains_key(id) ==> seen(s.questions[id])
            == b.questions[id] && 0 < s.questions[id].amount <= MINTED,
{
    assert forall|p: int| 0 <= p < PAYERS implies read_balances(s)[p] == b.balance[p] by {}
    assert forall|w: int| 0 <= w < WORKERS implies read_stakes(s)[w] == b.stake[w] by {}
    assert forall|w: int| 0 <= w < WORKERS implies read_unbonding(s)[w] == b.unbonding[w] by {}
    assert forall|w: int| 0 <= w < WORKERS implies read_releases(s)[w] == b.release_at[w] by {}
    assert forall|w: int| 0 <= w < WORKERS implies read_owed(s)[w] == b.owed[w] by {}
    assert forall|i: int| 0 <= i < T_PARTIES implies read_tokens(held)[i] == b.tokens[i] by {}
    assert forall|id: u64| #[trigger] s.questions.contains_key(id) implies seen(s.questions[id])
        == b.questions[id] && 0 < s.questions[id].amount <= MINTED by {
        assert(b.questions.contains_key(id));
    }
}

/// A contract that agrees with sound books passes.
pub proof fn agreement_passes(b: Books, s: State, held: Map<u64, i128>)
    requires
        agree(b, s, held),
        b.sound(),
        forall|id: u64| #[trigger] b.questions.contains_key(id) ==> id < QUESTION_IDS,
    ensures
        verdict(b, s, held) == Ok::<(), Violation>(()),
{
    reads_agree(b, s, held);
    assert forall|k: u64| k < QUESTION_IDS implies (#[trigger] s.questions.contains_key(k)
        <==> b.questions.contains_key(k)) && (s.questions.contains_key(k) ==> locked()(
        s.questions[k],
    ) == escrowed()(b.questions[k]) && amounts()(s.questions[k]) == opened()(b.questions[k])) by {}
    sum_below_agrees(s.questions, locked(), b.questions, escrowed(), QUESTION_IDS);
    sum_below_agrees(s.questions, amounts(), b.questions, opened(), QUESTION_IDS);
    sum_below_is_all(b.questions, escrowed(), QUESTION_IDS);
    sum_below_is_all(b.questions, opened(), QUESTION_IDS);
    nothing_differs(b, s, held, QUESTION_IDS);
}

proof fn nothing_differs(b: Books, s: State, held: Map<u64, i128>, n: u64)
    requires
        agree(b, s, held),
        b.sound(),
    ensures
        first_difference(b, s, n) is None,
    decreases n,
{
    reads_agree(b, s, held);
    if n > 0 {
        let k = (n - 1) as u64;
        nothing_differs(b, s, held, k);
        assert(s.questions.contains_key(k) <==> b.questions.contains_key(k));
    }
}

/// Whether a figure stays within the number range.
pub open spec fn fits(figure: int) -> bool {
    i128::MIN <= figure <= i128::MAX
}

/// Whether a list can be summed up from the front.
pub open spec fn summable(s: Seq<i128>) -> bool {
    forall|n: int| 0 <= n <= s.len() ==> fits(#[trigger] total(s.take(n)))
}

/// The sum of a list.
fn sum(list: &Vec<i128>) -> (all: i128)
    requires
        summable(list@),
    ensures
        all == total(list@),
{
    let mut all: i128 = 0;
    let mut i: usize = 0;
    while i < list.len()
        invariant
            0 <= i <= list.len(),
            summable(list@),
            all == total(list@.take(i as int)),
        decreases list.len() - i,
    {
        assert(list@.take(i + 1).drop_last() == list@.take(i as int));
        assert(fits(total(list@.take(i + 1))));
        all = all + list[i];
        i = i + 1;
    }
    assert(list@.take(i as int) == list@);
    all
}

/// A prefix sums up to no more than the whole.
proof fn total_of_prefix(s: Seq<i128>, n: int)
    requires
        none_negative(s),
        0 <= n <= s.len(),
    ensures
        0 <= total(s.take(n)) <= total(s),
    decreases s.len(),
{
    total_dominates(s);
    if n < s.len() {
        let before = s.drop_last();
        assert forall|i: int| 0 <= i < before.len() implies 0 <= #[trigger] before[i] by {
            assert(before[i] == s[i]);
        }
        assert(before.take(n) == s.take(n));
        total_of_prefix(before, n);
        assert(s[s.len() - 1] >= 0);
    } else {
        assert(s.take(n) == s);
    }
}

/// What has nothing negative in it and sums up as a whole sums up part by part.
proof fn a_fitting_total_is_summable(s: Seq<i128>)
    requires
        none_negative(s),
        total(s) <= i128::MAX,
    ensures
        summable(s),
{
    assert forall|n: int| 0 <= n <= s.len() implies fits(#[trigger] total(s.take(n))) by {
        total_of_prefix(s, n);
    }
}

/// Whether two lists are the same.
fn same(a: &Vec<i128>, b: &Vec<i128>) -> (equal: bool)
    ensures
        equal == (a@ == b@),
{
    if a.len() != b.len() {
        return false;
    }
    let mut i: usize = 0;
    while i < a.len()
        invariant
            0 <= i <= a.len(),
            a.len() == b.len(),
            forall|j: int| 0 <= j < i ==> a@[j] == b@[j],
        decreases a.len() - i,
    {
        if a[i] != b[i] {
            return false;
        }
        i = i + 1;
    }
    assert(a@ == b@);
    true
}

/// Whether two lists of ledgers are the same.
fn same_ledgers(a: &Vec<u32>, b: &Vec<u32>) -> (equal: bool)
    ensures
        equal == (a@ == b@),
{
    if a.len() != b.len() {
        return false;
    }
    let mut i: usize = 0;
    while i < a.len()
        invariant
            0 <= i <= a.len(),
            a.len() == b.len(),
            forall|j: int| 0 <= j < i ==> a@[j] == b@[j],
        decreases a.len() - i,
    {
        if a[i] != b[i] {
            return false;
        }
        i = i + 1;
    }
    assert(a@ == b@);
    true
}

impl Harness {
    /// Which payer this is.
    fn position(&self, who: Address) -> (position: usize)
        requires
            self.seated(),
            T_PAYER0 + 1 <= who.id < T_PAYER0 + 1 + PAYERS,
        ensures
            position == who.id - 1 - T_PAYER0,
    {
        let mut p: usize = 0;
        while p < PAYERS
            invariant
                0 <= p <= PAYERS,
                self.seated(),
                forall|i: int| 0 <= i < p ==> #[trigger] self.payers@[i] != who,
            decreases PAYERS - p,
        {
            if self.payers[p] == who {
                return p;
            }
            p = p + 1;
        }
        assert(self.payers@[who.id - 1 - T_PAYER0] == who);
        p
    }

    /// Whether everything that a check looks at can be read and summed up: the parties sit in
    /// their places, the entries are well formed, the questions are the payers', and no sum
    /// leaves the number range. What the figures are is left open.
    pub open spec fn readable(self) -> bool {
        let s = self.escrow@;
        let escrowed = sum_below(s.questions, locked(), QUESTION_IDS);
        let prepaid = total(read_balances(s));
        let staked = total(read_stakes(s)) + total(read_unbonding(s));
        &&& self.seated()
        &&& s.this == seat(T_CONTRACT as int)
        &&& s.wf()
        &&& forall|w: int|
            0 <= w < WORKERS ==> (#[trigger] s.recorded_stake(seat(T_WORKER0 + w))).active()
                <= i128::MAX
        &&& forall|id: u64|
            id < QUESTION_IDS && #[trigger] s.questions.contains_key(id) ==> T_PAYER0 + 1
                <= s.questions[id].payer.id < T_PAYER0 + 1 + PAYERS
        &&& fits(sum_below(s.questions, amounts(), QUESTION_IDS))
        &&& summable(read_balances(s))
        &&& summable(read_stakes(s))
        &&& summable(read_unbonding(s))
        &&& summable(read_owed(s))
        &&& summable(read_tokens(self.bank@))
        &&& fits(staked)
        &&& fits(escrowed + prepaid)
        &&& fits(escrowed + prepaid + staked)
        &&& fits(escrowed + prepaid + staked + total(read_owed(s)))
    }

    /// Checks the contract and the token ledger against the model, reading each value once.
    pub fn check(&self, model: &Model) -> (result: Result<(), Violation>)
        requires
            self.readable(),
            tallies_fit(model@, sum_below(self.escrow@.questions, locked(), QUESTION_IDS)),
        ensures
            result == verdict(model@, self.escrow@, self.bank@),
    {
        let ghost s = self.escrow@;
        let mut balance: Vec<i128> = Vec::new();
        let mut p: usize = 0;
        while p < PAYERS
            invariant
                0 <= p <= PAYERS,
                self.readable(),
                s == self.escrow@,
                balance.len() == p,
                forall|i: int| 0 <= i < p ==> #[trigger] balance@[i] == read_balances(s)[i],
            decreases PAYERS - p,
        {
            balance.push(OracleEscrow::get_balance(&self.escrow, self.payers[p]));
            p = p + 1;
        }
        let mut stake: Vec<i128> = Vec::new();
        let mut unbonding: Vec<i128> = Vec::new();
        let mut release_at: Vec<u32> = Vec::new();
        let mut owed: Vec<i128> = Vec::new();
        let mut w: usize = 0;
        while w < WORKERS
            invariant
                0 <= w <= WORKERS,
                self.readable(),
                s == self.escrow@,
                stake.len() == w,
                unbonding.len() == w,
                release_at.len() == w,
                owed.len() == w,
                forall|i: int| 0 <= i < w ==> #[trigger] stake@[i] == read_stakes(s)[i],
                forall|i: int| 0 <= i < w ==> #[trigger] unbonding@[i] == read_unbonding(s)[i],
                forall|i: int| 0 <= i < w ==> #[trigger] release_at@[i] == read_releases(s)[i],
                forall|i: int| 0 <= i < w ==> #[trigger] owed@[i] == read_owed(s)[i],
            decreases WORKERS - w,
        {
            let who: Address = self.workers[w];
            assert(s.recorded_stake(seat(T_WORKER0 + w)).active() <= i128::MAX);
            stake.push(OracleEscrow::get_stake(&self.escrow, who));
            let info: StakeInfo = OracleEscrow::get_stake_info(&self.escrow, who);
            unbonding.push(info.unbonding);
            release_at.push(info.unbonding_release_at);
            owed.push(OracleEscrow::get_owed(&self.escrow, who));
            w = w + 1;
        }
        let mut tokens: Vec<i128> = Vec::new();
        let mut i: usize = 0;
        while i < T_PARTIES
            invariant
                0 <= i <= T_PARTIES,
                self.readable(),
                tokens.len() == i,
                forall|j: int| 0 <= j < i ==> #[trigger] tokens@[j] == read_tokens(self.bank@)[j],
            decreases T_PARTIES - i,
        {
            tokens.push(self.token_balance(i));
            i = i + 1;
        }
        assert(balance@ == read_balances(s));
        assert(stake@ == read_stakes(s));
        assert(unbonding@ == read_unbonding(s));
        assert(release_at@ == read_releases(s));
        assert(owed@ == read_owed(s));
        assert(tokens@ == read_tokens(self.bank@));

        let mut escrowed: i128 = 0;
        let mut opened: i128 = 0;
        let mut different: Option<u64> = None;
        let mut id: u64 = 0;
        while id < QUESTION_IDS
            invariant
                0 <= id <= QUESTION_IDS,
                self.readable(),
                s == self.escrow@,
                escrowed == sum_below(s.questions, locked(), id),
                opened == sum_below(s.questions, amounts(), id),
                0 <= escrowed <= opened,
                different == first_difference(model@, s, id),
            decreases QUESTION_IDS - id,
        {
            proof {
                sum_below_grows(
                    s.questions,
                    amounts(),
                    (id + 1) as u64,
                    QUESTION_IDS,
                    i128::MAX as int,
                );
            }
            match OracleEscrow::get_question(&self.escrow, id) {
                Ok(q) => {
                    proof {
                        assert(s.questions.contains_key(id));
                        assert(locked()(q) == (if q.status == Status::Pending {
                            q.amount as int
                        } else {
                            0
                        }));
                        assert(amounts()(q) == q.amount);
                    }
                    opened = opened + q.amount;
                    if q.status == Status::Pending {
                        escrowed = escrowed + q.amount;
                    }
                    let got: ModelQuestion = ModelQuestion {
                        payer: self.position(q.payer),
                        amount: q.amount,
                        status: q.status,
                        created_at: q.created_at,
                        timeout_ledgers: q.timeout_ledgers,
                    };
                    let agrees: bool = match model.questions.get(&id) {
                        Some(want) => got == *want,
                        None => false,
                    };
                    if different.is_none() && !agrees {
                        different = Some(id);
                    }
                },
                Err(_) => {
                    if different.is_none() && model.questions.contains_key(&id) {
                        different = Some(id);
                    }
                },
            }
            id = id + 1;
        }

        let prepaid: i128 = sum(&balance);
        let staked: i128 = sum(&stake) + sum(&unbonding);
        let owed_total: i128 = sum(&owed);
        let held: i128 = tokens[T_CONTRACT];
        if held != escrowed + prepaid + staked + owed_total {
            return Err(
                Violation::Unreconciled { held, escrowed, prepaid, staked, owed: owed_total },
            );
        }
        let supply: i128 = sum(&tokens);
        if supply != MINTED {
            return Err(Violation::Supply { supply });
        }
        if opened != escrowed + model.paid_to_platform + model.credited_to_workers
            + model.refunded {
            return Err(Violation::QuestionFunds { opened, escrowed });
        }
        if self.escrow.sequence != model.ledger {
            return Err(Violation::Ledger);
        }
        if let Some(id) = different {
            return Err(Violation::Question { id });
        }
        if !same(&balance, &model.balance) {
            return Err(Violation::Balances);
        }
        if !same(&stake, &model.stake) || !same(&unbonding, &model.unbonding) || !same_ledgers(
            &release_at,
            &model.release_at,
        ) || !same(&owed, &model.owed) {
            return Err(Violation::Bonds);
        }
        if !same(&tokens, &model.tokens) {
            return Err(Violation::Tokens);
        }
        let upgrade_at: Option<u32> = match OracleEscrow::get_pending_upgrade(&self.escrow) {
            Some(upgrade) => Some(upgrade.executable_at),
            None => None,
        };
        if upgrade_at != model.upgrade_at {
            return Err(Violation::Upgrade);
        }
        Ok(())
    }
}

/// Whether the model's tallies of settled funds can be added to what is still escrowed.
pub open spec fn tallies_fit(m: Books, escrowed: int) -> bool {
    &&& fits(escrowed + m.paid_to_platform)
    &&& fits(escrowed + m.paid_to_platform + m.credited_to_workers)
    &&& fits(escrowed + m.paid_to_platform + m.credited_to_workers + m.refunded)
}

/// A contract that agrees with sound books can be checked against them.
proof fn agreement_is_readable(h: Harness)
    requires
        h.wf(),
        spacious(h.books@),
    ensures
        h.readable(),
        tallies_fit(h.books@, sum_below(h.escrow@.questions, locked(), QUESTION_IDS)),
{
    let b = h.books@;
    let s = h.escrow@;
    claims_are_bounded(b);
    a_spacious_book_has_room(b);
    reads_agree(b, s, h.bank@);
    a_fitting_total_is_summable(b.balance);
    a_fitting_total_is_summable(b.stake);
    a_fitting_total_is_summable(b.unbonding);
    a_fitting_total_is_summable(b.owed);
    a_fitting_total_is_summable(b.tokens);
    assert forall|w: int| 0 <= w < WORKERS implies (#[trigger] s.recorded_stake(
        seat(T_WORKER0 + w),
    )).active() <= i128::MAX by {
        assert(b.stake[w] <= i128::MAX);
    }
    assert forall|id: u64| id < QUESTION_IDS && #[trigger] s.questions.contains_key(id) implies {
        &&& T_PAYER0 + 1 <= s.questions[id].payer.id < T_PAYER0 + 1 + PAYERS
        &&& 0 <= amounts()(s.questions[id]) <= MINTED
        &&& 0 <= locked()(s.questions[id]) <= MINTED
    } by {
        assert(b.questions.contains_key(id));
    }
    sum_below_grows(s.questions, amounts(), 0, QUESTION_IDS, MINTED as int);
    sum_below_grows(s.questions, locked(), 0, QUESTION_IDS, MINTED as int);
}

/// What one payer still has in open questions.
pub open spec fn escrowed_by(payer: int) -> spec_fn(ModelQuestion) -> int {
    |q: ModelQuestion|
        if q.status == Status::Pending && q.payer == payer {
            q.amount as int
        } else {
            0
        }
}

/// Everything that is a party's own: what they hold and what the contract owes them.
pub open spec fn worth(b: Books, party: int) -> int {
    if T_PAYER0 <= party < T_WORKER0 {
        b.tokens[party] + b.balance[party - T_PAYER0] + sum_of(
            b.questions,
            escrowed_by(party - T_PAYER0),
        )
    } else if T_WORKER0 <= party < T_PARTIES {
        b.tokens[party] + b.stake[party - T_WORKER0] + b.unbonding[party - T_WORKER0]
            + b.owed[party - T_WORKER0]
    } else {
        b.tokens[party] as int
    }
}

/// The two books have everyone own the same.
pub open spec fn same_worth(b: Books, c: Books) -> bool {
    forall|i: int| 0 <= i < T_PARTIES && i != T_CONTRACT ==> #[trigger] worth(c, i) == worth(b, i)
}

/// Nobody gains or loses when someone takes out what is theirs, or when a question is refunded.
pub proof fn exits_keep_everyones_worth(b: Books, op: Op)
    requires
        b.sound(),
        b.room(),
        in_bounds(b, op),
        predicted(b, op) == Outcome::Done,
        op is WithdrawBalance || op is Refund || op is RefundTimeout || op is BeginUnstake || op
            is CompleteUnstake || op is Withdraw,
    ensures
        same_worth(b, predicted_books(b, op)),
{
    broadcast use sum_after_insert;

    claims_are_bounded(b);
    let c = predicted_books(b, op);
    if op is Refund || op is RefundTimeout {
        let qid = match op {
            Op::Refund { qid } => qid,
            Op::RefundTimeout { qid } => qid,
            _ => 0,
        };
        assert(b.is_pending(qid));
        let q = b.questions[qid];
        let closed = ModelQuestion { status: Status::Refunded, ..q };
        assert forall|i: int| 0 <= i < T_PARTIES && i != T_CONTRACT implies #[trigger] worth(c, i)
            == worth(b, i) by {
            let f = escrowed_by(i - T_PAYER0);
            assert(f(closed) == 0);
            assert(f(q) == (if q.payer == i - T_PAYER0 {
                q.amount as int
            } else {
                0
            }));
        }
    }
}

/// Once nothing is pending, bonded, owed or prepaid any more, everyone holds what is theirs and
/// the contract holds nothing.
proof fn nothing_is_left(b: Books)
    requires
        b.sound(),
        forall|id: u64| !#[trigger] b.is_pending(id),
        forall|p: int| 0 <= p < PAYERS ==> #[trigger] b.balance[p] == 0,
        forall|w: int| 0 <= w < WORKERS ==> #[trigger] b.stake[w] == 0,
        forall|w: int| 0 <= w < WORKERS ==> #[trigger] b.unbonding[w] == 0,
        forall|w: int| 0 <= w < WORKERS ==> #[trigger] b.owed[w] == 0,
    ensures
        b.tokens[T_CONTRACT as int] == 0,
        forall|i: int|
            0 <= i < T_PARTIES && i != T_CONTRACT ==> #[trigger] worth(b, i) == b.tokens[i],
{
    assert forall|id: u64| #[trigger] b.questions.contains_key(id) implies escrowed()(
        b.questions[id],
    ) == 0 by {
        assert(!b.is_pending(id));
    }
    sum_of_nothing(b.questions, escrowed());
    total_of_nothing(b.balance);
    total_of_nothing(b.stake);
    total_of_nothing(b.unbonding);
    total_of_nothing(b.owed);
    assert forall|i: int| 0 <= i < T_PARTIES && i != T_CONTRACT implies #[trigger] worth(b, i)
        == b.tokens[i] by {
        let f = escrowed_by(i - T_PAYER0);
        assert forall|id: u64| #[trigger] b.questions.contains_key(id) implies f(
            b.questions[id],
        ) == 0 by {
            assert(!b.is_pending(id));
        }
        sum_of_nothing(b.questions, f);
    }
}

/// The ids in a model's books, in order.
fn ids_of(questions: &BTreeMap<u64, ModelQuestion>) -> (ids: Vec<u64>)
    ensures
        forall|i: int| 0 <= i < ids.len() ==> questions@.contains_key(#[trigger] ids@[i]),
        forall|id: u64| #[trigger] questions@.contains_key(id) ==> ids@.contains(id),
        ids@.no_duplicates(),
{
    broadcast use vstd::std_specs::btree::group_btree_axioms;

    let ghost all = vstd::std_specs::iter::IteratorSpec::remaining(&questions.keys()).unref();
    let mut ids: Vec<u64> = Vec::new();
    for id in it: questions.keys()
        invariant
            it.seq().unref() == all,
            ids.len() == it.index(),
            forall|i: int| 0 <= i < ids.len() ==> ids@[i] == all[i],
        ensures
            ids@ == all,
    {
        assert(all[ids.len() as int] == *id);
        ids.push(*id);
    }
    assert(ids@.to_set() == questions@.dom());
    proof {
        assert forall|i: int| 0 <= i < ids.len() implies questions@.contains_key(
            #[trigger] ids@[i],
        ) by {
            assert(ids@.to_set().contains(ids@[i]));
        }
        assert forall|id: u64| #[trigger] questions@.contains_key(id) implies ids@.contains(id) by {
            assert(ids@.to_set().contains(id));
        }
    }
    ids
}

/// Whether all the questions ever opened can still be tallied.
pub open spec fn spacious(b: Books) -> bool {
    sum_of(b.questions, opened()) + MINTED * (QUESTION_IDS + 1) <= i128::MAX
}

/// Settled funds were opened once.
proof fn a_spacious_book_has_room(b: Books)
    requires
        b.sound(),
        spacious(b),
    ensures
        b.room(),
        forall|escrowed: int|
            0 <= escrowed <= MINTED * QUESTION_IDS ==> #[trigger] tallies_fit(b, escrowed),
{
    claims_are_bounded(b);
}

/// Refunding and withdrawing open nothing.
proof fn exits_stay_spacious(b: Books, op: Op)
    requires
        b.sound(),
        spacious(b),
        predicted(b, op) == Outcome::Done,
        op is WithdrawBalance || op is RefundTimeout || op is BeginUnstake || op
            is CompleteUnstake || op is Withdraw,
    ensures
        spacious(predicted_books(b, op)),
{
    broadcast use sum_after_insert;

    if let Op::RefundTimeout { qid } = op {
        let q = b.questions[qid];
        assert(opened()(q) == opened()(ModelQuestion { status: Status::Refunded, ..q }));
    }
}

impl Harness {
    /// One step towards the exit, on the contract alone.
    fn leave(&mut self, op: &Op, model: &Model) -> (done: bool)
        requires
            old(self).wf(),
            spacious(old(self).books@),
            in_bounds(old(self).books@, *op),
            predicted(old(self).books@, *op) == Outcome::Done,
            op is WithdrawBalance || op is RefundTimeout || op is BeginUnstake || op
                is CompleteUnstake || op is Withdraw,
        ensures
            done,
            final(self).books@ == predicted_books(old(self).books@, *op),
            final(self).wf(),
            spacious(final(self).books@),
            same_worth(old(self).books@, final(self).books@),
    {
        proof {
            a_spacious_book_has_room(self.books@);
            exits_stay_spacious(self.books@, *op);
            exits_keep_everyones_worth(self.books@, *op);
        }
        let outcome: Outcome = self.apply(op, model);
        outcome == Outcome::Done
    }

    /// Anyone refunds every pending question.
    fn refund_all(&mut self, model: &Model) -> (done: bool)
        requires
            old(self).wf(),
            spacious(old(self).books@),
            model@.questions == old(self).books@.questions,
            forall|id: u64| #[trigger]
                old(self).books@.questions.contains_key(id) ==> old(self).books@.deadline(id)
                    <= old(self).books@.ledger,
        ensures
            done,
            final(self).wf(),
            spacious(final(self).books@),
            same_worth(old(self).books@, final(self).books@),
            all_closed(final(self).books@),
            all_refunded(old(self).books@.questions, final(self).books@.questions),
    {
        let ghost start = self.books@;
        let ids: Vec<u64> = ids_of(&model.questions);
        let mut k: usize = 0;
        while k < ids.len()
            invariant
                0 <= k <= ids.len(),
                self.wf(),
                spacious(self.books@),
                same_worth(start, self.books@),
                self.books@.ledger == start.ledger,
                self.books@.questions.dom() == start.questions.dom(),
                model@.questions == start.questions,
                ids@.no_duplicates(),
                forall|i: int|
                    0 <= i < ids.len() ==> start.questions.contains_key(#[trigger] ids@[i]),
                forall|i: int|
                    0 <= i < k ==> self.books@.questions[#[trigger] ids@[i]] == refunded(
                        start.questions[ids@[i]],
                    ),
                forall|i: int|
                    k <= i < ids.len() ==> self.books@.questions[#[trigger] ids@[i]]
                        == start.questions[ids@[i]],
                forall|id: u64| #[trigger]
                    start.questions.contains_key(id) ==> start.deadline(id) <= start.ledger,
            decreases ids.len() - k,
        {
            let qid: u64 = ids[k];
            let ghost before = self.books@;
            assert(start.questions.contains_key(qid));
            assert(before.questions.contains_key(qid));
            if model.questions.get(&qid).unwrap().status == Status::Pending {
                assert(before.deadline(qid) == start.deadline(qid));
                if !self.leave(&Op::RefundTimeout { qid }, model) {
                    return false;
                }
                assert(self.books@.questions.dom() =~= before.questions.dom());
            }
            k = k + 1;
        }
        proof {
            assert forall|id: u64| #[trigger] start.questions.contains_key(id) implies
                self.books@.questions[id] == refunded(start.questions[id]) by {
                assert(model.questions@.contains_key(id));
                assert(ids@.contains(id));
            }
            assert forall|id: u64| !#[trigger] self.books@.is_pending(id) by {
                if self.books@.questions.contains_key(id) {
                    assert(start.questions.contains_key(id));
                }
            }
        }
        true
    }
}

/// Nothing is pending any more.
pub open spec fn all_closed(b: Books) -> bool {
    forall|id: u64| !#[trigger] b.is_pending(id)
}

/// What is left of a question once nothing is pending: a pending one is refunded, any other is as
/// it was.
pub open spec fn refunded(q: ModelQuestion) -> ModelQuestion {
    if q.status == Status::Pending {
        ModelQuestion { status: Status::Refunded, ..q }
    } else {
        q
    }
}

/// Every question that was pending is refunded, and every other is as it was.
pub open spec fn all_refunded(
    before: Map<u64, ModelQuestion>,
    after: Map<u64, ModelQuestion>,
) -> bool {
    &&& before.dom() == after.dom()
    &&& forall|id: u64| #[trigger]
        before.contains_key(id) ==> after[id] == refunded(before[id])
}

impl Harness {
    /// Every worker withdraws all earnings and starts unbonding the whole stake.
    fn leave_workers(&mut self, model: &Model) -> (done: bool)
        requires
            old(self).wf(),
            spacious(old(self).books@),
            all_closed(old(self).books@),
        ensures
            done,
            final(self).wf(),
            spacious(final(self).books@),
            same_worth(old(self).books@, final(self).books@),
            all_closed(final(self).books@),
            final(self).books@.questions == old(self).books@.questions,
            forall|w: int| 0 <= w < WORKERS ==> #[trigger] final(self).books@.owed[w] == 0,
            forall|w: int| 0 <= w < WORKERS ==> #[trigger] final(self).books@.stake[w] == 0,
    {
        let ghost start = self.books@;
        let mut w: usize = 0;
        while w < WORKERS
            invariant
                0 <= w <= WORKERS,
                self.wf(),
                spacious(self.books@),
                same_worth(start, self.books@),
                all_closed(self.books@),
                self.books@.questions == start.questions,
                forall|i: int| 0 <= i < w ==> #[trigger] self.books@.owed[i] == 0,
                forall|i: int| 0 <= i < w ==> #[trigger] self.books@.stake[i] == 0,
            decreases WORKERS - w,
        {
            let who: Address = self.workers[w];
            assert(self.books@.owed[w as int] == self.escrow@.owed_to(who));
            assert(self.books@.stake[w as int] == self.escrow@.recorded_stake(who).active());
            let owed: i128 = OracleEscrow::get_owed(&self.escrow, who);
            let ghost before = self.books@;
            if owed > 0 {
                if !self.leave(&Op::Withdraw { worker: w, amount: owed }, model) {
                    return false;
                }
                assert forall|id: u64| !#[trigger] self.books@.is_pending(id) by {
                    assert(!before.is_pending(id));
                }
            }
            assert(self.books@.stake[w as int] == self.escrow@.recorded_stake(who).active());
            let stake: i128 = OracleEscrow::get_stake(&self.escrow, who);
            let ghost before = self.books@;
            if stake > 0 {
                if !self.leave(&Op::BeginUnstake { worker: w, amount: stake }, model) {
                    return false;
                }
                assert forall|id: u64| !#[trigger] self.books@.is_pending(id) by {
                    assert(!before.is_pending(id));
                }
            }
            w = w + 1;
        }
        true
    }

    /// The ledger in which every bond has been released.
    fn last_release(&self) -> (ledger: u32)
        requires
            self.wf(),
        ensures
            ledger >= self.books@.ledger,
            forall|w: int| 0 <= w < WORKERS ==> #[trigger] self.books@.release_at[w] <= ledger,
    {
        let mut ledger: u32 = self.escrow.sequence;
        let mut w: usize = 0;
        while w < WORKERS
            invariant
                0 <= w <= WORKERS,
                self.wf(),
                ledger >= self.books@.ledger,
                forall|i: int| 0 <= i < w ==> #[trigger] self.books@.release_at[i] <= ledger,
            decreases WORKERS - w,
        {
            let who: Address = self.workers[w];
            proof {
                claims_are_bounded(self.books@);
                assert(self.books@.stake[w as int] == self.escrow@.recorded_stake(who).active());
                assert(self.books@.release_at[w as int] == self.escrow@.recorded_stake(
                    who,
                ).unbonding_release_at);
            }
            let info: StakeInfo = OracleEscrow::get_stake_info(&self.escrow, who);
            if info.unbonding_release_at > ledger {
                ledger = info.unbonding_release_at;
            }
            w = w + 1;
        }
        ledger
    }

    /// Every worker claims the released bond.
    fn claim_bonds(&mut self, model: &Model) -> (done: bool)
        requires
            old(self).wf(),
            spacious(old(self).books@),
            all_closed(old(self).books@),
            forall|w: int| 0 <= w < WORKERS ==> #[trigger] old(self).books@.owed[w] == 0,
            forall|w: int| 0 <= w < WORKERS ==> #[trigger] old(self).books@.stake[w] == 0,
            forall|w: int|
                0 <= w < WORKERS ==> #[trigger] old(self).books@.release_at[w] <= old(
                    self,
                ).books@.ledger,
        ensures
            done,
            final(self).wf(),
            spacious(final(self).books@),
            same_worth(old(self).books@, final(self).books@),
            all_closed(final(self).books@),
            final(self).books@.questions == old(self).books@.questions,
            forall|w: int| 0 <= w < WORKERS ==> #[trigger] final(self).books@.owed[w] == 0,
            forall|w: int| 0 <= w < WORKERS ==> #[trigger] final(self).books@.stake[w] == 0,
            forall|w: int| 0 <= w < WORKERS ==> #[trigger] final(self).books@.unbonding[w] == 0,
    {
        let ghost start = self.books@;
        let mut w: usize = 0;
        while w < WORKERS
            invariant
                0 <= w <= WORKERS,
                self.wf(),
                spacious(self.books@),
                same_worth(start, self.books@),
                all_closed(self.books@),
                self.books@.questions == start.questions,
                forall|i: int| 0 <= i < WORKERS ==> #[trigger] self.books@.owed[i] == 0,
                forall|i: int| 0 <= i < WORKERS ==> #[trigger] self.books@.stake[i] == 0,
                forall|i: int|
                    0 <= i < WORKERS ==> #[trigger] self.books@.release_at[i]
                        <= self.books@.ledger,
                forall|i: int| 0 <= i < w ==> #[trigger] self.books@.unbonding[i] == 0,
            decreases WORKERS - w,
        {
            let who: Address = self.workers[w];
            let ghost before = self.books@;
            proof {
                claims_are_bounded(before);
                assert(before.stake[w as int] == self.escrow@.recorded_stake(who).active());
                assert(before.unbonding[w as int] == self.escrow@.recorded_stake(who).unbonding);
                assert(before.release_at[w as int] <= before.ledger);
            }
            let info: StakeInfo = OracleEscrow::get_stake_info(&self.escrow, who);
            if info.unbonding > 0 {
                if !self.leave(&Op::CompleteUnstake { worker: w }, model) {
                    return false;
                }
                assert forall|id: u64| !#[trigger] self.books@.is_pending(id) by {
                    assert(!before.is_pending(id));
                }
            }
            w = w + 1;
        }
        true
    }

    /// Every payer withdraws the whole prepaid balance.
    fn leave_payers(&mut self, model: &Model) -> (done: bool)
        requires
            old(self).wf(),
            spacious(old(self).books@),
            all_closed(old(self).books@),
            forall|w: int| 0 <= w < WORKERS ==> #[trigger] old(self).books@.owed[w] == 0,
            forall|w: int| 0 <= w < WORKERS ==> #[trigger] old(self).books@.stake[w] == 0,
            forall|w: int| 0 <= w < WORKERS ==> #[trigger] old(self).books@.unbonding[w] == 0,
        ensures
            done,
            final(self).wf(),
            same_worth(old(self).books@, final(self).books@),
            final(self).books@.questions == old(self).books@.questions,
            forall|w: int| 0 <= w < WORKERS ==> #[trigger] final(self).books@.owed[w] == 0,
            forall|w: int| 0 <= w < WORKERS ==> #[trigger] final(self).books@.stake[w] == 0,
            forall|w: int| 0 <= w < WORKERS ==> #[trigger] final(self).books@.unbonding[w] == 0,
            forall|p: int| 0 <= p < PAYERS ==> #[trigger] final(self).books@.balance[p] == 0,
            final(self).books@.tokens[T_CONTRACT as int] == 0,
            forall|i: int|
                0 <= i < T_PARTIES && i != T_CONTRACT ==> #[trigger] final(self).books@.tokens[i]
                    == worth(old(self).books@, i),
    {
        let ghost start = self.books@;
        let mut p: usize = 0;
        while p < PAYERS
            invariant
                0 <= p <= PAYERS,
                self.wf(),
                spacious(self.books@),
                same_worth(start, self.books@),
                all_closed(self.books@),
                self.books@.questions == start.questions,
                forall|i: int| 0 <= i < WORKERS ==> #[trigger] self.books@.owed[i] == 0,
                forall|i: int| 0 <= i < WORKERS ==> #[trigger] self.books@.stake[i] == 0,
                forall|i: int| 0 <= i < WORKERS ==> #[trigger] self.books@.unbonding[i] == 0,
                forall|i: int| 0 <= i < p ==> #[trigger] self.books@.balance[i] == 0,
            decreases PAYERS - p,
        {
            let who: Address = self.payers[p];
            let ghost before = self.books@;
            assert(before.balance[p as int] == self.escrow@.balance_of(who));
            let balance: i128 = OracleEscrow::get_balance(&self.escrow, who);
            if balance > 0 {
                if !self.leave(&Op::WithdrawBalance { payer: p, amount: balance }, model) {
                    return false;
                }
                assert forall|id: u64| !#[trigger] self.books@.is_pending(id) by {
                    assert(!before.is_pending(id));
                }
            }
            p = p + 1;
        }
        proof {
            nothing_is_left(self.books@);
            assert forall|i: int| 0 <= i < T_PARTIES && i != T_CONTRACT implies
                #[trigger] self.books@.tokens[i] == worth(start, i) by {
                assert(worth(self.books@, i) == worth(start, i));
            }
        }
        true
    }

    /// Nobody's funds depend on the administrator. Past every deadline anyone refunds every
    /// pending question, and everyone takes out everything that is theirs: each party ends up
    /// with exactly what they owned, and the contract with nothing, neither in hand nor on
    /// record. Questions that were settled before stay as they were.
    pub fn drain(&mut self, model: &Model) -> (result: Result<(), Violation>)
        requires
            old(self).wf(),
            spacious(old(self).books@),
            model@ == old(self).books@,
        ensures
            result is Ok,
            final(self).wf(),
            held_by(final(self).bank@, seat(T_CONTRACT as int)) == 0,
            forall|i: int|
                0 <= i < T_PARTIES && i != T_CONTRACT ==> held_by(
                    final(self).bank@,
                    #[trigger] seat(i),
                ) == worth(old(self).books@, i),
            forall|id: u64| #[trigger]
                old(self).escrow@.is_pending(id) ==> final(self).escrow@.questions[id] == old(
                    self,
                ).escrow@.questions[id].with_status(Status::Refunded),
            forall|id: u64|
                !#[trigger] old(self).escrow@.is_pending(id) && old(
                    self,
                ).escrow@.questions.contains_key(id) ==> final(self).escrow@.questions[id] == old(
                    self,
                ).escrow@.questions[id],
            final(self).escrow@.questions.dom() == old(self).escrow@.questions.dom(),
            forall|w: int|
                #![trigger seat(T_WORKER0 + w)]
                0 <= w < WORKERS ==> final(self).escrow@.owed_to(seat(T_WORKER0 + w)) == 0
                    && final(self).escrow@.recorded_stake(seat(T_WORKER0 + w)).total() == 0,
            forall|p: int|
                #![trigger seat(T_PAYER0 + p)]
                0 <= p < PAYERS ==> final(self).escrow@.balance_of(seat(T_PAYER0 + p)) == 0,
    {
        let ghost start = self.books@;
        let ghost before = self.escrow@;
        let ids: Vec<u64> = ids_of(&model.questions);
        let mut latest: u32 = model.ledger;
        let mut k: usize = 0;
        while k < ids.len()
            invariant
                0 <= k <= ids.len(),
                start == model@,
                latest >= start.ledger,
                forall|i: int|
                    0 <= i < ids.len() ==> start.questions.contains_key(#[trigger] ids@[i]),
                forall|i: int| 0 <= i < k ==> start.deadline(#[trigger] ids@[i]) <= latest,
            decreases ids.len() - k,
        {
            assert(start.questions.contains_key(ids@[k as int]));
            let q: ModelQuestion = *model.questions.get(&ids[k]).unwrap();
            let deadline: u32 = q.created_at.saturating_add(q.timeout_ledgers);
            if deadline > latest {
                latest = deadline;
            }
            k = k + 1;
        }
        self.land_at(latest);
        let ghost late = self.books@;
        proof {
            assert forall|id: u64| #[trigger] late.questions.contains_key(id) implies late.deadline(
                id,
            ) <= late.ledger by {
                assert(model.questions@.contains_key(id));
                assert(ids@.contains(id));
            }
            assert forall|i: int| 0 <= i < T_PARTIES && i != T_CONTRACT implies #[trigger] worth(
                late,
                i,
            ) == worth(start, i) by {}
        }
        if !self.refund_all(model) {
            return Err(Violation::Stuck);
        }
        if !self.leave_workers(model) {
            return Err(Violation::Stuck);
        }
        let ghost leaving = self.books@;
        let released: u32 = self.last_release();
        self.land_at(released);
        proof {
            assert forall|id: u64| !#[trigger] self.books@.is_pending(id) by {
                assert(!leaving.is_pending(id));
            }
            assert forall|i: int| 0 <= i < T_PARTIES && i != T_CONTRACT implies #[trigger] worth(
                self.books@,
                i,
            ) == worth(leaving, i) by {}
        }
        if !self.claim_bonds(model) {
            return Err(Violation::Stuck);
        }
        if !self.leave_payers(model) {
            return Err(Violation::Stuck);
        }
        proof {
            assert(held_by(self.bank@, seat(T_CONTRACT as int))
                == self.books@.tokens[T_CONTRACT as int]);
            assert forall|i: int| 0 <= i < T_PARTIES && i != T_CONTRACT implies held_by(
                self.bank@,
                #[trigger] seat(i),
            ) == worth(start, i) by {
                assert(held_by(self.bank@, seat(i)) == self.books@.tokens[i]);
            }
            assert forall|id: u64| #[trigger] before.questions.contains_key(id) implies
                self.escrow@.questions[id] == entry_of(refunded(start.questions[id])) by {
                assert(start.questions.contains_key(id));
                assert(late.questions.contains_key(id));
                assert(self.books@.questions[id] == refunded(late.questions[id]));
                assert(self.escrow@.questions.contains_key(id));
            }
            assert(self.escrow@.questions.dom() =~= before.questions.dom()) by {
                assert forall|id: u64| self.escrow@.questions.contains_key(id)
                    == before.questions.contains_key(id) by {
                    assert(start.questions.contains_key(id) == self.books@.questions.contains_key(
                        id,
                    ));
                }
            }
            assert forall|w: int|
                #![trigger seat(T_WORKER0 + w)]
                0 <= w < WORKERS implies self.escrow@.owed_to(seat(T_WORKER0 + w)) == 0
                && self.escrow@.recorded_stake(seat(T_WORKER0 + w)).total() == 0 by {
                assert(self.books@.owed[w] == 0);
                assert(self.books@.stake[w] == 0);
                assert(self.books@.unbonding[w] == 0);
            }
            assert forall|p: int|
                #![trigger seat(T_PAYER0 + p)]
                0 <= p < PAYERS implies self.escrow@.balance_of(seat(T_PAYER0 + p)) == 0 by {
                assert(self.books@.balance[p] == 0);
            }
        }
        let left: i128 = self.token_balance(T_CONTRACT);
        if left != 0 {
            return Err(Violation::Remainder { left });
        }
        Ok(())
    }
}

/// The books after a sequence of operations.
pub open spec fn after_ops(b: Books, ops: Seq<Op>) -> Books
    decreases ops.len(),
{
    if ops.len() == 0 {
        b
    } else {
        after_op(after_ops(b, ops.drop_last()), ops.last())
    }
}

/// The books before the `i`th operation.
pub open spec fn before_op(b: Books, ops: Seq<Op>, i: int) -> Books {
    after_ops(b, ops.take(i))
}

/// Whether every operation of a sequence names only the parties there are, and none runs out of
/// ledgers.
pub open spec fn playable(b: Books, ops: Seq<Op>) -> bool {
    forall|i: int| 0 <= i < ops.len() ==> in_bounds(#[trigger] before_op(b, ops, i), ops[i])
}

/// Whether an operation opens a question under an id that nobody looks at afterwards.
pub open spec fn strays(b: Books, op: Op) -> bool {
    predicted(b, op) == Outcome::Done && match op {
        Op::Submit { qid, .. } | Op::Charge { qid, .. } => qid >= QUESTION_IDS,
        _ => false,
    }
}

/// Where a sequence went wrong.
#[derive(Clone, Copy, PartialEq, Eq, Structural, Debug)]
pub enum Failure {
    Start { violation: Violation },
    Outcome { step: usize, actual: Outcome, expected: Outcome },
    After { step: usize, violation: Violation },
    End { violation: Violation },
}

/// Every id is one of those that are looked at.
pub open spec fn in_play(b: Books) -> bool {
    forall|id: u64| #[trigger] b.questions.contains_key(id) ==> id < QUESTION_IDS
}

/// One operation opens at most what was ever minted.
proof fn tallies_grow_slowly(b: Books, op: Op)
    requires
        b.sound(),
        b.room(),
        in_bounds(b, op),
    ensures
        sum_of(after_op(b, op).questions, opened()) <= sum_of(b.questions, opened()) + MINTED,
        after_op(b, op).sound(),
        !strays(b, op) && in_play(b) ==> in_play(after_op(b, op)),
{
    broadcast use sum_after_insert;

    claims_are_bounded(b);
    if predicted(b, op) == Outcome::Done {
        done_keeps_sound(b, op);
        match op {
            Op::Submit { payer, qid, amount } => {
                let paid = b.paying(T_PAYER0 + payer, T_CONTRACT as int, amount as int);
                let q = paid.opening(payer, qid, amount).questions[qid];
                assert(opened()(q) == amount);
            },
            Op::Charge { payer, qid, amount } => {
                let q = predicted_books(b, op).questions[qid];
                assert(opened()(q) == amount);
            },
            Op::Resolve { qid, workers, losers } => {
                let q = b.questions[qid];
                assert(opened()(q) == opened()(ModelQuestion { status: Status::Resolved, ..q }));
            },
            Op::Refund { qid } | Op::RefundTimeout { qid } => {
                let q = b.questions[qid];
                assert(opened()(q) == opened()(ModelQuestion { status: Status::Refunded, ..q }));
            },
            _ => {},
        }
    }
}

/// A question that nobody looks at shows as a surplus.
proof fn a_stray_shows(b: Books, op: Op, s: State, held: Map<u64, i128>)
    requires
        in_play(b),
        in_bounds(b, op),
        strays(b, op),
        predicted_books(b, op).sound(),
        agree(predicted_books(b, op), s, held),
    ensures
        verdict(predicted_books(b, op), s, held) is Err,
        verdict(predicted_books(b, op), s, held)->Err_0 is Unreconciled,
{
    let c = predicted_books(b, op);
    let (qid, amount) = match op {
        Op::Submit { qid, amount, .. } => (qid, amount),
        Op::Charge { qid, amount, .. } => (qid, amount),
        _ => (0u64, 0i128),
    };
    reads_agree(c, s, held);
    let rest = c.questions.remove(qid);
    assert forall|id: u64| #[trigger] rest.contains_key(id) implies id < QUESTION_IDS by {
        assert(b.questions.contains_key(id));
    }
    sum_splits(c.questions, escrowed(), qid);
    assert(escrowed()(c.questions[qid]) == amount);
    sum_below_is_all(rest, escrowed(), QUESTION_IDS);
    assert forall|k: u64| k < QUESTION_IDS implies (#[trigger] s.questions.contains_key(k)
        <==> rest.contains_key(k)) && (s.questions.contains_key(k) ==> locked()(s.questions[k])
        == escrowed()(rest[k])) by {}
    sum_below_agrees(s.questions, locked(), rest, escrowed(), QUESTION_IDS);
}

/// Runs one sequence on the contract and the model: every outcome has to be the predicted one,
/// every check has to pass after every step, and in the end everyone has to get out what is
/// theirs. That always succeeds, but for a question opened under an id that the checks do not
/// look at: the first one shows as a surplus.
#[verifier::rlimit(40)]
pub fn run_sequence(ops: &Vec<Op>) -> (result: Result<(), Failure>)
    requires
        playable(first_books(FIRST_LEDGER), ops@),
    ensures
        result is Ok <==> forall|i: int|
            0 <= i < ops.len() ==> !strays(
                #[trigger] before_op(first_books(FIRST_LEDGER), ops@, i),
                ops@[i],
            ),
        result matches Err(failure) ==> (failure matches Failure::After { step, violation }
            && violation is Unreconciled && step < ops.len() && strays(
            before_op(first_books(FIRST_LEDGER), ops@, step as int),
            ops@[step as int],
        ) && forall|i: int|
            0 <= i < step ==> !strays(
                #[trigger] before_op(first_books(FIRST_LEDGER), ops@, i),
                ops@[i],
            )),
{
    let ghost first = first_books(FIRST_LEDGER);
    let mut harness: Harness = Harness::new();
    let mut model: Model = Model::new(harness.escrow.sequence);
    proof {
        agreement_passes(first, harness.escrow@, harness.bank@);
        agreement_is_readable(harness);
    }
    if let Err(violation) = harness.check(&model) {
        return Err(Failure::Start { violation });
    }
    let mut i: usize = 0;
    assert(ops@.take(0) =~= Seq::<Op>::empty());
    while i < ops.len()
        invariant
            0 <= i <= ops.len(),
            first == first_books(FIRST_LEDGER),
            playable(first, ops@),
            harness.wf(),
            model@ == harness.books@,
            harness.books@ == before_op(first, ops@, i as int),
            in_play(harness.books@),
            sum_of(harness.books@.questions, opened()) <= MINTED * i,
            forall|j: int|
                0 <= j < i ==> !strays(#[trigger] before_op(first, ops@, j), ops@[j]),
        decreases ops.len() - i,
    {
        let ghost b = harness.books@;
        let op: &Op = &ops[i];
        proof {
            assert(ops@.take(i + 1).drop_last() == ops@.take(i as int));
            assert(before_op(first, ops@, i + 1) == after_op(b, *op));
            assert(in_bounds(before_op(first, ops@, i as int), ops@[i as int]));
            assert(spacious(b));
            a_spacious_book_has_room(b);
            tallies_grow_slowly(b, *op);
            assert(spacious(after_op(b, *op)));
            a_spacious_book_has_room(after_op(b, *op));
        }
        let expected: Outcome = model.apply(op);
        let actual: Outcome = harness.apply(op, &model);
        let agrees: bool = match expected {
            Outcome::Rejected => actual != Outcome::Done,
            other => actual == other,
        };
        if !agrees {
            return Err(Failure::Outcome { step: i, actual, expected });
        }
        proof {
            agreement_is_readable(harness);
            if strays(b, *op) {
                a_stray_shows(b, *op, harness.escrow@, harness.bank@);
            } else {
                agreement_passes(harness.books@, harness.escrow@, harness.bank@);
            }
        }
        if let Err(violation) = harness.check(&model) {
            assert(strays(before_op(first, ops@, i as int), ops@[i as int]));
            return Err(Failure::After { step: i, violation });
        }
        i = i + 1;
    }
    match harness.drain(&model) {
        Ok(()) => Ok(()),
        Err(violation) => Err(Failure::End { violation }),
    }
}

/// A check that passes leaves nothing open: the contract holds exactly what it owes, every token
/// ever minted is there, every question's funds are accounted for, and everything the model
/// predicts is what the contract and the token ledger report.
pub proof fn a_pass_means_agreement(m: Books, s: State, held: Map<u64, i128>, id: u64)
    requires
        verdict(m, s, held) is Ok,
        id < QUESTION_IDS,
    ensures
        m.ledger == s.sequence,
        m.upgrade_at is Some <==> s.config.pending_upgrade is Some,
        m.upgrade_at is Some ==> m.upgrade_at->0 == s.config.pending_upgrade->0.executable_at,
        m.questions.contains_key(id) <==> s.questions.contains_key(id),
        s.questions.contains_key(id) ==> {
            let q = s.questions[id];
            let p = m.questions[id];
            &&& p.amount == q.amount && p.status == q.status
            &&& p.created_at == q.created_at && p.timeout_ledgers == q.timeout_ledgers
            &&& T_PAYER0 < q.payer.id <= T_PAYER0 + PAYERS ==> seat(T_PAYER0 + p.payer) == q.payer
        },
        m.balance.len() == PAYERS && forall|p: int|
            0 <= p < PAYERS ==> s.balance_of(seat(T_PAYER0 + p)) == #[trigger] m.balance[p],
        m.owed.len() == WORKERS && forall|w: int|
            0 <= w < WORKERS ==> s.owed_to(seat(T_WORKER0 + w)) == #[trigger] m.owed[w],
        m.unbonding.len() == WORKERS && forall|w: int|
            0 <= w < WORKERS ==> s.recorded_stake(seat(T_WORKER0 + w)).unbonding
                == #[trigger] m.unbonding[w],
        m.release_at.len() == WORKERS && forall|w: int|
            0 <= w < WORKERS ==> s.recorded_stake(seat(T_WORKER0 + w)).unbonding_release_at
                == #[trigger] m.release_at[w],
        m.stake.len() == WORKERS && forall|w: int|
            0 <= w < WORKERS && s.recorded_stake(seat(T_WORKER0 + w)).wf() && s.recorded_stake(
                seat(T_WORKER0 + w),
            ).active() <= i128::MAX ==> s.recorded_stake(seat(T_WORKER0 + w)).settled
                + s.recorded_stake(seat(T_WORKER0 + w)).warming == #[trigger] m.stake[w],
        m.tokens.len() == T_PARTIES && forall|i: int|
            0 <= i < T_PARTIES ==> held_by(held, seat(i)) == #[trigger] m.tokens[i],
        total(m.tokens) == 850_000_000,
        m.tokens[1] == sum_below(s.questions, locked(), QUESTION_IDS) + total(m.balance) + total(
            m.stake,
        ) + total(m.unbonding) + total(m.owed),
        sum_below(s.questions, amounts(), QUESTION_IDS) == sum_below(
            s.questions,
            locked(),
            QUESTION_IDS,
        ) + m.paid_to_platform + m.credited_to_workers + m.refunded,
{
    nothing_below_differs(m, s, QUESTION_IDS, id);
    assert forall|p: int| 0 <= p < PAYERS implies s.balance_of(seat(T_PAYER0 + p))
        == #[trigger] m.balance[p] by {
        assert(read_balances(s)[p] == m.balance[p]);
    }
    assert forall|w: int| 0 <= w < WORKERS implies s.owed_to(seat(T_WORKER0 + w))
        == #[trigger] m.owed[w] by {
        assert(read_owed(s)[w] == m.owed[w]);
    }
    assert forall|w: int| 0 <= w < WORKERS implies s.recorded_stake(
        seat(T_WORKER0 + w),
    ).unbonding == #[trigger] m.unbonding[w] by {
        assert(read_unbonding(s)[w] == m.unbonding[w]);
    }
    assert forall|w: int| 0 <= w < WORKERS implies s.recorded_stake(
        seat(T_WORKER0 + w),
    ).unbonding_release_at == #[trigger] m.release_at[w] by {
        assert(read_releases(s)[w] == m.release_at[w]);
    }
    assert forall|w: int|
        0 <= w < WORKERS && s.recorded_stake(seat(T_WORKER0 + w)).wf() && s.recorded_stake(
            seat(T_WORKER0 + w),
        ).active() <= i128::MAX implies s.recorded_stake(seat(T_WORKER0 + w)).settled
        + s.recorded_stake(seat(T_WORKER0 + w)).warming == #[trigger] m.stake[w] by {
        assert(read_stakes(s)[w] == m.stake[w]);
    }
    assert forall|i: int| 0 <= i < T_PARTIES implies held_by(held, seat(i))
        == #[trigger] m.tokens[i] by {
        assert(read_tokens(held)[i] == m.tokens[i]);
    }
}

proof fn nothing_below_differs(m: Books, s: State, n: u64, id: u64)
    requires
        first_difference(m, s, n) is None,
        id < n,
    ensures
        !differs(m, s, id),
    decreases n,
{
    if id < n - 1 {
        nothing_below_differs(m, s, (n - 1) as u64, id);
    }
}

/// A check that fails says what is wrong: the first of these properties that does not hold, with
/// the figures it was found with.
pub proof fn a_violation_is_real(m: Books, s: State, held: Map<u64, i128>)
    requires
        verdict(m, s, held) is Err,
    ensures
        match verdict(m, s, held)->Err_0 {
            Violation::Unreconciled { held: contract, escrowed, prepaid, staked, owed } => {
                &&& contract == held_by(held, seat(1))
                &&& contract != sum_below(s.questions, locked(), QUESTION_IDS) + total(
                    read_balances(s),
                ) + total(read_stakes(s)) + total(read_unbonding(s)) + total(read_owed(s))
                &&& escrowed == sum_below(s.questions, locked(), QUESTION_IDS) as i128
                &&& prepaid == total(read_balances(s)) as i128
                &&& staked == (total(read_stakes(s)) + total(read_unbonding(s))) as i128
                &&& owed == total(read_owed(s)) as i128
            },
            Violation::Supply { supply } => total(read_tokens(held)) != 850_000_000 && supply
                == total(read_tokens(held)) as i128,
            Violation::QuestionFunds { opened, escrowed } => {
                &&& sum_below(s.questions, amounts(), QUESTION_IDS) != sum_below(
                    s.questions,
                    locked(),
                    QUESTION_IDS,
                ) + m.paid_to_platform + m.credited_to_workers + m.refunded
                &&& opened == sum_below(s.questions, amounts(), QUESTION_IDS) as i128
                &&& escrowed == sum_below(s.questions, locked(), QUESTION_IDS) as i128
            },
            Violation::Ledger => m.ledger != s.sequence,
            Violation::Question { id } => m.ledger == s.sequence && id < QUESTION_IDS && differs(
                m,
                s,
                id,
            ) && forall|k: u64| k < id ==> !#[trigger] differs(m, s, k),
            Violation::Balances => read_balances(s) != m.balance,
            Violation::Bonds => read_stakes(s) != m.stake || read_unbonding(s) != m.unbonding
                || read_releases(s) != m.release_at || read_owed(s) != m.owed,
            Violation::Tokens => read_balances(s) == m.balance && read_tokens(held) != m.tokens,
            Violation::Upgrade => read_tokens(held) == m.tokens && m.upgrade_at != (
            match s.config.pending_upgrade {
                Some(upgrade) => Some(upgrade.executable_at),
                None => None,
            }),
            Violation::Stuck => false,
            Violation::Remainder { .. } => false,
        },
{
    if first_difference(m, s, QUESTION_IDS) is Some {
        the_first_difference_is_first(m, s, QUESTION_IDS);
    }
}

proof fn the_first_difference_is_first(m: Books, s: State, n: u64)
    requires
        first_difference(m, s, n) is Some,
    ensures
        first_difference(m, s, n)->0 < n,
        differs(m, s, first_difference(m, s, n)->0),
        forall|k: u64| k < first_difference(m, s, n)->0 ==> !#[trigger] differs(m, s, k),
    decreases n,
{
    let before = (n - 1) as u64;
    if first_difference(m, s, before) is Some {
        the_first_difference_is_first(m, s, before);
    } else {
        assert forall|k: u64| k < before implies !#[trigger] differs(m, s, k) by {
            nothing_below_differs(m, s, before, k);
        }
    }
}

} // verus!
