//! A deliberately naive account of the escrow's rules, over a fixed handful of payers and
//! workers: what an independent observer would predict of every call.
use crate::limits::{
    BPS_DENOM, MAX_QUORUM_SIZE, MAX_TIMEOUT_LEDGERS, MIN_UNBONDING_LEDGERS, PLATFORM_FEE_BPS,
    SLASH_BPS, UPGRADE_DELAY_LEDGERS,
};
use crate::seqs::{contains_splits, total, total_after_update, total_dominates};
use crate::sums::{sum_after_insert, sum_dominates, sum_of};
use crate::types::{ContractError, Status};
use std::collections::BTreeMap;
use vstd::prelude::*;

verus! {

pub const PAYERS: usize = 3;

pub const WORKERS: usize = 5;

/// Few enough ids that sequences keep colliding on them.
pub const QUESTION_IDS: u64 = 6;

pub const PAYER_FUNDS: i128 = 200_000_000;

pub const WORKER_FUNDS: i128 = 50_000_000;

/// Everything that was ever minted.
pub const MINTED: i128 = 850_000_000;

pub const INITIAL_TIMEOUT: u32 = 20;

/// Where each party's tokens are.
pub const T_PLATFORM: usize = 0;

pub const T_CONTRACT: usize = 1;

pub const T_BENEFICIARY: usize = 2;

pub const T_PAYER0: usize = 3;

pub const T_WORKER0: usize = 6;

pub const T_PARTIES: usize = 11;

/// One thing that can happen. Payers and workers go by their position.
#[derive(Clone, Debug)]
pub enum Op {
    Submit { payer: usize, qid: u64, amount: i128 },
    Deposit { payer: usize, amount: i128 },
    WithdrawBalance { payer: usize, amount: i128 },
    Charge { payer: usize, qid: u64, amount: i128 },
    Resolve { qid: u64, workers: Vec<usize>, losers: Vec<usize> },
    Refund { qid: u64 },
    RefundTimeout { qid: u64 },
    Stake { worker: usize, amount: i128 },
    BeginUnstake { worker: usize, amount: i128 },
    CompleteUnstake { worker: usize },
    Withdraw { worker: usize, amount: i128 },
    WithdrawTo { worker: usize, amount: i128 },
    Touch { worker: usize },
    SetTimeout { ledgers: u32 },
    ProposeUpgrade,
    CancelUpgrade,
    /// The proposed code is never uploaded, so this always fails and has to change nothing.
    ExecuteUpgrade,
    Advance { ledgers: u32 },
    /// Jumps to just before, or at, the ledger in which a scheduled upgrade can run.
    AdvanceNearUpgrade { before: u32 },
}

/// A call's outcome. `Rejected` means that the call failed before the rules decided anything, so
/// that only its failing is predicted.
#[derive(Clone, Copy, PartialEq, Eq, Structural, Debug)]
pub enum Outcome {
    Done,
    Refused(ContractError),
    Rejected,
}

#[derive(Clone, Copy, PartialEq, Eq, Structural, Debug)]
pub struct ModelQuestion {
    pub payer: usize,
    pub amount: i128,
    pub status: Status,
    pub created_at: u32,
    pub timeout_ledgers: u32,
}

#[derive(Debug)]
pub struct Model {
    pub ledger: u32,
    pub timeout: u32,
    pub upgrade_at: Option<u32>,
    pub questions: BTreeMap<u64, ModelQuestion>,
    pub balance: Vec<i128>,
    /// Active stake.
    pub stake: Vec<i128>,
    /// Stake on its way out.
    pub unbonding: Vec<i128>,
    pub release_at: Vec<u32>,
    pub owed: Vec<i128>,
    pub tokens: Vec<i128>,
    /// Question funds that left escrow: fees and dust, shares, and refunds.
    pub paid_to_platform: i128,
    pub credited_to_workers: i128,
    pub refunded: i128,
}

/// The mathematical content of a [`Model`].
#[verifier::ext_equal]
pub struct Books {
    pub ledger: u32,
    pub timeout: u32,
    pub upgrade_at: Option<u32>,
    pub questions: Map<u64, ModelQuestion>,
    pub balance: Seq<i128>,
    pub stake: Seq<i128>,
    pub unbonding: Seq<i128>,
    pub release_at: Seq<u32>,
    pub owed: Seq<i128>,
    pub tokens: Seq<i128>,
    pub paid_to_platform: i128,
    pub credited_to_workers: i128,
    pub refunded: i128,
}

impl View for Model {
    type V = Books;

    open spec fn view(&self) -> Books {
        Books {
            ledger: self.ledger,
            timeout: self.timeout,
            upgrade_at: self.upgrade_at,
            questions: self.questions@,
            balance: self.balance@,
            stake: self.stake@,
            unbonding: self.unbonding@,
            release_at: self.release_at@,
            owed: self.owed@,
            tokens: self.tokens@,
            paid_to_platform: self.paid_to_platform,
            credited_to_workers: self.credited_to_workers,
            refunded: self.refunded,
        }
    }
}

/// What a question still locks.
pub open spec fn escrowed() -> spec_fn(ModelQuestion) -> int {
    |q: ModelQuestion|
        if q.status == Status::Pending {
            q.amount as int
        } else {
            0
        }
}

/// What a question was opened with.
pub open spec fn opened() -> spec_fn(ModelQuestion) -> int {
    |q: ModelQuestion| q.amount as int
}

pub open spec fn none_negative(s: Seq<i128>) -> bool {
    forall|i: int| 0 <= i < s.len() ==> 0 <= #[trigger] s[i]
}

impl Books {
    /// Everyone is there, nobody owes, every token ever minted is held by exactly one party, the
    /// contract holds exactly what it owes, and every question's funds are still escrowed, or
    /// were paid out, or refunded.
    pub open spec fn sound(self) -> bool {
        self.sound_but_for(0)
    }

    /// The same, but that the contract holds `spare` more than it owes.
    pub open spec fn sound_but_for(self, spare: int) -> bool {
        &&& self.balance.len() == PAYERS
        &&& self.stake.len() == WORKERS
        &&& self.unbonding.len() == WORKERS
        &&& self.release_at.len() == WORKERS
        &&& self.owed.len() == WORKERS
        &&& self.tokens.len() == T_PARTIES
        &&& none_negative(self.balance)
        &&& none_negative(self.stake)
        &&& none_negative(self.unbonding)
        &&& none_negative(self.owed)
        &&& none_negative(self.tokens)
        &&& self.questions.dom().finite()
        &&& forall|id: u64| #[trigger]
            self.questions.contains_key(id) ==> 0 < self.questions[id].amount <= MINTED
                && self.questions[id].payer < PAYERS
        &&& total(self.tokens) == MINTED
        &&& self.tokens[T_CONTRACT as int] == sum_of(self.questions, escrowed()) + total(
            self.balance,
        ) + total(self.stake) + total(self.unbonding) + total(self.owed) + spare
        &&& sum_of(self.questions, opened()) == sum_of(self.questions, escrowed())
            + self.paid_to_platform + self.credited_to_workers + self.refunded
        &&& 0 <= self.paid_to_platform
        &&& 0 <= self.credited_to_workers
        &&& 0 <= self.refunded
    }

    /// `amount` moved from one party to another.
    pub open spec fn paying(self, from: int, to: int, amount: int) -> Books {
        let less = self.tokens.update(from, (self.tokens[from] - amount) as i128);
        Books { tokens: less.update(to, (less[to] + amount) as i128), ..self }
    }
}

impl Books {
    pub open spec fn is_pending(self, qid: u64) -> bool {
        self.questions.contains_key(qid) && self.questions[qid].status == Status::Pending
    }

    /// Why a question cannot be settled, if it cannot.
    pub open spec fn not_pending(self, qid: u64) -> Option<ContractError> {
        if !self.questions.contains_key(qid) {
            Some(ContractError::QuestionNotFound)
        } else if self.questions[qid].status != Status::Pending {
            Some(ContractError::QuestionNotPending)
        } else {
            None
        }
    }

    /// Why a question cannot be opened, if it cannot.
    pub open spec fn not_open(self, qid: u64) -> Option<ContractError> {
        if self.questions.contains_key(qid) {
            Some(ContractError::QuestionAlreadyExists)
        } else if self.upgrade_at is Some && self.upgrade_at->0 - 1 <= self.ledger {
            Some(ContractError::UpgradeInProgress)
        } else {
            None
        }
    }

    pub open spec fn opening(self, payer: usize, qid: u64, amount: i128) -> Books {
        let room: int = match self.upgrade_at {
            Some(at) => at - 1 - self.ledger,
            None => self.timeout as int,
        };
        let timeout_ledgers: u32 = if room < self.timeout {
            room as u32
        } else {
            self.timeout
        };
        Books {
            questions: self.questions.insert(
                qid,
                ModelQuestion {
                    payer,
                    amount,
                    status: Status::Pending,
                    created_at: self.ledger,
                    timeout_ledgers,
                },
            ),
            ..self
        }
    }

    pub open spec fn refunding(self, qid: u64) -> Books {
        let q = self.questions[qid];
        Books {
            questions: self.questions.insert(
                qid,
                ModelQuestion { status: Status::Refunded, ..q },
            ),
            refunded: (self.refunded + q.amount) as i128,
            ..self.paying(T_CONTRACT as int, T_PAYER0 + q.payer, q.amount as int)
        }
    }

    /// First ledger in which a question can be refunded by anyone.
    pub open spec fn deadline(self, qid: u64) -> int {
        let q = self.questions[qid];
        if q.created_at + q.timeout_ledgers > u32::MAX {
            u32::MAX as int
        } else {
            q.created_at + q.timeout_ledgers
        }
    }

    /// What losing a quorum on a question of `amount` costs `worker`.
    pub open spec fn cut(self, worker: int, amount: int) -> int {
        let bond: int = self.stake[worker] + self.unbonding[worker];
        let due: int = bond * SLASH_BPS / BPS_DENOM as int;
        if due < amount {
            due
        } else {
            amount
        }
    }

    /// What the losers forfeit together.
    pub open spec fn cuts(self, losers: Seq<usize>, amount: int) -> int
        decreases losers.len(),
    {
        if losers.len() == 0 {
            0
        } else {
            self.cuts(losers.drop_last(), amount) + self.cut(losers.last() as int, amount)
        }
    }

    /// Every loser's bond cut, the active part first.
    pub open spec fn slashing(self, losers: Seq<usize>, amount: int) -> Books {
        Books {
            stake: Seq::new(
                self.stake.len(),
                |w: int|
                    if losers.contains(w as usize) {
                        (self.stake[w] - lesser(
                            self.cut(w, amount),
                            self.stake[w] as int,
                        )) as i128
                    } else {
                        self.stake[w]
                    },
            ),
            unbonding: Seq::new(
                self.unbonding.len(),
                |w: int|
                    if losers.contains(w as usize) {
                        (self.unbonding[w] - (self.cut(w, amount) - lesser(
                            self.cut(w, amount),
                            self.stake[w] as int,
                        ))) as i128
                    } else {
                        self.unbonding[w]
                    },
            ),
            ..self
        }
    }

    /// Every winner credited one share.
    pub open spec fn crediting(self, workers: Seq<usize>, share: int) -> Books {
        Books {
            owed: Seq::new(
                self.owed.len(),
                |w: int|
                    if workers.contains(w as usize) {
                        (self.owed[w] + share) as i128
                    } else {
                        self.owed[w]
                    },
            ),
            ..self
        }
    }

    pub open spec fn resolving(self, qid: u64, workers: Seq<usize>, losers: Seq<usize>) -> Books {
        let q = self.questions[qid];
        let amount: int = q.amount as int;
        let n: int = workers.len() as int;
        let share: int = model_share(amount, n);
        let kept: int = amount - share * n;
        let paid = self.slashing(losers, amount).crediting(workers, share).paying(
            T_CONTRACT as int,
            T_PLATFORM as int,
            kept + self.cuts(losers, amount),
        );
        Books {
            questions: self.questions.insert(
                qid,
                ModelQuestion { status: Status::Resolved, ..q },
            ),
            paid_to_platform: (self.paid_to_platform + kept) as i128,
            credited_to_workers: (self.credited_to_workers + share * n) as i128,
            ..paid
        }
    }
}

pub open spec fn lesser(a: int, b: int) -> int {
    if a < b {
        a
    } else {
        b
    }
}

/// What each of `n` winners gets of `amount`.
pub open spec fn model_share(amount: int, n: int) -> int {
    (amount - amount * PLATFORM_FEE_BPS / BPS_DENOM as int) / n
}

/// The model's prediction of a resolution's outcome.
pub open spec fn resolve_prediction(
    b: Books,
    qid: u64,
    workers: Seq<usize>,
    losers: Seq<usize>,
) -> Outcome {
    if workers.len() == 0 {
        Outcome::Refused(ContractError::NoWorkers)
    } else if workers.len() + losers.len() > MAX_QUORUM_SIZE {
        Outcome::Refused(ContractError::QuorumTooLarge)
    } else if !(workers + losers).no_duplicates() {
        Outcome::Refused(ContractError::InvalidWorkerLists)
    } else {
        match b.not_pending(qid) {
            Some(e) => Outcome::Refused(e),
            None => Outcome::Done,
        }
    }
}

/// The model's prediction of any operation's outcome.
pub open spec fn predicted(b: Books, op: Op) -> Outcome {
    match op {
        Op::Submit { payer, qid, amount } => if amount <= 0 {
            Outcome::Refused(ContractError::InvalidAmount)
        } else if b.tokens[T_PAYER0 + payer] < amount {
            Outcome::Rejected
        } else {
            match b.not_open(qid) {
                Some(e) => Outcome::Refused(e),
                None => Outcome::Done,
            }
        },
        Op::Deposit { payer, amount } => if amount <= 0 {
            Outcome::Refused(ContractError::InvalidAmount)
        } else if b.tokens[T_PAYER0 + payer] < amount {
            Outcome::Rejected
        } else {
            Outcome::Done
        },
        Op::WithdrawBalance { payer, amount } => if amount <= 0 {
            Outcome::Refused(ContractError::InvalidAmount)
        } else if amount > b.balance[payer as int] {
            Outcome::Refused(ContractError::InsufficientBalance)
        } else {
            Outcome::Done
        },
        Op::Charge { payer, qid, amount } => if amount <= 0 {
            Outcome::Refused(ContractError::InvalidAmount)
        } else if amount > b.balance[payer as int] {
            Outcome::Refused(ContractError::InsufficientBalance)
        } else {
            match b.not_open(qid) {
                Some(e) => Outcome::Refused(e),
                None => Outcome::Done,
            }
        },
        Op::Resolve { qid, workers, losers } => resolve_prediction(b, qid, workers@, losers@),
        Op::Refund { qid } => match b.not_pending(qid) {
            Some(e) => Outcome::Refused(e),
            None => Outcome::Done,
        },
        Op::RefundTimeout { qid } => match b.not_pending(qid) {
            Some(e) => Outcome::Refused(e),
            None => if b.ledger < b.deadline(qid) {
                Outcome::Refused(ContractError::TooEarlyForTimeout)
            } else {
                Outcome::Done
            },
        },
        Op::Stake { worker, amount } => if amount <= 0 {
            Outcome::Refused(ContractError::InvalidAmount)
        } else if b.tokens[T_WORKER0 + worker] < amount {
            Outcome::Rejected
        } else {
            Outcome::Done
        },
        Op::BeginUnstake { worker, amount } => if amount <= 0 {
            Outcome::Refused(ContractError::InvalidAmount)
        } else if amount > b.stake[worker as int] {
            Outcome::Refused(ContractError::InsufficientStake)
        } else {
            Outcome::Done
        },
        Op::CompleteUnstake { worker } => if b.unbonding[worker as int] <= 0 {
            Outcome::Refused(ContractError::NothingUnbonding)
        } else if b.ledger < b.release_at[worker as int] {
            Outcome::Refused(ContractError::UnbondingNotElapsed)
        } else {
            Outcome::Done
        },
        Op::Withdraw { worker, amount } | Op::WithdrawTo { worker, amount } => if amount <= 0 {
            Outcome::Refused(ContractError::InvalidAmount)
        } else if b.owed[worker as int] <= 0 {
            Outcome::Refused(ContractError::NothingOwed)
        } else if amount > b.owed[worker as int] {
            Outcome::Refused(ContractError::InsufficientOwed)
        } else {
            Outcome::Done
        },
        Op::Touch { .. } => Outcome::Done,
        Op::SetTimeout { ledgers } => if ledgers == 0 || ledgers > MAX_TIMEOUT_LEDGERS {
            Outcome::Refused(ContractError::InvalidTimeout)
        } else {
            Outcome::Done
        },
        Op::ProposeUpgrade => Outcome::Done,
        Op::CancelUpgrade => if b.upgrade_at is None {
            Outcome::Refused(ContractError::NoUpgradePending)
        } else {
            Outcome::Done
        },
        Op::ExecuteUpgrade => if b.upgrade_at is None {
            Outcome::Refused(ContractError::NoUpgradePending)
        } else if b.ledger < b.upgrade_at->0 {
            Outcome::Refused(ContractError::UpgradeNotReady)
        } else {
            Outcome::Rejected
        },
        Op::Advance { .. } => Outcome::Done,
        Op::AdvanceNearUpgrade { .. } => Outcome::Done,
    }
}

/// The model's prediction of the books after an operation that is done.
pub open spec fn predicted_books(b: Books, op: Op) -> Books {
    match op {
        Op::Submit { payer, qid, amount } => b.paying(
            T_PAYER0 + payer,
            T_CONTRACT as int,
            amount as int,
        ).opening(payer, qid, amount),
        Op::Deposit { payer, amount } => Books {
            balance: b.balance.update(payer as int, (b.balance[payer as int] + amount) as i128),
            ..b.paying(T_PAYER0 + payer, T_CONTRACT as int, amount as int)
        },
        Op::WithdrawBalance { payer, amount } => Books {
            balance: b.balance.update(payer as int, (b.balance[payer as int] - amount) as i128),
            ..b.paying(T_CONTRACT as int, T_PAYER0 + payer, amount as int)
        },
        Op::Charge { payer, qid, amount } => Books {
            balance: b.balance.update(payer as int, (b.balance[payer as int] - amount) as i128),
            ..b
        }.opening(payer, qid, amount),
        Op::Resolve { qid, workers, losers } => b.resolving(qid, workers@, losers@),
        Op::Refund { qid } | Op::RefundTimeout { qid } => b.refunding(qid),
        Op::Stake { worker, amount } => Books {
            stake: b.stake.update(worker as int, (b.stake[worker as int] + amount) as i128),
            ..b.paying(T_WORKER0 + worker, T_CONTRACT as int, amount as int)
        },
        Op::BeginUnstake { worker, amount } => Books {
            stake: b.stake.update(worker as int, (b.stake[worker as int] - amount) as i128),
            unbonding: b.unbonding.update(
                worker as int,
                (b.unbonding[worker as int] + amount) as i128,
            ),
            release_at: b.release_at.update(worker as int, b.release()),
            ..b
        },
        Op::CompleteUnstake { worker } => Books {
            unbonding: b.unbonding.update(worker as int, 0),
            release_at: b.release_at.update(worker as int, 0),
            ..b.paying(
                T_CONTRACT as int,
                T_WORKER0 + worker,
                b.unbonding[worker as int] as int,
            )
        },
        Op::Withdraw { worker, amount } => Books {
            owed: b.owed.update(worker as int, (b.owed[worker as int] - amount) as i128),
            ..b.paying(T_CONTRACT as int, T_WORKER0 + worker, amount as int)
        },
        Op::WithdrawTo { worker, amount } => Books {
            owed: b.owed.update(worker as int, (b.owed[worker as int] - amount) as i128),
            ..b.paying(T_CONTRACT as int, T_BENEFICIARY as int, amount as int)
        },
        Op::SetTimeout { ledgers } => Books { timeout: ledgers, ..b },
        Op::ProposeUpgrade => Books { upgrade_at: Some(b.later(UPGRADE_DELAY_LEDGERS)), ..b },
        Op::CancelUpgrade => Books { upgrade_at: None, ..b },
        Op::Advance { ledgers } => Books { ledger: (b.ledger + ledgers) as u32, ..b },
        Op::AdvanceNearUpgrade { before } => match b.upgrade_at {
            Some(at) => if at - before > b.ledger {
                Books { ledger: (at - before) as u32, ..b }
            } else {
                b
            },
            None => b,
        },
        Op::Touch { .. } | Op::ExecuteUpgrade => b,
    }
}

impl Books {
    /// `ledgers` from now, as far as ledger numbers go.
    pub open spec fn later(self, ledgers: u32) -> u32 {
        if self.ledger + ledgers > u32::MAX {
            u32::MAX
        } else {
            (self.ledger + ledgers) as u32
        }
    }

    /// When stake that starts unbonding now can be claimed.
    pub open spec fn release(self) -> u32 {
        self.later(
            if self.timeout > MIN_UNBONDING_LEDGERS {
                self.timeout
            } else {
                MIN_UNBONDING_LEDGERS
            },
        )
    }
}

/// Whether an operation names only the parties there are and does not run out of ledgers.
pub open spec fn in_bounds(b: Books, op: Op) -> bool {
    match op {
        Op::Submit { payer, .. }
        | Op::Deposit { payer, .. }
        | Op::WithdrawBalance { payer, .. }
        | Op::Charge { payer, .. } => payer < PAYERS,
        Op::Resolve { workers, losers, .. } => {
            &&& forall|i: int| 0 <= i < workers.len() ==> #[trigger] workers@[i] < WORKERS
            &&& forall|i: int| 0 <= i < losers.len() ==> #[trigger] losers@[i] < WORKERS
        },
        Op::Stake { worker, .. }
        | Op::BeginUnstake { worker, .. }
        | Op::CompleteUnstake { worker }
        | Op::Withdraw { worker, .. }
        | Op::WithdrawTo { worker, .. }
        | Op::Touch { worker } => worker < WORKERS,
        Op::Advance { ledgers } => b.ledger + ledgers <= u32::MAX,
        Op::AdvanceNearUpgrade { before } => b.upgrade_at is Some ==> before <= b.upgrade_at->0,
        _ => true,
    }
}

/// Moving tokens between two parties keeps them all accounted for.
proof fn paying_conserves(b: Books, from: int, to: int, amount: int)
    requires
        b.tokens.len() == T_PARTIES,
        none_negative(b.tokens),
        0 <= from < T_PARTIES,
        0 <= to < T_PARTIES,
        from != to,
        0 <= amount <= b.tokens[from],
        total(b.tokens) == MINTED,
    ensures
        b.paying(from, to, amount).tokens.len() == T_PARTIES,
        none_negative(b.paying(from, to, amount).tokens),
        total(b.paying(from, to, amount).tokens) == MINTED,
        b.paying(from, to, amount).tokens[from] == b.tokens[from] - amount,
        b.paying(from, to, amount).tokens[to] == b.tokens[to] + amount,
        forall|i: int|
            0 <= i < T_PARTIES && i != from && i != to ==> #[trigger] b.paying(
                from,
                to,
                amount,
            ).tokens[i] == b.tokens[i],
{
    total_dominates(b.tokens);
    let less = b.tokens.update(from, (b.tokens[from] - amount) as i128);
    total_after_update(b.tokens, from, (b.tokens[from] - amount) as i128);
    assert(none_negative(less));
    total_dominates(less);
    total_after_update(less, to, (less[to] + amount) as i128);
}

/// No claim exceeds what the contract holds, and that does not exceed what was minted.
pub proof fn claims_are_bounded(b: Books)
    requires
        b.sound(),
    ensures
        forall|i: int| 0 <= i < T_PARTIES ==> 0 <= #[trigger] b.tokens[i] <= MINTED,
        forall|i: int| 0 <= i < PAYERS ==> 0 <= #[trigger] b.balance[i] <= b.tokens[1],
        forall|i: int| 0 <= i < WORKERS ==> 0 <= #[trigger] b.stake[i] <= b.tokens[1],
        forall|i: int| 0 <= i < WORKERS ==> 0 <= #[trigger] b.unbonding[i] <= b.tokens[1],
        forall|i: int|
            0 <= i < WORKERS ==> (#[trigger] b.stake[i]) + b.unbonding[i] <= b.tokens[1],
        forall|i: int| 0 <= i < WORKERS ==> 0 <= #[trigger] b.owed[i] <= b.tokens[1],
        forall|qid: u64| #[trigger]
            b.is_pending(qid) ==> 0 < b.questions[qid].amount <= b.tokens[1],
        total(b.stake) + total(b.unbonding) + total(b.owed) + total(b.balance) <= b.tokens[1],
        total(b.stake) >= 0,
        total(b.unbonding) >= 0,
        total(b.owed) >= 0,
        total(b.balance) >= 0,
        sum_of(b.questions, escrowed()) >= 0,
        forall|qid: u64| #[trigger]
            b.is_pending(qid) ==> total(b.stake) + total(b.unbonding) + total(b.owed) + total(
                b.balance,
            ) + b.questions[qid].amount <= b.tokens[1],
{
    total_dominates(b.tokens);
    total_dominates(b.balance);
    total_dominates(b.stake);
    total_dominates(b.unbonding);
    total_dominates(b.owed);
    assert forall|id: u64| #[trigger] b.questions.contains_key(id) implies escrowed()(
        b.questions[id],
    ) >= 0 by {}
    sum_dominates(b.questions, escrowed());
    assert forall|qid: u64| #[trigger] b.is_pending(qid) implies b.questions[qid].amount
        <= sum_of(b.questions, escrowed()) by {
        assert(escrowed()(b.questions[qid]) == b.questions[qid].amount);
    }
    assert(T_CONTRACT == 1);
}

/// Opening a question keeps the books sound, once its funds have been put aside.
proof fn opening_keeps_sound(b: Books, payer: usize, qid: u64, amount: i128)
    requires
        payer < PAYERS,
        0 < amount <= MINTED,
        !b.questions.contains_key(qid),
        b.sound_but_for(amount as int),
    ensures
        b.opening(payer, qid, amount).sound(),
{
    broadcast use sum_after_insert;

    let t = b.opening(payer, qid, amount);
    let q = t.questions[qid];
    assert(escrowed()(q) == amount);
    assert(opened()(q) == amount);
}

/// Paying moves what the contract can spare.
proof fn paying_keeps_sound(b: Books, from: int, to: int, amount: int, spare: int)
    requires
        b.sound_but_for(spare),
        0 <= from < T_PARTIES,
        0 <= to < T_PARTIES,
        from != to,
        0 <= amount <= b.tokens[from],
    ensures
        b.paying(from, to, amount).sound_but_for(
            spare + (if to == T_CONTRACT {
                amount
            } else {
                0
            }) - (if from == T_CONTRACT {
                amount
            } else {
                0
            }),
        ),
{
    paying_conserves(b, from, to, amount);
}

/// Settling a question frees what it locked; what it was opened with has to be booked.
proof fn closing_keeps_sound(b: Books, qid: u64, status: Status, t: Books, spare: int)
    requires
        b.sound_but_for(spare),
        b.is_pending(qid),
        status != Status::Pending,
        t == (Books {
            questions: b.questions.insert(
                qid,
                ModelQuestion { status, ..b.questions[qid] },
            ),
            paid_to_platform: t.paid_to_platform,
            credited_to_workers: t.credited_to_workers,
            refunded: t.refunded,
            ..b
        }),
        t.paid_to_platform >= 0,
        t.credited_to_workers >= 0,
        t.refunded >= 0,
        t.paid_to_platform + t.credited_to_workers + t.refunded == b.paid_to_platform
            + b.credited_to_workers + b.refunded + b.questions[qid].amount,
    ensures
        t.sound_but_for(spare + b.questions[qid].amount),
{
    broadcast use sum_after_insert;

    let q = t.questions[qid];
    assert(escrowed()(b.questions[qid]) == b.questions[qid].amount);
    assert(escrowed()(q) == 0);
    assert(opened()(q) == b.questions[qid].amount);
    assert(opened()(b.questions[qid]) == b.questions[qid].amount);
}

/// Refunding keeps the books sound.
proof fn refunding_keeps_sound(b: Books, qid: u64)
    requires
        b.sound(),
        b.is_pending(qid),
        b.refunded + MINTED <= i128::MAX,
    ensures
        b.refunding(qid).sound(),
{
    claims_are_bounded(b);
    let q = b.questions[qid];
    let closed = Books {
        questions: b.questions.insert(qid, ModelQuestion { status: Status::Refunded, ..q }),
        refunded: (b.refunded + q.amount) as i128,
        ..b
    };
    closing_keeps_sound(b, qid, Status::Refunded, closed, 0);
    paying_keeps_sound(
        closed,
        T_CONTRACT as int,
        T_PAYER0 + q.payer,
        q.amount as int,
        q.amount as int,
    );
    assert(b.refunding(qid) == closed.paying(
        T_CONTRACT as int,
        T_PAYER0 + q.payer,
        q.amount as int,
    ));
}

/// A cut is never negative, never more than the bond, never more than the question's amount.
pub proof fn a_cut_is_bounded(b: Books, worker: int, amount: int)
    requires
        b.stake[worker] >= 0,
        b.unbonding[worker] >= 0,
        amount > 0,
    ensures
        0 <= b.cut(worker, amount) <= amount,
        b.cut(worker, amount) <= b.stake[worker] + b.unbonding[worker],
{
}

/// Slashing takes the cuts out of the bonds, nothing else.
proof fn slashing_takes_the_cuts(b: Books, losers: Seq<usize>, amount: int)
    requires
        b.stake.len() == WORKERS,
        b.unbonding.len() == WORKERS,
        none_negative(b.stake),
        none_negative(b.unbonding),
        amount > 0,
        losers.no_duplicates(),
        forall|i: int| 0 <= i < losers.len() ==> #[trigger] losers[i] < WORKERS,
    ensures
        total(b.slashing(losers, amount).stake) + total(b.slashing(losers, amount).unbonding)
            == total(b.stake) + total(b.unbonding) - b.cuts(losers, amount),
        none_negative(b.slashing(losers, amount).stake),
        none_negative(b.slashing(losers, amount).unbonding),
        0 <= b.cuts(losers, amount) <= amount * losers.len(),
    decreases losers.len(),
{
    let t = b.slashing(losers, amount);
    assert forall|w: int| 0 <= w < WORKERS implies 0 <= #[trigger] t.stake[w] by {
        a_cut_is_bounded(b, w, amount);
    }
    assert forall|w: int| 0 <= w < WORKERS implies 0 <= #[trigger] t.unbonding[w] by {
        a_cut_is_bounded(b, w, amount);
    }
    if losers.len() == 0 {
        assert(t.stake == b.stake);
        assert(t.unbonding == b.unbonding);
    } else {
        let before = losers.drop_last();
        let last = losers.last() as int;
        assert(losers[losers.len() - 1] < WORKERS);
        assert forall|i: int| 0 <= i < before.len() implies #[trigger] before[i] < WORKERS by {
            assert(before[i] == losers[i]);
        }
        slashing_takes_the_cuts(b, before, amount);
        let mid = b.slashing(before, amount);
        assert(!before.contains(last as usize)) by {
            if before.contains(last as usize) {
                let i = choose|i: int| 0 <= i < before.len() && before[i] == last;
                assert(losers[i] == losers[losers.len() - 1]);
            }
        }
        assert forall|w: int| 0 <= w < WORKERS implies (losers.contains(w as usize)
            <==> #[trigger] before.contains(w as usize) || w == last) by {
            contains_splits(losers, w as usize);
        }
        a_cut_is_bounded(b, last, amount);
        assert(t.stake == mid.stake.update(last, t.stake[last]));
        assert(t.unbonding == mid.unbonding.update(last, t.unbonding[last]));
        total_after_update(mid.stake, last, t.stake[last]);
        total_after_update(mid.unbonding, last, t.unbonding[last]);
        assert(amount * losers.len() == amount * before.len() + amount) by (nonlinear_arith)
            requires
                losers.len() == before.len() + 1,
        ;
    }
}

/// Crediting adds one share for each winner, nothing else.
proof fn crediting_adds_shares(b: Books, workers: Seq<usize>, share: int)
    requires
        b.owed.len() == WORKERS,
        none_negative(b.owed),
        0 <= share <= MINTED,
        forall|i: int| 0 <= i < WORKERS ==> #[trigger] b.owed[i] <= MINTED,
        workers.no_duplicates(),
        forall|i: int| 0 <= i < workers.len() ==> #[trigger] workers[i] < WORKERS,
    ensures
        total(b.crediting(workers, share).owed) == total(b.owed) + share * workers.len(),
        none_negative(b.crediting(workers, share).owed),
    decreases workers.len(),
{
    let t = b.crediting(workers, share);
    if workers.len() == 0 {
        assert(t.owed == b.owed);
    } else {
        let before = workers.drop_last();
        let last = workers.last() as int;
        assert(workers[workers.len() - 1] < WORKERS);
        assert forall|i: int| 0 <= i < before.len() implies #[trigger] before[i] < WORKERS by {
            assert(before[i] == workers[i]);
        }
        crediting_adds_shares(b, before, share);
        let mid = b.crediting(before, share);
        assert(!before.contains(last as usize)) by {
            if before.contains(last as usize) {
                let i = choose|i: int| 0 <= i < before.len() && before[i] == last;
                assert(workers[i] == workers[workers.len() - 1]);
            }
        }
        assert forall|w: int| 0 <= w < WORKERS implies (workers.contains(w as usize)
            <==> #[trigger] before.contains(w as usize) || w == last) by {
            contains_splits(workers, w as usize);
        }
        assert(t.owed == mid.owed.update(last, t.owed[last]));
        total_after_update(mid.owed, last, t.owed[last]);
        assert(share * workers.len() == share * before.len() + share) by (nonlinear_arith)
            requires
                workers.len() == before.len() + 1,
        ;
    }
}

/// The split of an amount among `n` winners.
pub proof fn model_split(amount: int, n: int)
    requires
        amount > 0,
        n > 0,
    ensures
        0 <= model_share(amount, n) <= amount,
        0 <= model_share(amount, n) * n <= amount,
{
    let pool = amount - amount * PLATFORM_FEE_BPS / BPS_DENOM as int;
    assert(0 <= pool <= amount);
    assert(0 <= pool / n <= pool && 0 <= (pool / n) * n <= pool) by (nonlinear_arith)
        requires
            pool >= 0,
            n > 0,
    ;
}

/// Neither half of a list without duplicates has any.
pub proof fn halves_are_distinct(workers: Seq<usize>, losers: Seq<usize>)
    requires
        (workers + losers).no_duplicates(),
    ensures
        workers.no_duplicates(),
        losers.no_duplicates(),
        forall|w: usize| !(#[trigger] workers.contains(w) && #[trigger] losers.contains(w)),
{
    let all = workers + losers;
    assert forall|i: int, j: int|
        0 <= i < workers.len() && 0 <= j < workers.len() && i != j implies workers[i]
        != workers[j] by {
        assert(all[i] == workers[i] && all[j] == workers[j]);
    }
    assert forall|i: int, j: int|
        0 <= i < losers.len() && 0 <= j < losers.len() && i != j implies losers[i]
        != losers[j] by {
        assert(all[workers.len() + i] == losers[i]);
        assert(all[workers.len() + j] == losers[j]);
    }
    assert forall|w: usize| !(#[trigger] workers.contains(w) && #[trigger] losers.contains(w)) by {
        if workers.contains(w) && losers.contains(w) {
            let i = choose|i: int| 0 <= i < workers.len() && workers[i] == w;
            let j = choose|j: int| 0 <= j < losers.len() && losers[j] == w;
            assert(all[i] == w && all[workers.len() + j] == w);
        }
    }
}

impl Books {
    /// Whether one more settlement can be booked.
    pub open spec fn room(self) -> bool {
        self.paid_to_platform + self.credited_to_workers + self.refunded + MINTED <= i128::MAX
    }
}

/// Resolving keeps the books sound.
pub proof fn resolving_keeps_sound(b: Books, qid: u64, workers: Seq<usize>, losers: Seq<usize>)
    requires
        b.sound(),
        b.room(),
        resolve_prediction(b, qid, workers, losers) == Outcome::Done,
        forall|i: int| 0 <= i < workers.len() ==> #[trigger] workers[i] < WORKERS,
        forall|i: int| 0 <= i < losers.len() ==> #[trigger] losers[i] < WORKERS,
    ensures
        b.resolving(qid, workers, losers).sound(),
        ({
            let amount = b.questions[qid].amount as int;
            let share = model_share(amount, workers.len() as int);
            0 <= amount - share * workers.len() + b.cuts(losers, amount) <= b.tokens[1]
        }),
{
    claims_are_bounded(b);
    halves_are_distinct(workers, losers);
    let q = b.questions[qid];
    assert(b.is_pending(qid));
    let amount = q.amount as int;
    let n = workers.len() as int;
    let share = model_share(amount, n);
    let kept = amount - share * n;
    model_split(amount, n);
    slashing_takes_the_cuts(b, losers, amount);
    crediting_adds_shares(b, workers, share);
    let cuts = b.cuts(losers, amount);
    let closed = Books {
        questions: b.questions.insert(qid, ModelQuestion { status: Status::Resolved, ..q }),
        paid_to_platform: (b.paid_to_platform + kept) as i128,
        credited_to_workers: (b.credited_to_workers + share * n) as i128,
        ..b
    };
    closing_keeps_sound(b, qid, Status::Resolved, closed, 0);
    let slashed = closed.slashing(losers, amount);
    assert(slashed.stake == b.slashing(losers, amount).stake);
    assert(slashed.unbonding == b.slashing(losers, amount).unbonding);
    let credited = slashed.crediting(workers, share);
    assert(credited.owed == b.crediting(workers, share).owed);
    assert(credited.sound_but_for(amount + cuts - share * n));
    total_dominates(b.slashing(losers, amount).stake);
    total_dominates(b.slashing(losers, amount).unbonding);
    assert(cuts <= total(b.stake) + total(b.unbonding));
    paying_keeps_sound(
        credited,
        T_CONTRACT as int,
        T_PLATFORM as int,
        kept + cuts,
        amount + cuts - share * n,
    );
    assert(b.resolving(qid, workers, losers) == credited.paying(
        T_CONTRACT as int,
        T_PLATFORM as int,
        kept + cuts,
    ));
}

/// The model's own law: whatever is done, every token stays accounted for, the contract holds
/// exactly what it owes, and every question's funds are escrowed, paid out or refunded.
pub proof fn done_keeps_sound(b: Books, op: Op)
    requires
        b.sound(),
        b.room(),
        in_bounds(b, op),
        predicted(b, op) == Outcome::Done,
    ensures
        predicted_books(b, op).sound(),
{
    claims_are_bounded(b);
    match op {
        Op::Submit { payer, qid, amount } => {
            let paid = b.paying(T_PAYER0 + payer, T_CONTRACT as int, amount as int);
            paying_keeps_sound(b, T_PAYER0 + payer, T_CONTRACT as int, amount as int, 0);
            opening_keeps_sound(paid, payer, qid, amount);
        },
        Op::Deposit { payer, amount } => {
            let paid = b.paying(T_PAYER0 + payer, T_CONTRACT as int, amount as int);
            paying_keeps_sound(b, T_PAYER0 + payer, T_CONTRACT as int, amount as int, 0);
            total_after_update(
                b.balance,
                payer as int,
                (b.balance[payer as int] + amount) as i128,
            );
        },
        Op::WithdrawBalance { payer, amount } => {
            paying_keeps_sound(b, T_CONTRACT as int, T_PAYER0 + payer, amount as int, 0);
            total_after_update(
                b.balance,
                payer as int,
                (b.balance[payer as int] - amount) as i128,
            );
        },
        Op::Charge { payer, qid, amount } => {
            let charged = Books {
                balance: b.balance.update(
                    payer as int,
                    (b.balance[payer as int] - amount) as i128,
                ),
                ..b
            };
            total_after_update(
                b.balance,
                payer as int,
                (b.balance[payer as int] - amount) as i128,
            );
            assert(none_negative(charged.balance));
            opening_keeps_sound(charged, payer, qid, amount);
        },
        Op::Resolve { qid, workers, losers } => {
            resolving_keeps_sound(b, qid, workers@, losers@);
        },
        Op::Refund { qid } => {
            refunding_keeps_sound(b, qid);
        },
        Op::RefundTimeout { qid } => {
            refunding_keeps_sound(b, qid);
        },
        Op::Stake { worker, amount } => {
            paying_keeps_sound(b, T_WORKER0 + worker, T_CONTRACT as int, amount as int, 0);
            total_after_update(b.stake, worker as int, (b.stake[worker as int] + amount) as i128);
        },
        Op::BeginUnstake { worker, amount } => {
            total_after_update(b.stake, worker as int, (b.stake[worker as int] - amount) as i128);
            total_after_update(
                b.unbonding,
                worker as int,
                (b.unbonding[worker as int] + amount) as i128,
            );
        },
        Op::CompleteUnstake { worker } => {
            paying_keeps_sound(
                b,
                T_CONTRACT as int,
                T_WORKER0 + worker,
                b.unbonding[worker as int] as int,
                0,
            );
            total_after_update(b.unbonding, worker as int, 0);
        },
        Op::Withdraw { worker, amount } => {
            paying_keeps_sound(b, T_CONTRACT as int, T_WORKER0 + worker, amount as int, 0);
            total_after_update(b.owed, worker as int, (b.owed[worker as int] - amount) as i128);
        },
        Op::WithdrawTo { worker, amount } => {
            paying_keeps_sound(b, T_CONTRACT as int, T_BENEFICIARY as int, amount as int, 0);
            total_after_update(b.owed, worker as int, (b.owed[worker as int] - amount) as i128);
        },
        _ => {},
    }
}

/// How every sequence starts: the payers and workers hold what was minted, and nothing has
/// happened.
pub open spec fn first_books(ledger: u32) -> Books {
    Books {
        ledger,
        timeout: INITIAL_TIMEOUT,
        upgrade_at: None,
        questions: Map::empty(),
        balance: seq![0i128, 0i128, 0i128],
        stake: seq![0i128, 0i128, 0i128, 0i128, 0i128],
        unbonding: seq![0i128, 0i128, 0i128, 0i128, 0i128],
        release_at: seq![0u32, 0u32, 0u32, 0u32, 0u32],
        owed: seq![0i128, 0i128, 0i128, 0i128, 0i128],
        tokens: seq![
            0i128,
            0i128,
            0i128,
            PAYER_FUNDS,
            PAYER_FUNDS,
            PAYER_FUNDS,
            WORKER_FUNDS,
            WORKER_FUNDS,
            WORKER_FUNDS,
            WORKER_FUNDS,
            WORKER_FUNDS,
        ],
        paid_to_platform: 0,
        credited_to_workers: 0,
        refunded: 0,
    }
}

/// The books are sound from the start.
pub proof fn first_books_are_sound(ledger: u32)
    ensures
        first_books(ledger).sound(),
        first_books(ledger).room(),
{
    let b = first_books(ledger);
    reveal_with_fuel(total, 12);
    assert(total(b.tokens) == MINTED);
    assert(total(b.balance) == 0);
    assert(total(b.stake) == 0);
    assert(total(b.unbonding) == 0);
    assert(total(b.owed) == 0);
    assert(sum_of(b.questions, escrowed()) == 0);
    assert(sum_of(b.questions, opened()) == 0);
}

impl Clone for Model {
    fn clone(&self) -> (model: Model)
        ensures
            model@ == self@,
    {
        Model {
            ledger: self.ledger,
            timeout: self.timeout,
            upgrade_at: self.upgrade_at,
            questions: self.questions.clone(),
            balance: self.balance.clone(),
            stake: self.stake.clone(),
            unbonding: self.unbonding.clone(),
            release_at: self.release_at.clone(),
            owed: self.owed.clone(),
            tokens: self.tokens.clone(),
            paid_to_platform: self.paid_to_platform,
            credited_to_workers: self.credited_to_workers,
            refunded: self.refunded,
        }
    }
}

/// `n` times `value`.
fn filled(value: i128, n: usize) -> (out: Vec<i128>)
    ensures
        out@ == Seq::new(n as nat, |i: int| value),
{
    let mut out: Vec<i128> = Vec::new();
    let mut i: usize = 0;
    while i < n
        invariant
            0 <= i <= n,
            out@ == Seq::new(i as nat, |i: int| value),
        decreases n - i,
    {
        out.push(value);
        i = i + 1;
    }
    out
}

/// What an operation that is not done leaves behind where it is not undone: a question that
/// cannot be opened is found out only once it has been paid for.
pub open spec fn half_done(b: Books, op: Op) -> Books {
    match op {
        Op::Submit { payer, amount, .. } if 0 < amount <= b.tokens[T_PAYER0 + payer] => b.paying(
            T_PAYER0 + payer,
            T_CONTRACT as int,
            amount as int,
        ),
        Op::Charge { payer, amount, .. } if 0 < amount <= b.balance[payer as int] => Books {
            balance: b.balance.update(payer as int, (b.balance[payer as int] - amount) as i128),
            ..b
        },
        _ => b,
    }
}

/// Nothing but tokens and prepaid balances is touched by an operation that is not done.
pub proof fn half_done_touches_only_funds(b: Books, op: Op)
    ensures
        half_done(b, op) == (Books {
            tokens: half_done(b, op).tokens,
            balance: half_done(b, op).balance,
            ..b
        }),
{
}

/// What an operation that is not done leaves behind: the tokens of a submission have gone from the
/// payer to the contract, the prepaid amount of a charge has gone from the payer's balance, and
/// nothing else has moved.
pub proof fn what_half_done_takes(b: Books, op: Op, i: int)
    requires
        b.sound(),
        in_bounds(b, op),
        0 <= i < T_PARTIES,
    ensures
        ({
            let left = half_done(b, op);
            let sent: int = match op {
                Op::Submit { payer, amount, .. } => if 0 < amount <= b.tokens[T_PAYER0 + payer] {
                    if i == T_PAYER0 + payer {
                        -(amount as int)
                    } else if i == T_CONTRACT {
                        amount as int
                    } else {
                        0
                    }
                } else {
                    0
                },
                _ => 0,
            };
            let spent: int = match op {
                Op::Charge { payer, amount, .. } => if payer == i && 0 < amount <= b.balance[i] {
                    amount as int
                } else {
                    0
                },
                _ => 0,
            };
            &&& left.tokens[i] == b.tokens[i] + sent
            &&& i < PAYERS ==> left.balance[i] == b.balance[i] - spent
        }),
{
    claims_are_bounded(b);
}

impl Model {
    pub fn new(ledger: u32) -> (model: Model)
        ensures
            model@ == first_books(ledger),
            model@.sound(),
            model@.room(),
    {
        let mut tokens: Vec<i128> = filled(0, T_PARTIES);
        let mut p: usize = 0;
        while p < PAYERS
            invariant
                0 <= p <= PAYERS,
                tokens.len() == T_PARTIES,
                forall|i: int|
                    0 <= i < T_PARTIES ==> #[trigger] tokens@[i] == (if T_PAYER0 <= i < T_PAYER0
                        + p {
                        PAYER_FUNDS
                    } else {
                        0i128
                    }),
            decreases PAYERS - p,
        {
            tokens.set(T_PAYER0 + p, PAYER_FUNDS);
            p = p + 1;
        }
        let mut w: usize = 0;
        while w < WORKERS
            invariant
                0 <= w <= WORKERS,
                tokens.len() == T_PARTIES,
                forall|i: int|
                    0 <= i < T_PARTIES ==> #[trigger] tokens@[i] == (if T_PAYER0 <= i < T_WORKER0 {
                        PAYER_FUNDS
                    } else if T_WORKER0 <= i < T_WORKER0 + w {
                        WORKER_FUNDS
                    } else {
                        0i128
                    }),
            decreases WORKERS - w,
        {
            tokens.set(T_WORKER0 + w, WORKER_FUNDS);
            w = w + 1;
        }
        let mut release_at: Vec<u32> = Vec::new();
        release_at.push(0);
        release_at.push(0);
        release_at.push(0);
        release_at.push(0);
        release_at.push(0);
        let model: Model = Model {
            ledger,
            timeout: INITIAL_TIMEOUT,
            upgrade_at: None,
            questions: BTreeMap::new(),
            balance: filled(0, PAYERS),
            stake: filled(0, WORKERS),
            unbonding: filled(0, WORKERS),
            release_at,
            owed: filled(0, WORKERS),
            tokens,
            paid_to_platform: 0,
            credited_to_workers: 0,
            refunded: 0,
        };
        proof {
            let b = first_books(ledger);
            assert(model@.tokens == b.tokens);
            assert(model@.balance == b.balance);
            assert(model@.stake == b.stake);
            assert(model@.release_at == b.release_at);
            first_books_are_sound(ledger);
        }
        model
    }

    fn move_tokens(&mut self, from: usize, to: usize, amount: i128)
        requires
            old(self)@.tokens.len() == T_PARTIES,
            from < T_PARTIES,
            to < T_PARTIES,
            from != to,
            0 <= amount <= old(self)@.tokens[from as int],
            old(self)@.tokens[to as int] + amount <= i128::MAX,
        ensures
            final(self)@ == old(self)@.paying(from as int, to as int, amount as int),
    {
        let less: i128 = self.tokens[from] - amount;
        self.tokens.set(from, less);
        let more: i128 = self.tokens[to] + amount;
        self.tokens.set(to, more);
    }

    fn open_question(&mut self, payer: usize, qid: u64, amount: i128) -> (result: Result<
        (),
        ContractError,
    >)
        ensures
            result == (match old(self)@.not_open(qid) {
                Some(e) => Err(e),
                None => Ok(()),
            }),
            result is Ok ==> final(self)@ == old(self)@.opening(payer, qid, amount),
            result is Err ==> final(self)@ == old(self)@,
    {
        if self.questions.contains_key(&qid) {
            return Err(ContractError::QuestionAlreadyExists);
        }
        let mut timeout: u32 = self.timeout;
        if let Some(at) = self.upgrade_at {
            let latest: u32 = at.saturating_sub(1);
            if latest <= self.ledger {
                return Err(ContractError::UpgradeInProgress);
            }
            if latest - self.ledger < timeout {
                timeout = latest - self.ledger;
            }
        }
        let created_at: u32 = self.ledger;
        self.questions.insert(
            qid,
            ModelQuestion {
                payer,
                amount,
                status: Status::Pending,
                created_at,
                timeout_ledgers: timeout,
            },
        );
        Ok(())
    }

    fn pending(&self, qid: u64) -> (result: Result<ModelQuestion, ContractError>)
        ensures
            result == (match self@.not_pending(qid) {
                Some(e) => Err(e),
                None => Ok(self@.questions[qid]),
            }),
    {
        match self.questions.get(&qid) {
            Some(q) => if q.status != Status::Pending {
                Err(ContractError::QuestionNotPending)
            } else {
                Ok(*q)
            },
            None => Err(ContractError::QuestionNotFound),
        }
    }

    fn refund(&mut self, qid: u64)
        requires
            old(self)@.sound(),
            old(self)@.room(),
            old(self)@.is_pending(qid),
        ensures
            final(self)@ == old(self)@.refunding(qid),
    {
        proof {
            claims_are_bounded(self@);
        }
        let q: ModelQuestion = *self.questions.get(&qid).unwrap();
        self.questions.insert(
            qid,
            ModelQuestion {
                payer: q.payer,
                amount: q.amount,
                status: Status::Refunded,
                created_at: q.created_at,
                timeout_ledgers: q.timeout_ledgers,
            },
        );
        self.move_tokens(T_CONTRACT, T_PAYER0 + q.payer, q.amount);
        self.refunded = self.refunded + q.amount;
    }

    /// Applies `op` and commits it only if it is done.
    pub fn apply(&mut self, op: &Op) -> (outcome: Outcome)
        requires
            old(self)@.sound(),
            old(self)@.room(),
            in_bounds(old(self)@, *op),
        ensures
            outcome == predicted(old(self)@, *op),
            outcome == Outcome::Done ==> final(self)@ == predicted_books(old(self)@, *op),
            outcome != Outcome::Done ==> final(self)@ == old(self)@,
            final(self)@.sound(),
    {
        let mut next: Model = self.clone();
        let outcome: Outcome = next.step(op);
        if let Outcome::Done = outcome {
            *self = next;
        }
        outcome
    }

    /// Does `op` in place. If it is not done, the funds of a question that could not be opened
    /// have been taken already; everything else is as before.
    pub fn step(&mut self, op: &Op) -> (outcome: Outcome)
        requires
            old(self)@.sound(),
            old(self)@.room(),
            in_bounds(old(self)@, *op),
        ensures
            outcome == predicted(old(self)@, *op),
            outcome == Outcome::Done ==> final(self)@ == predicted_books(old(self)@, *op),
            outcome == Outcome::Done ==> final(self)@.sound(),
            outcome != Outcome::Done ==> final(self)@ == half_done(old(self)@, *op),
    {
        let ghost b = self@;
        proof {
            claims_are_bounded(b);
            if predicted(b, *op) == Outcome::Done {
                done_keeps_sound(b, *op);
            }
        }
        match op {
            Op::Submit { payer, qid, amount } => {
                let (payer, qid, amount): (usize, u64, i128) = (*payer, *qid, *amount);
                if amount <= 0 {
                    return Outcome::Refused(ContractError::InvalidAmount);
                }
                if self.tokens[T_PAYER0 + payer] < amount {
                    return Outcome::Rejected;
                }
                self.move_tokens(T_PAYER0 + payer, T_CONTRACT, amount);
                match self.open_question(payer, qid, amount) {
                    Ok(()) => Outcome::Done,
                    Err(e) => Outcome::Refused(e),
                }
            },
            Op::Deposit { payer, amount } => {
                let (payer, amount): (usize, i128) = (*payer, *amount);
                if amount <= 0 {
                    return Outcome::Refused(ContractError::InvalidAmount);
                }
                if self.tokens[T_PAYER0 + payer] < amount {
                    return Outcome::Rejected;
                }
                self.move_tokens(T_PAYER0 + payer, T_CONTRACT, amount);
                let more: i128 = self.balance[payer] + amount;
                self.balance.set(payer, more);
                Outcome::Done
            },
            Op::WithdrawBalance { payer, amount } => {
                let (payer, amount): (usize, i128) = (*payer, *amount);
                if amount <= 0 {
                    return Outcome::Refused(ContractError::InvalidAmount);
                }
                if amount > self.balance[payer] {
                    return Outcome::Refused(ContractError::InsufficientBalance);
                }
                self.move_tokens(T_CONTRACT, T_PAYER0 + payer, amount);
                let less: i128 = self.balance[payer] - amount;
                self.balance.set(payer, less);
                Outcome::Done
            },
            Op::Charge { payer, qid, amount } => {
                let (payer, qid, amount): (usize, u64, i128) = (*payer, *qid, *amount);
                if amount <= 0 {
                    return Outcome::Refused(ContractError::InvalidAmount);
                }
                if amount > self.balance[payer] {
                    return Outcome::Refused(ContractError::InsufficientBalance);
                }
                let less: i128 = self.balance[payer] - amount;
                self.balance.set(payer, less);
                match self.open_question(payer, qid, amount) {
                    Ok(()) => Outcome::Done,
                    Err(e) => Outcome::Refused(e),
                }
            },
            Op::Resolve { qid, workers, losers } => self.resolve(*qid, workers, losers),
            Op::Refund { qid } => match self.pending(*qid) {
                Ok(_) => {
                    self.refund(*qid);
                    Outcome::Done
                },
                Err(e) => Outcome::Refused(e),
            },
            Op::RefundTimeout { qid } => match self.pending(*qid) {
                Ok(q) => {
                    if self.ledger < q.created_at.saturating_add(q.timeout_ledgers) {
                        return Outcome::Refused(ContractError::TooEarlyForTimeout);
                    }
                    self.refund(*qid);
                    Outcome::Done
                },
                Err(e) => Outcome::Refused(e),
            },
            Op::Stake { worker, amount } => {
                let (worker, amount): (usize, i128) = (*worker, *amount);
                if amount <= 0 {
                    return Outcome::Refused(ContractError::InvalidAmount);
                }
                if self.tokens[T_WORKER0 + worker] < amount {
                    return Outcome::Rejected;
                }
                self.move_tokens(T_WORKER0 + worker, T_CONTRACT, amount);
                let more: i128 = self.stake[worker] + amount;
                self.stake.set(worker, more);
                Outcome::Done
            },
            Op::BeginUnstake { worker, amount } => {
                let (worker, amount): (usize, i128) = (*worker, *amount);
                if amount <= 0 {
                    return Outcome::Refused(ContractError::InvalidAmount);
                }
                if amount > self.stake[worker] {
                    return Outcome::Refused(ContractError::InsufficientStake);
                }
                let delay: u32 = if self.timeout > MIN_UNBONDING_LEDGERS {
                    self.timeout
                } else {
                    MIN_UNBONDING_LEDGERS
                };
                let less: i128 = self.stake[worker] - amount;
                self.stake.set(worker, less);
                let more: i128 = self.unbonding[worker] + amount;
                self.unbonding.set(worker, more);
                let release: u32 = self.ledger.saturating_add(delay);
                self.release_at.set(worker, release);
                Outcome::Done
            },
            Op::CompleteUnstake { worker } => {
                let worker: usize = *worker;
                if self.unbonding[worker] <= 0 {
                    return Outcome::Refused(ContractError::NothingUnbonding);
                }
                if self.ledger < self.release_at[worker] {
                    return Outcome::Refused(ContractError::UnbondingNotElapsed);
                }
                let amount: i128 = self.unbonding[worker];
                self.move_tokens(T_CONTRACT, T_WORKER0 + worker, amount);
                self.unbonding.set(worker, 0);
                self.release_at.set(worker, 0);
                Outcome::Done
            },
            Op::Withdraw { worker, amount } => self.withdraw(
                *worker,
                T_WORKER0 + *worker,
                *amount,
            ),
            Op::WithdrawTo { worker, amount } => self.withdraw(*worker, T_BENEFICIARY, *amount),
            Op::Touch { .. } => Outcome::Done,
            Op::SetTimeout { ledgers } => {
                if *ledgers == 0 || *ledgers > MAX_TIMEOUT_LEDGERS {
                    return Outcome::Refused(ContractError::InvalidTimeout);
                }
                self.timeout = *ledgers;
                Outcome::Done
            },
            Op::ProposeUpgrade => {
                self.upgrade_at = Some(self.ledger.saturating_add(UPGRADE_DELAY_LEDGERS));
                Outcome::Done
            },
            Op::CancelUpgrade => {
                if self.upgrade_at.is_none() {
                    return Outcome::Refused(ContractError::NoUpgradePending);
                }
                self.upgrade_at = None;
                Outcome::Done
            },
            Op::ExecuteUpgrade => match self.upgrade_at {
                Some(at) => if self.ledger < at {
                    Outcome::Refused(ContractError::UpgradeNotReady)
                } else {
                    Outcome::Rejected
                },
                None => Outcome::Refused(ContractError::NoUpgradePending),
            },
            Op::Advance { ledgers } => {
                self.ledger = self.ledger + *ledgers;
                Outcome::Done
            },
            Op::AdvanceNearUpgrade { before } => {
                if let Some(at) = self.upgrade_at {
                    if at - *before > self.ledger {
                        self.ledger = at - *before;
                    }
                }
                Outcome::Done
            },
        }
    }

    fn withdraw(&mut self, worker: usize, to: usize, amount: i128) -> (outcome: Outcome)
        requires
            old(self)@.sound(),
            worker < WORKERS,
            to < T_PARTIES,
            to != T_CONTRACT,
        ensures
            outcome == (if amount <= 0 {
                Outcome::Refused(ContractError::InvalidAmount)
            } else if old(self)@.owed[worker as int] <= 0 {
                Outcome::Refused(ContractError::NothingOwed)
            } else if amount > old(self)@.owed[worker as int] {
                Outcome::Refused(ContractError::InsufficientOwed)
            } else {
                Outcome::Done
            }),
            outcome == Outcome::Done ==> final(self)@ == (Books {
                owed: old(self)@.owed.update(
                    worker as int,
                    (old(self)@.owed[worker as int] - amount) as i128,
                ),
                ..old(self)@.paying(T_CONTRACT as int, to as int, amount as int)
            }),
            outcome != Outcome::Done ==> final(self)@ == old(self)@,
    {
        proof {
            claims_are_bounded(self@);
        }
        if amount <= 0 {
            return Outcome::Refused(ContractError::InvalidAmount);
        }
        if self.owed[worker] <= 0 {
            return Outcome::Refused(ContractError::NothingOwed);
        }
        if amount > self.owed[worker] {
            return Outcome::Refused(ContractError::InsufficientOwed);
        }
        self.move_tokens(T_CONTRACT, to, amount);
        let less: i128 = self.owed[worker] - amount;
        self.owed.set(worker, less);
        Outcome::Done
    }

    /// Whether any position is listed twice.
    fn listed_twice(workers: &Vec<usize>, losers: &Vec<usize>) -> (twice: bool)
        requires
            forall|i: int| 0 <= i < workers.len() ==> #[trigger] workers@[i] < WORKERS,
            forall|i: int| 0 <= i < losers.len() ==> #[trigger] losers@[i] < WORKERS,
        ensures
            twice == !(workers@ + losers@).no_duplicates(),
    {
        let ghost all = workers@ + losers@;
        let mut seen: Vec<bool> = Vec::new();
        seen.push(false);
        seen.push(false);
        seen.push(false);
        seen.push(false);
        seen.push(false);
        let mut i: usize = 0;
        while i < workers.len()
            invariant
                0 <= i <= workers.len(),
                all == workers@ + losers@,
                seen.len() == WORKERS,
                forall|k: int| 0 <= k < workers.len() ==> #[trigger] workers@[k] < WORKERS,
                forall|w: int|
                    0 <= w < WORKERS ==> (#[trigger] seen@[w] <==> all.take(i as int).contains(
                        w as usize,
                    )),
                all.take(i as int).no_duplicates(),
            decreases workers.len() - i,
        {
            let w: usize = workers[i];
            assert(all[i as int] == w);
            assert(all.take(i + 1).drop_last() == all.take(i as int));
            if seen[w] {
                proof {
                    repeated(all, i as int);
                }
                return true;
            }
            proof {
                assert forall|x: int| 0 <= x < WORKERS implies (all.take(i + 1).contains(x as usize)
                    <==> #[trigger] all.take(i as int).contains(x as usize) || x == w) by {
                    contains_splits(all.take(i + 1), x as usize);
                }
                extended(all, i as int);
            }
            seen.set(w, true);
            i = i + 1;
        }
        let mut j: usize = 0;
        while j < losers.len()
            invariant
                0 <= j <= losers.len(),
                all == workers@ + losers@,
                seen.len() == WORKERS,
                forall|k: int| 0 <= k < losers.len() ==> #[trigger] losers@[k] < WORKERS,
                forall|w: int|
                    0 <= w < WORKERS ==> (#[trigger] seen@[w] <==> all.take(
                        workers.len() + j,
                    ).contains(w as usize)),
                all.take(workers.len() + j).no_duplicates(),
            decreases losers.len() - j,
        {
            let w: usize = losers[j];
            let ghost at = workers.len() + j;
            assert(all[at] == w);
            assert(all.take(at + 1).drop_last() == all.take(at));
            if seen[w] {
                proof {
                    repeated(all, at);
                }
                return true;
            }
            proof {
                assert forall|x: int| 0 <= x < WORKERS implies (all.take(at + 1).contains(
                    x as usize,
                ) <==> #[trigger] all.take(at).contains(x as usize) || x == w) by {
                    contains_splits(all.take(at + 1), x as usize);
                }
                extended(all, at);
            }
            seen.set(w, true);
            j = j + 1;
        }
        assert(all.take(workers.len() + j) == all);
        false
    }

    fn resolve(&mut self, qid: u64, workers: &Vec<usize>, losers: &Vec<usize>) -> (outcome:
        Outcome)
        requires
            old(self)@.sound(),
            old(self)@.room(),
            forall|i: int| 0 <= i < workers.len() ==> #[trigger] workers@[i] < WORKERS,
            forall|i: int| 0 <= i < losers.len() ==> #[trigger] losers@[i] < WORKERS,
        ensures
            outcome == resolve_prediction(old(self)@, qid, workers@, losers@),
            outcome == Outcome::Done ==> final(self)@ == old(self)@.resolving(
                qid,
                workers@,
                losers@,
            ),
            outcome != Outcome::Done ==> final(self)@ == old(self)@,
    {
        let ghost b = self@;
        if workers.len() == 0 {
            return Outcome::Refused(ContractError::NoWorkers);
        }
        let max: usize = MAX_QUORUM_SIZE as usize;
        if workers.len() > max || losers.len() > max - workers.len() {
            return Outcome::Refused(ContractError::QuorumTooLarge);
        }
        if Self::listed_twice(workers, losers) {
            return Outcome::Refused(ContractError::InvalidWorkerLists);
        }
        let q: ModelQuestion = match self.pending(qid) {
            Ok(q) => q,
            Err(e) => {
                return Outcome::Refused(e);
            },
        };
        let amount: i128 = q.amount;
        let n: i128 = workers.len() as i128;
        proof {
            claims_are_bounded(b);
            assert(b.is_pending(qid));
            resolving_keeps_sound(b, qid, workers@, losers@);
            model_split(amount as int, n as int);
            halves_are_distinct(workers@, losers@);
            slashing_takes_the_cuts(b, losers@, amount as int);
        }
        let fee: i128 = amount * PLATFORM_FEE_BPS / BPS_DENOM;
        let share: i128 = (amount - fee) / n;
        let kept: i128 = amount - share * n;
        let mut slashed: i128 = 0;
        let mut i: usize = 0;
        while i < losers.len()
            invariant
                0 <= i <= losers.len() <= 64,
                b.sound(),
                losers@.no_duplicates(),
                0 < amount <= MINTED,
                forall|k: int| 0 <= k < losers.len() ==> #[trigger] losers@[k] < WORKERS,
                forall|k: int| 0 <= k < WORKERS ==> 0 <= #[trigger] b.stake[k] <= MINTED,
                forall|k: int| 0 <= k < WORKERS ==> 0 <= #[trigger] b.unbonding[k] <= MINTED,
                self@ == b.slashing(losers@.take(i as int), amount as int),
                slashed == b.cuts(losers@.take(i as int), amount as int),
                0 <= slashed <= amount * i,
            decreases losers.len() - i,
        {
            let l: usize = losers[i];
            let ghost done = losers@.take(i as int);
            let ghost next = losers@.take(i + 1);
            proof {
                assert(next.drop_last() == done);
                assert(!done.contains(l)) by {
                    if done.contains(l) {
                        let k = choose|k: int| 0 <= k < done.len() && done[k] == l;
                        assert(losers@[k] == losers@[i as int]);
                    }
                }
                a_cut_is_bounded(b, l as int, amount as int);
                assert forall|w: int| 0 <= w < WORKERS implies (next.contains(w as usize)
                    <==> #[trigger] done.contains(w as usize) || w == l) by {
                    contains_splits(next, w as usize);
                }
                assert(self@.stake[l as int] == b.stake[l as int]);
                assert(self@.unbonding[l as int] == b.unbonding[l as int]);
                assert(amount * (i + 1) == amount * i + amount) by (nonlinear_arith);
                assert(amount * i <= MINTED * 64) by (nonlinear_arith)
                    requires
                        amount <= MINTED,
                        0 <= i <= 64,
                        0 < amount,
                ;
            }
            let active: i128 = self.stake[l];
            let leaving: i128 = self.unbonding[l];
            let mut cut: i128 = (active + leaving) * SLASH_BPS / BPS_DENOM;
            if amount < cut {
                cut = amount;
            }
            let from_active: i128 = if cut < active {
                cut
            } else {
                active
            };
            self.stake.set(l, active - from_active);
            self.unbonding.set(l, leaving - (cut - from_active));
            slashed = slashed + cut;
            proof {
                let t = b.slashing(next, amount as int);
                assert(self@.stake == t.stake);
                assert(self@.unbonding == t.unbonding);
            }
            i = i + 1;
        }
        assert(losers@.take(i as int) == losers@);
        let ghost cut = self@;
        let mut i: usize = 0;
        while i < workers.len()
            invariant
                0 <= i <= workers.len(),
                workers@.no_duplicates(),
                cut.owed.len() == WORKERS,
                0 <= share <= MINTED,
                forall|k: int| 0 <= k < workers.len() ==> #[trigger] workers@[k] < WORKERS,
                forall|k: int| 0 <= k < WORKERS ==> 0 <= #[trigger] cut.owed[k] <= MINTED,
                self@ == cut.crediting(workers@.take(i as int), share as int),
            decreases workers.len() - i,
        {
            let w: usize = workers[i];
            let ghost done = workers@.take(i as int);
            let ghost next = workers@.take(i + 1);
            proof {
                assert(next.drop_last() == done);
                assert(!done.contains(w)) by {
                    if done.contains(w) {
                        let k = choose|k: int| 0 <= k < done.len() && done[k] == w;
                        assert(workers@[k] == workers@[i as int]);
                    }
                }
                assert forall|x: int| 0 <= x < WORKERS implies (next.contains(x as usize)
                    <==> #[trigger] done.contains(x as usize) || x == w) by {
                    contains_splits(next, x as usize);
                }
                assert(self@.owed[w as int] == cut.owed[w as int]);
            }
            let more: i128 = self.owed[w] + share;
            self.owed.set(w, more);
            assert(self@.owed == cut.crediting(next, share as int).owed);
            i = i + 1;
        }
        assert(workers@.take(i as int) == workers@);
        self.move_tokens(T_CONTRACT, T_PLATFORM, kept + slashed);
        self.paid_to_platform = self.paid_to_platform + kept;
        self.credited_to_workers = self.credited_to_workers + share * n;
        self.questions.insert(
            qid,
            ModelQuestion {
                payer: q.payer,
                amount: q.amount,
                status: Status::Resolved,
                created_at: q.created_at,
                timeout_ledgers: q.timeout_ledgers,
            },
        );
        Outcome::Done
    }
}

/// A position that was seen before is a duplicate.
proof fn repeated(all: Seq<usize>, at: int)
    requires
        0 <= at < all.len(),
        all.take(at).contains(all[at]),
    ensures
        !all.no_duplicates(),
{
    let i = choose|i: int| 0 <= i < all.take(at).len() && all.take(at)[i] == all[at];
    assert(all[i] == all[at]);
}

/// A position that was not seen before is no duplicate.
proof fn extended(all: Seq<usize>, at: int)
    requires
        0 <= at < all.len(),
        all.take(at).no_duplicates(),
        !all.take(at).contains(all[at]),
    ensures
        all.take(at + 1).no_duplicates(),
{
    let before = all.take(at);
    let after = all.take(at + 1);
    assert forall|i: int, j: int|
        0 <= i < after.len() && 0 <= j < after.len() && i != j implies after[i] != after[j] by {
        if i < at && j < at {
            assert(before[i] != before[j]);
        } else if i < at {
            assert(before.contains(before[i]));
        } else {
            assert(before.contains(before[j]));
        }
    }
}

/// Waiting moves the ledger forward by just that much, or to just that far from a scheduled
/// upgrade if that is still ahead, and changes nothing else.
pub proof fn waiting_only_moves_the_ledger(b: Books, op: Op)
    requires
        in_bounds(b, op),
        op is Advance || op is AdvanceNearUpgrade,
    ensures
        predicted(b, op) == Outcome::Done,
        predicted_books(b, op) == (Books { ledger: predicted_books(b, op).ledger, ..b }),
        op matches Op::Advance { ledgers } ==> predicted_books(b, op).ledger == b.ledger + ledgers,
        op matches Op::AdvanceNearUpgrade { before } ==> {
            let ledger = predicted_books(b, op).ledger;
            &&& b.upgrade_at is None ==> ledger == b.ledger
            &&& b.upgrade_at matches Some(at) ==> {
                &&& ledger >= b.ledger && ledger >= at - before
                &&& ledger == b.ledger || ledger == at - before
            }
        },
{
}

/// The tallies say where the funds of settled questions went: what winners were credited, what was
/// refunded, and the rest to the platform. No other operation touches them.
pub proof fn tallies_follow_the_funds(b: Books, op: Op)
    requires
        b.sound(),
        b.room(),
        in_bounds(b, op),
        predicted(b, op) == Outcome::Done,
    ensures
        ({
            let c = predicted_books(b, op);
            let credited = c.credited_to_workers - b.credited_to_workers;
            let paid = c.paid_to_platform - b.paid_to_platform;
            let refunded = c.refunded - b.refunded;
            match op {
                Op::Resolve { qid, .. } => credited == total(c.owed) - total(b.owed) && paid
                    + credited == b.questions[qid].amount && refunded == 0,
                Op::Refund { qid } => refunded == b.questions[qid].amount && credited == 0 && paid
                    == 0,
                Op::RefundTimeout { qid } => refunded == b.questions[qid].amount && credited == 0
                    && paid == 0,
                _ => refunded == 0 && credited == 0 && paid == 0,
            }
        }),
{
    claims_are_bounded(b);
    done_keeps_sound(b, op);
    if let Op::Resolve { qid, workers, losers } = op {
        let amount = b.questions[qid].amount as int;
        let n = workers@.len() as int;
        assert(b.is_pending(qid));
        model_split(amount, n);
        halves_are_distinct(workers@, losers@);
        crediting_adds_shares(b.slashing(losers@, amount), workers@, model_share(amount, n));
    }
}

} // verus!
