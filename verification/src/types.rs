//! The values the escrow stores, the errors it returns and the requests it makes of its host.
use vstd::prelude::*;

verus! {

/// An account or contract on the ledger. Only its identity matters here.
#[derive(Clone, Copy, PartialEq, Eq, Structural, Debug, PartialOrd, Ord, Hash)]
pub struct Address {
    pub id: u64,
}

/// Where a question stands. Every status but `Pending` is terminal.
#[derive(Clone, Copy, PartialEq, Eq, Structural, Debug)]
pub enum Status {
    Pending,
    Resolved,
    Refunded,
    /// Moved to another instance: the funds and the obligation live there, under the same id.
    Migrated,
}

/// An escrowed question.
#[derive(Clone, Copy, PartialEq, Eq, Structural, Debug)]
pub struct Question {
    pub payer: Address,
    pub amount: i128,
    pub status: Status,
    pub created_at: u32,
    /// Fixed when the question is opened, so that a later change of the default cannot move
    /// the refund deadline of a question that is already pending.
    pub timeout_ledgers: u32,
}

/// A worker's bond. `settled + warming` is the active stake; `unbonding` has left it but stays
/// slashable until it is claimed.
#[derive(Clone, Copy, PartialEq, Eq, Structural, Debug)]
pub struct StakeInfo {
    /// Stake bonded for at least the warm-up period.
    pub settled: i128,
    /// The most recent top-ups, not yet matured.
    pub warming: i128,
    /// Ledger of the most recent top-up.
    pub warming_since: u32,
    /// Requested for withdrawal, claimable from `unbonding_release_at` on.
    pub unbonding: i128,
    pub unbonding_release_at: u32,
}

/// A scheduled code upgrade.
#[derive(Clone, Copy, PartialEq, Eq, Debug)]
pub struct PendingUpgrade {
    pub wasm_hash: [u8; 32],
    pub executable_at: u32,
}

/// Names of the stored entries.
#[derive(Clone, Copy, PartialEq, Eq, Structural, Debug, PartialOrd, Ord, Hash)]
pub enum DataKey {
    Admin,
    Token,
    Platform,
    /// Ledgers a question may sit pending before anyone can force its refund.
    TimeoutLedgers,
    Question(u64),
    /// A worker's bond.
    Stake(Address),
    /// A worker's accrued, unwithdrawn earnings.
    Owed(Address),
    /// A payer's prepaid balance.
    Balance(Address),
    /// The pending index: `PendingAt(0..PendingCount)` holds the pending ids densely, and
    /// `PendingPos` maps an id back to its slot.
    PendingCount,
    PendingAt(u32),
    PendingPos(u64),
    /// The one contract allowed to import questions here.
    MigrationSource,
    PendingUpgrade,
}

/// Why a call was refused.
#[derive(Clone, Copy, PartialEq, Eq, Structural, Debug)]
pub enum ContractError {
    AlreadyInitialized,
    NotInitialized,
    InvalidAmount,
    QuestionAlreadyExists,
    QuestionNotFound,
    QuestionNotPending,
    NoWorkers,
    TooEarlyForTimeout,
    InvalidTimeout,
    InsufficientStake,
    NothingOwed,
    InvalidWorkerLists,
    InsufficientBalance,
    InsufficientOwed,
    QuorumTooLarge,
    UnbondingNotElapsed,
    MigrationNotAuthorized,
    TokenMismatch,
    InvalidMigrationTarget,
    NothingUnbonding,
    NoUpgradePending,
    UpgradeNotReady,
    UpgradeInProgress,
}

/// A question became pending.
#[derive(Clone, Copy, PartialEq, Eq, Structural, Debug)]
pub struct QuestionOpened {
    pub question_id: u64,
    pub payer: Address,
    pub amount: i128,
    pub created_at: u32,
    pub timeout_ledgers: u32,
}

/// A question left pending, for any reason.
#[derive(Clone, Copy, PartialEq, Eq, Structural, Debug)]
pub struct QuestionSettled {
    pub question_id: u64,
    pub status: Status,
}

/// A question was moved to another instance.
#[derive(Clone, Copy, PartialEq, Eq, Structural, Debug)]
pub struct QuestionMigrated {
    pub question_id: u64,
    pub target: Address,
    pub amount: i128,
}

/// An upgrade was scheduled.
#[derive(Clone, Copy, PartialEq, Eq, Debug)]
pub struct UpgradeProposed {
    pub wasm_hash: [u8; 32],
    pub executable_at: u32,
}

/// A scheduled upgrade was dropped.
#[derive(Clone, Copy, PartialEq, Eq, Debug)]
pub struct UpgradeCancelled {
    pub wasm_hash: [u8; 32],
}

/// A scheduled upgrade was carried out.
#[derive(Clone, Copy, PartialEq, Eq, Debug)]
pub struct UpgradeExecuted {
    pub wasm_hash: [u8; 32],
}

/// What a watcher of the ledger sees.
#[derive(Clone, Copy, PartialEq, Eq, Debug)]
pub enum Event {
    Opened(QuestionOpened),
    Settled(QuestionSettled),
    Migrated(QuestionMigrated),
    Proposed(UpgradeProposed),
    Cancelled(UpgradeCancelled),
    Executed(UpgradeExecuted),
}

/// One request to the host. A call's requests are carried out in order; if the host turns one
/// down, the whole call is undone.
#[derive(Clone, Copy, PartialEq, Eq, Debug)]
pub enum Effect {
    /// `address` must have authorized this call.
    RequireAuth { address: Address },
    /// Move `amount` of `token`.
    Transfer { token: Address, from: Address, to: Address, amount: i128 },
    /// Raise an entry's remaining lifetime to `extend_to` if it is at most `threshold`.
    ExtendEntry { key: DataKey, threshold: u32, extend_to: u32 },
    /// The same for the instance and its code.
    ExtendInstance { threshold: u32, extend_to: u32 },
    Publish { event: Event },
    /// Let exactly one transfer of `amount` out of this contract be pulled by the next call.
    AuthorizeTransfer { token: Address, from: Address, to: Address, amount: i128 },
    /// Call `import_question` on `target`.
    ImportQuestion {
        target: Address,
        source: Address,
        token: Address,
        question_id: u64,
        payer: Address,
        amount: i128,
        created_at: u32,
        timeout_ledgers: u32,
    },
    /// Replace the running code from the next call on.
    UpdateWasm { wasm_hash: [u8; 32] },
}

impl ContractError {
    /// The number under which each error is reported to callers.
    pub open spec fn spec_code(self) -> u32 {
        match self {
            ContractError::AlreadyInitialized => 1,
            ContractError::NotInitialized => 2,
            ContractError::InvalidAmount => 3,
            ContractError::QuestionAlreadyExists => 4,
            ContractError::QuestionNotFound => 5,
            ContractError::QuestionNotPending => 6,
            ContractError::NoWorkers => 7,
            ContractError::TooEarlyForTimeout => 8,
            ContractError::InvalidTimeout => 9,
            ContractError::InsufficientStake => 10,
            ContractError::NothingOwed => 11,
            ContractError::InvalidWorkerLists => 12,
            ContractError::InsufficientBalance => 13,
            ContractError::InsufficientOwed => 14,
            ContractError::QuorumTooLarge => 15,
            ContractError::UnbondingNotElapsed => 16,
            ContractError::MigrationNotAuthorized => 17,
            ContractError::TokenMismatch => 18,
            ContractError::InvalidMigrationTarget => 19,
            ContractError::NothingUnbonding => 20,
            ContractError::NoUpgradePending => 21,
            ContractError::UpgradeNotReady => 22,
            ContractError::UpgradeInProgress => 23,
        }
    }

    pub fn code(self) -> (code: u32)
        ensures
            code == self.spec_code(),
    {
        match self {
            ContractError::AlreadyInitialized => 1,
            ContractError::NotInitialized => 2,
            ContractError::InvalidAmount => 3,
            ContractError::QuestionAlreadyExists => 4,
            ContractError::QuestionNotFound => 5,
            ContractError::QuestionNotPending => 6,
            ContractError::NoWorkers => 7,
            ContractError::TooEarlyForTimeout => 8,
            ContractError::InvalidTimeout => 9,
            ContractError::InsufficientStake => 10,
            ContractError::NothingOwed => 11,
            ContractError::InvalidWorkerLists => 12,
            ContractError::InsufficientBalance => 13,
            ContractError::InsufficientOwed => 14,
            ContractError::QuorumTooLarge => 15,
            ContractError::UnbondingNotElapsed => 16,
            ContractError::MigrationNotAuthorized => 17,
            ContractError::TokenMismatch => 18,
            ContractError::InvalidMigrationTarget => 19,
            ContractError::NothingUnbonding => 20,
            ContractError::NoUpgradePending => 21,
            ContractError::UpgradeNotReady => 22,
            ContractError::UpgradeInProgress => 23,
        }
    }
}

/// No two errors share a number.
pub proof fn error_codes_are_distinct(a: ContractError, b: ContractError)
    requires
        a.spec_code() == b.spec_code(),
    ensures
        a == b,
{
}

impl Question {
    /// First ledger at which anyone may force the refund; saturates at the last ledger.
    pub open spec fn spec_deadline(self) -> u32 {
        if self.created_at + self.timeout_ledgers > u32::MAX {
            u32::MAX
        } else {
            (self.created_at + self.timeout_ledgers) as u32
        }
    }

    pub fn deadline(&self) -> (deadline: u32)
        ensures
            deadline == self.spec_deadline(),
    {
        self.created_at.saturating_add(self.timeout_ledgers)
    }

    /// The same question under another status.
    pub open spec fn with_status(self, status: Status) -> Question {
        Question { status, ..self }
    }
}

} // verus!
