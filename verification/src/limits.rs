//! The numbers the escrow runs on: basis points, lifetimes, delays and caps.
use vstd::prelude::*;

verus! {

/// 20% platform fee, in integer basis points.
pub const PLATFORM_FEE_BPS: i128 = 2000;

/// 5% of a losing worker's slashable stake (active plus unbonding) is forfeited per lost quorum.
pub const SLASH_BPS: i128 = 500;

/// One lost quorum never costs a worker more than this fraction of the question's amount (100%).
pub const SLASH_CAP_BPS_OF_AMOUNT: i128 = 10_000;

/// Denominator of every basis-point figure.
pub const BPS_DENOM: i128 = 10_000;

/// Ledgers per day at a five second close time.
pub const DAY_LEDGERS: u32 = 17_280;

/// Lifetime that a write gives a persistent entry: about 29 days.
pub const PERSISTENT_TTL_EXTEND_TO: u32 = 500_000;

/// An entry is extended as soon as it has lost a day of that lifetime.
pub const PERSISTENT_TTL_THRESHOLD: u32 = PERSISTENT_TTL_EXTEND_TO - DAY_LEDGERS;

/// Lifetime that a state-changing call gives the instance and its code.
pub const INSTANCE_TTL_EXTEND_TO: u32 = PERSISTENT_TTL_EXTEND_TO;

/// Remaining lifetime at or below which the instance is extended.
pub const INSTANCE_TTL_THRESHOLD: u32 = PERSISTENT_TTL_THRESHOLD;

/// A question's entry is kept live this long past its own refund deadline.
pub const REFUND_GRACE_LEDGERS: u32 = 7 * DAY_LEDGERS;

/// Stake has to sit bonded this long before it counts as matured.
pub const STAKE_WARMUP_LEDGERS: u32 = DAY_LEDGERS;

/// Floor on the unbonding delay.
pub const MIN_UNBONDING_LEDGERS: u32 = 3 * DAY_LEDGERS;

/// Largest page that `list_pending` returns.
pub const MAX_PENDING_PAGE: u32 = 100;

/// Upper bound on any question's refund window: seven days.
pub const MAX_TIMEOUT_LEDGERS: u32 = 120_960;

/// Largest `workers.len() + losing_workers.len()` that `resolve` accepts.
pub const MAX_QUORUM_SIZE: u32 = 64;

/// Ledgers between proposing an upgrade and the first ledger that may execute it.
pub const UPGRADE_DELAY_LEDGERS: u32 = MAX_TIMEOUT_LEDGERS + DAY_LEDGERS;

/// Reported by `version`.
pub const CONTRACT_VERSION: u32 = 1;

/// The exit window: an upgrade waits strictly longer than any refund window, and a
/// question cannot lapse from storage before its refund window opens.
pub proof fn delays_leave_an_exit()
    ensures
        MAX_TIMEOUT_LEDGERS < UPGRADE_DELAY_LEDGERS,
        MAX_TIMEOUT_LEDGERS < PERSISTENT_TTL_EXTEND_TO,
{
}

} // verus!
