//! Arithmetic on a worker's bond: warm-up, unbonding and slashing.
use crate::limits::{BPS_DENOM, SLASH_BPS, STAKE_WARMUP_LEDGERS};
use crate::types::StakeInfo;
use vstd::prelude::*;

verus! {

pub open spec fn min(a: int, b: int) -> int {
    if a < b {
        a
    } else {
        b
    }
}

impl StakeInfo {
    /// The bond of a worker who never staked.
    pub open spec fn none() -> StakeInfo {
        StakeInfo { settled: 0, warming: 0, warming_since: 0, unbonding: 0, unbonding_release_at: 0 }
    }

    /// No bucket is negative.
    pub open spec fn wf(self) -> bool {
        self.settled >= 0 && self.warming >= 0 && self.unbonding >= 0
    }

    /// What the worker has bonded and not asked to withdraw.
    pub open spec fn active(self) -> int {
        self.settled + self.warming
    }

    /// Everything that can still be slashed or returned.
    pub open spec fn total(self) -> int {
        self.settled + self.warming + self.unbonding
    }

    /// Whether the latest top-ups have been bonded for the whole warm-up period.
    pub open spec fn warmed_up(self, now: u32) -> bool {
        let since: int = self.warming_since + STAKE_WARMUP_LEDGERS;
        now >= (if since > u32::MAX {
            u32::MAX as int
        } else {
            since
        })
    }

    /// The bond as it stands at ledger `now`: matured top-ups count as settled.
    pub open spec fn rolled(self, now: u32) -> StakeInfo {
        if self.warming > 0 && self.warmed_up(now) {
            StakeInfo { settled: (self.settled + self.warming) as i128, warming: 0, ..self }
        } else {
            self
        }
    }

    /// Whether rolling stays within the number range.
    pub open spec fn roll_fits(self, now: u32) -> bool {
        self.warming > 0 && self.warmed_up(now) ==> self.active() <= i128::MAX
    }

    /// What one lost quorum costs: 5% of the slashable stake, but never more than `cap`.
    pub open spec fn slash_amount(self, cap: int) -> int {
        let due: int = min(min(self.total() * SLASH_BPS / BPS_DENOM as int, cap), self.total());
        if self.total() <= 0 || due <= 0 {
            0
        } else {
            due
        }
    }

    /// The bond after `amount` is taken, from warming first, then settled, then unbonding.
    pub open spec fn less(self, amount: int) -> StakeInfo {
        let from_warming: int = min(amount, self.warming as int);
        let from_settled: int = min(amount - from_warming, self.settled as int);
        let from_unbonding: int = min(amount - from_warming - from_settled, self.unbonding as int);
        StakeInfo {
            warming: (self.warming - from_warming) as i128,
            settled: (self.settled - from_settled) as i128,
            unbonding: (self.unbonding - from_unbonding) as i128,
            ..self
        }
    }

    /// The bond after `amount` leaves the active stake, from warming first.
    pub open spec fn unbonded(self, amount: int, release_at: u32) -> StakeInfo {
        let from_warming: int = min(amount, self.warming as int);
        StakeInfo {
            warming: (self.warming - from_warming) as i128,
            settled: (self.settled - (amount - from_warming)) as i128,
            unbonding: (self.unbonding + amount) as i128,
            unbonding_release_at: release_at,
            ..self
        }
    }

    pub(crate) fn roll(&self, now: u32) -> (info: StakeInfo)
        requires
            self.roll_fits(now),
            self.wf(),
        ensures
            info == self.rolled(now),
            info.wf(),
            info.active() == self.active(),
            info.total() == self.total(),
    {
        let mut info: StakeInfo = *self;
        if info.warming > 0 && now >= info.warming_since.saturating_add(STAKE_WARMUP_LEDGERS) {
            info.settled = info.settled + info.warming;
            info.warming = 0;
        }
        info
    }

    pub(crate) fn slash_due(&self, cap: i128) -> (amount: i128)
        requires
            self.wf(),
            self.total() * SLASH_BPS <= i128::MAX,
        ensures
            amount == self.slash_amount(cap as int),
            0 <= amount <= self.total(),
    {
        let slashable: i128 = self.settled + self.warming + self.unbonding;
        if slashable <= 0 {
            return 0;
        }
        let mut amount: i128 = slashable * SLASH_BPS / BPS_DENOM;
        if cap < amount {
            amount = cap;
        }
        if slashable < amount {
            amount = slashable;
        }
        if amount <= 0 {
            return 0;
        }
        amount
    }

    pub(crate) fn take(&self, amount: i128) -> (info: StakeInfo)
        requires
            self.wf(),
            0 <= amount <= self.total(),
        ensures
            info == self.less(amount as int),
            info.wf(),
            info.total() == self.total() - amount,
    {
        let mut info: StakeInfo = *self;
        let mut left: i128 = amount;
        let taken: i128 = if left < info.warming {
            left
        } else {
            info.warming
        };
        info.warming = info.warming - taken;
        left = left - taken;
        let taken: i128 = if left < info.settled {
            left
        } else {
            info.settled
        };
        info.settled = info.settled - taken;
        left = left - taken;
        let taken: i128 = if left < info.unbonding {
            left
        } else {
            info.unbonding
        };
        info.unbonding = info.unbonding - taken;
        info
    }
}

} // verus!
