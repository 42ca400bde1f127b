//! What resolving costs against what a network allows in one transaction.
use vstd::prelude::*;

verus! {

/// What an administrator who signs with address credentials adds to the footprint: the account
/// and a nonce entry.
pub const AUTH_EXTRA_FOOTPRINT_ENTRIES: u64 = 2;

/// Of these, the nonce entry is written.
pub const AUTH_EXTRA_WRITE_ENTRIES: u64 = 1;

/// An allowance for verifying that signature.
pub const AUTH_EXTRA_INSTRUCTIONS: u64 = 1_000_000;

/// A generous estimate of a transaction's size without its argument lists and footprint keys.
pub const TX_ENVELOPE_OVERHEAD_BYTES: u64 = 1_024;

/// Upper bound on the size of one footprint key.
pub const FOOTPRINT_KEY_BYTES: u64 = 128;

/// Size of an encoded question id.
pub const QUESTION_ID_BYTES: u64 = 12;

/// Per-transaction limits and cost model of one network.
pub struct Network {
    pub name: String,
    pub ledger: u64,
    pub protocol: u64,
    pub tx_max_instructions: u64,
    pub tx_memory_limit: u64,
    pub tx_max_footprint_entries: u64,
    pub tx_max_disk_read_entries: u64,
    pub tx_max_write_entries: u64,
    pub tx_max_disk_read_bytes: u64,
    pub tx_max_write_bytes: u64,
    pub tx_max_contract_events_size_bytes: u64,
    pub tx_max_size_bytes: u64,
    /// Constant and linear term per cost type.
    pub cpu_params: Vec<(u64, u64)>,
    pub mem_params: Vec<(u64, u64)>,
}

/// Whether the workers of a measurement already have a credit entry.
#[derive(Clone, Copy, PartialEq, Eq, Structural, Debug)]
pub enum Workers {
    New,
    Returning,
}

/// What one resolution cost.
#[derive(Clone, Copy, Debug)]
pub struct Measurement {
    pub workers: u32,
    pub losers: u32,
    pub kind: Workers,
    pub host_instructions: u64,
    pub mainnet_instructions: u64,
    pub host_mem_bytes: u64,
    pub mainnet_mem_bytes: u64,
    pub footprint_entries: u64,
    pub disk_read_entries: u64,
    pub write_entries: u64,
    pub disk_read_bytes: u64,
    pub write_bytes: u64,
    pub events_bytes: u64,
    pub tx_size_bytes: u64,
    /// The sum of the per-type counters that repricing works from.
    pub tracked_instructions: u64,
}

pub open spec fn larger(a: u64, b: u64) -> u64 {
    if a > b {
        a
    } else {
        b
    }
}

impl Measurement {
    /// Whether the allowances can be added.
    pub open spec fn fits(self) -> bool {
        &&& larger(self.host_instructions, self.mainnet_instructions) + AUTH_EXTRA_INSTRUCTIONS
            <= u64::MAX
        &&& self.footprint_entries + AUTH_EXTRA_FOOTPRINT_ENTRIES <= u64::MAX
        &&& self.write_entries + AUTH_EXTRA_WRITE_ENTRIES <= u64::MAX
    }

    /// What was used of each limited dimension, with the allowances added.
    pub open spec fn used(self) -> Seq<int> {
        seq![
            larger(self.host_instructions, self.mainnet_instructions) + AUTH_EXTRA_INSTRUCTIONS,
            larger(self.host_mem_bytes, self.mainnet_mem_bytes) as int,
            self.footprint_entries + AUTH_EXTRA_FOOTPRINT_ENTRIES,
            self.disk_read_entries as int,
            self.write_entries + AUTH_EXTRA_WRITE_ENTRIES,
            self.disk_read_bytes as int,
            self.write_bytes as int,
            self.events_bytes as int,
            self.tx_size_bytes as int,
        ]
    }

    /// Each limited dimension as name, use and limit, with the unmetered allowances added.
    pub fn usage(&self, n: &Network) -> (rows: [(&'static str, u64, u64); 9])
        requires
            self.fits(),
        ensures
            forall|i: int| 0 <= i < 9 ==> (#[trigger] rows@[i]).0@ == dimensions()[i],
            forall|i: int| 0 <= i < 9 ==> (#[trigger] rows@[i]).1 == self.used()[i],
            forall|i: int| 0 <= i < 9 ==> (#[trigger] rows@[i]).2 == n.limits()[i],
    {
        let instructions: u64 = if self.host_instructions > self.mainnet_instructions {
            self.host_instructions
        } else {
            self.mainnet_instructions
        };
        let memory: u64 = if self.host_mem_bytes > self.mainnet_mem_bytes {
            self.host_mem_bytes
        } else {
            self.mainnet_mem_bytes
        };
        [
            ("instructions", instructions + AUTH_EXTRA_INSTRUCTIONS, n.tx_max_instructions),
            ("memory", memory, n.tx_memory_limit),
            (
                "footprint entries",
                self.footprint_entries + AUTH_EXTRA_FOOTPRINT_ENTRIES,
                n.tx_max_footprint_entries,
            ),
            ("disk read entries", self.disk_read_entries, n.tx_max_disk_read_entries),
            (
                "write entries",
                self.write_entries + AUTH_EXTRA_WRITE_ENTRIES,
                n.tx_max_write_entries,
            ),
            ("disk read bytes", self.disk_read_bytes, n.tx_max_disk_read_bytes),
            ("write bytes", self.write_bytes, n.tx_max_write_bytes),
            ("event bytes", self.events_bytes, n.tx_max_contract_events_size_bytes),
            ("tx size (est.)", self.tx_size_bytes, n.tx_max_size_bytes),
        ]
    }

    /// The most constrained dimension, the first one if several are. A dimension that is neither
    /// used nor limited does not count.
    pub fn binding(&self, n: &Network) -> (row: (&'static str, u64, u64))
        requires
            self.fits(),
        ensures
            exists|i: int|
                {
                    &&& 0 <= i < 9
                    &&& row.0@ == dimensions()[i]
                    &&& row.1 == #[trigger] self.used()[i]
                    &&& row.2 == n.limits()[i]
                    &&& forall|j: int|
                        #![trigger self.used()[j]]
                        0 <= j < 9 ==> !tighter((self.used()[j] as u64, n.limits()[j]), (row.1, row.2))
                    &&& forall|j: int|
                        #![trigger self.used()[j]]
                        0 <= j < i ==> tighter((row.1, row.2), (self.used()[j] as u64, n.limits()[j]))
                            || self.used()[j] == 0 && n.limits()[j] == 0
                },
    {
        let rows: [(&'static str, u64, u64); 9] = self.usage(n);
        let best: usize = tightest(rows.as_slice());
        proof {
            assert forall|j: int| 0 <= j < 9 implies !tighter(
                (#[trigger] self.used()[j] as u64, n.limits()[j]),
                (rows@[best as int].1, rows@[best as int].2),
            ) by {
                assert(rows@[j].1 == self.used()[j]);
            }
            assert forall|j: int| 0 <= j < best implies tighter(
                (rows@[best as int].1, rows@[best as int].2),
                (#[trigger] self.used()[j] as u64, n.limits()[j]),
            ) || self.used()[j] == 0 && n.limits()[j] == 0 by {
                assert(rows@[j].1 == self.used()[j]);
            }
            assert(rows@[best as int].1 == self.used()[best as int]);
        }
        rows[best]
    }
}

/// Whether no row is more constrained than the one at `best`, and every earlier one is less, or
/// neither used nor limited.
pub open spec fn is_tightest(rows: Seq<(&'static str, u64, u64)>, best: int) -> bool {
    &&& 0 <= best < rows.len()
    &&& forall|j: int|
        0 <= j < rows.len() ==> !tighter(
            ((#[trigger] rows[j]).1, rows[j].2),
            (rows[best].1, rows[best].2),
        )
    &&& forall|j: int|
        0 <= j < best ==> tighter(
            (rows[best].1, rows[best].2),
            ((#[trigger] rows[j]).1, rows[j].2),
        ) || rows[j].1 == 0 && rows[j].2 == 0
}

/// The most constrained of several rows of name, use and limit: the worst of one measurement's
/// dimensions, or of several measurements.
pub fn tightest(rows: &[(&'static str, u64, u64)]) -> (best: usize)
    requires
        rows@.len() > 0,
    ensures
        is_tightest(rows@, best as int),
{
    let mut best: usize = 0;
    let mut i: usize = 1;
    while i < rows.len()
        invariant
            best < i <= rows.len(),
            is_tightest(rows@.take(i as int), best as int),
        decreases rows.len() - i,
    {
        let ghost seen = rows@.take(i as int);
        let ghost more = rows@.take(i + 1);
        let (used, limit): (u64, u64) = (rows[i].1, rows[i].2);
        let (best_used, best_limit): (u64, u64) = (rows[best].1, rows[best].2);
        assert(used * best_limit <= u64::MAX * u64::MAX) by (nonlinear_arith)
            requires
                used <= u64::MAX,
                best_limit <= u64::MAX,
        ;
        assert(best_used * limit <= u64::MAX * u64::MAX) by (nonlinear_arith)
            requires
                best_used <= u64::MAX,
                limit <= u64::MAX,
        ;
        if used as u128 * best_limit as u128 > best_used as u128 * limit as u128 {
            proof {
                assert forall|j: int| 0 <= j < i implies (tighter(
                    (used, limit),
                    ((#[trigger] more[j]).1, more[j].2),
                ) || more[j].1 == 0 && more[j].2 == 0) && !tighter(
                    (more[j].1, more[j].2),
                    (used, limit),
                ) by {
                    assert(more[j] == seen[j]);
                    tightness_is_an_order(
                        (more[j].1, more[j].2),
                        (best_used, best_limit),
                        (used, limit),
                    );
                    if more[j].1 > 0 || more[j].2 > 0 {
                        tightness_is_strict(
                            (more[j].1, more[j].2),
                            (best_used, best_limit),
                            (used, limit),
                        );
                    }
                }
            }
            best = i;
        } else {
            proof {
                assert forall|j: int| 0 <= j < more.len() implies !tighter(
                    ((#[trigger] more[j]).1, more[j].2),
                    (best_used, best_limit),
                ) by {
                    if j < i {
                        assert(more[j] == seen[j]);
                    }
                }
                assert forall|j: int| 0 <= j < best implies tighter(
                    (best_used, best_limit),
                    ((#[trigger] more[j]).1, more[j].2),
                ) || more[j].1 == 0 && more[j].2 == 0 by {
                    assert(more[j] == seen[j]);
                }
            }
        }
        i = i + 1;
    }
    assert(rows@.take(i as int) == rows@);
    best
}

/// Whether dimension `a` is more constrained than `b`, as exact fractions of their limits.
pub open spec fn tighter(a: (u64, u64), b: (u64, u64)) -> bool {
    a.0 * b.1 > b.0 * a.1
}

/// If `b` is at least as constrained as `a`, and `c` more so than `b`, then `c` is at least as
/// constrained as `a`.
proof fn tightness_is_an_order(a: (u64, u64), b: (u64, u64), c: (u64, u64))
    requires
        !tighter(a, b),
        tighter(c, b),
    ensures
        !tighter(a, c),
{
    let (a0, a1, b0, b1, c0, c1) = (
        a.0 as int,
        a.1 as int,
        b.0 as int,
        b.1 as int,
        c.0 as int,
        c.1 as int,
    );
    assert(a0 * c1 <= c0 * a1) by (nonlinear_arith)
        requires
            0 <= a0,
            0 <= a1,
            0 <= b0,
            0 <= b1,
            0 <= c0,
            0 <= c1,
            a0 * b1 <= b0 * a1,
            c0 * b1 > b0 * c1,
    {
        assert(b1 > 0);
        assert((a0 * b1) * c1 <= (b0 * a1) * c1);
        assert((b0 * c1) * a1 <= (c0 * b1) * a1);
        assert((a0 * c1) * b1 <= (c0 * a1) * b1);
    }
}

/// More constrained than something at least as constrained is more constrained.
proof fn tightness_is_strict(a: (u64, u64), b: (u64, u64), c: (u64, u64))
    requires
        !tighter(a, b),
        tighter(c, b),
        a.0 > 0 || a.1 > 0,
    ensures
        tighter(c, a),
{
    let (a0, a1, b0, b1, c0, c1) = (
        a.0 as int,
        a.1 as int,
        b.0 as int,
        b.1 as int,
        c.0 as int,
        c.1 as int,
    );
    assert(c0 * a1 > a0 * c1) by (nonlinear_arith)
        requires
            0 <= a0,
            0 <= a1,
            0 <= b0,
            0 <= b1,
            0 <= c0,
            0 <= c1,
            a0 > 0 || a1 > 0,
            a0 * b1 <= b0 * a1,
            c0 * b1 > b0 * c1,
    {
        assert(b1 > 0);
        assert(a1 > 0);
        assert((a0 * b1) * c1 <= (b0 * a1) * c1);
        assert((b0 * c1) * a1 < (c0 * b1) * a1);
        assert((a0 * c1) * b1 < (c0 * a1) * b1);
    }
}

/// The limited dimensions.
pub open spec fn dimensions() -> Seq<Seq<char>> {
    seq![
        "instructions"@,
        "memory"@,
        "footprint entries"@,
        "disk read entries"@,
        "write entries"@,
        "disk read bytes"@,
        "write bytes"@,
        "event bytes"@,
        "tx size (est.)"@,
    ]
}

impl Network {
    /// The limit of each dimension.
    pub open spec fn limits(self) -> Seq<u64> {
        seq![
            self.tx_max_instructions,
            self.tx_memory_limit,
            self.tx_max_footprint_entries,
            self.tx_max_disk_read_entries,
            self.tx_max_write_entries,
            self.tx_max_disk_read_bytes,
            self.tx_max_write_bytes,
            self.tx_max_contract_events_size_bytes,
            self.tx_max_size_bytes,
        ]
    }
}

/// The splits of a quorum worth measuring.
pub open spec fn worst_splits(total: u32) -> Seq<(u32, u32)> {
    if total > 1 {
        seq![
            (total, 0u32),
            (1u32, (total - 1) as u32),
            (((total + 1) / 2) as u32, (total / 2) as u32),
        ]
    } else {
        seq![(total, 0u32)]
    }
}

/// The splits of a quorum worth measuring: all matching, all losing but one, and an even split.
/// Cost is linear in each list and the check for duplicates looks at every pair whatever the
/// split, so these bound every other.
pub fn splits(total: u32) -> (out: Vec<(u32, u32)>)
    ensures
        out@ == worst_splits(total),
{
    let mut out: Vec<(u32, u32)> = Vec::new();
    out.push((total, 0));
    if total > 1 {
        out.push((1, total - 1));
        out.push((total / 2 + total % 2, total / 2));
    }
    out
}

/// Every split adds up to the whole quorum, and every one of them has a worker to pay.
pub proof fn splits_add_up(total: u32, i: int)
    requires
        0 <= i < worst_splits(total).len(),
    ensures
        worst_splits(total)[i].0 + worst_splits(total)[i].1 == total,
        total > 0 ==> worst_splits(total)[i].0 > 0,
{
}

/// What one cost type contributes: `iterations` times the constant term, plus the linear term
/// over the input, a fixed-point number with seven fractional bits.
pub open spec fn priced(metered: (u64, u64), params: (u64, u64)) -> int {
    params.0 * metered.0 + params.1 * metered.1 / 128
}

/// What the first `n` cost types contribute.
pub open spec fn priced_up_to(metered: Seq<(u64, u64)>, params: Seq<(u64, u64)>, n: int) -> int
    decreases n,
{
    if n <= 0 {
        0
    } else {
        priced_up_to(metered, params, n - 1) + (if metered[n - 1].0 == 0 {
            0
        } else {
            priced(metered[n - 1], params[n - 1])
        })
    }
}

/// Prices what was metered, as iterations and input per cost type, with a network's parameters.
pub fn reprice(metered: &Vec<(u64, u64)>, params: &Vec<(u64, u64)>) -> (total: u64)
    requires
        priceable(metered@, params@),
    ensures
        total == priced_up_to(metered@, params@, metered.len() as int),
{
    let mut total: u64 = 0;
    let mut i: usize = 0;
    while i < metered.len()
        invariant
            0 <= i <= metered.len(),
            priceable(metered@, params@),
            total == priced_up_to(metered@, params@, i as int),
        decreases metered.len() - i,
    {
        proof {
            prices_only_add(metered@, params@, i + 1, metered.len() as int);
            prices_only_add(metered@, params@, i as int, i + 1);
        }
        let (iterations, inputs): (u64, u64) = metered[i];
        if iterations != 0 {
            let (const_term, linear_term): (u64, u64) = params[i];
            assert(const_term * iterations >= 0) by (nonlinear_arith);
            assert(linear_term * inputs >= 0) by (nonlinear_arith);
            total = total + (const_term * iterations + linear_term * inputs / 128);
        }
        i = i + 1;
    }
    total
}

/// The same as `reprice`, but for a price out of range, or without parameters, there is none.
pub fn try_reprice(metered: &Vec<(u64, u64)>, params: &Vec<(u64, u64)>) -> (total: Option<u64>)
    ensures
        total is Some <==> priceable(metered@, params@),
        total is Some ==> total->0 == priced_up_to(metered@, params@, metered.len() as int),
{
    let mut total: u64 = 0;
    let mut i: usize = 0;
    while i < metered.len()
        invariant
            0 <= i <= metered.len(),
            total == priced_up_to(metered@, params@, i as int),
            forall|j: int|
                0 <= j < i && (#[trigger] metered@[j]).0 != 0 ==> j < params.len() && params@[j].1
                    * metered@[j].1 <= u64::MAX,
        decreases metered.len() - i,
    {
        proof {
            prices_only_add(metered@, params@, i + 1, metered.len() as int);
            prices_only_add(metered@, params@, i as int, i + 1);
        }
        let (iterations, inputs): (u64, u64) = metered[i];
        if iterations != 0 {
            if i >= params.len() {
                return None;
            }
            let (const_term, linear_term): (u64, u64) = params[i];
            assert(const_term * iterations >= 0) by (nonlinear_arith);
            assert(linear_term * inputs >= 0) by (nonlinear_arith);
            let linear: u64 = match linear_term.checked_mul(inputs) {
                Some(product) => product / 128,
                None => {
                    return None;
                },
            };
            let constant: u64 = match const_term.checked_mul(iterations) {
                Some(product) => product,
                None => {
                    return None;
                },
            };
            let price: u64 = match constant.checked_add(linear) {
                Some(sum) => sum,
                None => {
                    return None;
                },
            };
            total = match total.checked_add(price) {
                Some(sum) => sum,
                None => {
                    return None;
                },
            };
        }
        i = i + 1;
    }
    Some(total)
}

/// More cost types never cost less.
proof fn prices_only_add(metered: Seq<(u64, u64)>, params: Seq<(u64, u64)>, n: int, m: int)
    requires
        0 <= n <= m,
    ensures
        0 <= priced_up_to(metered, params, n) <= priced_up_to(metered, params, m),
    decreases m,
{
    if m > 0 {
        assert(params[m - 1].0 * metered[m - 1].0 >= 0) by (nonlinear_arith);
        assert(params[m - 1].1 * metered[m - 1].1 >= 0) by (nonlinear_arith);
        prices_only_add(metered, params, if n < m { n } else { n - 1 }, m - 1);
    }
}

/// Estimated size of a resolving transaction: the arguments count twice, once in the operation
/// and once in the administrator's authorization.
pub open spec fn estimated_size(
    workers_bytes: u64,
    losers_bytes: u64,
    footprint_entries: u64,
) -> int {
    TX_ENVELOPE_OVERHEAD_BYTES + 2 * (QUESTION_ID_BYTES + workers_bytes + losers_bytes)
        + FOOTPRINT_KEY_BYTES * (footprint_entries + AUTH_EXTRA_FOOTPRINT_ENTRIES)
}

pub fn tx_size(workers_bytes: u64, losers_bytes: u64, footprint_entries: u64) -> (bytes: u64)
    requires
        estimated_size(workers_bytes, losers_bytes, footprint_entries) <= u64::MAX,
    ensures
        bytes == estimated_size(workers_bytes, losers_bytes, footprint_entries),
{
    let args_bytes: u64 = QUESTION_ID_BYTES + workers_bytes + losers_bytes;
    TX_ENVELOPE_OVERHEAD_BYTES + 2 * args_bytes + FOOTPRINT_KEY_BYTES * (footprint_entries
        + AUTH_EXTRA_FOOTPRINT_ENTRIES)
}

/// Whether more than half of a limit is used. The other half is headroom for what a measurement
/// cannot see.
pub fn over_margin(used: u64, limit: u64) -> (over: bool)
    ensures
        over == (2 * used > limit),
{
    used > limit / 2
}

/// A search for the largest quorum size that stays within a bound, by halving: sizes up to `lo`
/// are known to, sizes above `hi` are known not to.
#[derive(Clone, Copy, PartialEq, Eq, Structural, Debug)]
pub struct Search {
    pub lo: u32,
    pub hi: u32,
}

impl Search {
    /// The next size to measure, or nothing if the answer is `lo`.
    pub fn probe(&self) -> (size: Option<u32>)
        ensures
            size is None <==> self.lo >= self.hi,
            size is Some ==> self.lo < size->0 <= self.hi,
            size is Some ==> size->0 == self.lo + (self.hi - self.lo + 1) / 2,
    {
        if self.lo < self.hi {
            let gap: u32 = self.hi - self.lo;
            Some(self.lo + (gap / 2 + gap % 2))
        } else {
            None
        }
    }

    /// Takes note of whether the probed size stayed within the bound.
    pub fn report(&mut self, size: u32, within: bool)
        requires
            old(self).lo < size <= old(self).hi,
        ensures
            *final(self) == (if within {
                Search { lo: size, hi: old(self).hi }
            } else {
                Search { lo: old(self).lo, hi: (size - 1) as u32 }
            }),
            final(self).hi - final(self).lo < old(self).hi - old(self).lo,
    {
        if within {
            self.lo = size;
        } else {
            self.hi = size - 1;
        }
    }
}

/// The search finds the answer: if a size stays within the bound exactly when it is at most
/// `answer`, that answer never leaves the range, and the range ends there.
pub proof fn a_search_closes_in(search: Search, size: u32, answer: u32)
    requires
        search.lo <= answer <= search.hi,
        search.lo < size <= search.hi,
    ensures
        size <= answer ==> size <= answer <= search.hi,
        size > answer ==> search.lo <= answer <= size - 1,
        search.lo == search.hi ==> answer == search.lo,
{
}

/// What the host metered of one resolution.
#[derive(Debug)]
pub struct Metered {
    pub instructions: u64,
    pub mem_bytes: u64,
    pub disk_read_entries: u32,
    pub memory_read_entries: u32,
    pub write_entries: u32,
    pub disk_read_bytes: u32,
    pub write_bytes: u32,
    pub contract_events_size_bytes: u32,
    /// Iterations and input per cost type.
    pub counters: Vec<(u64, u64)>,
    /// Instructions per cost type.
    pub cpu: Vec<u64>,
    /// Encoded size of each list of the call.
    pub workers_bytes: u64,
    pub losers_bytes: u64,
}

/// The sum of the first `n` numbers.
pub open spec fn sum_up_to(list: Seq<u64>, n: int) -> int
    decreases n,
{
    if n <= 0 {
        0
    } else {
        sum_up_to(list, n - 1) + list[n - 1]
    }
}

proof fn sums_only_add(list: Seq<u64>, n: int, m: int)
    requires
        0 <= n <= m,
    ensures
        0 <= sum_up_to(list, n) <= sum_up_to(list, m),
    decreases m,
{
    if m > 0 {
        sums_only_add(
            list,
            if n < m {
                n
            } else {
                n - 1
            },
            m - 1,
        );
    }
}

/// Whether a network's cost terms cover everything that was metered, within the number range.
pub open spec fn priceable(metered: Seq<(u64, u64)>, params: Seq<(u64, u64)>) -> bool {
    &&& forall|i: int|
        0 <= i < metered.len() && (#[trigger] metered[i]).0 != 0 ==> i < params.len()
            && params[i].1 * metered[i].1 <= u64::MAX
    &&& priced_up_to(metered, params, metered.len() as int) <= u64::MAX
}

impl Metered {
    /// Whether the figures can be put together for a network.
    pub open spec fn fits(self, n: Network) -> bool {
        &&& priceable(self.counters@, n.cpu_params@)
        &&& priceable(self.counters@, n.mem_params@)
        &&& self.disk_read_entries + self.memory_read_entries <= u32::MAX
        &&& sum_up_to(self.cpu@, self.cpu.len() as int) <= u64::MAX
        &&& estimated_size(
            self.workers_bytes,
            self.losers_bytes,
            (self.disk_read_entries + self.memory_read_entries) as u64,
        ) <= u64::MAX
    }

    /// Whether the figures can be put together for a network.
    pub fn in_range(&self, n: &Network) -> (in_range: bool)
        ensures
            in_range == self.fits(*n),
    {
        if try_reprice(&self.counters, &n.cpu_params).is_none() {
            return false;
        }
        if try_reprice(&self.counters, &n.mem_params).is_none() {
            return false;
        }
        let read: u32 = match self.disk_read_entries.checked_add(self.memory_read_entries) {
            Some(read) => read,
            None => {
                return false;
            },
        };
        let mut spent: u64 = 0;
        let mut i: usize = 0;
        while i < self.cpu.len()
            invariant
                0 <= i <= self.cpu.len(),
                spent == sum_up_to(self.cpu@, i as int),
            decreases self.cpu.len() - i,
        {
            proof {
                sums_only_add(self.cpu@, i + 1, self.cpu.len() as int);
            }
            spent = match spent.checked_add(self.cpu[i]) {
                Some(sum) => sum,
                None => {
                    return false;
                },
            };
            i = i + 1;
        }
        let args: u128 = QUESTION_ID_BYTES as u128 + self.workers_bytes as u128
            + self.losers_bytes as u128;
        let keys: u64 = FOOTPRINT_KEY_BYTES * (read as u64 + AUTH_EXTRA_FOOTPRINT_ENTRIES);
        let size: u128 = TX_ENVELOPE_OVERHEAD_BYTES as u128 + 2 * args + keys as u128;
        size <= u64::MAX as u128
    }
}

impl Measurement {
    /// Whether this is what one resolution cost: as the host metered it, and as the network would
    /// price it.
    pub open spec fn is_of(
        self,
        workers: u32,
        losers: u32,
        kind: Workers,
        metered: Metered,
        n: Network,
    ) -> bool {
        &&& self.workers == workers
        &&& self.losers == losers
        &&& self.kind == kind
        &&& self.host_instructions == metered.instructions
        &&& self.host_mem_bytes == metered.mem_bytes
        &&& self.mainnet_instructions == priced_up_to(
            metered.counters@,
            n.cpu_params@,
            metered.counters.len() as int,
        )
        &&& self.mainnet_mem_bytes == priced_up_to(
            metered.counters@,
            n.mem_params@,
            metered.counters.len() as int,
        )
        &&& self.footprint_entries == metered.disk_read_entries + metered.memory_read_entries
        &&& self.disk_read_entries == metered.disk_read_entries
        &&& self.write_entries == metered.write_entries
        &&& self.disk_read_bytes == metered.disk_read_bytes
        &&& self.write_bytes == metered.write_bytes
        &&& self.events_bytes == metered.contract_events_size_bytes
        &&& self.tx_size_bytes == estimated_size(
            metered.workers_bytes,
            metered.losers_bytes,
            self.footprint_entries,
        )
        &&& self.tracked_instructions == sum_up_to(metered.cpu@, metered.cpu.len() as int)
    }

    /// The same as `new`, but where the figures cannot be put together there is no measurement.
    pub fn checked(
        workers: u32,
        losers: u32,
        kind: Workers,
        metered: &Metered,
        n: &Network,
    ) -> (m: Option<Measurement>)
        ensures
            m is Some <==> metered.fits(*n),
            m is Some ==> m->0.is_of(workers, losers, kind, *metered, *n),
    {
        if metered.in_range(n) {
            Some(Self::new(workers, losers, kind, metered, n))
        } else {
            None
        }
    }

    /// Puts together what one resolution cost: as the host metered it, and as the network would
    /// price it.
    pub fn new(workers: u32, losers: u32, kind: Workers, metered: &Metered, n: &Network) -> (m:
        Measurement)
        requires
            metered.fits(*n),
        ensures
            m.is_of(workers, losers, kind, *metered, *n),
    {
        let read: u32 = metered.disk_read_entries + metered.memory_read_entries;
        let footprint_entries: u64 = read as u64;
        let mut tracked_instructions: u64 = 0;
        let mut i: usize = 0;
        while i < metered.cpu.len()
            invariant
                0 <= i <= metered.cpu.len(),
                tracked_instructions == sum_up_to(metered.cpu@, i as int),
                sum_up_to(metered.cpu@, metered.cpu.len() as int) <= u64::MAX,
            decreases metered.cpu.len() - i,
        {
            proof {
                sums_only_add(metered.cpu@, i + 1, metered.cpu.len() as int);
            }
            tracked_instructions = tracked_instructions + metered.cpu[i];
            i = i + 1;
        }
        Measurement {
            workers,
            losers,
            kind,
            host_instructions: metered.instructions,
            mainnet_instructions: reprice(&metered.counters, &n.cpu_params),
            host_mem_bytes: metered.mem_bytes,
            mainnet_mem_bytes: reprice(&metered.counters, &n.mem_params),
            footprint_entries,
            disk_read_entries: metered.disk_read_entries as u64,
            write_entries: metered.write_entries as u64,
            disk_read_bytes: metered.disk_read_bytes as u64,
            write_bytes: metered.write_bytes as u64,
            events_bytes: metered.contract_events_size_bytes as u64,
            tx_size_bytes: tx_size(metered.workers_bytes, metered.losers_bytes, footprint_entries),
            tracked_instructions,
        }
    }
}

/// The size estimate grows by two bytes per byte of either list and by 128 per footprint entry, on
/// top of what an empty call takes.
pub proof fn sizes_grow_with_the_call(workers_bytes: u64, losers_bytes: u64, entries: u64)
    ensures
        estimated_size(workers_bytes, losers_bytes, entries) == 1_304 + 2 * workers_bytes + 2
            * losers_bytes + 128 * entries,
{
}

/// What one cost type adds to a price: nothing if it was not used; otherwise the constant term per
/// iteration and a 128th of the linear term per input, rounded down once.
pub proof fn each_cost_type_adds_its_price(
    metered: Seq<(u64, u64)>,
    params: Seq<(u64, u64)>,
    k: int,
)
    requires
        0 <= k,
    ensures
        priced_up_to(metered, params, 0) == 0,
        ({
            let added = priced_up_to(metered, params, k + 1) - priced_up_to(metered, params, k);
            let exact = 128 * (params[k].0 * metered[k].0) + params[k].1 * metered[k].1;
            &&& metered[k].0 == 0 ==> added == 0
            &&& metered[k].0 != 0 ==> 128 * added <= exact < 128 * added + 128
        }),
{
}

/// The dimensions in their order, each with its use and its limit: whichever of the two figures for
/// instructions and memory is larger counts, and what signing adds is added.
pub proof fn each_dimension_has_its_figures(m: Measurement, n: Network)
    ensures
        m.used().len() == 9,
        n.limits().len() == 9,
        m.used()[0] == m.host_instructions + 1_000_000 || m.used()[0] == m.mainnet_instructions
            + 1_000_000,
        m.used()[0] >= m.host_instructions + 1_000_000,
        m.used()[0] >= m.mainnet_instructions + 1_000_000,
        m.used()[1] == m.host_mem_bytes || m.used()[1] == m.mainnet_mem_bytes,
        m.used()[1] >= m.host_mem_bytes && m.used()[1] >= m.mainnet_mem_bytes,
        m.used()[2] - m.footprint_entries == 2,
        m.used()[4] - m.write_entries == 1,
        m.used()[3] == m.disk_read_entries && m.used()[5] == m.disk_read_bytes,
        m.used()[6] == m.write_bytes && m.used()[7] == m.events_bytes,
        m.used()[8] == m.tx_size_bytes,
        n.limits()[0] == n.tx_max_instructions && n.limits()[1] == n.tx_memory_limit,
        n.limits()[2] == n.tx_max_footprint_entries,
        n.limits()[3] == n.tx_max_disk_read_entries && n.limits()[4] == n.tx_max_write_entries,
        n.limits()[5] == n.tx_max_disk_read_bytes && n.limits()[6] == n.tx_max_write_bytes,
        n.limits()[7] == n.tx_max_contract_events_size_bytes,
        n.limits()[8] == n.tx_max_size_bytes,
{
}

/// How tightness compares: of two uses of one limit the larger is tighter, of two limits for one
/// use the smaller is; nothing is tighter than itself or than what it is loosened to by scaling.
pub proof fn tightness_compares_fractions(used: u64, more: u64, limit: u64, wider: u64)
    requires
        used < more,
        0 < limit < wider,
    ensures
        tighter((more, limit), (used, limit)),
        !tighter((used, limit), (more, limit)),
        used > 0 ==> tighter((used, limit), (used, wider)),
        !tighter((used, wider), (used, limit)),
        !tighter((used, limit), (used, limit)),
        tighter((used, 0), (used, limit)) <==> used > 0,
{
    let (u, m, l, w) = (used as int, more as int, limit as int, wider as int);
    assert(m * l > u * l) by (nonlinear_arith)
        requires
            u < m,
            0 < l,
    ;
    assert(u * w >= u * l) by (nonlinear_arith)
        requires
            0 <= u,
            l < w,
    ;
    if used > 0 {
        assert(u * w > u * l) by (nonlinear_arith)
            requires
                0 < u,
                l < w,
        ;
        assert(u * l > 0) by (nonlinear_arith)
            requires
                0 < u,
                0 < l,
        ;
    }
    assert(u * 0 == 0 && 0 * l == 0) by (nonlinear_arith);
}

/// The splits worth measuring are the whole quorum matching, one against all the others, and the
/// most even one, which leans to the matching side.
pub proof fn splits_cover_the_extremes(total: u32)
    ensures
        worst_splits(total)[0] == (total, 0u32),
        total <= 1 ==> worst_splits(total).len() == 1,
        total > 1 ==> {
            &&& worst_splits(total).len() == 3
            &&& worst_splits(total)[1].0 == 1
            &&& 0 <= worst_splits(total)[2].0 - worst_splits(total)[2].1 <= 1
        },
{
}

/// A measurement takes the metered figures over one by one.
pub proof fn a_measurement_takes_the_figures_over(
    m: Measurement,
    workers: u32,
    losers: u32,
    kind: Workers,
    metered: Metered,
    n: Network,
)
    requires
        m.is_of(workers, losers, kind, metered, n),
    ensures
        m.workers == workers && m.losers == losers && m.kind == kind,
        m.host_instructions == metered.instructions && m.host_mem_bytes == metered.mem_bytes,
        m.disk_read_entries == metered.disk_read_entries && m.write_entries
            == metered.write_entries,
        m.disk_read_bytes == metered.disk_read_bytes && m.write_bytes == metered.write_bytes,
        m.events_bytes == metered.contract_events_size_bytes,
        m.footprint_entries - metered.disk_read_entries == metered.memory_read_entries,
        m.tx_size_bytes == 1_304 + 2 * metered.workers_bytes + 2 * metered.losers_bytes + 128
            * m.footprint_entries,
        m.mainnet_instructions == priced_up_to(
            metered.counters@,
            n.cpu_params@,
            metered.counters.len() as int,
        ),
        m.mainnet_mem_bytes == priced_up_to(
            metered.counters@,
            n.mem_params@,
            metered.counters.len() as int,
        ),
        metered.cpu.len() == 0 ==> m.tracked_instructions == 0,
        metered.cpu.len() > 0 ==> m.tracked_instructions - metered.cpu@.last() == sum_up_to(
            metered.cpu@.drop_last(),
            metered.cpu.len() - 1,
        ),
{
    if metered.cpu.len() > 0 {
        same_prefix_same_sum(metered.cpu@, metered.cpu@.drop_last(), metered.cpu.len() - 1);
    }
}

proof fn same_prefix_same_sum(a: Seq<u64>, b: Seq<u64>, n: int)
    requires
        0 <= n <= a.len(),
        n <= b.len(),
        forall|i: int| 0 <= i < n ==> #[trigger] a[i] == b[i],
    ensures
        sum_up_to(a, n) == sum_up_to(b, n),
    decreases n,
{
    if n > 0 {
        same_prefix_same_sum(a, b, n - 1);
    }
}

/// A price is refused only for a cost type that was used and has no terms, for an input that cannot
/// be multiplied, or for a total out of range.
pub proof fn when_there_is_a_price(metered: Seq<(u64, u64)>, params: Seq<(u64, u64)>)
    requires
        metered.len() <= params.len(),
        forall|i: int|
            0 <= i < metered.len() ==> (#[trigger] metered[i]).0 == 0 || params[i].1 * metered[i].1
                <= u64::MAX,
        priced_up_to(metered, params, metered.len() as int) <= u64::MAX,
    ensures
        priceable(metered, params),
{
}

/// Nor is a measurement refused but for that, or for sums out of range.
pub proof fn when_there_is_a_measurement(metered: Metered, n: Network)
    requires
        priceable(metered.counters@, n.cpu_params@),
        priceable(metered.counters@, n.mem_params@),
        metered.disk_read_entries + metered.memory_read_entries <= u32::MAX,
        sum_up_to(metered.cpu@, metered.cpu.len() as int) <= u64::MAX,
        1_304 + 2 * metered.workers_bytes + 2 * metered.losers_bytes + 128 * (
        metered.disk_read_entries + metered.memory_read_entries) <= u64::MAX,
    ensures
        metered.fits(n),
{
}

} // verus!
