//! Sums over the values of a finite map.
use vstd::prelude::*;

verus! {

/// The sum of `f` over the values of `m`.
pub open spec fn sum_of<V>(m: Map<u64, V>, f: spec_fn(V) -> int) -> int
    decreases m.dom().len(),
    when m.dom().finite()
{
    if m.dom().len() == 0 {
        0
    } else {
        let k = m.dom().choose();
        f(m[k]) + sum_of(m.remove(k), f)
    }
}

/// The value at `k` can be counted first, whichever key is picked.
pub proof fn sum_splits<V>(m: Map<u64, V>, f: spec_fn(V) -> int, k: u64)
    requires
        m.dom().finite(),
        m.contains_key(k),
    ensures
        sum_of(m, f) == f(m[k]) + sum_of(m.remove(k), f),
    decreases m.dom().len(),
{
    let c = m.dom().choose();
    if c != k {
        sum_splits(m.remove(c), f, k);
        sum_splits(m.remove(k), f, c);
        assert(m.remove(c).remove(k) == m.remove(k).remove(c));
    }
}

/// Writing one entry changes the sum by that entry alone.
pub broadcast proof fn sum_after_insert<V>(m: Map<u64, V>, f: spec_fn(V) -> int, k: u64, v: V)
    requires
        m.dom().finite(),
    ensures
        #[trigger] sum_of(m.insert(k, v), f) == sum_of(m, f) + f(v) - (if m.contains_key(k) {
            f(m[k])
        } else {
            0
        }),
{
    sum_splits(m.insert(k, v), f, k);
    if m.contains_key(k) {
        sum_splits(m, f, k);
        assert(m.insert(k, v).remove(k) == m.remove(k));
    } else {
        assert(m.insert(k, v).remove(k) == m);
    }
}

/// If no summand is negative, neither is the sum, and no summand exceeds it.
pub proof fn sum_dominates<V>(m: Map<u64, V>, f: spec_fn(V) -> int)
    requires
        m.dom().finite(),
        forall|k: u64| #[trigger] m.contains_key(k) ==> f(m[k]) >= 0,
    ensures
        sum_of(m, f) >= 0,
        forall|k: u64| #[trigger] m.contains_key(k) ==> f(m[k]) <= sum_of(m, f),
    decreases m.dom().len(),
{
    if m.dom().len() > 0 {
        let c = m.dom().choose();
        let rest = m.remove(c);
        assert forall|k: u64| #[trigger] rest.contains_key(k) implies f(rest[k]) >= 0 by {
            assert(m.contains_key(k));
        }
        sum_dominates(rest, f);
        assert(m.contains_key(c));
        assert forall|k: u64| #[trigger] m.contains_key(k) implies f(m[k]) <= sum_of(m, f) by {
            if k != c {
                assert(rest.contains_key(k));
            }
        }
    }
}

/// A sum is at least the number of keys with a positive summand.
pub proof fn sum_counts<V>(m: Map<u64, V>, f: spec_fn(V) -> int, keys: Seq<u64>)
    requires
        m.dom().finite(),
        forall|k: u64| #[trigger] m.contains_key(k) ==> f(m[k]) >= 0,
        keys.no_duplicates(),
        forall|i: int| 0 <= i < keys.len() ==> m.contains_key(#[trigger] keys[i]),
        forall|i: int| 0 <= i < keys.len() ==> f(m[#[trigger] keys[i]]) >= 1,
    ensures
        sum_of(m, f) >= keys.len(),
    decreases keys.len(),
{
    if keys.len() == 0 {
        sum_dominates(m, f);
    } else {
        let before = keys.drop_last();
        let last = keys[keys.len() - 1];
        let rest = m.remove(last);
        assert forall|i: int| 0 <= i < before.len() implies rest.contains_key(
            #[trigger] before[i],
        ) && f(rest[before[i]]) >= 1 by {
            assert(before[i] == keys[i]);
        }
        assert forall|k: u64| #[trigger] rest.contains_key(k) implies f(rest[k]) >= 0 by {
            assert(m.contains_key(k));
        }
        sum_counts(rest, f, before);
        sum_splits(m, f, last);
    }
}

/// The sum over the keys below `n`.
pub open spec fn sum_below<V>(m: Map<u64, V>, f: spec_fn(V) -> int, n: u64) -> int
    decreases n,
{
    if n == 0 {
        0
    } else {
        let k = (n - 1) as u64;
        sum_below(m, f, k) + (if m.contains_key(k) {
            f(m[k])
        } else {
            0
        })
    }
}

/// Two maps that agree below `n` have the same sum there.
pub proof fn sum_below_agrees<V, W>(
    m: Map<u64, V>,
    f: spec_fn(V) -> int,
    other: Map<u64, W>,
    g: spec_fn(W) -> int,
    n: u64,
)
    requires
        forall|k: u64|
            k < n ==> (#[trigger] m.contains_key(k) <==> other.contains_key(k)) && (m.contains_key(
                k,
            ) ==> f(m[k]) == g(other[k])),
    ensures
        sum_below(m, f, n) == sum_below(other, g, n),
    decreases n,
{
    if n > 0 {
        let k = (n - 1) as u64;
        sum_below_agrees(m, f, other, g, k);
        assert(m.contains_key(k) <==> other.contains_key(k));
    }
}

/// If no entry counts for less than nothing or more than `most`, the sum grows with `n`, by at
/// most that much per key.
pub proof fn sum_below_grows<V>(m: Map<u64, V>, f: spec_fn(V) -> int, n: u64, k: u64, most: int)
    requires
        n <= k,
        most >= 0,
        forall|i: u64| i < k && #[trigger] m.contains_key(i) ==> 0 <= f(m[i]) <= most,
    ensures
        0 <= sum_below(m, f, n) <= sum_below(m, f, k),
        sum_below(m, f, k) <= sum_below(m, f, n) + most * (k - n),
    decreases k,
{
    if k > 0 {
        let before = (k - 1) as u64;
        if n < k {
            sum_below_grows(m, f, n, before, most);
            assert(most * (k - n) == most * (before - n) + most) by (nonlinear_arith)
                requires
                    before == k - 1,
            ;
        } else {
            sum_below_grows(m, f, before, before, most);
        }
        assert(m.contains_key(before) ==> 0 <= f(m[before]) <= most);
    }
}

/// If no key reaches `n`, that is the whole sum.
pub proof fn sum_below_is_all<V>(m: Map<u64, V>, f: spec_fn(V) -> int, n: u64)
    requires
        m.dom().finite(),
        forall|k: u64| #[trigger] m.contains_key(k) ==> k < n,
    ensures
        sum_of(m, f) == sum_below(m, f, n),
    decreases n,
{
    if n == 0 {
        assert(m.dom() =~= Set::empty()) by {
            assert forall|k: u64| !m.dom().contains(k) by {
                assert(m.contains_key(k) ==> k < n);
            }
        }
    } else {
        let k = (n - 1) as u64;
        let rest = m.remove(k);
        assert forall|j: u64| #[trigger] rest.contains_key(j) implies j < k by {
            assert(m.contains_key(j));
        }
        sum_below_is_all(rest, f, k);
        sum_below_agrees(rest, f, m, f, k);
        if m.contains_key(k) {
            sum_splits(m, f, k);
        } else {
            assert(rest =~= m);
        }
    }
}

/// Nothing adds up to nothing.
pub proof fn sum_of_nothing<V>(m: Map<u64, V>, f: spec_fn(V) -> int)
    requires
        m.dom().finite(),
        forall|k: u64| #[trigger] m.contains_key(k) ==> f(m[k]) == 0,
    ensures
        sum_of(m, f) == 0,
    decreases m.dom().len(),
{
    if m.dom().len() > 0 {
        let c = m.dom().choose();
        assert(m.contains_key(c));
        let rest = m.remove(c);
        assert forall|k: u64| #[trigger] rest.contains_key(k) implies f(rest[k]) == 0 by {
            assert(m.contains_key(k));
        }
        sum_of_nothing(rest, f);
    }
}

} // verus!
