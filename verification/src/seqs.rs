//! Facts about sequences that several proofs share.
use vstd::prelude::*;

verus! {

/// What is in a sequence is its last element or among the others.
pub proof fn contains_splits<T>(s: Seq<T>, x: T)
    requires
        s.len() > 0,
    ensures
        s.contains(x) <==> s.drop_last().contains(x) || s.last() == x,
{
    let before = s.drop_last();
    if s.contains(x) {
        let i = choose|i: int| 0 <= i < s.len() && s[i] == x;
        if i < before.len() {
            assert(before[i] == x);
        }
    }
    if before.contains(x) {
        let i = choose|i: int| 0 <= i < before.len() && before[i] == x;
        assert(s[i] == x);
    }
    if s.last() == x {
        assert(s[s.len() - 1] == x);
    }
}

/// The sum of a sequence.
pub open spec fn total(s: Seq<i128>) -> int
    decreases s.len(),
{
    if s.len() == 0 {
        0
    } else {
        total(s.drop_last()) + s.last()
    }
}

/// Changing one element changes the sum by that element alone.
pub proof fn total_after_update(s: Seq<i128>, i: int, v: i128)
    requires
        0 <= i < s.len(),
    ensures
        total(s.update(i, v)) == total(s) - s[i] + v,
    decreases s.len(),
{
    let t = s.update(i, v);
    if i == s.len() - 1 {
        assert(t.drop_last() == s.drop_last());
    } else {
        assert(t.drop_last() == s.drop_last().update(i, v));
        total_after_update(s.drop_last(), i, v);
    }
}

/// If no element is negative, none exceeds the sum.
pub proof fn total_dominates(s: Seq<i128>)
    requires
        forall|i: int| 0 <= i < s.len() ==> 0 <= #[trigger] s[i],
    ensures
        0 <= total(s),
        forall|i: int| 0 <= i < s.len() ==> #[trigger] s[i] <= total(s),
    decreases s.len(),
{
    if s.len() > 0 {
        let before = s.drop_last();
        assert forall|i: int| 0 <= i < before.len() implies 0 <= #[trigger] before[i] by {
            assert(before[i] == s[i]);
        }
        total_dominates(before);
        assert(s[s.len() - 1] >= 0);
        assert forall|i: int| 0 <= i < s.len() implies #[trigger] s[i] <= total(s) by {
            if i < before.len() {
                assert(before[i] == s[i]);
            }
        }
    }
}

/// Nothing adds up to nothing.
pub proof fn total_of_nothing(s: Seq<i128>)
    requires
        forall|i: int| 0 <= i < s.len() ==> #[trigger] s[i] == 0,
    ensures
        total(s) == 0,
    decreases s.len(),
{
    if s.len() > 0 {
        let before = s.drop_last();
        assert forall|i: int| 0 <= i < before.len() implies #[trigger] before[i] == 0 by {
            assert(before[i] == s[i]);
        }
        total_of_nothing(before);
        assert(s[s.len() - 1] == 0);
    }
}

} // verus!
