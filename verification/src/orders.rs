//! Every order in which racing transactions can land, and every way of spreading them over
//! ledgers.
use crate::seqs::contains_splits;
use vstd::prelude::*;
use vstd::string::StringExecFns;

verus! {

/// Every transaction that can settle, or try to settle, the contested question.
#[derive(Clone, Copy, PartialEq, Eq, Structural, Debug)]
pub enum Racer {
    /// The administrator resolves for one quorum, with a staked loser.
    ResolveA,
    /// The administrator, or a second backend, resolves for another quorum.
    ResolveB,
    /// The administrator's discretionary refund.
    AdminRefund,
    /// A refund by timeout from an unrelated third party.
    TimeoutRefund,
    /// The payer's own refund by timeout.
    TimeoutRefundByPayer,
}

/// What a vector of vectors holds.
pub open spec fn contents<T>(v: Seq<Vec<T>>) -> Seq<Seq<T>> {
    v.map_values(|inner: Vec<T>| inner@)
}

/// `head` put in front of every one of `tails`.
pub open spec fn headed<T>(head: T, tails: Seq<Seq<T>>) -> Seq<Seq<T>> {
    tails.map_values(|tail: Seq<T>| tail.insert(0, head))
}

/// Every order of `items`, those that start with an earlier item first.
pub open spec fn orders(items: Seq<Racer>) -> Seq<Seq<Racer>>
    decreases items.len(), 1int, 0int,
{
    if items.len() <= 1 {
        seq![items]
    } else {
        orders_up_to(items, items.len() as int)
    }
}

/// Every order of `items` that starts with one of the first `n`.
pub open spec fn orders_up_to(items: Seq<Racer>, n: int) -> Seq<Seq<Racer>>
    decreases items.len(), 0int, n,
{
    if n <= 0 || items.len() <= 1 {
        Seq::empty()
    } else if n > items.len() {
        orders_up_to(items, n - 1)
    } else {
        orders_up_to(items, n - 1) + headed(items[n - 1], orders(items.remove(n - 1)))
    }
}

/// Lists every order of `items`.
pub fn permutations(items: &Vec<Racer>) -> (out: Vec<Vec<Racer>>)
    ensures
        contents(out@) == orders(items@),
    decreases items.len(),
{
    let mut out: Vec<Vec<Racer>> = Vec::new();
    if items.len() <= 1 {
        out.push(items.clone());
        assert(contents(out@) == orders(items@));
        return out;
    }
    let mut i: usize = 0;
    while i < items.len()
        invariant
            1 < items.len(),
            0 <= i <= items.len(),
            contents(out@) == orders_up_to(items@, i as int),
        decreases items.len() - i,
    {
        let mut rest: Vec<Racer> = items.clone();
        let head: Racer = rest.remove(i);
        let tails: Vec<Vec<Racer>> = permutations(&rest);
        let ghost before = contents(out@);
        let ghost all = contents(tails@);
        let mut j: usize = 0;
        while j < tails.len()
            invariant
                0 <= j <= tails.len(),
                all == contents(tails@),
                contents(out@) == before + headed(head, all.take(j as int)),
            decreases tails.len() - j,
        {
            let mut tail: Vec<Racer> = tails[j].clone();
            let ghost bare = tail@;
            tail.insert(0, head);
            let ghost old_out = out@;
            out.push(tail);
            proof {
                assert(bare == all[j as int]);
                assert(contents(out@) == contents(old_out).push(tail@));
                assert(headed(head, all.take(j + 1)) == headed(head, all.take(j as int)).push(
                    all[j as int].insert(0, head),
                ));
            }
            j = j + 1;
        }
        assert(all.take(j as int) == all);
        i = i + 1;
    }
    out
}

/// Every order is a rearrangement: each item lands exactly as often as it was entered.
pub proof fn an_order_is_a_rearrangement(items: Seq<Racer>, k: int)
    requires
        0 <= k < orders(items).len(),
    ensures
        orders(items)[k].to_multiset() == items.to_multiset(),
        orders(items)[k].len() == items.len(),
    decreases items.len(), 1int, 0int,
{
    if items.len() > 1 {
        an_order_up_to_is_a_rearrangement(items, items.len() as int, k);
    }
}

proof fn an_order_up_to_is_a_rearrangement(items: Seq<Racer>, n: int, k: int)
    requires
        1 < items.len(),
        0 <= n <= items.len(),
        0 <= k < orders_up_to(items, n).len(),
    ensures
        orders_up_to(items, n)[k].to_multiset() == items.to_multiset(),
        orders_up_to(items, n)[k].len() == items.len(),
    decreases items.len(), 0int, n,
{
    broadcast use vstd::seq_lib::group_to_multiset_ensures;

    if n > 0 {
        let before = orders_up_to(items, n - 1);
        if k < before.len() {
            an_order_up_to_is_a_rearrangement(items, n - 1, k);
        } else {
            let rest = items.remove(n - 1);
            let tail = orders(rest)[k - before.len()];
            an_order_is_a_rearrangement(rest, k - before.len());
            assert(orders_up_to(items, n)[k] == tail.insert(0, items[n - 1]));
            vstd::seq_lib::to_multiset_insert(tail, 0, items[n - 1]);
            vstd::seq_lib::to_multiset_remove(items, n - 1);
        }
    }
}

/// Every rearrangement is listed.
pub proof fn every_rearrangement_is_an_order(items: Seq<Racer>, order: Seq<Racer>)
    requires
        order.to_multiset() == items.to_multiset(),
    ensures
        orders(items).contains(order),
    decreases items.len(),
{
    broadcast use vstd::seq_lib::group_to_multiset_ensures;

    assert(order.to_multiset().len() == order.len());
    assert(items.to_multiset().len() == items.len());
    if items.len() == 0 {
        assert(order == items);
        assert(orders(items)[0] == items);
    } else {
        let head = order[0];
        assert(items.to_multiset().count(head) > 0) by {
            assert(order.contains(head));
        }
        assert(items.contains(head));
        let i = items.index_of(head);
        if items.len() == 1 {
            assert(order == items);
            assert(orders(items)[0] == items);
        } else {
            let rest = items.remove(i);
            let tail = order.remove(0);
            vstd::seq_lib::to_multiset_remove(items, i);
            vstd::seq_lib::to_multiset_remove(order, 0);
            every_rearrangement_is_an_order(rest, tail);
            let j = choose|j: int| 0 <= j < orders(rest).len() && orders(rest)[j] == tail;
            let part = headed(head, orders(rest));
            assert(part[j] == tail.insert(0, head));
            assert(tail.insert(0, head) == order);
            heads_are_kept(items, i + 1, items.len() as int);
            assert(orders_up_to(items, i + 1) == orders_up_to(items, i) + part);
            assert(orders_up_to(items, i + 1)[orders_up_to(items, i).len() + j] == order);
            assert(orders(items)[orders_up_to(items, i).len() + j] == order);
        }
    }
}

/// The orders with an earlier head come first.
proof fn heads_are_kept(items: Seq<Racer>, n: int, m: int)
    requires
        1 < items.len(),
        0 <= n <= m <= items.len(),
    ensures
        orders_up_to(items, n).is_prefix_of(orders_up_to(items, m)),
    decreases m - n,
{
    if n < m {
        heads_are_kept(items, n, m - 1);
    }
}

/// Ledgers only move forward.
pub open spec fn non_decreasing(offsets: Seq<i64>) -> bool {
    forall|i: int, j: int| 0 <= i <= j < offsets.len() ==> offsets[i] <= offsets[j]
}

/// `prefix` with each choice appended that does not go back.
pub open spec fn continued(prefix: Seq<i64>, choices: Seq<i64>) -> Seq<Seq<i64>>
    decreases choices.len(),
{
    if choices.len() == 0 {
        Seq::empty()
    } else {
        let before = continued(prefix, choices.drop_last());
        if prefix.len() == 0 || prefix.last() <= choices.last() {
            before.push(prefix.push(choices.last()))
        } else {
            before
        }
    }
}

/// Every one of `prefixes` continued in every way.
pub open spec fn all_continued(prefixes: Seq<Seq<i64>>, choices: Seq<i64>) -> Seq<Seq<i64>>
    decreases prefixes.len(),
{
    if prefixes.len() == 0 {
        Seq::empty()
    } else {
        all_continued(prefixes.drop_last(), choices) + continued(prefixes.last(), choices)
    }
}

/// Every way of landing `n` transactions in ledgers of `choices` without going back.
pub open spec fn landings(n: nat, choices: Seq<i64>) -> Seq<Seq<i64>>
    decreases n,
{
    if n == 0 {
        seq![Seq::empty()]
    } else {
        all_continued(landings((n - 1) as nat, choices), choices)
    }
}

/// Lists every way of landing `n` transactions: a later one lands in the same or a later ledger.
pub fn landing_ledgers(n: usize, choices: &Vec<i64>) -> (out: Vec<Vec<i64>>)
    ensures
        contents(out@) == landings(n as nat, choices@),
    decreases n,
{
    let mut out: Vec<Vec<i64>> = Vec::new();
    if n == 0 {
        out.push(Vec::new());
        assert(contents(out@) == landings(0, choices@));
        return out;
    }
    let prefixes: Vec<Vec<i64>> = landing_ledgers(n - 1, choices);
    let ghost all = contents(prefixes@);
    let mut i: usize = 0;
    while i < prefixes.len()
        invariant
            0 <= i <= prefixes.len(),
            all == contents(prefixes@),
            contents(out@) == all_continued(all.take(i as int), choices@),
        decreases prefixes.len() - i,
    {
        let prefix: &Vec<i64> = &prefixes[i];
        let ghost before = contents(out@);
        let mut j: usize = 0;
        while j < choices.len()
            invariant
                0 <= j <= choices.len(),
                contents(out@) == before + continued(prefix@, choices@.take(j as int)),
            decreases choices.len() - j,
        {
            let choice: i64 = choices[j];
            assert(choices@.take(j + 1).drop_last() == choices@.take(j as int));
            if prefix.len() == 0 || prefix[prefix.len() - 1] <= choice {
                let mut longer: Vec<i64> = prefix.clone();
                longer.push(choice);
                let ghost old_out = out@;
                out.push(longer);
                assert(contents(out@) == contents(old_out).push(longer@));
            }
            j = j + 1;
        }
        proof {
            assert(choices@.take(j as int) == choices@);
            assert(all.take(i + 1).drop_last() == all.take(i as int));
            assert(all.take(i + 1).last() == prefix@);
        }
        i = i + 1;
    }
    assert(all.take(i as int) == all);
    out
}

/// A way of landing is listed if and only if it has the right length, uses only the given
/// ledgers and never goes back.
pub proof fn landings_are_exactly_the_forward_ones(n: nat, choices: Seq<i64>, offsets: Seq<i64>)
    ensures
        landings(n, choices).contains(offsets) <==> {
            &&& offsets.len() == n
            &&& non_decreasing(offsets)
            &&& forall|i: int| 0 <= i < n ==> choices.contains(#[trigger] offsets[i])
        },
    decreases n,
{
    if n == 0 {
        if landings(n, choices).contains(offsets) {
            assert(offsets.len() == 0);
        }
        if offsets.len() == 0 {
            assert(offsets == Seq::<i64>::empty());
            assert(landings(0, choices)[0] == offsets);
        }
    } else {
        let prefixes = landings((n - 1) as nat, choices);
        where_continuations_come_from(prefixes, choices, offsets);
        if offsets.len() > 0 {
            let prefix = offsets.drop_last();
            landings_are_exactly_the_forward_ones((n - 1) as nat, choices, prefix);
            if landings(n, choices).contains(offsets) {
                assert forall|i: int, j: int| 0 <= i <= j < offsets.len() implies offsets[i]
                    <= offsets[j] by {
                    if j < prefix.len() {
                        assert(prefix[i] <= prefix[j]);
                    } else if i < prefix.len() {
                        assert(prefix[i] <= prefix[prefix.len() - 1]);
                    }
                }
                assert forall|i: int| 0 <= i < n implies choices.contains(#[trigger] offsets[i]) by {
                    if i < prefix.len() {
                        assert(choices.contains(prefix[i]));
                    }
                }
            }
            if offsets.len() == n && non_decreasing(offsets) && (forall|i: int|
                0 <= i < n ==> choices.contains(#[trigger] offsets[i])) {
                assert forall|i: int| 0 <= i < n - 1 implies choices.contains(
                    #[trigger] prefix[i],
                ) by {
                    assert(prefix[i] == offsets[i]);
                }
                assert(choices.contains(offsets[n - 1]));
                if prefix.len() > 0 {
                    assert(offsets[n - 2] <= offsets[n - 1]);
                }
            }
        }
    }
}

/// A continuation comes from one of the prefixes, by one of the choices, without going back.
proof fn where_continuations_come_from(
    prefixes: Seq<Seq<i64>>,
    choices: Seq<i64>,
    offsets: Seq<i64>,
)
    ensures
        all_continued(prefixes, choices).contains(offsets) <==> {
            &&& offsets.len() > 0
            &&& prefixes.contains(offsets.drop_last())
            &&& choices.contains(offsets.last())
            &&& offsets.len() == 1 || offsets[offsets.len() - 2] <= offsets.last()
        },
    decreases prefixes.len(),
{
    if prefixes.len() > 0 {
        let before = prefixes.drop_last();
        where_continuations_come_from(before, choices, offsets);
        how_one_prefix_continues(prefixes.last(), choices, offsets);
        let a = all_continued(before, choices);
        let b = continued(prefixes.last(), choices);
        assert((a + b).contains(offsets) <==> a.contains(offsets) || b.contains(offsets)) by {
            if a.contains(offsets) {
                let i = choose|i: int| 0 <= i < a.len() && a[i] == offsets;
                assert((a + b)[i] == offsets);
            }
            if b.contains(offsets) {
                let i = choose|i: int| 0 <= i < b.len() && b[i] == offsets;
                assert((a + b)[a.len() + i] == offsets);
            }
        }
        if offsets.len() > 0 {
            let prefix = offsets.drop_last();
            contains_splits(prefixes, prefix);
        }
    }
}

proof fn how_one_prefix_continues(prefix: Seq<i64>, choices: Seq<i64>, offsets: Seq<i64>)
    ensures
        continued(prefix, choices).contains(offsets) <==> {
            &&& offsets.len() > 0
            &&& offsets.drop_last() == prefix
            &&& choices.contains(offsets.last())
            &&& offsets.len() == 1 || offsets[offsets.len() - 2] <= offsets.last()
        },
    decreases choices.len(),
{
    if choices.len() > 0 {
        let fewer = choices.drop_last();
        how_one_prefix_continues(prefix, fewer, offsets);
        let before = continued(prefix, fewer);
        let longer = prefix.push(choices.last());
        assert(longer.drop_last() == prefix);
        contains_splits(before.push(longer), offsets);
        assert(before.push(longer).drop_last() == before);
        if offsets.len() > 0 {
            let x = offsets.last();
            contains_splits(choices, x);
            if offsets.drop_last() == prefix {
                assert(offsets == prefix.push(x));
            }
        }
    }
}

impl Racer {
    pub open spec fn spec_name(self) -> Seq<char> {
        match self {
            Racer::ResolveA => "ResolveA"@,
            Racer::ResolveB => "ResolveB"@,
            Racer::AdminRefund => "AdminRefund"@,
            Racer::TimeoutRefund => "TimeoutRefund"@,
            Racer::TimeoutRefundByPayer => "TimeoutRefundByPayer"@,
        }
    }

    pub fn name(self) -> (name: &'static str)
        ensures
            name@ == self.spec_name(),
    {
        match self {
            Racer::ResolveA => "ResolveA",
            Racer::ResolveB => "ResolveB",
            Racer::AdminRefund => "AdminRefund",
            Racer::TimeoutRefund => "TimeoutRefund",
            Racer::TimeoutRefundByPayer => "TimeoutRefundByPayer",
        }
    }
}

/// The names of `order`, separated by commas.
pub open spec fn listed(order: Seq<Racer>) -> Seq<char>
    decreases order.len(),
{
    if order.len() == 0 {
        Seq::empty()
    } else if order.len() == 1 {
        order[0].spec_name()
    } else {
        listed(order.drop_last()) + ", "@ + order.last().spec_name()
    }
}

/// An order in words, such as `[ResolveA, TimeoutRefund]`.
pub fn describe(order: &Vec<Racer>) -> (text: String)
    ensures
        text@ == "["@ + listed(order@) + "]"@,
{
    let mut text: String = String::from_str("[");
    let mut i: usize = 0;
    while i < order.len()
        invariant
            0 <= i <= order.len(),
            text@ == "["@ + listed(order@.take(i as int)),
        decreases order.len() - i,
    {
        assert(order@.take(i + 1).drop_last() == order@.take(i as int));
        if i > 0 {
            text.append(", ");
        }
        text.append(order[i].name());
        i = i + 1;
    }
    assert(order@.take(i as int) == order@);
    text.append("]");
    text
}

/// `n` factorial.
pub open spec fn factorial(n: nat) -> nat
    decreases n,
{
    if n == 0 {
        1
    } else {
        n * factorial((n - 1) as nat)
    }
}

/// As many orders are listed as `n` items have: `n` factorial.
pub proof fn orders_are_counted(items: Seq<Racer>)
    ensures
        orders(items).len() == factorial(items.len()),
    decreases items.len(), 1int, 0int,
{
    if items.len() <= 1 {
        assert(factorial(0) == 1);
        assert(factorial(1) == 1 * factorial(0));
        assert(orders(items).len() == 1);
    } else {
        orders_up_to_are_counted(items, items.len() as int);
        assert(orders(items) == orders_up_to(items, items.len() as int));
    }
}

proof fn orders_up_to_are_counted(items: Seq<Racer>, n: int)
    requires
        1 < items.len(),
        0 <= n <= items.len(),
    ensures
        orders_up_to(items, n).len() == n * factorial((items.len() - 1) as nat),
    decreases items.len(), 0int, n,
{
    let each = factorial((items.len() - 1) as nat);
    if n == 0 {
        assert(0 * each == 0) by (nonlinear_arith);
    } else {
        orders_up_to_are_counted(items, n - 1);
        orders_are_counted(items.remove(n - 1));
        assert(n * each == (n - 1) * each + each) by (nonlinear_arith);
    }
}

/// With distinct ledgers to choose from, no way of landing is listed twice.
pub proof fn landings_are_listed_once(n: nat, choices: Seq<i64>)
    requires
        choices.no_duplicates(),
    ensures
        landings(n, choices).no_duplicates(),
        forall|i: int| 0 <= i < landings(n, choices).len() ==> (#[trigger] landings(
            n,
            choices,
        )[i]).len() == n,
    decreases n,
{
    if n > 0 {
        let prefixes = landings((n - 1) as nat, choices);
        landings_are_listed_once((n - 1) as nat, choices);
        continuations_are_listed_once(prefixes, choices);
        assert forall|i: int| 0 <= i < landings(n, choices).len() implies (#[trigger] landings(
            n,
            choices,
        )[i]).len() == n by {
            let offsets = landings(n, choices)[i];
            assert(landings(n, choices).contains(offsets));
            landings_are_exactly_the_forward_ones(n, choices, offsets);
        }
    }
}

proof fn continuations_are_listed_once(prefixes: Seq<Seq<i64>>, choices: Seq<i64>)
    requires
        prefixes.no_duplicates(),
        choices.no_duplicates(),
    ensures
        all_continued(prefixes, choices).no_duplicates(),
    decreases prefixes.len(),
{
    if prefixes.len() > 0 {
        let before = prefixes.drop_last();
        let last = prefixes.last();
        continuations_are_listed_once(before, choices);
        one_prefix_continues_once(last, choices);
        let a = all_continued(before, choices);
        let b = continued(last, choices);
        let all = a + b;
        assert forall|i: int, j: int|
            0 <= i < all.len() && 0 <= j < all.len() && i != j implies all[i] != all[j] by {
            let (lo, hi) = if i < j {
                (i, j)
            } else {
                (j, i)
            };
            if hi < a.len() {
                assert(a[lo] != a[hi]);
            } else if lo >= a.len() {
                assert(b[lo - a.len()] != b[hi - a.len()]);
            } else {
                assert(a.contains(a[lo]));
                assert(b.contains(b[hi - a.len()]));
                where_continuations_come_from(before, choices, a[lo]);
                how_one_prefix_continues(last, choices, b[hi - a.len()]);
                if a[lo] == b[hi - a.len()] {
                    let k = choose|k: int| 0 <= k < before.len() && before[k] == last;
                    assert(prefixes[k] == prefixes[prefixes.len() - 1]);
                }
            }
        }
    }
}

proof fn one_prefix_continues_once(prefix: Seq<i64>, choices: Seq<i64>)
    requires
        choices.no_duplicates(),
    ensures
        continued(prefix, choices).no_duplicates(),
    decreases choices.len(),
{
    if choices.len() > 0 {
        let fewer = choices.drop_last();
        one_prefix_continues_once(prefix, fewer);
        let before = continued(prefix, fewer);
        let longer = prefix.push(choices.last());
        if before.contains(longer) {
            how_one_prefix_continues(prefix, fewer, longer);
            let k = choose|k: int| 0 <= k < fewer.len() && fewer[k] == choices.last();
            assert(choices[k] == choices[choices.len() - 1]);
        }
        assert forall|i: int, j: int|
            0 <= i < before.push(longer).len() && 0 <= j < before.push(longer).len() && i
                != j implies before.push(longer)[i] != before.push(longer)[j] by {
            if i < before.len() && j < before.len() {
                assert(before[i] != before[j]);
            } else if i < before.len() {
                assert(before.contains(before[i]));
            } else {
                assert(before.contains(before[j]));
            }
        }
    }
}

/// The name of a racer is the name of its variant, and an order is told as the names of its racers
/// in turn, with a comma and a space between any two.
pub proof fn orders_are_told_in_turn(order: Seq<Racer>, next: Racer)
    ensures
        Racer::ResolveA.spec_name() == "ResolveA"@,
        Racer::ResolveB.spec_name() == "ResolveB"@,
        Racer::AdminRefund.spec_name() == "AdminRefund"@,
        Racer::TimeoutRefund.spec_name() == "TimeoutRefund"@,
        Racer::TimeoutRefundByPayer.spec_name() == "TimeoutRefundByPayer"@,
        listed(Seq::empty()) == Seq::<char>::empty(),
        listed(order.push(next)) == (if order.len() == 0 {
            next.spec_name()
        } else {
            listed(order) + ", "@ + next.spec_name()
        }),
{
    assert(order.push(next).drop_last() == order);
}

} // verus!
