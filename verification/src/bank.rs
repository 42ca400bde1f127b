//! The escrowed token as the ledger keeps it: who holds how much, and what moving it takes.
use crate::terms::account;
use crate::types::{Address, Effect};
use std::collections::BTreeMap;
use vstd::prelude::*;

verus! {

/// Everyone's holdings of one token.
#[derive(Debug)]
pub struct Bank {
    pub held: BTreeMap<u64, i128>,
}

impl View for Bank {
    type V = Map<u64, i128>;

    open spec fn view(&self) -> Map<u64, i128> {
        self.held@
    }
}

/// What `who` holds.
pub open spec fn held_by(held: Map<u64, i128>, who: Address) -> i128 {
    if held.contains_key(who.id) {
        held[who.id]
    } else {
        0
    }
}

/// Whether a transfer goes through: nobody can send less than nothing or more than they hold.
pub open spec fn can_move(
    held: Map<u64, i128>,
    from: Address,
    to: Address,
    amount: i128,
) -> bool {
    &&& 0 <= amount <= held_by(held, from)
    &&& from != to ==> held_by(held, to) + amount <= i128::MAX
}

/// Everyone's holdings after a transfer.
pub open spec fn moved(
    held: Map<u64, i128>,
    from: Address,
    to: Address,
    amount: i128,
) -> Map<u64, i128> {
    let less = held.insert(from.id, (held_by(held, from) - amount) as i128);
    less.insert(to.id, (held_by(less, to) + amount) as i128)
}

/// Everyone's holdings after the transfers among `effects`, or nothing if one does not go
/// through.
pub open spec fn carried_out(held: Map<u64, i128>, effects: Seq<Effect>) -> Option<Map<u64, i128>>
    decreases effects.len(),
{
    if effects.len() == 0 {
        Some(held)
    } else {
        match carried_out(held, effects.drop_last()) {
            None => None,
            Some(before) => match effects.last() {
                Effect::Transfer { from, to, amount, .. } => if can_move(before, from, to, amount) {
                    Some(moved(before, from, to, amount))
                } else {
                    None
                },
                _ => Some(before),
            },
        }
    }
}

/// One more request is carried out after all the others.
pub broadcast proof fn carried_out_after_push(
    held: Map<u64, i128>,
    effects: Seq<Effect>,
    effect: Effect,
)
    ensures
        #[trigger] carried_out(held, effects.push(effect)) == (match carried_out(held, effects) {
            None => None,
            Some(before) => match effect {
                Effect::Transfer { from, to, amount, .. } => if can_move(before, from, to, amount) {
                    Some(moved(before, from, to, amount))
                } else {
                    None
                },
                _ => Some(before),
            },
        }),
{
    assert(effects.push(effect).drop_last() == effects);
}

impl Clone for Bank {
    fn clone(&self) -> (bank: Bank)
        ensures
            bank@ == self@,
    {
        Bank { held: self.held.clone() }
    }
}

impl Bank {
    /// Nobody holds anything.
    pub fn new() -> (bank: Bank)
        ensures
            bank@ == Map::<u64, i128>::empty(),
    {
        Bank { held: BTreeMap::new() }
    }

    pub fn balance(&self, who: Address) -> (amount: i128)
        ensures
            amount == held_by(self@, who),
    {
        match self.held.get(&who.id) {
            Some(amount) => *amount,
            None => 0,
        }
    }

    /// Creates `amount` in the hands of `to`.
    pub fn mint(&mut self, to: Address, amount: i128)
        requires
            i128::MIN <= held_by(old(self)@, to) + amount <= i128::MAX,
        ensures
            final(self)@ == old(self)@.insert(to.id, (held_by(old(self)@, to) + amount) as i128),
    {
        let before: i128 = self.balance(to);
        self.held.insert(to.id, before + amount);
    }

    /// Moves `amount` if that goes through, and says whether it did.
    pub fn transfer(&mut self, from: Address, to: Address, amount: i128) -> (done: bool)
        ensures
            done == can_move(old(self)@, from, to, amount),
            done ==> final(self)@ == moved(old(self)@, from, to, amount),
            !done ==> final(self)@ == old(self)@,
    {
        let available: i128 = self.balance(from);
        if amount < 0 || amount > available {
            return false;
        }
        if from != to && self.balance(to) > i128::MAX - amount {
            return false;
        }
        self.held.insert(from.id, available - amount);
        let before: i128 = self.balance(to);
        self.held.insert(to.id, before + amount);
        true
    }

    /// Carries out the transfers among `effects`, all of them or none.
    pub fn carry_out(&mut self, effects: &Vec<Effect>) -> (done: bool)
        ensures
            done == (carried_out(old(self)@, effects@) is Some),
            done ==> Some(final(self)@) == carried_out(old(self)@, effects@),
            !done ==> final(self)@ == old(self)@,
    {
        let ghost start = self@;
        let saved: BTreeMap<u64, i128> = self.held.clone();
        let mut i: usize = 0;
        while i < effects.len()
            invariant
                0 <= i <= effects.len(),
                start == old(self)@,
                saved@ == start,
                Some(self@) == carried_out(start, effects@.take(i as int)),
            decreases effects.len() - i,
        {
            assert(effects@.take(i + 1).drop_last() == effects@.take(i as int));
            if let Effect::Transfer { from, to, amount, .. } = effects[i] {
                if !self.transfer(from, to, amount) {
                    proof {
                        stays_undone(start, effects@, i + 1);
                    }
                    self.held = saved;
                    return false;
                }
            }
            i = i + 1;
        }
        assert(effects@.take(i as int) == effects@);
        true
    }
}

/// Once a transfer has not gone through, the rest does not matter.
proof fn stays_undone(held: Map<u64, i128>, effects: Seq<Effect>, upto: int)
    requires
        0 <= upto <= effects.len(),
        carried_out(held, effects.take(upto)) is None,
    ensures
        carried_out(held, effects) is None,
    decreases effects.len() - upto,
{
    if upto < effects.len() {
        assert(effects.take(upto + 1).drop_last() == effects.take(upto));
        stays_undone(held, effects, upto + 1);
    } else {
        assert(effects.take(upto) == effects);
    }
}

/// A transfer goes through if the sender has the amount, it is not negative, and the receiver can
/// hold it. It moves exactly that much, from one to the other, and nobody else's holdings; sent to
/// oneself, it moves nothing.
pub proof fn a_transfer_moves_the_amount(
    held: Map<u64, i128>,
    from: Address,
    to: Address,
    amount: i128,
    who: Address,
)
    ensures
        can_move(held, from, to, amount) <==> 0 <= amount <= account(held, from) && (from.id
            == to.id || account(held, to) + amount <= i128::MAX),
        can_move(held, from, to, amount) ==> account(moved(held, from, to, amount), who)
            == account(held, who) + (if who.id == to.id {
            amount as int
        } else {
            0
        }) - (if who.id == from.id {
            amount as int
        } else {
            0
        }),
{
}

/// Requests are carried out in order: those that come later work on what the earlier ones left, and
/// if any does not go through, none counts.
pub proof fn requests_are_carried_out_in_order(
    held: Map<u64, i128>,
    first: Seq<Effect>,
    rest: Seq<Effect>,
)
    ensures
        carried_out(held, first + rest) == (match carried_out(held, first) {
            Some(between) => carried_out(between, rest),
            None => None,
        }),
    decreases rest.len(),
{
    if rest.len() > 0 {
        requests_are_carried_out_in_order(held, first, rest.drop_last());
        assert((first + rest).drop_last() == first + rest.drop_last());
    } else {
        assert(first + rest == first);
    }
}

/// A single transfer is carried out as it says, and a request of any other kind moves nothing.
pub proof fn only_transfers_move_tokens(held: Map<u64, i128>, effect: Effect)
    ensures
        !(effect is Transfer) ==> carried_out(held, seq![effect]) == Some(held),
        effect matches Effect::Transfer { from, to, amount, .. } ==> carried_out(
            held,
            seq![effect],
        ) == (if 0 <= amount <= account(held, from) && (from.id == to.id || account(held, to)
            + amount <= i128::MAX) {
            Some(moved(held, from, to, amount))
        } else {
            None
        }),
{
    assert(seq![effect].drop_last() == Seq::<Effect>::empty());
    assert(carried_out(held, Seq::<Effect>::empty()) == Some(held));
}

} // verus!
