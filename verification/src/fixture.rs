//! A small instance to try things on: one escrow, its token, and a funded payer.
use crate::bank::{held_by, Bank};
use crate::env::{fresh_state, Env, State};
use crate::escrow::{initialize_next, OracleEscrow};
use crate::types::{Address, ContractError};
use vstd::prelude::*;

verus! {

/// What a question is worth here.
pub const AMOUNT: i128 = 2_500_000;

/// The refund window the instance is set up with.
pub const TIMEOUT: u32 = 100;

/// An initialized escrow and everyone's token holdings.
#[derive(Debug)]
pub struct Fx {
    pub env: Env,
    pub bank: Bank,
    pub token: Address,
    pub admin: Address,
    pub platform: Address,
    pub payer: Address,
}

impl Fx {
    /// The escrow.
    pub fn client(&self) -> (env: &Env)
        ensures
            env == self.env,
    {
        &self.env
    }

    /// Moves to ledger `seq`.
    pub fn advance_to(&mut self, seq: u32)
        ensures
            final(self).env@ == old(self).env@.at(seq),
            *final(self) == (Fx { env: final(self).env, ..*old(self) }),
    {
        self.env.sequence = seq;
    }

    /// What `who` holds.
    pub fn tc(&self, who: Address) -> (amount: i128)
        ensures
            amount == held_by(self.bank@, who),
    {
        self.bank.balance(who)
    }

    /// Hands `amount` of new tokens to `to`.
    pub fn mint(&mut self, to: Address, amount: i128)
        requires
            i128::MIN <= held_by(old(self).bank@, to) + amount <= i128::MAX,
        ensures
            final(self).bank@ == old(self).bank@.insert(
                to.id,
                (held_by(old(self).bank@, to) + amount) as i128,
            ),
            *final(self) == (Fx { bank: final(self).bank, ..*old(self) }),
    {
        self.bank.mint(to, amount);
    }
}

/// An instance set up at ledger 1000 with lifetimes long enough for jumps over many weeks, and a
/// payer with a hundred times the usual amount.
pub fn setup() -> (fx: Fx)
    ensures
        fx.env@ == (State {
            effects: Seq::empty(),
            ..initialize_next(
                fresh_state(Address { id: 1 }, 1_000, 6_000_000),
                fx.admin,
                fx.token,
                fx.platform,
                TIMEOUT,
            )
        }),
        fx.token.id == 2,
        fx.admin.id == 3,
        fx.platform.id == 4,
        fx.payer.id == 5,
        fx.bank@ == Map::<u64, i128>::empty().insert(5, (AMOUNT * 100) as i128),
        fx.env@.configured(),
{
    let token: Address = Address { id: 2 };
    let admin: Address = Address { id: 3 };
    let platform: Address = Address { id: 4 };
    let payer: Address = Address { id: 5 };
    let mut env: Env = Env::new(Address { id: 1 }, 1_000, 6_000_000);
    let ready: Result<(), ContractError> = OracleEscrow::initialize(
        &mut env,
        admin,
        token,
        platform,
        TIMEOUT,
    );
    assert(ready is Ok);
    env.effects = Vec::new();
    let mut bank: Bank = Bank::new();
    bank.mint(payer, AMOUNT * 100);
    Fx { env, bank, token, admin, platform, payer }
}

/// A code hash that is as good as any.
pub fn fake_hash(byte: u8) -> (hash: [u8; 32])
    ensures
        forall|i: int| 0 <= i < 32 ==> hash@[i] == byte,
{
    [byte; 32]
}

} // verus!
