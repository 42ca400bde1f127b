//! The escrow's working environment: the stored entries a call reads and writes, the ledger it
//! runs in, and the requests it makes of the host.
use crate::limits::{
    DAY_LEDGERS, INSTANCE_TTL_EXTEND_TO, INSTANCE_TTL_THRESHOLD,
    PERSISTENT_TTL_EXTEND_TO, PERSISTENT_TTL_THRESHOLD, REFUND_GRACE_LEDGERS,
};
use crate::types::{Address, DataKey, Effect, Event, PendingUpgrade, Question, StakeInfo, Status};
use std::collections::BTreeMap;
use vstd::prelude::*;

verus! {

/// The instance entries. An unset entry is `None`.
#[derive(Clone, Copy, PartialEq, Eq, Debug)]
pub struct Config {
    pub admin: Option<Address>,
    pub token: Option<Address>,
    pub platform: Option<Address>,
    pub timeout_ledgers: Option<u32>,
    pub pending_upgrade: Option<PendingUpgrade>,
    pub migration_source: Option<Address>,
}

/// What a call sees and changes. Entries that belong to an address are keyed by its `id`.
#[derive(Debug)]
pub struct Env {
    /// This contract's own address.
    pub this: Address,
    /// The ledger the call lands in.
    pub sequence: u32,
    /// The longest lifetime the network grants an entry.
    pub max_ttl: u32,
    pub config: Config,
    pub questions: BTreeMap<u64, Question>,
    pub stakes: BTreeMap<u64, StakeInfo>,
    pub owed: BTreeMap<u64, i128>,
    pub balances: BTreeMap<u64, i128>,
    pub pending_count: u32,
    pub pending_at: BTreeMap<u32, u64>,
    pub pending_pos: BTreeMap<u64, u32>,
    /// Requests to the host, oldest first.
    pub effects: Vec<Effect>,
}

impl Clone for Env {
    fn clone(&self) -> (env: Env)
        ensures
            env@ == self@,
    {
        Env {
            this: self.this,
            sequence: self.sequence,
            max_ttl: self.max_ttl,
            config: self.config,
            questions: self.questions.clone(),
            stakes: self.stakes.clone(),
            owed: self.owed.clone(),
            balances: self.balances.clone(),
            pending_count: self.pending_count,
            pending_at: self.pending_at.clone(),
            pending_pos: self.pending_pos.clone(),
            effects: self.effects.clone(),
        }
    }
}

/// The mathematical content of an [`Env`].
#[verifier::ext_equal]
pub struct State {
    pub this: Address,
    pub sequence: u32,
    pub max_ttl: u32,
    pub config: Config,
    pub questions: Map<u64, Question>,
    pub stakes: Map<u64, StakeInfo>,
    pub owed: Map<u64, i128>,
    pub balances: Map<u64, i128>,
    pub pending_count: u32,
    pub pending_at: Map<u32, u64>,
    pub pending_pos: Map<u64, u32>,
    pub effects: Seq<Effect>,
}

impl View for Env {
    type V = State;

    open spec fn view(&self) -> State {
        State {
            this: self.this,
            sequence: self.sequence,
            max_ttl: self.max_ttl,
            config: self.config,
            questions: self.questions@,
            stakes: self.stakes@,
            owed: self.owed@,
            balances: self.balances@,
            pending_count: self.pending_count,
            pending_at: self.pending_at@,
            pending_pos: self.pending_pos@,
            effects: self.effects@,
        }
    }
}

/// The configuration of an instance that was never initialized.
pub open spec fn unset_config() -> Config {
    Config {
        admin: None,
        token: None,
        platform: None,
        timeout_ledgers: None,
        pending_upgrade: None,
        migration_source: None,
    }
}

/// A freshly deployed instance: nothing stored, nothing asked of the host.
pub open spec fn fresh_state(this: Address, sequence: u32, max_ttl: u32) -> State {
    State {
        this,
        sequence,
        max_ttl,
        config: unset_config(),
        questions: Map::empty(),
        stakes: Map::empty(),
        owed: Map::empty(),
        balances: Map::empty(),
        pending_count: 0,
        pending_at: Map::empty(),
        pending_pos: Map::empty(),
        effects: Seq::empty(),
    }
}

impl State {
    /// Every recorded amount is one that the escrow can have written: questions lock a positive
    /// amount, and no bond, credit or prepaid balance is negative.
    pub open spec fn wf(self) -> bool {
        &&& self.questions.dom().finite()
        &&& self.stakes.dom().finite()
        &&& self.owed.dom().finite()
        &&& self.balances.dom().finite()
        &&& forall|id: u64| #[trigger]
            self.questions.contains_key(id) ==> self.questions[id].amount > 0
        &&& forall|a: u64| #[trigger] self.stakes.contains_key(a) ==> self.stakes[a].wf()
        &&& forall|a: u64| #[trigger] self.owed.contains_key(a) ==> self.owed[a] >= 0
        &&& forall|a: u64| #[trigger] self.balances.contains_key(a) ==> self.balances[a] >= 0
    }

    /// The same entries in the same ledger, whatever was asked of the host.
    pub open spec fn same_entries(self, other: State) -> bool {
        self == State { effects: self.effects, ..other }
    }

    pub open spec fn emit(self, effect: Effect) -> State {
        State { effects: self.effects.push(effect), ..self }
    }

    pub open spec fn require_auth(self, address: Address) -> State {
        self.emit(Effect::RequireAuth { address })
    }

    pub open spec fn transfer(
        self,
        token: Address,
        from: Address,
        to: Address,
        amount: i128,
    ) -> State {
        self.emit(Effect::Transfer { token, from, to, amount })
    }

    pub open spec fn publish(self, event: Event) -> State {
        self.emit(Effect::Publish { event })
    }

    /// Keep the instance and its code alive.
    pub open spec fn bump_instance(self) -> State {
        self.emit(
            Effect::ExtendInstance {
                threshold: INSTANCE_TTL_THRESHOLD,
                extend_to: INSTANCE_TTL_EXTEND_TO,
            },
        )
    }

    /// Keep one persistent entry alive.
    pub open spec fn extend_persistent(self, key: DataKey) -> State {
        self.emit(
            Effect::ExtendEntry {
                key,
                threshold: PERSISTENT_TTL_THRESHOLD,
                extend_to: PERSISTENT_TTL_EXTEND_TO,
            },
        )
    }

    /// How long a question's entry is kept: until the grace period past its refund deadline,
    /// never less than the normal target, never more than the network allows.
    pub open spec fn question_lifetime(self, question: Question) -> u32 {
        let wait: int = if question.spec_deadline() > self.sequence {
            question.spec_deadline() - self.sequence
        } else {
            0
        };
        let wanted: int = if wait + REFUND_GRACE_LEDGERS > u32::MAX {
            u32::MAX as int
        } else {
            wait + REFUND_GRACE_LEDGERS
        };
        let target: int = if wanted > PERSISTENT_TTL_EXTEND_TO {
            wanted
        } else {
            PERSISTENT_TTL_EXTEND_TO as int
        };
        if target < self.max_ttl {
            target as u32
        } else {
            self.max_ttl
        }
    }

    /// Keep a question's entry alive.
    pub open spec fn extend_question(self, id: u64, question: Question) -> State {
        let extend_to: u32 = self.question_lifetime(question);
        let threshold: u32 = if extend_to > DAY_LEDGERS {
            (extend_to - DAY_LEDGERS) as u32
        } else {
            0
        };
        self.emit(Effect::ExtendEntry { key: DataKey::Question(id), threshold, extend_to })
    }

    pub open spec fn put_question(self, id: u64, question: Question) -> State {
        State { questions: self.questions.insert(id, question), ..self }.extend_persistent(
            DataKey::Question(id),
        )
    }

    pub open spec fn put_stake(self, worker: Address, info: StakeInfo) -> State {
        State { stakes: self.stakes.insert(worker.id, info), ..self }.extend_persistent(
            DataKey::Stake(worker),
        )
    }

    pub open spec fn put_owed(self, worker: Address, amount: i128) -> State {
        State { owed: self.owed.insert(worker.id, amount), ..self }.extend_persistent(
            DataKey::Owed(worker),
        )
    }

    pub open spec fn put_balance(self, payer: Address, amount: i128) -> State {
        State { balances: self.balances.insert(payer.id, amount), ..self }.extend_persistent(
            DataKey::Balance(payer),
        )
    }

    /// A worker's accrued earnings.
    pub open spec fn owed_to(self, worker: Address) -> i128 {
        if self.owed.contains_key(worker.id) {
            self.owed[worker.id]
        } else {
            0
        }
    }

    /// A payer's prepaid balance.
    pub open spec fn balance_of(self, payer: Address) -> i128 {
        if self.balances.contains_key(payer.id) {
            self.balances[payer.id]
        } else {
            0
        }
    }

    /// A worker's bond as last written.
    pub open spec fn recorded_stake(self, worker: Address) -> StakeInfo {
        if self.stakes.contains_key(worker.id) {
            self.stakes[worker.id]
        } else {
            StakeInfo::none()
        }
    }

    /// Whether `id` names a question that can still be settled.
    pub open spec fn is_pending(self, id: u64) -> bool {
        self.questions.contains_key(id) && self.questions[id].status == Status::Pending
    }
}

impl Env {
    /// A freshly deployed instance.
    pub fn new(this: Address, sequence: u32, max_ttl: u32) -> (env: Env)
        ensures
            env@ == fresh_state(this, sequence, max_ttl),
            env@.wf(),
    {
        Env {
            this,
            sequence,
            max_ttl,
            config: Config {
                admin: None,
                token: None,
                platform: None,
                timeout_ledgers: None,
                pending_upgrade: None,
                migration_source: None,
            },
            questions: BTreeMap::new(),
            stakes: BTreeMap::new(),
            owed: BTreeMap::new(),
            balances: BTreeMap::new(),
            pending_count: 0,
            pending_at: BTreeMap::new(),
            pending_pos: BTreeMap::new(),
            effects: Vec::new(),
        }
    }

    pub(crate) fn emit(&mut self, effect: Effect)
        ensures
            final(self)@ == old(self)@.emit(effect),
    {
        self.effects.push(effect);
    }

    pub(crate) fn require_auth(&mut self, address: Address)
        ensures
            final(self)@ == old(self)@.require_auth(address),
    {
        self.emit(Effect::RequireAuth { address });
    }

    pub(crate) fn transfer(&mut self, token: Address, from: Address, to: Address, amount: i128)
        ensures
            final(self)@ == old(self)@.transfer(token, from, to, amount),
    {
        self.emit(Effect::Transfer { token, from, to, amount });
    }

    pub(crate) fn publish(&mut self, event: Event)
        ensures
            final(self)@ == old(self)@.publish(event),
    {
        self.emit(Effect::Publish { event });
    }

    pub(crate) fn bump_instance(&mut self)
        ensures
            final(self)@ == old(self)@.bump_instance(),
    {
        self.emit(
            Effect::ExtendInstance {
                threshold: INSTANCE_TTL_THRESHOLD,
                extend_to: INSTANCE_TTL_EXTEND_TO,
            },
        );
    }

    pub(crate) fn extend_persistent(&mut self, key: DataKey)
        ensures
            final(self)@ == old(self)@.extend_persistent(key),
    {
        self.emit(
            Effect::ExtendEntry {
                key,
                threshold: PERSISTENT_TTL_THRESHOLD,
                extend_to: PERSISTENT_TTL_EXTEND_TO,
            },
        );
    }

    pub(crate) fn extend_question_ttl(&mut self, id: u64, question: &Question)
        ensures
            final(self)@ == old(self)@.extend_question(id, *question),
    {
        let to_deadline: u32 = question.deadline().saturating_sub(self.sequence).saturating_add(
            REFUND_GRACE_LEDGERS,
        );
        let target: u32 = if to_deadline > PERSISTENT_TTL_EXTEND_TO {
            to_deadline
        } else {
            PERSISTENT_TTL_EXTEND_TO
        };
        let extend_to: u32 = if target < self.max_ttl {
            target
        } else {
            self.max_ttl
        };
        let threshold: u32 = extend_to.saturating_sub(DAY_LEDGERS);
        self.emit(Effect::ExtendEntry { key: DataKey::Question(id), threshold, extend_to });
    }

    pub(crate) fn put_question(&mut self, id: u64, question: Question)
        ensures
            final(self)@ == old(self)@.put_question(id, question),
    {
        self.questions.insert(id, question);
        self.extend_persistent(DataKey::Question(id));
    }

    pub(crate) fn put_stake(&mut self, worker: Address, info: StakeInfo)
        ensures
            final(self)@ == old(self)@.put_stake(worker, info),
    {
        self.stakes.insert(worker.id, info);
        self.extend_persistent(DataKey::Stake(worker));
    }

    pub(crate) fn put_owed(&mut self, worker: Address, amount: i128)
        ensures
            final(self)@ == old(self)@.put_owed(worker, amount),
    {
        self.owed.insert(worker.id, amount);
        self.extend_persistent(DataKey::Owed(worker));
    }

    pub(crate) fn put_balance(&mut self, payer: Address, amount: i128)
        ensures
            final(self)@ == old(self)@.put_balance(payer, amount),
    {
        self.balances.insert(payer.id, amount);
        self.extend_persistent(DataKey::Balance(payer));
    }

    pub(crate) fn owed_to(&self, worker: Address) -> (amount: i128)
        ensures
            amount == self@.owed_to(worker),
    {
        match self.owed.get(&worker.id) {
            Some(amount) => *amount,
            None => 0,
        }
    }

    pub(crate) fn balance_of(&self, payer: Address) -> (amount: i128)
        ensures
            amount == self@.balance_of(payer),
    {
        match self.balances.get(&payer.id) {
            Some(amount) => *amount,
            None => 0,
        }
    }

    pub(crate) fn recorded_stake(&self, worker: Address) -> (info: StakeInfo)
        ensures
            info == self@.recorded_stake(worker),
    {
        match self.stakes.get(&worker.id) {
            Some(info) => *info,
            None => StakeInfo::default(),
        }
    }
}

} // verus!
