//! The escrow on a simulated host: signatures, tokens, lifetimes, events and calls between
//! instances are carried out as each call requests them, and a refused call is undone.

use oracle_escrow::bank::Bank;
use oracle_escrow::bounty::{EscrowContract, Severity};
use oracle_escrow::env::Env;
use oracle_escrow::escrow::OracleEscrow;
use oracle_escrow::fixture::{fake_hash, setup, Fx};
use oracle_escrow::limits::{
    BPS_DENOM, CONTRACT_VERSION, DAY_LEDGERS, INSTANCE_TTL_EXTEND_TO, MAX_PENDING_PAGE,
    MAX_QUORUM_SIZE, MAX_TIMEOUT_LEDGERS, MIN_UNBONDING_LEDGERS, PERSISTENT_TTL_EXTEND_TO,
    PLATFORM_FEE_BPS, REFUND_GRACE_LEDGERS, SLASH_BPS,
    UPGRADE_DELAY_LEDGERS,
};
use oracle_escrow::types::{
    Address, ContractError, DataKey, Effect, Event, PendingUpgrade, Question, QuestionMigrated,
    QuestionOpened, QuestionSettled, StakeInfo, Status, UpgradeCancelled, UpgradeExecuted,
    UpgradeProposed,
};
use std::collections::{BTreeMap, BTreeSet};

// ---------------------------------------------------------------------------
// The simulated host.
// ---------------------------------------------------------------------------

#[derive(Clone, Copy, Debug, PartialEq, Eq)]
enum Failure {
    /// The contract returned this error.
    Contract(ContractError),
    /// The host turned down one of the call's requests.
    Refused,
}

use Failure::{Contract, Refused};

struct Host {
    instances: BTreeMap<u64, Env>,
    banks: BTreeMap<u64, Bank>,
    sequence: u32,
    max_ttl: u32,
    min_ttl: u32,
    /// `None` lets everyone sign; otherwise only these do.
    signers: Option<Vec<Address>>,
    /// Whether a signature also covers the transfers a call makes.
    covers_transfers: bool,
    /// Transfers that a calling contract has allowed in advance.
    grants: Vec<(Address, Address, Address, i128)>,
    /// Whose signatures the last call asked for.
    asked: Vec<Address>,
    events: Vec<(Address, Event)>,
    /// Last ledger in which an entry is live; `None` is the instance.
    live_until: BTreeMap<(u64, Option<DataKey>), u32>,
    disk_reads: u32,
    uploaded: Vec<[u8; 32]>,
    code: BTreeMap<u64, [u8; 32]>,
    next_id: u64,
}

fn addr(id: u64) -> Address {
    Address { id }
}

/// The persistent entries that exist.
fn keys(env: &Env) -> BTreeSet<DataKey> {
    let mut out = BTreeSet::new();
    for id in env.questions.keys() {
        out.insert(DataKey::Question(*id));
    }
    for id in env.stakes.keys() {
        out.insert(DataKey::Stake(addr(*id)));
    }
    for id in env.owed.keys() {
        out.insert(DataKey::Owed(addr(*id)));
    }
    for id in env.balances.keys() {
        out.insert(DataKey::Balance(addr(*id)));
    }
    for slot in env.pending_at.keys() {
        out.insert(DataKey::PendingAt(*slot));
    }
    for id in env.pending_pos.keys() {
        out.insert(DataKey::PendingPos(*id));
    }
    if !env.questions.is_empty() {
        out.insert(DataKey::PendingCount);
    }
    out
}

impl Host {
    fn new(sequence: u32) -> Host {
        Host {
            instances: BTreeMap::new(),
            banks: BTreeMap::new(),
            sequence,
            max_ttl: 3_110_399,
            min_ttl: 120_960,
            signers: None,
            covers_transfers: true,
            grants: Vec::new(),
            asked: Vec::new(),
            events: Vec::new(),
            live_until: BTreeMap::new(),
            disk_reads: 0,
            uploaded: Vec::new(),
            code: BTreeMap::new(),
            next_id: 100,
        }
    }

    fn generate(&mut self) -> Address {
        self.next_id += 1;
        addr(self.next_id)
    }

    fn token(&mut self) -> Address {
        let token = self.generate();
        self.banks.insert(token.id, Bank::new());
        token
    }

    fn register(&mut self) -> Address {
        let this = self.generate();
        self.instances.insert(this.id, Env::new(this, self.sequence, self.max_ttl));
        self.live_until.insert((this.id, None), self.sequence + self.min_ttl - 1);
        this
    }

    fn mint(&mut self, token: Address, to: Address, amount: i128) {
        self.banks.get_mut(&token.id).unwrap().mint(to, amount);
    }

    fn balance(&self, token: Address, who: Address) -> i128 {
        self.banks[&token.id].balance(who)
    }

    fn env(&self, at: Address) -> Env {
        let mut env = self.instances[&at.id].clone();
        env.sequence = self.sequence;
        env
    }

    fn signs(&self, who: Address) -> bool {
        match &self.signers {
            None => true,
            Some(list) => list.contains(&who),
        }
    }

    /// One transaction.
    fn call<T>(
        &mut self,
        at: Address,
        f: impl FnOnce(&mut Env) -> Result<T, ContractError>,
    ) -> Result<T, Failure> {
        self.asked.clear();
        self.events.clear();
        self.grants.clear();
        self.disk_reads = 0;
        let instances = self.instances.clone();
        let banks = self.banks.clone();
        let live_until = self.live_until.clone();
        let code = self.code.clone();
        let result = self.invoke(at, None, f);
        if result.is_err() {
            self.instances = instances;
            self.banks = banks;
            self.live_until = live_until;
            self.code = code;
            self.events.clear();
        }
        result
    }

    fn invoke<T>(
        &mut self,
        at: Address,
        invoker: Option<Address>,
        f: impl FnOnce(&mut Env) -> Result<T, ContractError>,
    ) -> Result<T, Failure> {
        let before = self.instances[&at.id].clone();
        let mut env = before.clone();
        env.sequence = self.sequence;
        env.max_ttl = self.max_ttl;
        env.effects = Vec::new();
        let result = f(&mut env);
        let effects = std::mem::take(&mut env.effects);
        let had = keys(&before);
        let has = keys(&env);
        self.restore(at, &had, &has, &effects);
        for effect in effects {
            self.perform(at, invoker, effect, &has)?;
        }
        for key in had.difference(&has) {
            self.live_until.remove(&(at.id, Some(*key)));
        }
        match result {
            Ok(value) => {
                self.instances.insert(at.id, env);
                Ok(value)
            }
            Err(e) => Err(Contract(e)),
        }
    }

    /// New entries start at the minimum lifetime; archived entries that the call needs are read
    /// back from disk.
    fn restore(
        &mut self,
        at: Address,
        had: &BTreeSet<DataKey>,
        has: &BTreeSet<DataKey>,
        effects: &[Effect],
    ) {
        let fresh = self.sequence + self.min_ttl - 1;
        let mut needed: BTreeSet<Option<DataKey>> = had.difference(has).map(|k| Some(*k)).collect();
        needed.insert(None);
        for effect in effects {
            if let Effect::ExtendEntry { key, .. } = effect {
                needed.insert(Some(*key));
            }
        }
        for key in needed {
            if let Some(until) = self.live_until.get_mut(&(at.id, key)) {
                if *until < self.sequence {
                    *until = fresh;
                    self.disk_reads += 1;
                }
            }
        }
        for key in has.difference(had) {
            self.live_until.insert((at.id, Some(*key)), fresh);
        }
    }

    fn extend(&mut self, entry: (u64, Option<DataKey>), threshold: u32, extend_to: u32) {
        let until = self.live_until.get_mut(&entry).unwrap();
        if *until - self.sequence <= threshold {
            *until = self.sequence + extend_to;
        }
    }

    fn perform(
        &mut self,
        at: Address,
        invoker: Option<Address>,
        effect: Effect,
        has: &BTreeSet<DataKey>,
    ) -> Result<(), Failure> {
        match effect {
            Effect::RequireAuth { address } => {
                if invoker == Some(address) {
                    return Ok(());
                }
                if !self.signs(address) {
                    return Err(Refused);
                }
                self.asked.push(address);
            }
            Effect::Transfer { token, from, to, amount } => {
                let grant = (token, from, to, amount);
                if from == at {
                } else if let Some(i) = self.grants.iter().position(|g| *g == grant) {
                    self.grants.remove(i);
                } else if !(self.covers_transfers && self.signs(from)) {
                    return Err(Refused);
                }
                if !self.banks.get_mut(&token.id).unwrap().transfer(from, to, amount) {
                    return Err(Refused);
                }
            }
            Effect::ExtendEntry { key, threshold, extend_to } => {
                if has.contains(&key) {
                    self.extend((at.id, Some(key)), threshold, extend_to);
                }
            }
            Effect::ExtendInstance { threshold, extend_to } => {
                self.extend((at.id, None), threshold, extend_to);
            }
            Effect::Publish { event } => self.events.push((at, event)),
            Effect::AuthorizeTransfer { token, from, to, amount } => {
                self.grants.push((token, from, to, amount));
            }
            Effect::ImportQuestion {
                target,
                source,
                token,
                question_id,
                payer,
                amount,
                created_at,
                timeout_ledgers,
            } => {
                self.invoke(target, Some(at), |env| {
                    OracleEscrow::import_question(
                        env,
                        source,
                        token,
                        question_id,
                        payer,
                        amount,
                        created_at,
                        timeout_ledgers,
                    )
                })?;
            }
            Effect::UpdateWasm { wasm_hash } => {
                if !self.uploaded.contains(&wasm_hash) {
                    return Err(Refused);
                }
                self.code.insert(at.id, wasm_hash);
            }
        }
        Ok(())
    }

    /// Remaining lifetime of an entry.
    fn ttl(&self, at: Address, key: DataKey) -> u32 {
        self.live_until[&(at.id, Some(key))] - self.sequence
    }

    fn instance_ttl(&self, at: Address) -> u32 {
        self.live_until[&(at.id, None)] - self.sequence
    }

    // The contract's calls, by name.

    fn initialize(
        &mut self,
        at: Address,
        admin: Address,
        token: Address,
        platform: Address,
        timeout: u32,
    ) -> Result<(), Failure> {
        self.call(at, |e| OracleEscrow::initialize(e, admin, token, platform, timeout))
    }
    fn submit(&mut self, at: Address, payer: Address, id: u64, amount: i128) -> Result<(), Failure> {
        self.call(at, |e| OracleEscrow::submit(e, payer, id, amount))
    }
    fn deposit(&mut self, at: Address, payer: Address, amount: i128) -> Result<(), Failure> {
        self.call(at, |e| OracleEscrow::deposit(e, payer, amount))
    }
    fn withdraw_balance(&mut self, at: Address, payer: Address, amount: i128) -> Result<(), Failure> {
        self.call(at, |e| OracleEscrow::withdraw_balance(e, payer, amount))
    }
    fn charge(&mut self, at: Address, payer: Address, id: u64, amount: i128) -> Result<(), Failure> {
        self.call(at, |e| OracleEscrow::charge(e, payer, id, amount))
    }
    fn resolve(&mut self, at: Address, id: u64, workers: &[Address], losers: &[Address]) -> Result<(), Failure> {
        let (workers, losers) = (workers.to_vec(), losers.to_vec());
        self.call(at, |e| OracleEscrow::resolve(e, id, &workers, &losers))
    }
    fn refund(&mut self, at: Address, id: u64) -> Result<(), Failure> {
        self.call(at, |e| OracleEscrow::refund(e, id))
    }
    fn refund_timeout(&mut self, at: Address, id: u64) -> Result<(), Failure> {
        self.call(at, |e| OracleEscrow::refund_timeout(e, id))
    }
    fn stake(&mut self, at: Address, worker: Address, amount: i128) -> Result<(), Failure> {
        self.call(at, |e| OracleEscrow::stake(e, worker, amount))
    }
    fn begin_unstake(&mut self, at: Address, worker: Address, amount: i128) -> Result<u32, Failure> {
        self.call(at, |e| OracleEscrow::begin_unstake(e, worker, amount))
    }
    fn complete_unstake(&mut self, at: Address, worker: Address) -> Result<i128, Failure> {
        self.call(at, |e| OracleEscrow::complete_unstake(e, worker))
    }
    fn withdraw(&mut self, at: Address, worker: Address, amount: i128) -> Result<i128, Failure> {
        self.call(at, |e| OracleEscrow::withdraw(e, worker, amount))
    }
    fn question(&self, at: Address, id: u64) -> Result<Question, ContractError> {
        OracleEscrow::get_question(&self.env(at), id)
    }
    fn status(&self, at: Address, id: u64) -> Status {
        self.question(at, id).unwrap().status
    }
    fn get_owed(&self, at: Address, worker: Address) -> i128 {
        OracleEscrow::get_owed(&self.env(at), worker)
    }
    fn get_stake(&self, at: Address, worker: Address) -> i128 {
        OracleEscrow::get_stake(&self.env(at), worker)
    }
    fn get_matured_stake(&self, at: Address, worker: Address) -> i128 {
        OracleEscrow::get_matured_stake(&self.env(at), worker)
    }
    fn get_stake_info(&self, at: Address, worker: Address) -> StakeInfo {
        OracleEscrow::get_stake_info(&self.env(at), worker)
    }
    fn get_balance(&self, at: Address, payer: Address) -> i128 {
        OracleEscrow::get_balance(&self.env(at), payer)
    }
    fn pending_upgrade(&self, at: Address) -> Option<PendingUpgrade> {
        OracleEscrow::get_pending_upgrade(&self.env(at))
    }
}

#[test]
fn test_reward_table() {
    assert_eq!(EscrowContract::reward(Severity::Low), 10);
    assert_eq!(EscrowContract::reward(Severity::Medium), 50);
    assert_eq!(EscrowContract::reward(Severity::High), 100);
    assert_eq!(EscrowContract::reward(Severity::Critical), 500);
}

// ---------------------------------------------------------------------------
// Migration: two instances on one token.
// ---------------------------------------------------------------------------

const AMOUNT: i128 = 2_500_000;
const WINDOW: u32 = 1_000;

struct Pair {
    host: Host,
    token: Address,
    old: Address,
    new: Address,
    old_admin: Address,
    new_admin: Address,
    payers: Vec<Address>,
}

fn escrow(host: &mut Host, admin: Address, token: Address) -> Address {
    let id = host.register();
    let platform = host.generate();
    host.signers = None;
    host.initialize(id, admin, token, platform, WINDOW).unwrap();
    id
}

/// Two initialized escrows on the same token, `n` pending questions (ids 1..=n, one payer each)
/// on the old one, and the new one already pointed at the old one. Leaves nobody signing.
fn pair(n: u64) -> Pair {
    let mut host = Host::new(10_000);
    let token = host.token();
    let old_admin = host.generate();
    let new_admin = host.generate();
    let old = escrow(&mut host, old_admin, token);
    let new = escrow(&mut host, new_admin, token);
    let mut payers = Vec::new();
    for id in 1..=n {
        let payer = host.generate();
        host.mint(token, payer, AMOUNT * id as i128);
        host.submit(old, payer, id, AMOUNT * id as i128).unwrap();
        payers.push(payer);
    }
    host.call(new, |e| OracleEscrow::set_migration_source(e, old)).unwrap();
    host.signers = Some(Vec::new());
    Pair { host, token, old, new, old_admin, new_admin, payers }
}

/// Calls migrate_pending with only the source administrator's signature.
fn try_migrate_to(p: &mut Pair, batch: &[u64], target: Address) -> Result<i128, ContractError> {
    let batch = batch.to_vec();
    p.host.signers = Some(vec![p.old_admin]);
    let res = p.host.call(p.old, |e| OracleEscrow::migrate_pending(e, &batch, target));
    p.host.signers = Some(Vec::new());
    match res {
        Ok(v) => Ok(v),
        Err(Contract(e)) => Err(e),
        Err(Refused) => panic!("host error, not a contract error"),
    }
}

fn try_migrate(p: &mut Pair, batch: &[u64]) -> Result<i128, ContractError> {
    let target = p.new;
    try_migrate_to(p, batch, target)
}

fn bal(p: &Pair, who: Address) -> i128 {
    p.host.balance(p.token, who)
}

fn pending_ids(host: &Host, contract: Address) -> BTreeSet<u64> {
    let env = host.env(contract);
    let mut out = BTreeSet::new();
    let mut start = 0;
    loop {
        let page = OracleEscrow::list_pending(&env, start, 3);
        if page.is_empty() {
            break;
        }
        for id in page {
            assert!(out.insert(id), "list_pending returned {id} twice");
        }
        start += 3;
    }
    assert_eq!(out.len() as u32, OracleEscrow::pending_count(&env));
    out
}

fn sum_pending(host: &Host, contract: Address) -> i128 {
    pending_ids(host, contract).iter().map(|id| host.question(contract, *id).unwrap().amount).sum()
}

#[test]
fn list_pending_enumerates_every_pending_question_across_pages() {
    let p = pair(7);
    assert_eq!(pending_ids(&p.host, p.old), (1..=7).collect());
    assert_eq!(pending_ids(&p.host, p.new), Default::default());
}

#[test]
fn settled_questions_leave_the_index_and_the_rest_stay_listed() {
    let mut p = pair(6);
    p.host.signers = None;
    let w = p.host.generate();
    p.host.resolve(p.old, 1, &[w], &[]).unwrap(); // head
    p.host.refund(p.old, 6).unwrap(); // tail
    p.host.refund(p.old, 3).unwrap(); // middle
    p.host.sequence = 10_000 + WINDOW;
    p.host.refund_timeout(p.old, 4).unwrap();

    assert_eq!(pending_ids(&p.host, p.old), [2u64, 5].into_iter().collect());
    let payer = p.payers[0];
    p.host.mint(p.token, payer, 1);
    assert_eq!(
        p.host.submit(p.old, payer, 1, 1),
        Err(Contract(ContractError::QuestionAlreadyExists))
    );
}

#[test]
fn list_pending_clamps_the_page_size_and_tolerates_out_of_range_starts() {
    let p = pair(3);
    let env = p.host.env(p.old);
    assert_eq!(OracleEscrow::list_pending(&env, 0, u32::MAX).len(), 3);
    assert_eq!(OracleEscrow::list_pending(&env, 3, 10).len(), 0);
    assert_eq!(OracleEscrow::list_pending(&env, u32::MAX, u32::MAX).len(), 0);
}

#[test]
fn list_pending_page_is_capped_at_max_pending_page() {
    let mut host = Host::new(0);
    let token = host.token();
    let admin = host.generate();
    let id = escrow(&mut host, admin, token);
    let payer = host.generate();
    host.mint(token, payer, 1_000);
    for q in 0..(MAX_PENDING_PAGE as u64 + 5) {
        host.submit(id, payer, q, 1).unwrap();
    }
    let env = host.env(id);
    assert_eq!(OracleEscrow::list_pending(&env, 0, 1_000).len() as u32, MAX_PENDING_PAGE);
    assert_eq!(OracleEscrow::list_pending(&env, MAX_PENDING_PAGE, 1_000).len(), 5);
}

#[test]
fn opened_and_settled_events_let_an_indexer_rebuild_the_pending_set() {
    let mut host = Host::new(0);
    let token = host.token();
    let admin = host.generate();
    let id = escrow(&mut host, admin, token);
    let payer = host.generate();
    host.mint(token, payer, AMOUNT * 3);

    let mut indexed = BTreeSet::new();
    let mut apply_events = |host: &Host| {
        for (contract, event) in &host.events {
            if *contract != id {
                continue;
            }
            match event {
                Event::Opened(opened) => {
                    indexed.insert(opened.question_id);
                }
                Event::Settled(settled) => {
                    indexed.remove(&settled.question_id);
                }
                _ => {}
            }
        }
        indexed.clone()
    };

    host.submit(id, payer, 1, AMOUNT).unwrap();
    assert_eq!(apply_events(&host), pending_ids(&host, id));
    host.submit(id, payer, 2, AMOUNT).unwrap();
    assert_eq!(apply_events(&host), pending_ids(&host, id));
    host.refund(id, 1).unwrap();
    assert_eq!(apply_events(&host), pending_ids(&host, id));
    assert_eq!(indexed, [2u64].into_iter().collect());
}

#[test]
fn migrate_moves_funds_and_questions_with_their_original_deadlines() {
    let mut p = pair(3);
    let before: Vec<Question> = (1..=3).map(|id| p.host.question(p.old, id).unwrap()).collect();
    p.host.sequence = 10_500; // migrate mid-way through the timeout

    let moved = try_migrate(&mut p, &[1, 3]).unwrap();

    assert_eq!(moved, AMOUNT * 4);
    assert_eq!(bal(&p, p.old), AMOUNT * 2);
    assert_eq!(bal(&p, p.new), AMOUNT * 4);
    assert_eq!(p.host.status(p.old, 1), Status::Migrated);
    assert_eq!(p.host.status(p.old, 3), Status::Migrated);
    assert_eq!(p.host.status(p.old, 2), Status::Pending);
    for id in [1u64, 3] {
        let q = p.host.question(p.new, id).unwrap();
        let orig = &before[(id - 1) as usize];
        assert_eq!(q.status, Status::Pending);
        assert_eq!(q.payer, orig.payer);
        assert_eq!(q.amount, orig.amount);
        assert_eq!(q.created_at, orig.created_at, "deadline must not move");
        assert_eq!(q.timeout_ledgers, orig.timeout_ledgers);
        assert_eq!(q.deadline(), orig.deadline());
    }
    assert_eq!(pending_ids(&p.host, p.old), [2u64].into_iter().collect());
    assert_eq!(pending_ids(&p.host, p.new), [1u64, 3].into_iter().collect());
}

#[test]
fn migrated_question_keeps_its_escape_hatch_on_the_original_schedule() {
    let mut p = pair(1);
    p.host.sequence = 10_000 + WINDOW - 1;
    try_migrate(&mut p, &[1]).unwrap();

    assert_eq!(
        p.host.refund_timeout(p.new, 1),
        Err(Contract(ContractError::TooEarlyForTimeout))
    );
    p.host.sequence = 10_000 + WINDOW;
    p.host.refund_timeout(p.new, 1).unwrap();
    assert_eq!(bal(&p, p.payers[0]), AMOUNT);
}

#[test]
fn migrated_question_settles_normally_on_the_target_and_is_dead_on_the_source() {
    let mut p = pair(1);
    try_migrate(&mut p, &[1]).unwrap();
    p.host.signers = None;
    let w = p.host.generate();

    let dead = Err(Contract(ContractError::QuestionNotPending));
    assert_eq!(p.host.resolve(p.old, 1, &[w], &[]), dead);
    assert_eq!(p.host.refund(p.old, 1), dead);
    p.host.sequence = 10_000 + WINDOW;
    assert_eq!(p.host.refund_timeout(p.old, 1), dead);

    p.host.resolve(p.new, 1, &[w], &[]).unwrap();
    assert_eq!(p.host.get_owed(p.new, w), AMOUNT * 8 / 10);
}

#[test]
fn two_instances_stay_apart_through_calls_on_both_and_batches_between_them() {
    let mut p = pair(4);
    let payer = p.payers[0];
    let worker = p.host.generate();
    let balanced = |p: &Pair| {
        for side in [p.old, p.new] {
            let owed = p.host.get_owed(side, worker);
            let held = sum_pending(&p.host, side) + owed + p.host.get_balance(side, payer);
            assert_eq!(bal(p, side), held);
        }
        assert!(pending_ids(&p.host, p.old).is_disjoint(&pending_ids(&p.host, p.new)));
        for id in 1..=4 {
            if let Ok(there) = p.host.question(p.new, id) {
                let here = p.host.question(p.old, id).unwrap();
                assert_eq!(here, Question { status: Status::Migrated, ..there });
            }
        }
    };
    assert_eq!(try_migrate(&mut p, &[2]), Ok(2 * AMOUNT));
    balanced(&p);
    p.host.signers = None;
    p.host.mint(p.token, payer, 2 * AMOUNT);
    p.host.submit(p.new, payer, 50, AMOUNT).unwrap();
    p.host.deposit(p.old, payer, AMOUNT).unwrap();
    p.host.refund(p.old, 1).unwrap();
    p.host.resolve(p.new, 2, &[worker], &[]).unwrap();
    balanced(&p);
    assert_eq!(try_migrate(&mut p, &[3, 1]), Err(ContractError::QuestionNotPending));
    assert_eq!(try_migrate(&mut p, &[3, 2]), Err(ContractError::QuestionNotPending));
    balanced(&p);
    p.host.sequence += WINDOW;
    assert_eq!(try_migrate(&mut p, &[4, 3]), Ok(7 * AMOUNT));
    balanced(&p);
    p.host.refund_timeout(p.new, 3).unwrap();
    let dead = Err(Contract(ContractError::QuestionNotPending));
    assert_eq!(p.host.refund_timeout(p.old, 3), dead);
    balanced(&p);
    assert_eq!(pending_ids(&p.host, p.old), Default::default());
    assert_eq!(pending_ids(&p.host, p.new), BTreeSet::from([4, 50]));
}

#[test]
fn migration_needs_only_the_source_admins_signature() {
    let mut p = pair(2);
    try_migrate(&mut p, &[1, 2]).unwrap();
    assert_eq!(p.host.asked, vec![p.old_admin], "only one signer");
}

#[test]
fn migration_without_the_source_admin_fails() {
    let mut p = pair(1);
    let (batch, target) = (vec![1u64], p.new);
    let res = p.host.call(p.old, |e| OracleEscrow::migrate_pending(e, &batch, target));
    assert!(res.is_err());
    assert_eq!(bal(&p, p.old), AMOUNT);
}

/// Every failure below must leave both contracts exactly as they were.
fn assert_batch_reverts(p: &mut Pair, batch: &[u64], expected: ContractError) {
    let snapshot = |p: &Pair| {
        (bal(p, p.old), bal(p, p.new), pending_ids(&p.host, p.old), pending_ids(&p.host, p.new))
    };
    let before = snapshot(p);
    assert_eq!(try_migrate(p, batch), Err(expected));
    assert_eq!(snapshot(p), before);
}

#[test]
fn a_bad_id_anywhere_in_the_batch_reverts_the_whole_batch() {
    let mut p = pair(3);
    assert_batch_reverts(&mut p, &[1, 2, 99], ContractError::QuestionNotFound);
}

#[test]
fn a_duplicated_id_in_the_batch_reverts_the_whole_batch() {
    let mut p = pair(3);
    assert_batch_reverts(&mut p, &[1, 2, 1], ContractError::QuestionNotPending);
}

#[test]
fn re_running_an_already_migrated_batch_moves_nothing() {
    let mut p = pair(3);
    try_migrate(&mut p, &[1, 2]).unwrap();
    assert_batch_reverts(&mut p, &[1, 2], ContractError::QuestionNotPending);
    assert_batch_reverts(&mut p, &[3, 1], ContractError::QuestionNotPending);
}

#[test]
fn an_id_that_already_exists_on_the_target_reverts_the_batch() {
    let mut p = pair(2);
    p.host.signers = None;
    let payer = p.host.generate();
    p.host.mint(p.token, payer, AMOUNT);
    p.host.submit(p.new, payer, 2, AMOUNT).unwrap(); // id 2 already taken
    p.host.signers = Some(Vec::new());

    assert_batch_reverts(&mut p, &[1, 2], ContractError::QuestionAlreadyExists);
    assert_eq!(pending_ids(&p.host, p.old), [1u64, 2].into_iter().collect());
}

#[test]
fn a_target_that_has_not_named_this_source_refuses_the_import() {
    let mut p = pair(1);
    p.host.signers = None;
    p.host.call(p.new, OracleEscrow::clear_migration_source).unwrap();
    assert_eq!(OracleEscrow::get_migration_source(&p.host.env(p.new)), None);
    p.host.signers = Some(Vec::new());
    assert_batch_reverts(&mut p, &[1], ContractError::MigrationNotAuthorized);
    assert_eq!(bal(&p, p.new), 0);
}

#[test]
fn a_target_on_a_different_token_refuses_the_import() {
    let mut p = pair(1);
    p.host.signers = None;
    let other_token = p.host.token();
    let new_admin = p.new_admin;
    let other = escrow(&mut p.host, new_admin, other_token);
    let old = p.old;
    p.host.call(other, |e| OracleEscrow::set_migration_source(e, old)).unwrap();
    p.host.signers = Some(Vec::new());

    assert_eq!(OracleEscrow::get_token(&p.host.env(other)), Ok(other_token));
    assert_eq!(try_migrate_to(&mut p, &[1], other), Err(ContractError::TokenMismatch));
    assert_eq!(bal(&p, p.old), AMOUNT);
}

#[test]
fn migrating_to_itself_is_rejected() {
    let mut p = pair(1);
    let old = p.old;
    assert_eq!(try_migrate_to(&mut p, &[1], old), Err(ContractError::InvalidMigrationTarget));
}

#[test]
fn nobody_but_the_named_source_contract_can_import() {
    let mut p = pair(1);
    let attacker = p.host.generate();
    let (payer, token, old) = (p.payers[0], p.token, p.old);

    // Wrong source: rejected before anything else.
    let res = p.host.call(p.new, |e| {
        OracleEscrow::import_question(e, attacker, token, 50, payer, AMOUNT, 1, WINDOW)
    });
    assert_eq!(res, Err(Contract(ContractError::MigrationNotAuthorized)));
    // Right source, but called by someone else: the source's signature is missing.
    let res = p.host.call(p.new, |e| {
        OracleEscrow::import_question(e, old, token, 50, payer, AMOUNT, 1, WINDOW)
    });
    assert!(res.is_err());
    assert!(p.host.question(p.new, 50).is_err());
}

#[test]
fn import_cannot_mint_a_question_without_funds_actually_arriving() {
    // Even with the source's signature for the import itself, the target pulls the amount, so
    // without the source also allowing that exact transfer, the import fails.
    let mut p = pair(1);
    let (payer, token, old) = (p.payers[0], p.token, p.old);
    p.host.signers = Some(vec![old]);
    p.host.covers_transfers = false;
    let res = p.host.call(p.new, |e| {
        OracleEscrow::import_question(e, old, token, 50, payer, AMOUNT, 1, WINDOW)
    });
    assert_eq!(res, Err(Refused));
    assert!(p.host.question(p.new, 50).is_err());
    assert_eq!(bal(&p, p.old), AMOUNT);
}

#[test]
fn migrate_emits_a_migrated_event_per_question() {
    let mut p = pair(2);
    try_migrate(&mut p, &[1, 2]).unwrap();
    let migrated: Vec<QuestionMigrated> = p
        .host
        .events
        .iter()
        .filter_map(|(c, e)| match e {
            Event::Migrated(m) if *c == p.old => Some(*m),
            _ => None,
        })
        .collect();
    assert_eq!(migrated.len(), 2);
    assert_eq!(migrated[1], QuestionMigrated { question_id: 2, target: p.new, amount: AMOUNT * 2 });
}

struct Rng(u64);

impl Rng {
    fn next(&mut self) -> u64 {
        self.0 ^= self.0 >> 12;
        self.0 ^= self.0 << 25;
        self.0 ^= self.0 >> 27;
        self.0.wrapping_mul(0x2545_f491_4f6c_dd1d)
    }
    fn below(&mut self, n: u64) -> u64 {
        self.next() % n
    }
}

fn check_invariants(p: &Pair, owed: &BTreeMap<u8, i128>, total_paid_out: i128, total_in: i128) {
    let old_p = pending_ids(&p.host, p.old);
    let new_p = pending_ids(&p.host, p.new);
    // No question is pending in both places.
    assert!(old_p.is_disjoint(&new_p));
    // Each contract holds exactly its pending escrow plus what it owes workers.
    let old_owed: i128 = owed.get(&0).copied().unwrap_or(0);
    let new_owed: i128 = owed.get(&1).copied().unwrap_or(0);
    assert_eq!(bal(p, p.old), sum_pending(&p.host, p.old) + old_owed);
    assert_eq!(bal(p, p.new), sum_pending(&p.host, p.new) + new_owed);
    // Nothing is created or destroyed.
    assert_eq!(bal(p, p.old) + bal(p, p.new) + total_paid_out, total_in);
    for id in old_p.iter() {
        assert!(p.host.question(p.new, *id).is_err());
    }
}

#[test]
fn randomized_migration_never_loses_or_duplicates_funds() {
    for seed in 1..=8u64 {
        let n = 24;
        let mut p = pair(n);
        let mut rng = Rng(seed.wrapping_mul(0x9e37_79b9_7f4a_7c15));
        let total_in: i128 = (1..=n as i128).map(|i| AMOUNT * i).sum();
        let mut paid_out: i128 = 0;
        // What each contract owes the one worker, by side.
        let mut owed: BTreeMap<u8, i128> = BTreeMap::new();
        let worker = p.host.generate();

        for _step in 0..40 {
            let old_pending: Vec<u64> = pending_ids(&p.host, p.old).into_iter().collect();
            match rng.below(5) {
                0..=2 if !old_pending.is_empty() => {
                    let mut batch: Vec<u64> =
                        old_pending.iter().filter(|_| rng.below(2) == 0).copied().take(5).collect();
                    if batch.is_empty() {
                        batch.push(old_pending[0]);
                    }
                    let poisoned = rng.below(4) == 0;
                    if poisoned {
                        batch.push(if rng.below(2) == 0 { 10_000 } else { batch[0] });
                    }
                    let res = try_migrate(&mut p, &batch);
                    assert_eq!(res.is_err(), poisoned, "batch {batch:?} -> {res:?}");
                }
                3 => {
                    let (side, tag) = if rng.below(2) == 0 { (p.old, 0u8) } else { (p.new, 1) };
                    let pend: Vec<u64> = pending_ids(&p.host, side).into_iter().collect();
                    if let Some(id) = pend.first() {
                        p.host.signers = None;
                        let amount = p.host.question(side, *id).unwrap().amount;
                        p.host.resolve(side, *id, &[worker], &[]).unwrap();
                        p.host.signers = Some(Vec::new());
                        let fee = amount * PLATFORM_FEE_BPS / BPS_DENOM;
                        *owed.entry(tag).or_default() += amount - fee;
                        paid_out += fee;
                    }
                }
                _ => {
                    let side = if rng.below(2) == 0 { p.old } else { p.new };
                    let pend: Vec<u64> = pending_ids(&p.host, side).into_iter().collect();
                    if let Some(id) = pend.last() {
                        p.host.signers = None;
                        paid_out += p.host.question(side, *id).unwrap().amount;
                        p.host.refund(side, *id).unwrap();
                        p.host.signers = Some(Vec::new());
                    }
                }
            }
            check_invariants(&p, &owed, paid_out, total_in);
        }
    }
}

// ---------------------------------------------------------------------------
// Lifetimes.
// ---------------------------------------------------------------------------

const TESTNET_MIN_PERSISTENT_TTL: u32 = 120_960;
const TESTNET_MAX_ENTRY_TTL: u32 = 3_110_400;

struct World {
    host: Host,
    id: Address,
    token: Address,
    payer: Address,
    admin: Address,
}

fn world(timeout_ledgers: u32) -> World {
    let mut host = Host::new(0);
    host.min_ttl = TESTNET_MIN_PERSISTENT_TTL;
    host.max_ttl = TESTNET_MAX_ENTRY_TTL - 1;
    let admin = host.generate();
    let platform = host.generate();
    let payer = host.generate();
    let token = host.token();
    host.mint(token, payer, AMOUNT * 10);
    let id = host.register();
    host.initialize(id, admin, token, platform, timeout_ledgers).unwrap();
    World { host, id, token, payer, admin }
}

/// Puts a question with a longer window than any call accepts among the stored entries, and has
/// its lifetime extended.
fn store_with_window(w: &mut World, id: u64, timeout_ledgers: u32) {
    let payer = w.payer;
    w.host.submit(w.id, payer, id, AMOUNT).unwrap();
    let stored = w.host.instances.get_mut(&w.id.id).unwrap();
    stored.questions.get_mut(&id).unwrap().timeout_ledgers = timeout_ledgers;
    w.host.call(w.id, |e| OracleEscrow::touch_question(e, id)).unwrap();
}

#[test]
fn fresh_question_ttl_now_reaches_the_persistent_target() {
    let mut w = world(100);
    w.host.submit(w.id, w.payer, 1, AMOUNT).unwrap();
    assert_eq!(w.host.ttl(w.id, DataKey::Question(1)), PERSISTENT_TTL_EXTEND_TO);
}

#[test]
fn question_ttl_covers_its_refund_deadline_plus_grace_even_for_long_timeouts() {
    let timeout = 1_000_000;
    let mut w = world(100);
    store_with_window(&mut w, 1, timeout);
    let ttl = w.host.ttl(w.id, DataKey::Question(1));
    assert_eq!(ttl, timeout + REFUND_GRACE_LEDGERS);
}

#[test]
fn question_ttl_is_clamped_to_the_network_max_for_absurd_timeouts() {
    let mut w = world(100);
    store_with_window(&mut w, 1, u32::MAX / 2);
    assert_eq!(w.host.ttl(w.id, DataKey::Question(1)), TESTNET_MAX_ENTRY_TTL - 1);
}

#[test]
fn instance_ttl_is_extended_by_ordinary_use() {
    let mut w = world(100);
    assert_eq!(w.host.instance_ttl(w.id), INSTANCE_TTL_EXTEND_TO, "initialize already extends it");
    w.host.sequence += 2 * DAY_LEDGERS;
    w.host.submit(w.id, w.payer, 1, AMOUNT).unwrap();
    assert_eq!(w.host.instance_ttl(w.id), INSTANCE_TTL_EXTEND_TO);
}

#[test]
fn pending_index_entries_live_as_long_as_the_question_needs() {
    let mut w = world(100);
    w.host.submit(w.id, w.payer, 7, AMOUNT).unwrap();
    assert_eq!(w.host.ttl(w.id, DataKey::PendingPos(7)), PERSISTENT_TTL_EXTEND_TO);
    assert_eq!(w.host.ttl(w.id, DataKey::PendingAt(0)), PERSISTENT_TTL_EXTEND_TO);
    assert_eq!(w.host.ttl(w.id, DataKey::PendingCount), PERSISTENT_TTL_EXTEND_TO);
}

#[test]
fn touch_question_is_permissionless_and_re_extends_a_decayed_entry() {
    let mut w = world(100);
    w.host.submit(w.id, w.payer, 1, AMOUNT).unwrap();
    w.host.sequence += 300_000;
    assert_eq!(w.host.ttl(w.id, DataKey::Question(1)), PERSISTENT_TTL_EXTEND_TO - 300_000);

    w.host.signers = Some(Vec::new());
    w.host.call(w.id, |e| OracleEscrow::touch_question(e, 1)).unwrap();
    assert!(w.host.asked.is_empty(), "touch_question must not require anyone's auth");
    assert_eq!(w.host.ttl(w.id, DataKey::Question(1)), PERSISTENT_TTL_EXTEND_TO);
    assert_eq!(w.host.ttl(w.id, DataKey::PendingPos(1)), PERSISTENT_TTL_EXTEND_TO);
    assert_eq!(w.host.ttl(w.id, DataKey::PendingAt(0)), PERSISTENT_TTL_EXTEND_TO);
    assert_eq!(w.host.ttl(w.id, DataKey::PendingCount), PERSISTENT_TTL_EXTEND_TO);
    assert_eq!(w.host.instance_ttl(w.id), INSTANCE_TTL_EXTEND_TO);
}

#[test]
fn touch_question_on_unknown_id_fails() {
    let mut w = world(100);
    let res = w.host.call(w.id, |e| OracleEscrow::touch_question(e, 42));
    assert_eq!(res, Err(Contract(ContractError::QuestionNotFound)));
}

#[test]
fn touch_now_also_covers_a_payers_prepaid_balance() {
    let mut w = world(100);
    w.host.deposit(w.id, w.payer, AMOUNT).unwrap();
    w.host.sequence += 300_000;
    let payer = w.payer;
    w.host.call(w.id, |e| OracleEscrow::touch(e, payer)).unwrap();
    assert_eq!(w.host.ttl(w.id, DataKey::Balance(payer)), PERSISTENT_TTL_EXTEND_TO);
}

#[test]
fn touch_covers_stake_and_earnings_and_ignores_strangers() {
    let mut w = world(100);
    let worker = w.host.generate();
    w.host.mint(w.token, worker, 500);
    w.host.stake(w.id, worker, 500).unwrap();
    w.host.submit(w.id, w.payer, 1, AMOUNT).unwrap();
    w.host.resolve(w.id, 1, &[worker], &[]).unwrap();
    w.host.sequence += 300_000;
    w.host.signers = Some(Vec::new());
    let stranger = w.host.generate();
    w.host.call(w.id, |e| OracleEscrow::touch(e, stranger)).unwrap();
    assert_eq!(w.host.ttl(w.id, DataKey::Stake(worker)), PERSISTENT_TTL_EXTEND_TO - 300_000);
    w.host.call(w.id, |e| OracleEscrow::touch(e, worker)).unwrap();
    assert_eq!(w.host.ttl(w.id, DataKey::Stake(worker)), PERSISTENT_TTL_EXTEND_TO);
    assert_eq!(w.host.ttl(w.id, DataKey::Owed(worker)), PERSISTENT_TTL_EXTEND_TO);
    assert!(w.host.asked.is_empty());
}

#[test]
fn current_archived_pending_question_refunds_via_auto_restore() {
    let mut w = world(100);
    w.host.submit(w.id, w.payer, 1, AMOUNT).unwrap();
    let payer_before = w.host.balance(w.token, w.payer);
    w.host.sequence = w.host.live_until.values().max().unwrap() + 1;

    w.host.refund_timeout(w.id, 1).unwrap();

    // Question, three index entries and the instance.
    assert!(w.host.disk_reads >= 5, "expected restores, got {}", w.host.disk_reads);
    assert_eq!(w.host.balance(w.token, w.payer), payer_before + AMOUNT);
    assert_eq!(w.host.status(w.id, 1), Status::Refunded);
    assert_eq!(OracleEscrow::pending_count(&w.host.env(w.id)), 0);
    assert_eq!(w.host.ttl(w.id, DataKey::Question(1)), PERSISTENT_TTL_EXTEND_TO);
}

#[test]
fn a_live_question_refund_reads_nothing_from_disk() {
    let mut w = world(100);
    w.host.submit(w.id, w.payer, 1, AMOUNT).unwrap();
    w.host.sequence += 100;
    w.host.refund_timeout(w.id, 1).unwrap();
    assert_eq!(w.host.disk_reads, 0);
}

#[test]
fn archived_question_can_still_be_resolved_by_the_backend() {
    let mut w = world(100);
    w.host.submit(w.id, w.payer, 1, AMOUNT).unwrap();
    w.host.sequence += PERSISTENT_TTL_EXTEND_TO + 1;
    let winner = w.host.generate();
    w.host.resolve(w.id, 1, &[winner], &[]).unwrap();
    assert!(w.host.disk_reads > 0);
    assert_eq!(w.host.get_owed(w.id, winner), 2_000_000);
}

// ---------------------------------------------------------------------------
// Upgrades.
// ---------------------------------------------------------------------------

/// The prepared instance under the simulated host, with long lifetimes.
struct Upgradable {
    host: Host,
    id: Address,
    token: Address,
    payer: Address,
    platform: Address,
}

impl Upgradable {
    fn new() -> Upgradable {
        let fx: Fx = setup();
        let mut host = Host::new(1_000);
        host.min_ttl = 1_000_000;
        host.max_ttl = 5_999_999;
        host.next_id = 1_000;
        let id = fx.client().this;
        host.live_until.insert((id.id, None), 1_000 + host.min_ttl - 1);
        host.banks.insert(fx.token.id, fx.bank);
        host.instances.insert(id.id, fx.env);
        Upgradable { host, id, token: fx.token, payer: fx.payer, platform: fx.platform }
    }
    fn propose(&mut self, byte: u8) -> Result<(), Failure> {
        self.host.call(self.id, |e| OracleEscrow::propose_upgrade(e, fake_hash(byte)))
    }
    fn cancel(&mut self) -> Result<(), Failure> {
        self.host.call(self.id, OracleEscrow::cancel_upgrade)
    }
    fn execute(&mut self) -> Result<(), Failure> {
        self.host.call(self.id, OracleEscrow::execute_upgrade)
    }
    fn pending(&self) -> Option<PendingUpgrade> {
        self.host.pending_upgrade(self.id)
    }
    fn submit(&mut self, id: u64) -> Result<(), Failure> {
        self.host.submit(self.id, self.payer, id, AMOUNT)
    }
    fn question(&self, id: u64) -> Question {
        self.host.question(self.id, id).unwrap()
    }
    fn set_timeout(&mut self, ledgers: u32) -> Result<(), Failure> {
        self.host.call(self.id, |e| OracleEscrow::set_timeout_ledgers(e, ledgers))
    }
}

#[test]
fn fixture_is_set_up_and_moves_between_ledgers() {
    let mut fx = setup();
    assert_eq!(fx.client().sequence, 1_000);
    assert_eq!(OracleEscrow::get_timeout_ledgers(fx.client()), Ok(100));
    assert_eq!(fx.tc(fx.payer), 2_500_000 * 100);
    fx.mint(addr(77), 5);
    assert_eq!(fx.tc(addr(77)), 5);
    fx.advance_to(2_000);
    assert_eq!(fx.client().sequence, 2_000);
    assert_eq!(fake_hash(9), [9u8; 32]);
}

#[test]
fn version_reports_the_compiled_contract_version() {
    let fx = setup();
    assert_eq!(OracleEscrow::version(fx.client()), CONTRACT_VERSION);
    assert_eq!(CONTRACT_VERSION, 1);
}

#[test]
fn propose_upgrade_schedules_it_after_the_delay_and_announces_it() {
    let mut u = Upgradable::new();
    assert_eq!(u.pending(), None);
    let hash = fake_hash(1);
    u.propose(1).unwrap();
    let (emitter, event) = *u.host.events.last().unwrap();
    assert_eq!(emitter, u.id);
    assert_eq!(
        event,
        Event::Proposed(UpgradeProposed {
            wasm_hash: hash,
            executable_at: 1_000 + UPGRADE_DELAY_LEDGERS
        })
    );
    assert_eq!(
        u.pending(),
        Some(PendingUpgrade { wasm_hash: hash, executable_at: 1_000 + UPGRADE_DELAY_LEDGERS })
    );
}

#[test]
fn only_the_admin_can_propose_cancel_or_execute() {
    let mut u = Upgradable::new();
    let stranger = u.host.generate();
    u.host.signers = Some(vec![stranger]);
    assert!(u.propose(1).is_err());
    assert_eq!(u.pending(), None);

    u.host.signers = None;
    u.propose(1).unwrap();
    u.host.signers = Some(vec![stranger]);
    assert!(u.cancel().is_err(), "cancel_upgrade accepted a non-admin");
    assert!(u.execute().is_err(), "execute_upgrade accepted a non-admin");
    assert!(u.pending().is_some());
}

#[test]
fn execute_upgrade_is_rejected_until_the_delay_has_passed() {
    let mut u = Upgradable::new();
    u.propose(1).unwrap();
    for seq in [1_000, 1_000 + UPGRADE_DELAY_LEDGERS - 1] {
        u.host.sequence = seq;
        assert_eq!(u.execute(), Err(Contract(ContractError::UpgradeNotReady)));
    }
    assert!(u.pending().is_some());
}

#[test]
fn nothing_to_cancel_or_execute_without_a_proposal() {
    let mut u = Upgradable::new();
    assert_eq!(u.execute(), Err(Contract(ContractError::NoUpgradePending)));
    assert_eq!(u.cancel(), Err(Contract(ContractError::NoUpgradePending)));
}

#[test]
fn cancel_upgrade_drops_the_proposal_for_good() {
    let mut u = Upgradable::new();
    u.propose(1).unwrap();
    u.cancel().unwrap();
    assert_eq!(
        u.host.events.last().unwrap().1,
        Event::Cancelled(UpgradeCancelled { wasm_hash: fake_hash(1) })
    );
    assert_eq!(u.pending(), None);
    u.host.sequence = 1_000 + UPGRADE_DELAY_LEDGERS;
    assert_eq!(u.execute(), Err(Contract(ContractError::NoUpgradePending)));
    assert_eq!(OracleEscrow::version(&u.host.env(u.id)), CONTRACT_VERSION);
}

#[test]
fn re_proposing_replaces_the_hash_and_restarts_the_delay() {
    let mut u = Upgradable::new();
    u.propose(1).unwrap();
    u.host.sequence = 5_000;
    u.propose(2).unwrap();
    let p = u.pending().unwrap();
    assert_eq!(p.wasm_hash, fake_hash(2));
    assert_eq!(p.executable_at, 5_000 + UPGRADE_DELAY_LEDGERS);
    u.host.sequence = 1_000 + UPGRADE_DELAY_LEDGERS;
    assert_eq!(u.execute(), Err(Contract(ContractError::UpgradeNotReady)));
}

#[test]
fn a_failed_upgrade_is_fully_rolled_back() {
    let mut u = Upgradable::new();
    u.submit(1).unwrap();
    u.propose(9).unwrap();
    u.host.sequence = 1_000 + UPGRADE_DELAY_LEDGERS;

    assert!(u.execute().is_err());
    assert_eq!(u.pending().unwrap().wasm_hash, fake_hash(9));
    assert_eq!(OracleEscrow::version(&u.host.env(u.id)), CONTRACT_VERSION);

    u.host.refund_timeout(u.id, 1).unwrap();
    assert_eq!(u.question(1).status, Status::Refunded);
    assert_eq!(u.host.balance(u.token, u.id), 0);
}

#[test]
fn every_question_pending_at_proposal_time_can_escape_before_the_upgrade_can_run() {
    let mut u = Upgradable::new();
    u.set_timeout(MAX_TIMEOUT_LEDGERS).unwrap();
    u.submit(1).unwrap();
    u.propose(1).unwrap();
    let q = u.question(1);
    let executable_at = u.pending().unwrap().executable_at;
    let deadline = q.created_at + q.timeout_ledgers;
    assert!(deadline < executable_at);

    u.host.sequence = deadline;
    assert_eq!(u.execute(), Err(Contract(ContractError::UpgradeNotReady)));
    u.host.refund_timeout(u.id, 1).unwrap();
    assert_eq!(u.question(1).status, Status::Refunded);
}

#[test]
fn questions_opened_during_the_delay_get_a_window_that_closes_before_the_upgrade() {
    let mut u = Upgradable::new();
    let (id, payer) = (u.id, u.payer);
    u.set_timeout(MAX_TIMEOUT_LEDGERS).unwrap();
    u.propose(1).unwrap();
    let executable_at = u.pending().unwrap().executable_at;

    // Far from the upgrade: the configured timeout fits and is untouched.
    u.host.sequence = executable_at - MAX_TIMEOUT_LEDGERS - 1;
    u.submit(1).unwrap();
    assert_eq!(u.question(1).timeout_ledgers, MAX_TIMEOUT_LEDGERS);

    // Closer: clamped so the deadline lands at executable_at - 1.
    u.host.sequence = executable_at - 50;
    u.submit(2).unwrap();
    let q2 = u.question(2);
    assert_eq!(q2.timeout_ledgers, 49);
    assert_eq!(q2.created_at + q2.timeout_ledgers, executable_at - 1);

    // Same through charge().
    u.host.deposit(id, payer, AMOUNT).unwrap();
    u.host.charge(id, payer, 3, AMOUNT).unwrap();
    assert_eq!(u.question(3).timeout_ledgers, 49);

    // One ledger before the upgrade there is no window left: rejected clean, nothing moved.
    u.host.sequence = executable_at - 1;
    let before = u.host.balance(u.token, payer);
    assert_eq!(u.submit(4), Err(Contract(ContractError::UpgradeInProgress)));
    u.host.deposit(id, payer, AMOUNT).unwrap();
    assert_eq!(
        u.host.charge(id, payer, 5, AMOUNT),
        Err(Contract(ContractError::UpgradeInProgress))
    );
    assert_eq!(u.host.balance(u.token, payer), before - AMOUNT);
    assert_eq!(u.host.get_balance(id, payer), AMOUNT);

    // Clamped questions really are refundable while the old code runs.
    u.host.refund_timeout(id, 2).unwrap();
    u.host.refund_timeout(id, 3).unwrap();

    // Cancelling reopens submissions with the normal timeout.
    u.cancel().unwrap();
    u.submit(4).unwrap();
    assert_eq!(u.question(4).timeout_ledgers, MAX_TIMEOUT_LEDGERS);
}

/// An upgrade in place with questions in every state, then everything settled and drained. Every
/// unit is accounted for.
#[test]
fn worked_example_v1_to_v2_with_pending_questions() {
    let mut u = Upgradable::new();
    let (id, payer, platform, token) = (u.id, u.payer, u.platform, u.token);
    let payer_b = u.host.generate();
    u.host.mint(token, payer_b, AMOUNT * 2);
    let (w1, w2, w3) = (u.host.generate(), u.host.generate(), u.host.generate());
    let loser = u.host.generate();
    u.host.mint(token, loser, 1_000_000);
    let minted = AMOUNT * 100 + AMOUNT * 2 + 1_000_000;
    let everyone = [payer, payer_b, w1, w2, w3, loser, platform, id];

    u.host.stake(id, loser, 1_000_000).unwrap();
    u.submit(10).unwrap();
    u.host.resolve(id, 10, &[w1, w2], &[]).unwrap();
    u.submit(1).unwrap();
    u.host.deposit(id, payer_b, AMOUNT * 2).unwrap();
    u.host.charge(id, payer_b, 2, AMOUNT).unwrap();
    u.submit(3).unwrap();

    u.host.uploaded.push(fake_hash(2));
    u.propose(2).unwrap();
    let executable_at = u.pending().unwrap().executable_at;
    u.submit(4).unwrap();
    u.host.sequence = executable_at - 10;
    u.submit(5).unwrap();
    assert_eq!(u.question(5).timeout_ledgers, 9);

    u.host.refund_timeout(id, 3).unwrap();
    assert_eq!(u.execute(), Err(Contract(ContractError::UpgradeNotReady)));

    u.host.sequence = executable_at;
    let before: Vec<(u64, Status, i128)> = [1u64, 2, 3, 4, 5, 10]
        .iter()
        .map(|q| (*q, u.question(*q).status, u.question(*q).amount))
        .collect();
    let owed_before = (u.host.get_owed(id, w1), u.host.get_owed(id, w2));
    let balance_before = u.host.balance(token, id);
    u.execute().unwrap();
    assert_eq!(u.host.code[&id.id], fake_hash(2), "the new code is live at the same address");
    assert_eq!(
        u.host.events.last().unwrap().1,
        Event::Executed(UpgradeExecuted { wasm_hash: fake_hash(2) })
    );
    assert_eq!(u.pending(), None);

    for (q, status, amount) in before {
        assert_eq!((u.question(q).status, u.question(q).amount), (status, amount), "question {q}");
    }
    assert_eq!((u.host.get_owed(id, w1), u.host.get_owed(id, w2)), owed_before);
    assert_eq!(u.host.balance(token, id), balance_before);
    assert_eq!(u.host.get_stake(id, loser), 1_000_000);
    assert_eq!(u.host.get_balance(id, payer_b), AMOUNT);

    u.host.resolve(id, 1, &[w1, w3], &[loser]).unwrap();
    u.host.refund(id, 2).unwrap();
    u.host.resolve(id, 4, &[w2], &[]).unwrap();
    u.host.refund_timeout(id, 5).unwrap();
    for q in [1u64, 2, 3, 4, 5, 10] {
        assert_eq!(
            u.host.refund(id, q),
            Err(Contract(ContractError::QuestionNotPending)),
            "question {q}"
        );
    }

    for w in [w1, w2, w3] {
        let owed = u.host.get_owed(id, w);
        u.host.withdraw(id, w, owed).unwrap();
    }
    let stake = u.host.get_stake(id, loser);
    let release = u.host.begin_unstake(id, loser, stake).unwrap();
    u.host.sequence = release;
    u.host.complete_unstake(id, loser).unwrap();
    u.host.withdraw_balance(id, payer_b, AMOUNT).unwrap();

    let bal = |who: Address| u.host.balance(token, who);
    assert_eq!(bal(id), 0, "nothing left stuck in the contract");
    assert_eq!(everyone.iter().map(|a| bal(*a)).sum::<i128>(), minted, "nothing created or destroyed");
    let slash = 1_000_000 * 500 / 10_000;
    assert_eq!(bal(platform), 500_000 * 3 + slash);
    assert_eq!(bal(w1), 1_000_000 + 1_000_000);
    assert_eq!(bal(w2), 1_000_000 + 2_000_000);
    assert_eq!(bal(w3), 1_000_000);
    assert_eq!(bal(loser), 1_000_000 - slash);
    assert_eq!(bal(payer_b), AMOUNT * 2, "charged then refunded, rest withdrawn");
    assert_eq!(bal(payer), AMOUNT * 100 - AMOUNT * 3);
}

#[test]
fn upgrading_to_a_hash_that_was_never_uploaded_leaves_v1_running() {
    let mut u = Upgradable::new();
    u.submit(1).unwrap();
    u.propose(7).unwrap();
    u.host.sequence = 1_000 + UPGRADE_DELAY_LEDGERS;
    assert!(u.execute().is_err());
    assert_eq!(OracleEscrow::version(&u.host.env(u.id)), 1);
    assert!(u.pending().is_some());
    let w = u.host.generate();
    u.host.resolve(u.id, 1, &[w], &[]).unwrap();
    assert_eq!(u.question(1).status, Status::Resolved);
}

// ---------------------------------------------------------------------------
// Quorum size.
// ---------------------------------------------------------------------------

fn native_setup() -> (Host, Address, Address) {
    let mut host = Host::new(0);
    let token = host.token();
    let payer = host.generate();
    host.mint(token, payer, 1_000_000_000);
    let id = host.register();
    let (admin, platform) = (host.generate(), host.generate());
    host.initialize(id, admin, token, platform, 100).unwrap();
    host.submit(id, payer, 1, 1_000_000_000).unwrap();
    (host, id, token)
}

fn addresses(host: &mut Host, n: u32) -> Vec<Address> {
    (0..n).map(|_| host.generate()).collect()
}

#[test]
fn resolve_accepts_exactly_max_quorum_size() {
    let (mut host, id, _) = native_setup();
    let workers = addresses(&mut host, MAX_QUORUM_SIZE / 2);
    let losers = addresses(&mut host, MAX_QUORUM_SIZE - MAX_QUORUM_SIZE / 2);
    host.resolve(id, 1, &workers, &losers).unwrap();
    assert_eq!(host.status(id, 1), Status::Resolved);
}

#[test]
fn resolve_rejects_one_over_max_quorum_size_cleanly() {
    let (mut host, id, token) = native_setup();
    let before = host.balance(token, id);
    for (w, l) in [(MAX_QUORUM_SIZE + 1, 0), (1, MAX_QUORUM_SIZE), (MAX_QUORUM_SIZE, 1)] {
        let (workers, losers) = (addresses(&mut host, w), addresses(&mut host, l));
        let res = host.resolve(id, 1, &workers, &losers);
        assert_eq!(res, Err(Contract(ContractError::QuorumTooLarge)), "{w} + {l}");
    }
    assert_eq!(host.status(id, 1), Status::Pending);
    assert_eq!(host.balance(token, id), before);
    let workers = addresses(&mut host, 3);
    host.resolve(id, 1, &workers, &[]).unwrap();
    assert_eq!(host.status(id, 1), Status::Resolved);
}

#[test]
fn oversized_quorum_is_rejected_before_the_quadratic_duplicate_check() {
    let (mut host, id, _) = native_setup();
    let w = host.generate();
    let workers: Vec<Address> = (0..=MAX_QUORUM_SIZE).map(|_| w).collect();
    assert_eq!(host.resolve(id, 1, &workers, &[]), Err(Contract(ContractError::QuorumTooLarge)));
}

// ---------------------------------------------------------------------------
// Single rules and errors.
// ---------------------------------------------------------------------------

#[test]
fn a_resolution_pays_fee_dust_shares_and_slashes_exactly() {
    let mut w = world(100);
    let (id, token, payer) = (w.id, w.token, w.payer);
    let workers: Vec<Address> = (0..3).map(|_| w.host.generate()).collect();
    let (loser, unstaked) = (w.host.generate(), w.host.generate());
    w.host.mint(token, loser, 1_000_000);
    w.host.stake(id, loser, 1_000_000).unwrap();
    w.host.submit(id, payer, 1, 2_500_001).unwrap();
    w.host.resolve(id, 1, &workers, &[loser, unstaked]).unwrap();
    // fee 500_000, pool 2_000_001, share 666_667, dust 0, slash 50_000.
    for worker in &workers {
        assert_eq!(w.host.get_owed(id, *worker), 666_667);
    }
    assert_eq!(w.host.get_stake(id, loser), 950_000);
    assert_eq!(w.host.balance(token, id), 666_667 * 3 + 950_000);
    let settled: Vec<Event> = w.host.events.iter().map(|(_, e)| *e).collect();
    assert_eq!(
        settled,
        vec![Event::Settled(QuestionSettled { question_id: 1, status: Status::Resolved })]
    );
}

#[test]
fn a_resolution_stays_in_range_or_is_refused() {
    let mut w = world(100);
    let (id, token, payer) = (w.id, w.token, w.payer);
    let (worker, loser) = (w.host.generate(), w.host.generate());
    w.host.submit(id, payer, 1, 1_000).unwrap();
    w.host.mint(token, loser, 50);
    w.host.stake(id, loser, 50).unwrap();
    let in_range = |env: &Env, id: u64, workers: &[Address], losers: &[Address]| {
        OracleEscrow::resolve_in_range(env, id, &workers.to_vec(), &losers.to_vec())
    };
    let mut env = w.host.env(id);
    assert!(in_range(&env, 1, &[worker], &[loser]));
    // The worker is credited 800 of the 1,000.
    env.owed.insert(worker.id, i128::MAX - 800);
    assert!(in_range(&env, 1, &[worker], &[]));
    env.owed.insert(worker.id, i128::MAX - 799);
    assert!(!in_range(&env, 1, &[worker], &[]));
    // A call that is refused anyway computes nothing.
    assert!(in_range(&env, 2, &[worker], &[]));
    assert!(in_range(&env, 1, &[worker, worker], &[]));
    assert!(in_range(&env, 1, &[], &[loser]));
    let mut env = w.host.env(id);
    env.stakes.get_mut(&loser.id).unwrap().unbonding = i128::MAX / SLASH_BPS - 50;
    assert!(in_range(&env, 1, &[worker], &[loser]));
    env.stakes.get_mut(&loser.id).unwrap().unbonding += 1;
    assert!(!in_range(&env, 1, &[worker], &[loser]));
    assert!(in_range(&env, 1, &[worker], &[]));
    let mut env = w.host.env(id);
    env.questions.get_mut(&1).unwrap().amount = i128::MAX / BPS_DENOM;
    assert!(in_range(&env, 1, &[worker], &[]));
    env.questions.get_mut(&1).unwrap().amount += 1;
    assert!(!in_range(&env, 1, &[worker], &[]));
    env.questions.get_mut(&1).unwrap().status = Status::Refunded;
    assert!(in_range(&env, 1, &[worker], &[]));
    let mut env = w.host.env(id);
    env.pending_count = 2;
    assert!(!in_range(&env, 1, &[worker], &[]));
}

#[test]
fn a_quorum_is_admitted_by_its_size_alone() {
    let mut w = world(100);
    let id = w.id;
    let max = MAX_QUORUM_SIZE as usize;
    let mut sized = |workers: usize, losers: usize| {
        w.host.call(id, |e| OracleEscrow::admit_quorum(e, workers, losers))
    };
    assert_eq!(sized(1, 0), Ok(()));
    assert_eq!(sized(1, max - 1), Ok(()));
    assert_eq!(sized(max, 0), Ok(()));
    assert_eq!(sized(0, max + 1), Err(Contract(ContractError::NoWorkers)));
    assert_eq!(sized(1, max), Err(Contract(ContractError::QuorumTooLarge)));
    assert_eq!(sized(usize::MAX, usize::MAX), Err(Contract(ContractError::QuorumTooLarge)));
    let mut bare = Env::new(addr(1), 1, 1);
    assert_eq!(OracleEscrow::admit_quorum(&mut bare, 1, 0), Err(ContractError::NotInitialized));
}

#[test]
fn a_bond_cannot_leave_before_an_open_question_is_due() {
    let mut w = world(MAX_TIMEOUT_LEDGERS);
    let (id, token, payer) = (w.id, w.token, w.payer);
    let (winner, worker) = (w.host.generate(), w.host.generate());
    w.host.mint(token, worker, 1_000);
    w.host.stake(id, worker, 1_000).unwrap();
    w.host.submit(id, payer, 1, 10_000).unwrap();
    w.host.sequence = 5;
    let release = w.host.begin_unstake(id, worker, 1_000).unwrap();
    let deadline = w.host.question(id, 1).unwrap().deadline();
    assert_eq!((deadline, release), (MAX_TIMEOUT_LEDGERS, MAX_TIMEOUT_LEDGERS + 5));
    w.host.sequence = deadline - 1;
    let early = Err(Contract(ContractError::UnbondingNotElapsed));
    assert_eq!(w.host.complete_unstake(id, worker), early);
    w.host.resolve(id, 1, &[winner], &[worker]).unwrap();
    w.host.sequence = release;
    assert_eq!(w.host.complete_unstake(id, worker), Ok(950));
}

#[test]
fn resolve_names_each_reason_for_refusing() {
    let mut w = world(100);
    let (id, payer) = (w.id, w.payer);
    let (a, b) = (w.host.generate(), w.host.generate());
    w.host.submit(id, payer, 1, AMOUNT).unwrap();
    let refused = |r| Err(Contract(r));
    assert_eq!(w.host.resolve(id, 1, &[], &[a]), refused(ContractError::NoWorkers));
    assert_eq!(w.host.resolve(id, 1, &[a, a], &[]), refused(ContractError::InvalidWorkerLists));
    assert_eq!(w.host.resolve(id, 1, &[a], &[b, b]), refused(ContractError::InvalidWorkerLists));
    assert_eq!(w.host.resolve(id, 1, &[a, b], &[a]), refused(ContractError::InvalidWorkerLists));
    assert_eq!(w.host.resolve(id, 2, &[a], &[]), refused(ContractError::QuestionNotFound));
    w.host.refund(id, 1).unwrap();
    assert_eq!(w.host.resolve(id, 1, &[a], &[]), refused(ContractError::QuestionNotPending));
}

#[test]
fn an_uninitialized_instance_refuses_everything_that_needs_its_setup() {
    let mut host = Host::new(5);
    let id = host.register();
    let a = host.generate();
    let not_ready = Err(Contract(ContractError::NotInitialized));
    assert_eq!(host.submit(id, a, 1, 1), not_ready);
    assert_eq!(host.deposit(id, a, 1), not_ready);
    assert_eq!(host.charge(id, a, 1, 1), not_ready);
    assert_eq!(host.refund(id, 1), not_ready);
    assert_eq!(host.stake(id, a, 1), not_ready);
    assert_eq!(host.resolve(id, 1, &[a], &[]), not_ready);
    assert_eq!(host.call(id, |e| OracleEscrow::set_admin(e, a)), not_ready);
    assert_eq!(host.call(id, |e| OracleEscrow::set_timeout_ledgers(e, 5)), not_ready);
    assert_eq!(host.call(id, OracleEscrow::cancel_upgrade), not_ready);
    assert_eq!(OracleEscrow::get_timeout_ledgers(&host.env(id)), Err(ContractError::NotInitialized));
    assert_eq!(OracleEscrow::get_token(&host.env(id)), Err(ContractError::NotInitialized));
    assert_eq!(host.refund_timeout(id, 1), Err(Contract(ContractError::QuestionNotFound)));
    let b = addr(3);
    assert_eq!(
        host.initialize(id, a, b, a, 0),
        Err(Contract(ContractError::InvalidTimeout))
    );
    host.initialize(id, a, b, a, 1).unwrap();
    assert_eq!(
        host.initialize(id, a, b, a, 1),
        Err(Contract(ContractError::AlreadyInitialized))
    );
}

#[test]
fn amounts_have_to_be_positive() {
    let mut w = world(100);
    let (id, a) = (w.id, w.payer);
    for amount in [0i128, -1, i128::MIN] {
        let bad = Err(Contract(ContractError::InvalidAmount));
        assert_eq!(w.host.submit(id, a, 1, amount), bad);
        assert_eq!(w.host.deposit(id, a, amount), bad);
        assert_eq!(w.host.withdraw_balance(id, a, amount), bad);
        assert_eq!(w.host.charge(id, a, 1, amount), bad);
        assert_eq!(w.host.stake(id, a, amount), bad);
        assert_eq!(w.host.begin_unstake(id, a, amount), Err(Contract(ContractError::InvalidAmount)));
        assert_eq!(w.host.withdraw(id, a, amount), Err(Contract(ContractError::InvalidAmount)));
    }
}

#[test]
fn nobody_withdraws_more_than_they_have() {
    let mut w = world(100);
    let (id, token, payer) = (w.id, w.token, w.payer);
    let worker = w.host.generate();
    w.host.deposit(id, payer, 10).unwrap();
    assert_eq!(
        w.host.withdraw_balance(id, payer, 11),
        Err(Contract(ContractError::InsufficientBalance))
    );
    assert_eq!(
        w.host.charge(id, payer, 1, 11),
        Err(Contract(ContractError::InsufficientBalance))
    );
    w.host.withdraw_balance(id, payer, 10).unwrap();
    assert_eq!(w.host.get_balance(id, payer), 0);
    assert_eq!(w.host.withdraw(id, worker, 1), Err(Contract(ContractError::NothingOwed)));
    w.host.submit(id, payer, 1, 100).unwrap();
    w.host.resolve(id, 1, &[worker], &[]).unwrap();
    assert_eq!(w.host.get_owed(id, worker), 80);
    assert_eq!(w.host.withdraw(id, worker, 81), Err(Contract(ContractError::InsufficientOwed)));
    let elsewhere = w.host.generate();
    let sent = w.host.call(id, |e| OracleEscrow::withdraw_to(e, worker, elsewhere, 30));
    assert_eq!(sent, Ok(30));
    assert_eq!(w.host.withdraw(id, worker, 50), Ok(50));
    assert_eq!(w.host.balance(token, elsewhere), 30);
    assert_eq!(w.host.balance(token, worker), 50);
    assert_eq!(w.host.get_owed(id, worker), 0);
}

#[test]
fn unstaking_takes_two_steps_and_the_longer_of_two_delays() {
    let mut w = world(100);
    let (id, token) = (w.id, w.token);
    let worker = w.host.generate();
    w.host.mint(token, worker, 1_000);
    w.host.stake(id, worker, 1_000).unwrap();
    assert_eq!(
        w.host.begin_unstake(id, worker, 1_001),
        Err(Contract(ContractError::InsufficientStake))
    );
    assert_eq!(
        w.host.complete_unstake(id, worker),
        Err(Contract(ContractError::NothingUnbonding))
    );
    assert_eq!(w.host.begin_unstake(id, worker, 400), Ok(MIN_UNBONDING_LEDGERS));
    w.host.call(id, |e| OracleEscrow::set_timeout_ledgers(e, MAX_TIMEOUT_LEDGERS)).unwrap();
    w.host.sequence = 7;
    let release = 7 + MAX_TIMEOUT_LEDGERS;
    assert_eq!(w.host.begin_unstake(id, worker, 100), Ok(release));
    w.host.sequence = release - 1;
    assert_eq!(
        w.host.complete_unstake(id, worker),
        Err(Contract(ContractError::UnbondingNotElapsed))
    );
    w.host.sequence = release;
    assert_eq!(w.host.complete_unstake(id, worker), Ok(500));
    assert_eq!(w.host.balance(token, worker), 500);
    assert_eq!(
        w.host.get_stake_info(id, worker),
        StakeInfo { settled: 500, warming: 0, warming_since: 0, unbonding: 0, unbonding_release_at: 0 }
    );
}

#[test]
fn a_worker_who_never_staked_has_an_empty_bond() {
    let w = world(100);
    let empty = StakeInfo { settled: 0, warming: 0, warming_since: 0, unbonding: 0, unbonding_release_at: 0 };
    assert_eq!(w.host.get_stake_info(w.id, addr(9_999)), empty);
    assert_eq!(StakeInfo::default(), empty);
}

#[test]
fn a_saturated_deadline_can_still_be_reached() {
    let mut w = world(100);
    store_with_window(&mut w, 3, u32::MAX);
    let q = w.host.question(w.id, 3).unwrap();
    assert_eq!(q.deadline(), u32::MAX);
    assert_eq!(
        w.host.refund_timeout(w.id, 3),
        Err(Contract(ContractError::TooEarlyForTimeout))
    );
    let mut env = w.host.env(w.id);
    env.sequence = u32::MAX;
    assert_eq!(OracleEscrow::refund_timeout(&mut env, 3), Ok(()));
}

#[test]
fn imports_are_checked_one_by_one() {
    let mut w = world(100);
    let (token, payer, source) = (w.token, w.payer, w.payer);
    w.host.sequence = 10;
    w.host.call(w.id, |e| OracleEscrow::set_migration_source(e, source)).unwrap();
    let mut import = |id: u64, amount: i128, created_at: u32, timeout: u32| {
        w.host.call(w.id, |e| {
            OracleEscrow::import_question(e, source, token, id, payer, amount, created_at, timeout)
        })
    };
    assert_eq!(import(1, 0, 3, 5), Err(Contract(ContractError::InvalidAmount)));
    assert_eq!(import(1, 5, 3, 0), Err(Contract(ContractError::InvalidTimeout)));
    let over = MAX_TIMEOUT_LEDGERS + 1;
    assert_eq!(import(1, 5, 3, over), Err(Contract(ContractError::InvalidTimeout)));
    assert_eq!(import(1, 5, 3, u32::MAX), Err(Contract(ContractError::InvalidTimeout)));
    let late = 10 + MAX_TIMEOUT_LEDGERS;
    assert_eq!(import(1, 5, 11, MAX_TIMEOUT_LEDGERS), Err(Contract(ContractError::InvalidTimeout)));
    assert_eq!(import(1, 5, late, 1), Err(Contract(ContractError::InvalidTimeout)));
    assert_eq!(import(1, 5, u32::MAX, 1), Err(Contract(ContractError::InvalidTimeout)));
    assert_eq!(import(1, 5, 3, 5), Ok(()));
    // A known id is found before the window and the deadline are looked at, but for an empty one.
    let known = Err(Contract(ContractError::QuestionAlreadyExists));
    assert_eq!(import(1, 5, 3, 5), known);
    assert_eq!(import(1, 5, 11, 5), known);
    assert_eq!(import(1, 5, 3, over), known);
    assert_eq!(import(1, 5, u32::MAX, u32::MAX), known);
    assert_eq!(import(1, 5, 3, 0), Err(Contract(ContractError::InvalidTimeout)));
    assert_eq!(import(1, 0, 3, over), Err(Contract(ContractError::InvalidAmount)));
    assert_eq!(import(2, 5, 10, MAX_TIMEOUT_LEDGERS), Ok(()));
    // What counts is the deadline, not the age.
    assert_eq!(import(3, 5, 11, 100), Ok(()));
    assert_eq!(import(4, 5, 11, MAX_TIMEOUT_LEDGERS - 1), Ok(()));
    assert_eq!(import(5, 5, late - 1, 1), Ok(()));
    let this = w.id;
    let res = w.host.call(w.id, |e| OracleEscrow::set_migration_source(e, this));
    assert_eq!(res, Err(Contract(ContractError::InvalidMigrationTarget)));
}

#[test]
fn an_import_that_would_outlast_an_upgrade_is_turned_away() {
    let mut w = world(100);
    let (token, payer, source) = (w.token, w.payer, w.payer);
    w.host.call(w.id, |e| OracleEscrow::set_migration_source(e, source)).unwrap();
    w.host.call(w.id, |e| OracleEscrow::propose_upgrade(e, [7; 32])).unwrap();
    let executable_at = UPGRADE_DELAY_LEDGERS;
    w.host.sequence = executable_at - 1;
    let created_at = executable_at - 50;
    let before = w.host.balance(token, payer);
    for timeout in [50, 51, 100, MAX_TIMEOUT_LEDGERS] {
        let res = w.host.call(w.id, |e| {
            OracleEscrow::import_question(e, source, token, 1, payer, 5, created_at, timeout)
        });
        assert_eq!(res, Err(Contract(ContractError::UpgradeInProgress)));
    }
    assert_eq!(w.host.balance(token, payer), before);
    // One ledger earlier it is due in time.
    let res = w.host.call(w.id, |e| {
        OracleEscrow::import_question(e, source, token, 1, payer, 5, created_at, 49)
    });
    assert_eq!(res, Ok(()));
    assert_eq!(w.host.question(w.id, 1).unwrap().deadline(), executable_at - 1);
    w.host.refund_timeout(w.id, 1).unwrap();
}

#[test]
fn opening_announces_the_question_and_asks_only_the_payer() {
    let mut w = world(100);
    w.host.sequence = 40;
    w.host.submit(w.id, w.payer, 6, 5).unwrap();
    assert_eq!(w.host.asked, vec![w.payer]);
    assert_eq!(
        w.host.events,
        vec![(
            w.id,
            Event::Opened(QuestionOpened {
                question_id: 6,
                payer: w.payer,
                amount: 5,
                created_at: 40,
                timeout_ledgers: 100
            })
        )]
    );
    w.host.deposit(w.id, w.payer, 9).unwrap();
    w.host.charge(w.id, w.payer, 7, 9).unwrap();
    assert_eq!(w.host.asked, vec![w.admin], "a charge needs no signature from the payer");
}

#[test]
fn a_pending_question_keeps_the_window_it_was_opened_with() {
    let mut w = world(100);
    w.host.submit(w.id, w.payer, 1, 5).unwrap();
    w.host.call(w.id, |e| OracleEscrow::set_timeout_ledgers(e, 5_000)).unwrap();
    w.host.submit(w.id, w.payer, 2, 5).unwrap();
    w.host.sequence = 100;
    w.host.signers = Some(Vec::new());
    w.host.refund_timeout(w.id, 1).unwrap();
    assert!(w.host.asked.is_empty());
    assert_eq!(
        w.host.refund_timeout(w.id, 2),
        Err(Contract(ContractError::TooEarlyForTimeout))
    );
}

#[test]
fn every_error_has_its_number() {
    let numbered = [
        (ContractError::AlreadyInitialized, 1),
        (ContractError::NotInitialized, 2),
        (ContractError::InvalidAmount, 3),
        (ContractError::QuestionAlreadyExists, 4),
        (ContractError::QuestionNotFound, 5),
        (ContractError::QuestionNotPending, 6),
        (ContractError::NoWorkers, 7),
        (ContractError::TooEarlyForTimeout, 8),
        (ContractError::InvalidTimeout, 9),
        (ContractError::InsufficientStake, 10),
        (ContractError::NothingOwed, 11),
        (ContractError::InvalidWorkerLists, 12),
        (ContractError::InsufficientBalance, 13),
        (ContractError::InsufficientOwed, 14),
        (ContractError::QuorumTooLarge, 15),
        (ContractError::UnbondingNotElapsed, 16),
        (ContractError::MigrationNotAuthorized, 17),
        (ContractError::TokenMismatch, 18),
        (ContractError::InvalidMigrationTarget, 19),
        (ContractError::NothingUnbonding, 20),
        (ContractError::NoUpgradePending, 21),
        (ContractError::UpgradeNotReady, 22),
        (ContractError::UpgradeInProgress, 23),
    ];
    for (error, number) in numbered {
        assert_eq!(error.code(), number);
    }
}
