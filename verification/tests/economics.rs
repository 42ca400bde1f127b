//! Simulations of the slashing economics: the bond rules as they are now against the rules of
//! release 0.2.0 (an uncapped 5% slash and an instant withdrawal of stake), under a small model
//! of the backend (random quorums, majority consensus, optional supermajority and audits) and of
//! the workers (honest with a fixed error rate, or a coordinated cartel).

use oracle_escrow::bank::Bank;
use oracle_escrow::env::Env;
use oracle_escrow::escrow::OracleEscrow;
use oracle_escrow::limits::{BPS_DENOM, PLATFORM_FEE_BPS, SLASH_BPS, STAKE_WARMUP_LEDGERS};
use oracle_escrow::types::{Address, ContractError, StakeInfo};
use std::collections::{BTreeMap, BTreeSet};

const USDC: i128 = 10_000_000; // 7 decimals
const QUESTION: i128 = USDC / 4; // 0.25 USDC, the smallest pricing tier

#[derive(Clone, Copy, PartialEq, Eq, Debug)]
enum Version {
    Legacy,
    Current,
}

/// The rules of release 0.2.0, as far as the simulations need them.
#[derive(Default)]
struct Legacy {
    questions: BTreeMap<u64, i128>,
    stakes: BTreeMap<u64, i128>,
    owed: BTreeMap<u64, i128>,
}

struct Market {
    version: Version,
    env: Env,
    bank: Bank,
    legacy: Legacy,
    this: Address,
    payer: Address,
    next_id: u64,
}

impl Market {
    fn new(version: Version) -> Market {
        let this = Address { id: 1 };
        let payer = Address { id: 5 };
        let mut env = Env::new(this, 1_000, 6_312_000);
        OracleEscrow::initialize(
            &mut env,
            Address { id: 3 },
            Address { id: 2 },
            Address { id: 4 },
            17_280,
        )
        .unwrap();
        env.effects = Vec::new();
        let mut bank = Bank::new();
        bank.mint(payer, i128::MAX / 4);
        Market { version, env, bank, legacy: Legacy::default(), this, payer, next_id: 100 }
    }

    /// Lands one call on the current rules.
    fn land<T>(&mut self, f: impl FnOnce(&mut Env) -> Result<T, ContractError>) -> Result<T, ContractError> {
        let result = f(&mut self.env);
        if result.is_ok() {
            assert!(self.bank.carry_out(&self.env.effects));
        }
        self.env.effects = Vec::new();
        result
    }

    fn submit(&mut self, id: u64, amount: i128) {
        let payer = self.payer;
        match self.version {
            Version::Legacy => {
                assert!(self.bank.transfer(payer, self.this, amount));
                self.legacy.questions.insert(id, amount);
            }
            Version::Current => self.land(|e| OracleEscrow::submit(e, payer, id, amount)).unwrap(),
        }
    }

    fn resolve(&mut self, id: u64, workers: &[Address], losers: &[Address]) {
        match self.version {
            Version::Legacy => {
                let amount = self.legacy.questions.remove(&id).unwrap();
                let fee = amount * PLATFORM_FEE_BPS / BPS_DENOM;
                let share = (amount - fee) / workers.len() as i128;
                for loser in losers {
                    if let Some(stake) = self.legacy.stakes.get_mut(&loser.id) {
                        *stake -= *stake * SLASH_BPS / BPS_DENOM;
                    }
                }
                for worker in workers {
                    *self.legacy.owed.entry(worker.id).or_default() += share;
                }
            }
            Version::Current => {
                let (workers, losers) = (workers.to_vec(), losers.to_vec());
                self.land(|e| OracleEscrow::resolve(e, id, &workers, &losers)).unwrap();
            }
        }
    }

    fn refund(&mut self, id: u64) {
        match self.version {
            Version::Legacy => {
                let amount = self.legacy.questions.remove(&id).unwrap();
                assert!(self.bank.transfer(self.this, self.payer, amount));
            }
            Version::Current => self.land(|e| OracleEscrow::refund(e, id)).unwrap(),
        }
    }

    fn stake(&mut self, worker: Address, amount: i128) {
        match self.version {
            Version::Legacy => {
                assert!(self.bank.transfer(worker, self.this, amount));
                *self.legacy.stakes.entry(worker.id).or_default() += amount;
            }
            Version::Current => self.land(|e| OracleEscrow::stake(e, worker, amount)).unwrap(),
        }
    }

    /// The strongest "get my stake out before the resolution lands" move of each version.
    fn pull_stake(&mut self, worker: Address) {
        match self.version {
            Version::Legacy => {
                let stake = self.legacy.stakes.remove(&worker.id).unwrap_or(0);
                assert!(self.bank.transfer(self.this, worker, stake));
            }
            Version::Current => {
                let stake = OracleEscrow::get_stake(&self.env, worker);
                if stake > 0 {
                    self.land(|e| OracleEscrow::begin_unstake(e, worker, stake)).unwrap();
                }
            }
        }
    }

    /// Everything that could still be slashed or returned to the worker.
    fn bonded(&self, worker: Address) -> i128 {
        match self.version {
            Version::Legacy => self.legacy.stakes.get(&worker.id).copied().unwrap_or(0),
            Version::Current => {
                let i: StakeInfo = OracleEscrow::get_stake_info(&self.env, worker);
                i.settled + i.warming + i.unbonding
            }
        }
    }

    fn owed(&self, worker: Address) -> i128 {
        match self.version {
            Version::Legacy => self.legacy.owed.get(&worker.id).copied().unwrap_or(0),
            Version::Current => OracleEscrow::get_owed(&self.env, worker),
        }
    }

    fn worker(&mut self, stake: i128) -> Address {
        self.next_id += 1;
        let w = Address { id: self.next_id };
        if stake > 0 {
            self.bank.mint(w, stake);
            self.stake(w, stake);
        }
        w
    }

    /// Past the warm-up, so that stake has matured.
    fn mature(&mut self) {
        self.env.sequence += STAKE_WARMUP_LEDGERS;
    }
}

/// A bribed worker answers wrong, then pulls the whole stake before the resolution lands.
fn slash_after_pulling_stake(version: Version) -> i128 {
    let mut m = Market::new(version);
    let liar = m.worker(20 * USDC);
    let honest = m.worker(0);
    m.mature();
    m.submit(1, QUESTION);
    m.pull_stake(liar);
    let before = m.bonded(liar) + m.bank.balance(liar);
    m.resolve(1, &[honest], &[liar]);
    before - (m.bonded(liar) + m.bank.balance(liar))
}

#[test]
fn a3_pulling_stake_before_resolve_escapes_the_slash_on_v020_but_not_now() {
    let legacy_loss = slash_after_pulling_stake(Version::Legacy);
    let current_loss = slash_after_pulling_stake(Version::Current);
    assert_eq!(legacy_loss, 0, "v0.2.0: slash was a no-op, lying was free");
    assert_eq!(current_loss, QUESTION);
}

#[test]
fn a3_unbonding_stake_stays_slashable_until_release_and_nets_out_on_claim() {
    let mut m = Market::new(Version::Current);
    let liar = m.worker(20 * USDC);
    let honest = m.worker(0);
    m.mature();
    m.submit(1, QUESTION);
    let release = m.land(|e| OracleEscrow::begin_unstake(e, liar, 20 * USDC)).unwrap();
    assert_eq!(
        m.land(|e| OracleEscrow::complete_unstake(e, liar)),
        Err(ContractError::UnbondingNotElapsed)
    );
    m.resolve(1, &[honest], &[liar]);

    m.env.sequence = release;
    assert_eq!(
        m.land(|e| OracleEscrow::complete_unstake(e, liar)),
        Ok(20 * USDC - QUESTION)
    );
}

#[test]
fn a3_flash_stake_counts_immediately_on_v020_but_must_mature_now() {
    let mut legacy = Market::new(Version::Legacy);
    let w = legacy.worker(10 * USDC);
    assert_eq!(legacy.bonded(w), 10 * USDC);

    let mut m = Market::new(Version::Current);
    let w = m.worker(10 * USDC);
    assert_eq!(OracleEscrow::get_stake(&m.env, w), 10 * USDC);
    assert_eq!(OracleEscrow::get_matured_stake(&m.env, w), 0, "not credible yet");
    m.env.sequence += STAKE_WARMUP_LEDGERS - 1;
    assert_eq!(OracleEscrow::get_matured_stake(&m.env, w), 0);
    m.env.sequence += 1;
    assert_eq!(OracleEscrow::get_matured_stake(&m.env, w), 10 * USDC);

    // A top-up only warms the new amount; what already matured stays counted.
    m.bank.mint(w, 5 * USDC);
    m.stake(w, 5 * USDC);
    assert_eq!(OracleEscrow::get_matured_stake(&m.env, w), 10 * USDC);
    assert_eq!(OracleEscrow::get_stake(&m.env, w), 15 * USDC);
}

#[test]
fn a3_begin_unstake_drops_matured_stake_immediately() {
    let mut m = Market::new(Version::Current);
    let w = m.worker(10 * USDC);
    m.mature();
    m.land(|e| OracleEscrow::begin_unstake(e, w, 4 * USDC)).unwrap();
    assert_eq!(OracleEscrow::get_matured_stake(&m.env, w), 6 * USDC);
}

#[test]
fn slash_hits_warming_first_then_settled_then_unbonding() {
    let mut m = Market::new(Version::Current);
    let w = m.worker(100 * USDC); // will be settled
    m.mature();
    m.bank.mint(w, USDC);
    m.stake(w, USDC / 100); // 0.01 USDC warming
    m.land(|e| OracleEscrow::begin_unstake(e, w, 50 * USDC)).unwrap();

    // slashable = 50 settled + 0.01 warming + 50 unbonding, as the withdrawal draws on the
    // warming part first; 5% is about 5 USDC, capped at the question: 1 USDC here.
    m.submit(1, USDC);
    let honest = m.worker(0);
    m.resolve(1, &[honest], &[w]);

    let i = OracleEscrow::get_stake_info(&m.env, w);
    assert_eq!(i.warming, 0);
    assert_eq!(i.settled, 50 * USDC - (USDC - USDC / 100));
    assert_eq!(i.unbonding, 50 * USDC);
}

fn victim_loss_single_event(version: Version, victim_stake: i128) -> i128 {
    let mut m = Market::new(version);
    let victim = m.worker(victim_stake);
    let cartel: Vec<Address> = (0..3).map(|_| m.worker(0)).collect();
    m.mature();
    m.submit(1, QUESTION);
    let before = m.bonded(victim);
    m.resolve(1, &cartel, &[victim]);
    before - m.bonded(victim)
}

#[test]
fn a2_one_griefing_win_costs_the_victim_at_most_the_question_value_now() {
    for stake in [10 * USDC, 100 * USDC, 1_000 * USDC] {
        let legacy = victim_loss_single_event(Version::Legacy, stake);
        let current = victim_loss_single_event(Version::Current, stake);
        assert_eq!(
            legacy,
            stake * SLASH_BPS / BPS_DENOM,
            "v0.2.0: loss scales with the victim's stake"
        );
        assert_eq!(current, QUESTION.min(stake * SLASH_BPS / BPS_DENOM));
    }
}

#[test]
fn a2_micro_questions_no_longer_multiply_slash_leverage() {
    let tiny = |version| {
        let mut m = Market::new(version);
        let victim = m.worker(100 * USDC);
        let w = m.worker(0);
        m.mature();
        m.submit(1, 1);
        let before = m.bonded(victim);
        m.resolve(1, &[w], &[victim]);
        before - m.bonded(victim)
    };
    assert_eq!(tiny(Version::Legacy), 5 * USDC);
    assert_eq!(tiny(Version::Current), 1);
}

struct Rng(u64);

impl Rng {
    fn new(seed: u64) -> Self {
        Rng(seed.wrapping_mul(0x9e37_79b9_7f4a_7c15) | 1)
    }
    fn next(&mut self) -> u64 {
        self.0 ^= self.0 >> 12;
        self.0 ^= self.0 << 25;
        self.0 ^= self.0 >> 27;
        self.0.wrapping_mul(0x2545_f491_4f6c_dd1d)
    }
    fn below(&mut self, n: u64) -> u64 {
        self.next() % n
    }
    fn chance(&mut self, permille: u64) -> bool {
        self.below(1000) < permille
    }
}

#[derive(Clone, Copy)]
struct Policy {
    /// Votes the winning answer needs before the backend resolves; below it the question is
    /// refunded.
    accept_at: usize,
    /// Per-mille of questions that are planted audits with a known answer: resolved against the
    /// truth, and a worker wrong on one is banned from dispatch.
    audit_permille: u64,
}

const MAJORITY_OF_5: Policy = Policy { accept_at: 3, audit_permille: 0 };
const HARDENED: Policy = Policy { accept_at: 4, audit_permille: 150 };

#[derive(Clone, Copy)]
struct Scenario {
    honest: usize,
    cartel: usize,
    quorum: usize,
    rounds: u64,
    honest_error_permille: u64,
    honest_stake: i128,
    cartel_stake: i128,
    /// The cartel only lies when the victim (worker 0) is in the quorum.
    targeted: bool,
    cartel_lies: bool,
    /// Paid to the cartel per corrupted, accepted, non-audit answer.
    bribe: i128,
    policy: Policy,
}

#[derive(Default, Debug, Clone, Copy)]
struct Outcome {
    victim_pnl: i128,
    victim_slashed: i128,
    honest_slashed: i128,
    cartel_pnl: i128,
    corrupted: u64,
    refunded: u64,
    banned_cartel: u64,
}

fn simulate(version: Version, s: Scenario, seed: u64) -> Outcome {
    let mut m = Market::new(version);
    let honest: Vec<Address> = (0..s.honest).map(|_| m.worker(s.honest_stake)).collect();
    let cartel: Vec<Address> = (0..s.cartel).map(|_| m.worker(s.cartel_stake)).collect();
    m.mature();
    let victim = honest[0];
    let victim_start = m.bonded(victim);
    let honest_start: i128 = honest.iter().map(|a| m.bonded(*a)).sum();
    let cartel_start: i128 = cartel.iter().map(|a| m.bonded(*a)).sum();

    let mut rng = Rng::new(seed);
    let mut out = Outcome::default();
    let mut banned = BTreeSet::new();
    let mut bribes = 0;
    let mut strikes = BTreeMap::<usize, u32>::new();

    for q in 0..s.rounds {
        // A uniform random quorum over non-banned workers (those below `honest` are honest).
        let mut pool: Vec<usize> =
            (0..s.honest + s.cartel).filter(|i| !banned.contains(i)).collect();
        for i in 0..s.quorum {
            let j = i + rng.below((pool.len() - i) as u64) as usize;
            pool.swap(i, j);
        }
        let quorum = &pool[..s.quorum];
        let k = quorum.iter().filter(|&&i| i >= s.honest).count();
        let victim_in = quorum.contains(&0);
        let audit = rng.chance(s.policy.audit_permille);

        // The cartel coordinates out of band, so it knows its own strength in the quorum.
        let lie = s.cartel_lies && k >= s.policy.accept_at && (!s.targeted || victim_in);
        let answers: Vec<(usize, bool)> = quorum
            .iter()
            .map(|&i| {
                if i >= s.honest {
                    (i, !lie)
                } else {
                    (i, !rng.chance(s.honest_error_permille))
                }
            })
            .collect();
        let yes = answers.iter().filter(|(_, a)| *a).count();
        let (consensus, votes) =
            if yes * 2 > s.quorum { (true, yes) } else { (false, s.quorum - yes) };

        m.submit(q, QUESTION);
        let (truth_side, settle) =
            if audit { (true, true) } else { (consensus, votes >= s.policy.accept_at) };
        if !settle {
            m.refund(q);
            out.refunded += 1;
            continue;
        }
        let mut winners = Vec::new();
        let mut losers = Vec::new();
        let addr = |i: usize| if i < s.honest { honest[i] } else { cartel[i - s.honest] };
        for (i, a) in &answers {
            if *a == truth_side {
                winners.push(addr(*i));
            } else {
                losers.push(addr(*i));
                if audit {
                    let st = strikes.entry(*i).or_default();
                    *st += 1;
                    // Cartel members are caught lying outright; honest workers get two strikes.
                    if *i >= s.honest || *st >= 2 {
                        banned.insert(*i);
                    }
                }
            }
        }
        if winners.is_empty() {
            m.refund(q);
            out.refunded += 1;
            continue;
        }
        m.resolve(q, &winners, &losers);
        if lie && !audit && !consensus {
            out.corrupted += 1;
            bribes += s.bribe;
        }
    }

    out.victim_slashed = victim_start - m.bonded(victim);
    out.victim_pnl = m.owed(victim) - out.victim_slashed;
    out.honest_slashed = honest_start - honest.iter().map(|a| m.bonded(*a)).sum::<i128>();
    let cartel_slashed = cartel_start - cartel.iter().map(|a| m.bonded(*a)).sum::<i128>();
    out.cartel_pnl = cartel.iter().map(|a| m.owed(*a)).sum::<i128>() + bribes - cartel_slashed;
    out.banned_cartel = banned.iter().filter(|&&i| i >= s.honest).count() as u64;
    out
}

fn averaged(version: Version, s: Scenario, seeds: u64) -> Outcome {
    let mut t = Outcome::default();
    for seed in 1..=seeds {
        let o = simulate(version, s, seed);
        t.victim_pnl += o.victim_pnl;
        t.victim_slashed += o.victim_slashed;
        t.honest_slashed += o.honest_slashed;
        t.cartel_pnl += o.cartel_pnl;
        t.corrupted += o.corrupted;
        t.refunded += o.refunded;
        t.banned_cartel += o.banned_cartel;
    }
    let n = seeds as i128;
    Outcome {
        victim_pnl: t.victim_pnl / n,
        victim_slashed: t.victim_slashed / n,
        honest_slashed: t.honest_slashed / n,
        cartel_pnl: t.cartel_pnl / n,
        corrupted: t.corrupted / seeds,
        refunded: t.refunded / seeds,
        banned_cartel: t.banned_cartel / seeds,
    }
}

fn usdc(x: i128) -> String {
    format!("{:.3}", x as f64 / USDC as f64)
}

/// A small, tight market: 9 honest workers (worker 0 is the well-staked victim), a 3-identity
/// cartel, quorums of 5, majority consensus, no audits.
const GRIEF: Scenario = Scenario {
    honest: 9,
    cartel: 3,
    quorum: 5,
    rounds: 300,
    honest_error_permille: 50,
    honest_stake: 100 * USDC,
    cartel_stake: 0,
    targeted: true,
    cartel_lies: true,
    bribe: 0,
    policy: MAJORITY_OF_5,
};

#[test]
fn a2_monte_carlo_targeted_griefing_damage_drops_by_the_stake_to_question_ratio() {
    let legacy = averaged(Version::Legacy, GRIEF, 4);
    let current = averaged(Version::Current, GRIEF, 4);
    println!(
        "A2 targeted griefing, 300 questions: victim slashed v0.2.0={} now={} | victim P&L v0.2.0={} now={} | cartel P&L v0.2.0={} now={}",
        usdc(legacy.victim_slashed),
        usdc(current.victim_slashed),
        usdc(legacy.victim_pnl),
        usdc(current.victim_pnl),
        usdc(legacy.cartel_pnl),
        usdc(current.cartel_pnl),
    );
    // Same seeds, same quorums, same decisions: the cartel's own result is identical.
    assert_eq!(legacy.cartel_pnl, current.cartel_pnl);
    // But the damage it can inflict on the staked victim collapses.
    assert!(legacy.victim_slashed > 0);
    assert!(
        legacy.victim_slashed >= 10 * current.victim_slashed,
        "expected >=10x reduction, got {} vs {}",
        legacy.victim_slashed,
        current.victim_slashed
    );
    assert!(legacy.victim_pnl < 0);
    assert!(current.victim_pnl > 0);
}

#[test]
fn a0_honest_error_tax_made_large_stakes_irrational_on_v020() {
    let s = Scenario { honest: 12, cartel: 0, cartel_lies: false, targeted: false, ..GRIEF };
    let legacy = averaged(Version::Legacy, s, 4);
    let current = averaged(Version::Current, s, 4);
    println!(
        "A0 honest-only, 5% error, 100 USDC stake, 300 questions: worker-0 P&L v0.2.0={} now={}; all-honest slashed v0.2.0={} now={}",
        usdc(legacy.victim_pnl),
        usdc(current.victim_pnl),
        usdc(legacy.honest_slashed),
        usdc(current.honest_slashed),
    );
    assert!(legacy.victim_pnl < 0);
    assert!(current.victim_pnl > 0);
}

const COLLUDE: Scenario = Scenario {
    honest: 15,
    cartel: 5, // 25% of the worker pool
    quorum: 5,
    rounds: 600,
    honest_error_permille: 50,
    honest_stake: 10 * USDC,
    cartel_stake: 10 * USDC,
    targeted: false,
    cartel_lies: true,
    bribe: 2 * QUESTION, // the briber pays twice the question per corrupted answer
    policy: MAJORITY_OF_5,
};

#[test]
fn a1_supermajority_plus_audits_turn_bribed_collusion_negative_ev() {
    let seeds = 4;
    let run = |policy: Policy, lies: bool| {
        averaged(Version::Current, Scenario { policy, cartel_lies: lies, ..COLLUDE }, seeds)
    };
    let base_attack = run(MAJORITY_OF_5, true);
    let base_honest = run(MAJORITY_OF_5, false);
    let hard_attack = run(HARDENED, true);
    let hard_honest = run(HARDENED, false);

    let base_gain = base_attack.cartel_pnl - base_honest.cartel_pnl;
    let hard_gain = hard_attack.cartel_pnl - hard_honest.cartel_pnl;
    println!(
        "A1 bribed collusion, 25% cartel, 600 questions: majority/no-audit gain={} corrupted={} | 4-of-5 + 15% audits gain={} corrupted={} banned={} refunded={}",
        usdc(base_gain),
        base_attack.corrupted,
        usdc(hard_gain),
        hard_attack.corrupted,
        hard_attack.banned_cartel,
        hard_attack.refunded,
    );
    assert!(base_gain > 0, "baseline: collusion pays");
    assert!(base_attack.corrupted > 0);
    assert!(hard_gain < 0, "hardened: collusion loses money vs playing honest");
    assert!(hard_attack.corrupted * 5 < base_attack.corrupted);
}

#[test]
fn a1_hardened_policy_costs_honest_markets_little_liveness() {
    let s = Scenario {
        honest: 20,
        cartel: 0,
        cartel_lies: false,
        policy: HARDENED,
        ..COLLUDE
    };
    let o = averaged(Version::Current, s, 2);
    println!("A1 liveness: honest-only market refunded {} of 600 under 4-of-5", o.refunded);
    // P(>=2 of 5 wrong) at a 5% error rate is about 2.3%.
    assert!(o.refunded < 30, "refunded {}", o.refunded);
}
