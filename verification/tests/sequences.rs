//! Call sequences run on the escrow and on the model side by side.

use oracle_escrow::escrow::OracleEscrow;
use oracle_escrow::harness::{run_sequence, Failure, Harness, Violation};
use oracle_escrow::limits::{MAX_TIMEOUT_LEDGERS, MIN_UNBONDING_LEDGERS, UPGRADE_DELAY_LEDGERS};
use oracle_escrow::model::{
    Model, Op, Outcome, INITIAL_TIMEOUT, MINTED, PAYERS, PAYER_FUNDS, QUESTION_IDS, T_BENEFICIARY,
    T_CONTRACT, T_PAYER0, T_PLATFORM, T_WORKER0, WORKERS, WORKER_FUNDS,
};
use oracle_escrow::types::{ContractError, Status};

/// The harness itself must be able to fail. A model with one wrong rule has to be caught, or a
/// clean run shows nothing.
#[test]
fn harness_detects_a_model_that_disagrees_with_the_contract() {
    let mut h = Harness::new();
    let mut model = Model::new(h.client().sequence);
    let submit = Op::Submit { payer: 0, qid: 1, amount: 1_000 };
    model.apply(&submit);
    h.apply(&submit, &model);
    assert!(h.check(&model).is_ok());
    model.owed[0] += 1;
    assert!(h.check(&model).is_err());
}

/// Hand-written sequences hitting every settlement path.
#[test]
fn known_sequences_pass_the_harness() {
    let seqs: Vec<Vec<Op>> = vec![
        vec![
            Op::Stake { worker: 3, amount: 1_000_000 },
            Op::Submit { payer: 0, qid: 1, amount: 2_500_001 },
            Op::Resolve { qid: 1, workers: vec![0, 1, 2], losers: vec![3, 4] },
            Op::Withdraw { worker: 0, amount: 1 },
            Op::WithdrawTo { worker: 1, amount: 666_667 },
            Op::Deposit { payer: 1, amount: 10 },
            Op::Charge { payer: 1, qid: 2, amount: 7 },
            Op::Advance { ledgers: INITIAL_TIMEOUT },
            Op::RefundTimeout { qid: 2 },
            Op::RefundTimeout { qid: 2 },
            Op::Resolve { qid: 2, workers: vec![0], losers: vec![] },
        ],
        vec![
            Op::SetTimeout { ledgers: MAX_TIMEOUT_LEDGERS },
            Op::ProposeUpgrade,
            Op::Submit { payer: 0, qid: 0, amount: 5 },
            Op::AdvanceNearUpgrade { before: 3 },
            Op::Submit { payer: 1, qid: 1, amount: 5 },
            Op::AdvanceNearUpgrade { before: 1 },
            Op::Submit { payer: 2, qid: 2, amount: 5 },
            Op::ExecuteUpgrade,
            Op::AdvanceNearUpgrade { before: 0 },
            Op::ExecuteUpgrade,
            Op::CancelUpgrade,
            Op::Submit { payer: 2, qid: 2, amount: 5 },
        ],
        vec![
            Op::Submit { payer: 0, qid: 0, amount: i128::MAX },
            Op::Submit { payer: 0, qid: 0, amount: PAYER_FUNDS },
            Op::Submit { payer: 1, qid: 0, amount: 1 },
            Op::Resolve { qid: 0, workers: vec![1, 1], losers: vec![] },
            Op::Resolve { qid: 0, workers: vec![1], losers: vec![1] },
            Op::Resolve { qid: 0, workers: vec![], losers: vec![2] },
            Op::Refund { qid: 0 },
            Op::Refund { qid: 0 },
            Op::BeginUnstake { worker: 0, amount: 1 },
            Op::SetTimeout { ledgers: u32::MAX },
        ],
        vec![
            Op::Stake { worker: 2, amount: 40_000_000 },
            Op::BeginUnstake { worker: 2, amount: 15_000_000 },
            Op::CompleteUnstake { worker: 2 },
            Op::Submit { payer: 0, qid: 4, amount: 9_000_000 },
            Op::Resolve { qid: 4, workers: vec![0], losers: vec![2] },
            Op::Advance { ledgers: MIN_UNBONDING_LEDGERS },
            Op::CompleteUnstake { worker: 2 },
            Op::CompleteUnstake { worker: 2 },
            Op::Stake { worker: 1, amount: i128::MAX },
            Op::Deposit { payer: 1, amount: 5 },
            Op::Deposit { payer: 1, amount: i128::MAX },
        ],
    ];
    for (i, ops) in seqs.iter().enumerate() {
        if let Err(e) = run_sequence(ops) {
            panic!("{}", format!("sequence {i}: {e:?}"));
        }
    }
}

/// A small generator of numbers that look random and are the same in every run.
struct Dice(u64);

impl Dice {
    fn roll(&mut self, sides: u64) -> u64 {
        self.0 = self.0.wrapping_mul(6364136223846793005).wrapping_add(1442695040888963407);
        (self.0 >> 33) % sides
    }

    fn amount(&mut self) -> i128 {
        match self.roll(12) {
            0 => -(self.roll(4) as i128),
            1..=3 => 1 + self.roll(50) as i128,
            4..=9 => 1 + self.roll(20_000_000) as i128,
            10 => i128::MAX,
            _ => PAYER_FUNDS - 2 + self.roll(5) as i128,
        }
    }

    fn payer(&mut self) -> usize {
        self.roll(PAYERS as u64) as usize
    }

    fn worker(&mut self) -> usize {
        self.roll(WORKERS as u64) as usize
    }

    fn workers(&mut self, most: u64) -> Vec<usize> {
        let n = self.roll(most + 1);
        (0..n).map(|_| self.worker()).collect()
    }

    fn op(&mut self) -> Op {
        let qid = self.roll(QUESTION_IDS);
        match self.roll(44) {
            0..=5 => Op::Submit { payer: self.payer(), qid, amount: self.amount() },
            6..=7 => Op::Deposit { payer: self.payer(), amount: self.amount() },
            8..=9 => Op::WithdrawBalance { payer: self.payer(), amount: self.amount() },
            10..=12 => Op::Charge { payer: self.payer(), qid, amount: self.amount() },
            13..=18 => Op::Resolve { qid, workers: self.workers(4), losers: self.workers(3) },
            19..=20 => Op::Refund { qid },
            21..=23 => Op::RefundTimeout { qid },
            24..=25 => Op::Stake { worker: self.worker(), amount: self.amount() },
            26..=27 => Op::BeginUnstake { worker: self.worker(), amount: self.amount() },
            28 => Op::CompleteUnstake { worker: self.worker() },
            29..=30 => Op::Withdraw { worker: self.worker(), amount: self.amount() },
            31 => Op::WithdrawTo { worker: self.worker(), amount: self.amount() },
            32 => Op::Touch { worker: self.worker() },
            33 => {
                let ledgers = match self.roll(5) {
                    0 => 0,
                    1 => 1 + self.roll(60) as u32,
                    2 => MAX_TIMEOUT_LEDGERS,
                    3 => MAX_TIMEOUT_LEDGERS + 1,
                    _ => u32::MAX,
                };
                Op::SetTimeout { ledgers }
            }
            34 => Op::ProposeUpgrade,
            35 => Op::CancelUpgrade,
            36 => Op::ExecuteUpgrade,
            37..=40 => {
                let ledgers = match self.roll(4) {
                    0 => 0,
                    1 => 1 + self.roll(30) as u32,
                    2 => INITIAL_TIMEOUT,
                    _ => MIN_UNBONDING_LEDGERS,
                };
                Op::Advance { ledgers }
            }
            _ => Op::AdvanceNearUpgrade { before: self.roll(4) as u32 },
        }
    }
}

#[test]
fn escrow_invariant_holds_for_every_call_sequence() {
    let mut dice = Dice(1);
    for case in 0..64 {
        let n = 1 + dice.roll(47);
        let ops: Vec<Op> = (0..n).map(|_| dice.op()).collect();
        if let Err(e) = run_sequence(&ops) {
            panic!("{}", format!("sequence {case} {ops:?}: {e:?}"));
        }
    }
}

#[test]
fn a_question_nobody_looks_at_shows_as_a_surplus() {
    let ops = vec![
        Op::Submit { payer: 0, qid: 1, amount: 5 },
        Op::Submit { payer: 0, qid: QUESTION_IDS, amount: 7 },
    ];
    assert_eq!(
        run_sequence(&ops),
        Err(Failure::After {
            step: 1,
            violation: Violation::Unreconciled {
                held: 12,
                escrowed: 5,
                prepaid: 0,
                staked: 0,
                owed: 0
            },
        })
    );
    // Refused, so nothing was opened.
    let ops = vec![Op::Submit { payer: 0, qid: QUESTION_IDS, amount: 0 }];
    assert_eq!(run_sequence(&ops), Ok(()));
}

#[test]
fn the_model_starts_with_everything_minted() {
    let model = Model::new(17);
    assert_eq!(model.ledger, 17);
    assert_eq!(model.timeout, 20);
    assert_eq!(model.tokens.iter().sum::<i128>(), 850_000_000);
    assert_eq!(MINTED, 850_000_000);
    assert_eq!(model.tokens[T_PAYER0], 200_000_000);
    assert_eq!(model.tokens[T_WORKER0], 50_000_000);
    assert_eq!(model.tokens[T_CONTRACT], 0);
    assert!(model.questions.is_empty());
}

#[test]
fn the_model_predicts_a_resolution_to_the_last_unit() {
    let mut model = Model::new(1_000);
    assert_eq!(model.apply(&Op::Stake { worker: 3, amount: 1_000_000 }), Outcome::Done);
    assert_eq!(
        model.apply(&Op::BeginUnstake { worker: 3, amount: 990_000 }),
        Outcome::Done
    );
    assert_eq!(model.apply(&Op::Submit { payer: 0, qid: 1, amount: 2_500_001 }), Outcome::Done);
    let resolve = Op::Resolve { qid: 1, workers: vec![0, 1, 2], losers: vec![3, 4] };
    assert_eq!(model.apply(&resolve), Outcome::Done);
    // 20% of 2500001 is 500000; a third of the rest is 666667, and nothing is left over.
    assert_eq!(model.owed, vec![666_667, 666_667, 666_667, 0, 0]);
    assert_eq!(model.paid_to_platform, 500_000);
    assert_eq!(model.credited_to_workers, 2_000_001);
    // 5% of the whole bond, the active part first.
    assert_eq!(model.stake[3], 0);
    assert_eq!(model.unbonding[3], 950_000);
    assert_eq!(model.tokens[T_PLATFORM], 550_000);
    assert_eq!(model.questions[&1].status, Status::Resolved);
    assert_eq!(
        model.apply(&resolve),
        Outcome::Refused(ContractError::QuestionNotPending)
    );
    assert_eq!(
        model.apply(&Op::WithdrawTo { worker: 0, amount: 666_667 }),
        Outcome::Done
    );
    assert_eq!(model.tokens[T_BENEFICIARY], 666_667);
}

#[test]
fn a_refused_step_leaves_all_but_the_funds_as_it_was() {
    let mut model = Model::new(1_000);
    let ops = [
        Op::Deposit { payer: 2, amount: 9 },
        Op::SetTimeout { ledgers: MAX_TIMEOUT_LEDGERS },
        Op::ProposeUpgrade,
        Op::AdvanceNearUpgrade { before: 3 },
        Op::Submit { payer: 1, qid: 1, amount: 5 },
        Op::AdvanceNearUpgrade { before: 1 },
    ];
    for op in &ops {
        assert_eq!(model.apply(op), Outcome::Done);
    }
    let late = Outcome::Refused(ContractError::UpgradeInProgress);
    let before = model.tokens.clone();
    assert_eq!(model.step(&Op::Submit { payer: 2, qid: 2, amount: 5 }), late);
    assert_eq!(model.tokens[T_PAYER0 + 2], before[T_PAYER0 + 2] - 5);
    assert_eq!(model.upgrade_at, Some(139_240));
    assert_eq!(model.ledger, 139_239);
    assert_eq!(model.questions[&1].created_at, 139_237);
    assert_eq!(model.questions[&1].timeout_ledgers, 2);
    assert!(!model.questions.contains_key(&2));
    assert_eq!(model.timeout, MAX_TIMEOUT_LEDGERS);
    // The same through `apply` is undone, also for a charge.
    model.tokens = before.clone();
    assert_eq!(model.apply(&Op::Submit { payer: 2, qid: 2, amount: 5 }), late);
    assert_eq!(model.tokens, before);
    assert_eq!(model.apply(&Op::Charge { payer: 2, qid: 2, amount: 5 }), late);
    assert_eq!(model.balance[2], 9);
    assert_eq!(model.step(&Op::Charge { payer: 2, qid: 2, amount: 5 }), late);
    assert_eq!(model.balance[2], 4);
    assert_eq!(model.tokens, before);
}

#[test]
fn the_model_cuts_a_slash_off_at_the_amount_at_stake() {
    let mut model = Model::new(1_000);
    model.apply(&Op::Stake { worker: 0, amount: WORKER_FUNDS });
    model.apply(&Op::Submit { payer: 0, qid: 0, amount: 100 });
    model.apply(&Op::Resolve { qid: 0, workers: vec![1], losers: vec![0] });
    assert_eq!(model.stake[0], WORKER_FUNDS - 100);
    assert_eq!(model.tokens[T_PLATFORM], 20 + 100);
}

#[test]
fn a_refused_operation_leaves_the_model_alone() {
    let mut model = Model::new(1_000);
    model.apply(&Op::Submit { payer: 0, qid: 1, amount: 10 });
    // The funds would move first; then the id turns out to be taken.
    let again = Op::Submit { payer: 1, qid: 1, amount: 10 };
    assert_eq!(model.apply(&again), Outcome::Refused(ContractError::QuestionAlreadyExists));
    assert_eq!(model.tokens[T_PAYER0 + 1], PAYER_FUNDS);
    assert_eq!(model.tokens[T_CONTRACT], 10);
    let too_much = Op::Deposit { payer: 1, amount: PAYER_FUNDS + 1 };
    assert_eq!(model.apply(&too_much), Outcome::Rejected);
    assert_eq!(
        model.apply(&Op::RefundTimeout { qid: 1 }),
        Outcome::Refused(ContractError::TooEarlyForTimeout)
    );
    assert_eq!(model.refunded, 0);
}

#[test]
fn every_kind_of_disagreement_is_told_apart() {
    let mut h = Harness::new();
    let mut model = Model::new(h.client().sequence);
    let op = Op::Submit { payer: 2, qid: 3, amount: 1_000 };
    assert_eq!(model.apply(&op), h.apply(&op, &model));
    assert_eq!(h.check(&model), Ok(()));

    let mut wrong = model.clone();
    wrong.refunded = 1;
    assert_eq!(
        h.check(&wrong),
        Err(Violation::QuestionFunds { opened: 1_000, escrowed: 1_000 })
    );
    let mut wrong = model.clone();
    wrong.ledger += 1;
    assert_eq!(h.check(&wrong), Err(Violation::Ledger));
    let mut wrong = model.clone();
    wrong.questions.remove(&3);
    assert_eq!(h.check(&wrong), Err(Violation::Question { id: 3 }));
    let mut wrong = model.clone();
    wrong.questions.get_mut(&3).unwrap().payer = 1;
    assert_eq!(h.check(&wrong), Err(Violation::Question { id: 3 }));
    let mut wrong = model.clone();
    wrong.balance[0] = 1;
    assert_eq!(h.check(&wrong), Err(Violation::Balances));
    let mut wrong = model.clone();
    wrong.unbonding[0] = 1;
    assert_eq!(h.check(&wrong), Err(Violation::Bonds));
    let mut wrong = model.clone();
    wrong.tokens[T_PLATFORM] = 1;
    assert_eq!(h.check(&wrong), Err(Violation::Tokens));
    let mut wrong = model.clone();
    wrong.upgrade_at = Some(1_000 + UPGRADE_DELAY_LEDGERS);
    assert_eq!(h.check(&wrong), Err(Violation::Upgrade));
}

#[test]
fn a_check_finds_what_the_contract_and_the_tokens_have_wrong() {
    let fresh = || {
        let mut h = Harness::new();
        let mut model = Model::new(h.client().sequence);
        let ops = [
            Op::Submit { payer: 0, qid: 3, amount: 500 },
            Op::Deposit { payer: 1, amount: 40 },
            Op::Stake { worker: 2, amount: 60 },
        ];
        for op in &ops {
            assert_eq!(model.apply(op), Outcome::Done);
            assert_eq!(h.apply(op, &model), Outcome::Done);
        }
        assert_eq!(h.check(&model), Ok(()));
        (h, model)
    };
    let (mut h, model) = fresh();
    let payer = h.payers[1];
    h.bank.mint(payer, 1);
    let supply = 5 * WORKER_FUNDS + 3 * PAYER_FUNDS + 1;
    assert_eq!(h.check(&model), Err(Violation::Supply { supply }));

    let (mut h, model) = fresh();
    let (payer, contract) = (h.payers[1], h.escrow.this);
    assert!(h.bank.transfer(payer, contract, 7));
    let violation =
        Violation::Unreconciled { held: 607, escrowed: 500, prepaid: 40, staked: 60, owed: 0 };
    assert_eq!(h.check(&model), Err(violation));

    let (mut h, model) = fresh();
    let (from, to) = (h.payers[1], h.workers[0]);
    assert!(h.bank.transfer(from, to, 7));
    assert_eq!(h.check(&model), Err(Violation::Tokens));

    let (mut h, model) = fresh();
    h.escrow.questions.get_mut(&3).unwrap().timeout_ledgers += 1;
    assert_eq!(h.check(&model), Err(Violation::Question { id: 3 }));

    let (mut h, model) = fresh();
    let (payer, worker) = (h.payers[1], h.workers[2]);
    h.escrow.balances.insert(payer.id, 39);
    h.escrow.owed.insert(worker.id, 1);
    assert_eq!(h.check(&model), Err(Violation::Balances));

    let (mut h, model) = fresh();
    h.escrow.sequence += 1;
    assert_eq!(h.check(&model), Err(Violation::Ledger));
}

#[test]
fn everyone_gets_out_exactly_what_is_theirs() {
    let mut h = Harness::new();
    let mut model = Model::new(h.client().sequence);
    let ops = vec![
        Op::Submit { payer: 0, qid: 0, amount: 500 },
        Op::Submit { payer: 1, qid: 1, amount: 1_000 },
        Op::Deposit { payer: 1, amount: 300 },
        Op::Stake { worker: 4, amount: 2_000 },
        Op::BeginUnstake { worker: 4, amount: 700 },
        Op::Resolve { qid: 1, workers: vec![0], losers: vec![] },
    ];
    for op in &ops {
        assert_eq!(model.apply(op), Outcome::Done);
        assert_eq!(h.apply(op, &model), Outcome::Done);
    }
    assert_eq!(h.token_balance(T_CONTRACT), 500 + 300 + 2_000 + 800);
    assert_eq!(h.drain(&model), Ok(()));
    assert_eq!(OracleEscrow::get_question(h.client(), 0).unwrap().status, Status::Refunded);
    assert_eq!(OracleEscrow::get_question(h.client(), 1).unwrap().status, Status::Resolved);
    assert_eq!(OracleEscrow::get_owed(h.client(), h.workers[0]), 0);
    assert_eq!(OracleEscrow::get_stake_info(h.client(), h.workers[4]).unbonding, 0);
    assert_eq!(OracleEscrow::get_stake(h.client(), h.workers[4]), 0);
    assert_eq!(OracleEscrow::get_balance(h.client(), h.payers[1]), 0);
    assert_eq!(h.token_balance(T_CONTRACT), 0);
    assert_eq!(h.token_balance(T_PAYER0), PAYER_FUNDS);
    assert_eq!(h.token_balance(T_PAYER0 + 1), PAYER_FUNDS - 1_000);
    assert_eq!(h.token_balance(T_WORKER0), WORKER_FUNDS + 800);
    assert_eq!(h.token_balance(T_WORKER0 + 4), WORKER_FUNDS);
    assert_eq!(h.token_balance(T_PLATFORM), 200);
    assert_eq!(h.addrs(&vec![4, 0]), vec![h.workers[4], h.workers[0]]);
}
