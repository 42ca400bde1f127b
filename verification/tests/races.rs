//! Settlement races: every order, every landing ledger, exactly one winner.

use oracle_escrow::bank::Bank;
use oracle_escrow::env::Env;
use oracle_escrow::escrow::OracleEscrow;
use oracle_escrow::limits::MAX_TIMEOUT_LEDGERS;
use oracle_escrow::orders::{describe, landing_ledgers, permutations, Racer};
use oracle_escrow::race::{expected, run, settled_by, World, AMOUNT, LOSER_STAKE, QID};
use oracle_escrow::types::{Address, ContractError, Effect, Status};

#[test]
fn resolve_vs_refund_timeout_in_every_order_and_adjacent_ledger() {
    for order in permutations(&vec![Racer::ResolveA, Racer::TimeoutRefund]) {
        for offsets in landing_ledgers(order.len(), &vec![-1, 0, 1]) {
            let winner = run(&order, &offsets);
            assert!(winner.is_some(), "{} at {offsets:?}: nobody settled", describe(&order));
        }
    }
}

#[test]
fn every_settlement_path_racing_at_once_has_exactly_one_winner() {
    let racers = vec![
        Racer::ResolveA,
        Racer::ResolveB,
        Racer::AdminRefund,
        Racer::TimeoutRefund,
        Racer::TimeoutRefundByPayer,
    ];
    // All 120 orders in one ledger at the deadline, where every path is valid.
    let orders = permutations(&racers);
    assert_eq!(orders.len(), 120);
    for order in orders {
        let winner = run(&order, &vec![0; 5]);
        assert_eq!(winner, Some(order[0]), "{}", describe(&order));
    }
}

#[test]
fn every_settlement_path_racing_across_the_deadline_boundary() {
    let racers = vec![Racer::ResolveA, Racer::AdminRefund, Racer::TimeoutRefund];
    for order in permutations(&racers) {
        for offsets in landing_ledgers(order.len(), &vec![-1, 0, 1]) {
            let winner = run(&order, &offsets);
            let first = order
                .iter()
                .zip(&offsets)
                .find(|(r, offset)| **r != Racer::TimeoutRefund || **offset >= 0)
                .map(|(r, _)| *r);
            assert_eq!(winner, first);
        }
    }
}

#[test]
fn two_competing_resolves_never_both_pay_out() {
    for order in permutations(&vec![Racer::ResolveA, Racer::ResolveB]) {
        for offsets in landing_ledgers(2, &vec![-1, 0]) {
            assert_eq!(run(&order, &offsets), Some(order[0]));
        }
    }
}

#[test]
fn two_refund_timeouts_never_double_refund() {
    for offsets in landing_ledgers(2, &vec![0, 1]) {
        assert_eq!(
            run(&vec![Racer::TimeoutRefund, Racer::TimeoutRefundByPayer], &offsets),
            Some(Racer::TimeoutRefund)
        );
    }
}

#[test]
fn refund_timeout_before_the_deadline_can_never_beat_resolve() {
    for order in permutations(&vec![Racer::ResolveA, Racer::TimeoutRefund]) {
        assert_eq!(run(&order, &vec![-1, -1]), Some(Racer::ResolveA));
    }
}

#[test]
fn resolve_simulated_before_the_deadline_but_landing_after_a_refund_fails_cleanly() {
    // The backend simulates resolve() at deadline-1: it succeeds there.
    let mut sim = World::new(-1);
    assert_eq!(sim.apply(Racer::ResolveA), Ok(()));

    // On chain, a third party's refund lands at the deadline, the resolve() one ledger later.
    let mut w = World::new(0);
    let start = w.snapshot();
    assert_eq!(w.apply(Racer::TimeoutRefund), Ok(()));
    let refunded = w.snapshot();
    assert_eq!(refunded, settled_by(&start, Racer::TimeoutRefund));
    w.land_at(1);
    assert_eq!(w.apply(Racer::ResolveA), Err(ContractError::QuestionNotPending));
    assert_eq!(w.snapshot(), refunded);
}

#[test]
fn every_winner_settles_with_exact_figures() {
    let start = World::new(0).snapshot();
    assert_eq!(start.contract, AMOUNT + LOSER_STAKE);
    assert_eq!(start.payer, AMOUNT * 9);
    for (winner, platform, contract, stake, owed) in [
        (Racer::ResolveA, 550_001, 2_950_002, 950_000, vec![1_000_001, 1_000_001, 0, 0, 0]),
        (Racer::ResolveB, 500_002, 3_000_001, 1_000_000, vec![0, 0, 666_667, 666_667, 666_667]),
    ] {
        let mut w = World::new(0);
        assert_eq!(w.apply(winner), Ok(()));
        let end = w.snapshot();
        assert_eq!(end, settled_by(&start, winner));
        assert_eq!(end.status, Status::Resolved);
        assert_eq!(end.platform, platform);
        assert_eq!(end.contract, contract);
        assert_eq!(end.loser_stake, stake);
        assert_eq!(end.owed, owed);
        assert_eq!(w.client().questions[&QID].status, Status::Resolved);
    }
}

#[test]
fn the_prediction_knows_both_errors() {
    assert_eq!(expected(Racer::ResolveA, true, 5, 10), None);
    assert_eq!(expected(Racer::TimeoutRefund, true, 10, 10), None);
    assert_eq!(
        expected(Racer::TimeoutRefundByPayer, true, 9, 10),
        Some(ContractError::TooEarlyForTimeout)
    );
    assert_eq!(
        expected(Racer::AdminRefund, false, 10, 10),
        Some(ContractError::QuestionNotPending)
    );
}

#[test]
fn orders_and_landings_are_listed_completely() {
    let three = vec![Racer::ResolveA, Racer::ResolveB, Racer::AdminRefund];
    let orders = permutations(&three);
    assert_eq!(orders.len(), 6);
    assert_eq!(orders[0], three);
    assert_eq!(orders[5], vec![Racer::AdminRefund, Racer::ResolveB, Racer::ResolveA]);
    assert_eq!(permutations(&Vec::new()), vec![Vec::new()]);
    assert_eq!(
        landing_ledgers(2, &vec![-1, 0]),
        vec![vec![-1, -1], vec![-1, 0], vec![0, 0]]
    );
    assert_eq!(landing_ledgers(3, &vec![-1, 0, 1]).len(), 10);
    assert_eq!(describe(&three), "[ResolveA, ResolveB, AdminRefund]");
    assert_eq!(describe(&Vec::new()), "[]");
    assert_eq!(
        describe(&vec![Racer::TimeoutRefund, Racer::TimeoutRefundByPayer]),
        format!("{:?}", [Racer::TimeoutRefund, Racer::TimeoutRefundByPayer])
    );
}

/// Lands one call: its transfers are carried out, or nothing has happened at all.
fn land<T>(
    w: &mut World,
    f: impl FnOnce(&mut Env) -> Result<T, ContractError>,
) -> Result<T, ContractError> {
    let mut next = w.escrow.clone();
    next.effects = Vec::new();
    let value = f(&mut next)?;
    assert!(w.bank.carry_out(&next.effects));
    next.effects = Vec::new();
    w.escrow = next;
    Ok(value)
}

#[test]
fn admin_rotation_landing_first_invalidates_the_old_admins_resolve() {
    // The rotation lands first, so the old administrator's signature is not the one that the
    // resolution asks for, while the permissionless path still works.
    let mut w = World::new(0);
    let new_admin = Address { id: 99 };
    land(&mut w, |e| OracleEscrow::set_admin(e, new_admin)).unwrap();
    let mut next = w.escrow.clone();
    next.effects = Vec::new();
    let losers = vec![w.loser];
    OracleEscrow::resolve(&mut next, QID, &w.workers_a, &losers).unwrap();
    assert_eq!(next.effects[0], Effect::RequireAuth { address: new_admin });
    assert!(!next.effects.contains(&Effect::RequireAuth { address: w.admin }));

    land(&mut w, |e| OracleEscrow::refund_timeout(e, QID)).unwrap();
    assert_eq!(w.escrow.questions[&QID].status, Status::Refunded);
}

#[test]
fn competing_submits_for_one_question_id_take_only_the_winners_funds() {
    let mut w = World::new(-50);
    let other = Address { id: 98 };
    w.bank.mint(other, AMOUNT);
    let payer = w.payer;
    let contract = w.escrow.this;
    let contract_before = w.bank.balance(contract);
    land(&mut w, |e| OracleEscrow::submit(e, payer, 99, AMOUNT)).unwrap();
    assert_eq!(
        land(&mut w, |e| OracleEscrow::submit(e, other, 99, AMOUNT)),
        Err(ContractError::QuestionAlreadyExists)
    );
    assert_eq!(w.bank.balance(other), AMOUNT, "loser's funds never left");
    assert_eq!(w.bank.balance(contract), contract_before + AMOUNT);
    assert_eq!(OracleEscrow::get_question(w.client(), 99).unwrap().payer, payer);
}

#[test]
fn a_settled_question_id_can_never_be_reopened_and_settled_again() {
    for winner in [Racer::ResolveA, Racer::AdminRefund, Racer::TimeoutRefund] {
        let mut w = World::new(0);
        let payer = w.payer;
        assert_eq!(w.apply(winner), Ok(()));
        assert_eq!(
            land(&mut w, |e| OracleEscrow::submit(e, payer, QID, AMOUNT)),
            Err(ContractError::QuestionAlreadyExists)
        );
        w.land_at(1);
        for late in [Racer::ResolveA, Racer::ResolveB, Racer::AdminRefund, Racer::TimeoutRefund] {
            assert_eq!(
                w.apply(late),
                Err(ContractError::QuestionNotPending),
                "{winner:?} then {late:?}"
            );
        }
    }
}

#[test]
fn charge_racing_withdraw_balance_never_spends_the_same_deposit_twice() {
    for charge_first in [true, false] {
        let mut w = World::new(-50);
        let payer = w.payer;
        let contract = w.escrow.this;
        land(&mut w, |e| OracleEscrow::deposit(e, payer, AMOUNT)).unwrap();
        let payer_before = w.bank.balance(payer);
        let contract_before = w.bank.balance(contract);

        if charge_first {
            land(&mut w, |e| OracleEscrow::charge(e, payer, 50, AMOUNT)).unwrap();
            assert_eq!(
                land(&mut w, |e| OracleEscrow::withdraw_balance(e, payer, AMOUNT)),
                Err(ContractError::InsufficientBalance)
            );
            assert_eq!(OracleEscrow::get_question(w.client(), 50).unwrap().status, Status::Pending);
            assert_eq!(w.bank.balance(payer), payer_before);
        } else {
            land(&mut w, |e| OracleEscrow::withdraw_balance(e, payer, AMOUNT)).unwrap();
            assert_eq!(
                land(&mut w, |e| OracleEscrow::charge(e, payer, 50, AMOUNT)),
                Err(ContractError::InsufficientBalance)
            );
            assert_eq!(
                OracleEscrow::get_question(w.client(), 50),
                Err(ContractError::QuestionNotFound)
            );
            assert_eq!(w.bank.balance(payer), payer_before + AMOUNT);
        }
        assert_eq!(OracleEscrow::get_balance(w.client(), payer), 0);
        assert_eq!(
            w.bank.balance(contract),
            if charge_first { contract_before } else { contract_before - AMOUNT }
        );
    }
}

#[test]
fn raising_the_timeout_in_the_same_ledger_as_a_submit_is_bounded() {
    let mut w = World::new(-50);
    let payer = w.payer;
    assert_eq!(
        land(&mut w, |e| OracleEscrow::set_timeout_ledgers(e, MAX_TIMEOUT_LEDGERS + 1)),
        Err(ContractError::InvalidTimeout)
    );
    land(&mut w, |e| OracleEscrow::set_timeout_ledgers(e, MAX_TIMEOUT_LEDGERS)).unwrap();
    land(&mut w, |e| OracleEscrow::submit(e, payer, 77, AMOUNT)).unwrap();
    let q = OracleEscrow::get_question(w.client(), 77).unwrap();
    assert_eq!(q.timeout_ledgers, MAX_TIMEOUT_LEDGERS);

    w.escrow.sequence = q.created_at + MAX_TIMEOUT_LEDGERS;
    land(&mut w, |e| OracleEscrow::refund_timeout(e, 77)).unwrap();
    assert_eq!(OracleEscrow::get_question(w.client(), 77).unwrap().status, Status::Refunded);
}

#[test]
fn a_huge_timeout_can_no_longer_disable_the_escape_hatch() {
    let mut env = Env::new(Address { id: 1 }, 0, 6_000_000);
    let (admin, token, platform) = (Address { id: 2 }, Address { id: 3 }, Address { id: 4 });
    for bad in [u32::MAX, MAX_TIMEOUT_LEDGERS + 1] {
        assert_eq!(
            OracleEscrow::initialize(&mut env, admin, token, platform, bad),
            Err(ContractError::InvalidTimeout)
        );
    }
    OracleEscrow::initialize(&mut env, admin, token, platform, MAX_TIMEOUT_LEDGERS).unwrap();
    for bad in [u32::MAX, MAX_TIMEOUT_LEDGERS + 1] {
        assert_eq!(
            OracleEscrow::set_timeout_ledgers(&mut env, bad),
            Err(ContractError::InvalidTimeout)
        );
    }
    assert_eq!(OracleEscrow::get_timeout_ledgers(&env), Ok(MAX_TIMEOUT_LEDGERS));
}

#[test]
fn a_bank_moves_all_transfers_or_none() {
    let (a, b, c, token) = (Address { id: 1 }, Address { id: 2 }, Address { id: 3 }, Address { id: 9 });
    let mut bank = Bank::new();
    bank.mint(a, 10);
    let pay = |from, to, amount| Effect::Transfer { token, from, to, amount };
    assert!(!bank.carry_out(&vec![pay(a, b, 4), pay(b, c, 5)]));
    assert_eq!((bank.balance(a), bank.balance(b)), (10, 0));
    assert!(bank.carry_out(&vec![pay(a, b, 4), Effect::RequireAuth { address: c }, pay(b, c, 3)]));
    assert_eq!((bank.balance(a), bank.balance(b), bank.balance(c)), (6, 1, 3));
    assert!(bank.transfer(a, a, 6));
    assert_eq!(bank.balance(a), 6);
    assert!(!bank.transfer(a, b, 7));
    assert!(!bank.transfer(a, b, -1));
    bank.mint(b, i128::MAX - 1);
    assert!(!bank.transfer(a, b, 1));
}
