//! Resolving a question: the fee, the workers' shares and the losers' slashes.
use crate::env::{Env, State};
use crate::escrow::OracleEscrow;
use crate::limits::{
    BPS_DENOM, MAX_QUORUM_SIZE, PLATFORM_FEE_BPS, SLASH_BPS, SLASH_CAP_BPS_OF_AMOUNT,
};
use crate::types::{Address, ContractError, Question, StakeInfo, Status};
use vstd::prelude::*;

verus! {

/// The platform's cut of a question.
pub open spec fn fee(amount: int) -> int {
    amount * PLATFORM_FEE_BPS / BPS_DENOM as int
}

/// What each of `n` workers is credited.
pub open spec fn share(amount: int, n: int) -> int {
    (amount - fee(amount)) / n
}

/// What the even split leaves over; the platform keeps it.
pub open spec fn dust(amount: int, n: int) -> int {
    amount - fee(amount) - share(amount, n) * n
}

/// The most that one lost quorum on this question can cost one worker.
pub open spec fn slash_cap(amount: int) -> int {
    amount * SLASH_CAP_BPS_OF_AMOUNT / BPS_DENOM as int
}

impl State {
    /// What losing one quorum costs `worker`; a worker who never staked loses nothing.
    pub open spec fn slash_of(self, worker: Address, cap: int) -> int {
        if self.stakes.contains_key(worker.id) {
            self.stake_info(worker).slash_amount(cap)
        } else {
            0
        }
    }

    pub open spec fn slash_one(self, worker: Address, cap: int) -> State {
        if self.slash_of(worker, cap) == 0 {
            self
        } else {
            self.put_stake(worker, self.stake_info(worker).less(self.slash_of(worker, cap)))
        }
    }

    /// Every loser slashed, in order.
    pub open spec fn slash_all(self, losers: Seq<Address>, cap: int) -> State
        decreases losers.len(),
    {
        if losers.len() == 0 {
            self
        } else {
            self.slash_all(losers.drop_last(), cap).slash_one(losers.last(), cap)
        }
    }

    /// What the losers forfeit together.
    pub open spec fn slash_total(self, losers: Seq<Address>, cap: int) -> int
        decreases losers.len(),
    {
        if losers.len() == 0 {
            0
        } else {
            self.slash_total(losers.drop_last(), cap) + self.slash_of(losers.last(), cap)
        }
    }

    /// Every worker credited `amount`, in order.
    pub open spec fn credit_all(self, workers: Seq<Address>, amount: i128) -> State
        decreases workers.len(),
    {
        if workers.len() == 0 {
            self
        } else {
            let before = self.credit_all(workers.drop_last(), amount);
            before.put_owed(workers.last(), (before.owed_to(workers.last()) + amount) as i128)
        }
    }

    /// The same state but for bonds and requests to the host.
    pub open spec fn same_but_stakes(self, other: State) -> bool {
        self == State { stakes: self.stakes, effects: self.effects, ..other }
    }

    /// The same state but for credits and requests to the host.
    pub open spec fn same_but_owed(self, other: State) -> bool {
        self == State { owed: self.owed, effects: self.effects, ..other }
    }
}

/// What the platform is paid when a question is resolved.
pub open spec fn platform_take(s: State, amount: int, n: int, losers: Seq<Address>) -> int {
    fee(amount) + dust(amount, n) + s.slash_total(losers, slash_cap(amount))
}

/// Nobody is listed twice, neither within a list nor across the two.
pub open spec fn lists_disjoint(workers: Seq<Address>, losing_workers: Seq<Address>) -> bool {
    (workers + losing_workers).no_duplicates()
}

/// Why a quorum of this size is refused, if it is.
pub open spec fn quorum_error(workers: int, losing_workers: int) -> Option<ContractError> {
    if workers == 0 {
        Some(ContractError::NoWorkers)
    } else if workers + losing_workers > MAX_QUORUM_SIZE {
        Some(ContractError::QuorumTooLarge)
    } else {
        None
    }
}

pub open spec fn resolve_outcome(
    s: State,
    id: u64,
    workers: Seq<Address>,
    losing_workers: Seq<Address>,
) -> Result<(), ContractError> {
    let quorum = quorum_error(workers.len() as int, losing_workers.len() as int);
    if s.config.admin is None {
        Err(ContractError::NotInitialized)
    } else if quorum is Some {
        Err(quorum->0)
    } else if !lists_disjoint(workers, losing_workers) {
        Err(ContractError::InvalidWorkerLists)
    } else if !s.questions.contains_key(id) {
        Err(ContractError::QuestionNotFound)
    } else if s.questions[id].status != Status::Pending {
        Err(ContractError::QuestionNotPending)
    } else if s.config.platform is None || s.config.token is None {
        Err(ContractError::NotInitialized)
    } else {
        Ok(())
    }
}

/// The losers are slashed and the winners credited, the question is marked resolved, and one
/// transfer pays the platform.
pub open spec fn resolve_next(
    s: State,
    id: u64,
    workers: Seq<Address>,
    losing_workers: Seq<Address>,
) -> State {
    let amount: int = s.questions[id].amount as int;
    let n: int = workers.len() as int;
    s.ask_admin().slash_all(losing_workers, slash_cap(amount)).credit_all(
        workers,
        share(amount, n) as i128,
    ).settle_question(id, Status::Resolved).transfer(
        s.config.token->0,
        s.this,
        s.config.platform->0,
        platform_take(s, amount, n, losing_workers) as i128,
    )
}

/// Whether a resolution stays within the number range, and finds the index entries it moves.
pub open spec fn resolve_fits(
    s: State,
    id: u64,
    workers: Seq<Address>,
    losing_workers: Seq<Address>,
) -> bool {
    let amount: int = s.questions[id].amount as int;
    &&& amount * BPS_DENOM <= i128::MAX
    &&& forall|i: int|
        0 <= i < losing_workers.len() && s.stakes.contains_key(losing_workers[i].id)
            ==> s.recorded_stake(#[trigger] losing_workers[i]).total() * SLASH_BPS <= i128::MAX
    &&& forall|i: int|
        0 <= i < workers.len() ==> s.owed_to(#[trigger] workers[i]) + share(
            amount,
            workers.len() as int,
        ) <= i128::MAX
    &&& s.index_ready(id)
}

/// The parts of a split are the whole, and none is negative.
pub proof fn split_is_exact(amount: int, n: int)
    requires
        amount > 0,
        n > 0,
    ensures
        fee(amount) + share(amount, n) * n + dust(amount, n) == amount,
        0 <= fee(amount) <= amount,
        0 <= share(amount, n) <= amount,
        0 <= dust(amount, n) < n,
        slash_cap(amount) == amount,
{
    let pool = amount - fee(amount);
    assert(pool >= 0 && 0 <= pool - (pool / n) * n < n && 0 <= pool / n <= pool)
        by (nonlinear_arith)
        requires
            pool >= 0,
            n > 0,
    ;
}

/// Slashing touches only the bonds of the listed workers, and keeps them well formed.
pub proof fn slash_all_frame(s: State, losers: Seq<Address>, cap: int)
    requires
        s.wf(),
    ensures
        s.slash_all(losers, cap).same_but_stakes(s),
        s.slash_all(losers, cap).wf(),
        s.slash_all(losers, cap).stakes.dom() == s.stakes.dom(),
        forall|a: u64|
            (forall|i: int| 0 <= i < losers.len() ==> (#[trigger] losers[i]).id != a)
                ==> #[trigger] s.slash_all(losers, cap).stakes[a] == s.stakes[a],
    decreases losers.len(),
{
    if losers.len() > 0 {
        slash_all_frame(s, losers.drop_last(), cap);
    }
}

/// Crediting touches only the credits of the listed workers.
pub proof fn credit_all_frame(s: State, workers: Seq<Address>, amount: i128)
    ensures
        s.credit_all(workers, amount).same_but_owed(s),
        forall|w: Address|
            (forall|i: int| 0 <= i < workers.len() ==> (#[trigger] workers[i]).id != w.id)
                ==> #[trigger] s.credit_all(workers, amount).owed_to(w) == s.owed_to(w),
        forall|a: u64|
            (forall|i: int| 0 <= i < workers.len() ==> (#[trigger] workers[i]).id != a) ==> (
            #[trigger] s.credit_all(workers, amount).owed.contains_key(a)
                <==> s.owed.contains_key(a)),
    decreases workers.len(),
{
    if workers.len() > 0 {
        let before = workers.drop_last();
        credit_all_frame(s, before, amount);
        let mid = s.credit_all(before, amount);
        let last = workers.last();
        assert forall|w: Address|
            (forall|i: int| 0 <= i < workers.len() ==> (#[trigger] workers[i]).id
                != w.id) implies #[trigger] s.credit_all(workers, amount).owed_to(w) == s.owed_to(
            w,
        ) by {
            assert(workers[workers.len() - 1].id != w.id);
            assert forall|i: int| 0 <= i < before.len() implies (#[trigger] before[i]).id
                != w.id by {
                assert(before[i] == workers[i]);
            }
            assert(mid.owed_to(w) == s.owed_to(w));
        }
        assert forall|a: u64|
            (forall|i: int| 0 <= i < workers.len() ==> (#[trigger] workers[i]).id
                != a) implies (#[trigger] s.credit_all(workers, amount).owed.contains_key(a)
            <==> s.owed.contains_key(a)) by {
            assert(workers[workers.len() - 1].id != a);
            assert forall|i: int| 0 <= i < before.len() implies (#[trigger] before[i]).id
                != a by {
                assert(before[i] == workers[i]);
            }
            assert(mid.owed.contains_key(a) <==> s.owed.contains_key(a));
        }
    }
}

/// Neither list names anyone twice.
pub proof fn each_list_is_distinct(workers: Seq<Address>, losing_workers: Seq<Address>)
    requires
        lists_disjoint(workers, losing_workers),
    ensures
        workers.no_duplicates(),
        losing_workers.no_duplicates(),
        forall|i: int, j: int|
            0 <= i < workers.len() && 0 <= j < losing_workers.len() ==> #[trigger] workers[i]
                != #[trigger] losing_workers[j],
{
    let all = workers + losing_workers;
    assert forall|i: int, j: int|
        0 <= i < workers.len() && 0 <= j < workers.len() && i != j implies workers[i]
        != workers[j] by {
        assert(all[i] == workers[i] && all[j] == workers[j]);
    }
    assert forall|i: int, j: int|
        0 <= i < losing_workers.len() && 0 <= j < losing_workers.len() && i
            != j implies losing_workers[i] != losing_workers[j] by {
        assert(all[workers.len() + i] == losing_workers[i]);
        assert(all[workers.len() + j] == losing_workers[j]);
    }
    assert forall|i: int, j: int|
        0 <= i < workers.len() && 0 <= j < losing_workers.len() implies #[trigger] workers[i]
        != #[trigger] losing_workers[j] by {
        assert(all[i] == workers[i]);
        assert(all[workers.len() + j] == losing_workers[j]);
    }
}

/// Every listed worker gains exactly the credited amount.
pub proof fn credit_all_credits_each(s: State, workers: Seq<Address>, amount: i128)
    requires
        workers.no_duplicates(),
        amount >= 0,
        forall|i: int|
            0 <= i < workers.len() ==> s.owed_to(#[trigger] workers[i]) + amount <= i128::MAX,
    ensures
        forall|i: int|
            0 <= i < workers.len() ==> s.credit_all(workers, amount).owed_to(
                #[trigger] workers[i],
            ) == s.owed_to(workers[i]) + amount,
        s.wf() ==> s.credit_all(workers, amount).wf(),
    decreases workers.len(),
{
    if workers.len() > 0 {
        let before = workers.drop_last();
        let last = workers.last();
        assert forall|i: int| 0 <= i < before.len() implies s.owed_to(#[trigger] before[i])
            + amount <= i128::MAX by {
            assert(before[i] == workers[i]);
        }
        credit_all_credits_each(s, before, amount);
        credit_all_frame(s, before, amount);
        let mid = s.credit_all(before, amount);
        assert forall|i: int| 0 <= i < before.len() implies (#[trigger] before[i]).id
            != last.id by {
            assert(before[i] == workers[i]);
            assert(workers[workers.len() - 1] == last);
        }
        assert(workers[workers.len() - 1] == last);
        assert(mid.owed_to(last) == s.owed_to(last));
        assert forall|i: int| 0 <= i < workers.len() implies s.credit_all(workers, amount).owed_to(
            #[trigger] workers[i],
        ) == s.owed_to(workers[i]) + amount by {
            if i < before.len() {
                assert(before[i] == workers[i]);
            }
        }
    }
}

/// Every listed loser forfeits exactly what losing one quorum costs, whatever the others lose.
pub proof fn slash_all_slashes_each(s: State, losers: Seq<Address>, cap: int)
    requires
        s.wf(),
        losers.no_duplicates(),
        forall|i: int|
            0 <= i < losers.len() && s.stakes.contains_key(losers[i].id) ==> s.recorded_stake(
                #[trigger] losers[i],
            ).total() <= i128::MAX,
    ensures
        forall|i: int|
            0 <= i < losers.len() ==> s.slash_all(losers, cap).recorded_stake(
                #[trigger] losers[i],
            ) == s.slash_one(losers[i], cap).recorded_stake(losers[i]),
        forall|i: int|
            0 <= i < losers.len() ==> s.slash_all(losers, cap).recorded_stake(
                #[trigger] losers[i],
            ).total() == s.recorded_stake(losers[i]).total() - s.slash_of(losers[i], cap),
    decreases losers.len(),
{
    if losers.len() > 0 {
        let before = losers.drop_last();
        let last = losers.last();
        assert forall|i: int|
            0 <= i < before.len() && s.stakes.contains_key(before[i].id) implies s.recorded_stake(
            #[trigger] before[i],
        ).total() <= i128::MAX by {
            assert(before[i] == losers[i]);
        }
        slash_all_slashes_each(s, before, cap);
        slash_all_frame(s, before, cap);
        let mid = s.slash_all(before, cap);
        assert(losers[losers.len() - 1] == last);
        assert forall|i: int| 0 <= i < before.len() implies (#[trigger] before[i]).id
            != last.id by {
            assert(before[i] == losers[i]);
        }
        assert(mid.stakes[last.id] == s.stakes[last.id]);
        assert(mid.recorded_stake(last) == s.recorded_stake(last));
        assert forall|i: int| 0 <= i < losers.len() implies s.slash_all(losers, cap).recorded_stake(
            #[trigger] losers[i],
        ) == s.slash_one(losers[i], cap).recorded_stake(losers[i]) by {
            if i < before.len() {
                assert(before[i] == losers[i]);
            }
        }
        assert forall|i: int| 0 <= i < losers.len() implies s.slash_all(losers, cap).recorded_stake(
            #[trigger] losers[i],
        ).total() == s.recorded_stake(losers[i]).total() - s.slash_of(losers[i], cap) by {
            if i < before.len() {
                assert(before[i] == losers[i]);
            }
        }
    }
}

/// What the losers forfeit is no more than the cap for each of them.
pub proof fn slash_total_bounds(s: State, losers: Seq<Address>, cap: int)
    requires
        s.wf(),
        cap >= 0,
    ensures
        0 <= s.slash_total(losers, cap) <= cap * losers.len(),
    decreases losers.len(),
{
    if losers.len() > 0 {
        slash_total_bounds(s, losers.drop_last(), cap);
        assert(cap * losers.len() == cap * (losers.len() - 1) + cap) by (nonlinear_arith);
    }
}

impl OracleEscrow {
    /// Administrator only. Pays the platform its fee, the leftover of the split and whatever
    /// the losers forfeit, and credits the rest evenly to `workers`, who withdraw it when they
    /// like. A loser without stake is skipped, so a slash never fails the call.
    pub fn resolve(
        env: &mut Env,
        question_id: u64,
        workers: &Vec<Address>,
        losing_workers: &Vec<Address>,
    ) -> (result: Result<(), ContractError>)
        requires
            old(env)@.wf(),
            resolve_outcome(old(env)@, question_id, workers@, losing_workers@) is Ok
                ==> resolve_fits(old(env)@, question_id, workers@, losing_workers@),
        ensures
            result == resolve_outcome(old(env)@, question_id, workers@, losing_workers@),
            result is Ok ==> final(env)@ == resolve_next(
                old(env)@,
                question_id,
                workers@,
                losing_workers@,
            ),
            result is Err ==> final(env)@ == old(env)@.ask_admin(),
            final(env)@.wf(),
    {
        let ghost s = env@;
        Self::admit_quorum(env, workers.len(), losing_workers.len())?;
        let (question, platform, token): (Question, Address, Address) = match Self::resolvable(
            env,
            question_id,
            workers,
            losing_workers,
        ) {
            Ok(found) => found,
            Err(e) => {
                return Err(e);
            },
        };
        let this: Address = env.this;
        let amount: i128 = question.amount;
        let n: i128 = workers.len() as i128;
        proof {
            split_is_exact(amount as int, n as int);
        }
        let fee: i128 = amount * PLATFORM_FEE_BPS / BPS_DENOM;
        let pool: i128 = amount - fee;
        let share: i128 = pool / n;
        assert(share * n <= pool) by (nonlinear_arith)
            requires
                share == pool as int / n as int,
                n > 0,
        ;
        assert(share * n >= 0) by (nonlinear_arith)
            requires
                share >= 0,
                n > 0,
        ;
        let dust: i128 = pool - share * n;
        let cap: i128 = amount * SLASH_CAP_BPS_OF_AMOUNT / BPS_DENOM;
        let mut take: i128 = fee + dust;
        let ghost asked = env@;
        let mut i: usize = 0;
        while i < losing_workers.len()
            invariant
                0 <= i <= losing_workers.len() <= 64,
                asked == s.ask_admin(),
                s.wf(),
                cap == slash_cap(amount as int),
                cap == amount,
                0 < amount,
                amount * 10_000 <= i128::MAX,
                0 <= fee + dust <= amount,
                lists_disjoint(workers@, losing_workers@),
                forall|i: int|
                    0 <= i < losing_workers.len() && s.stakes.contains_key(losing_workers[i].id)
                        ==> s.recorded_stake(#[trigger] losing_workers[i]).total() * SLASH_BPS
                        <= i128::MAX,
                env@ == asked.slash_all(losing_workers@.take(i as int), cap as int),
                env@.wf(),
                take == fee + dust + s.slash_total(losing_workers@.take(i as int), cap as int),
            decreases losing_workers.len() - i,
        {
            let ghost done = losing_workers@.take(i as int);
            let ghost next = losing_workers@.take(i + 1);
            let loser: Address = losing_workers[i];
            proof {
                slash_all_frame(asked, done, cap as int);
                slash_total_bounds(s, done, cap as int);
                assert(cap * done.len() <= cap * 64) by (nonlinear_arith)
                    requires
                        done.len() <= 64,
                        cap > 0,
                ;
                assert(next.drop_last() == done);
                assert forall|j: int| 0 <= j < done.len() implies (#[trigger] done[j]).id
                    != loser.id by {
                    let all = workers@ + losing_workers@;
                    assert(all[workers.len() + j] == done[j]);
                    assert(all[workers.len() + i] == loser);
                }
                assert(env@.recorded_stake(loser) == s.recorded_stake(loser));
                assert(env@.stake_info(loser) == s.stake_info(loser));
                assert(asked.slash_of(loser, cap as int) == s.slash_of(loser, cap as int));
            }
            take = take + Self::slash(env, loser, cap);
            i = i + 1;
        }
        assert(losing_workers@.take(i as int) == losing_workers@);
        let ghost slashed = env@;
        proof {
            slash_all_frame(asked, losing_workers@, cap as int);
        }
        let mut i: usize = 0;
        while i < workers.len()
            invariant
                0 <= i <= workers.len(),
                0 <= share,
                lists_disjoint(workers@, losing_workers@),
                forall|i: int|
                    0 <= i < workers.len() ==> slashed.owed_to(#[trigger] workers[i]) + share
                        <= i128::MAX,
                env@ == slashed.credit_all(workers@.take(i as int), share),
                env@.wf(),
            decreases workers.len() - i,
        {
            let ghost done = workers@.take(i as int);
            let ghost next = workers@.take(i + 1);
            let worker: Address = workers[i];
            proof {
                credit_all_frame(slashed, done, share);
                assert(next.drop_last() == done);
                assert forall|j: int| 0 <= j < done.len() implies (#[trigger] done[j]).id
                    != worker.id by {
                    let all = workers@ + losing_workers@;
                    assert(all[j] == done[j]);
                    assert(all[i as int] == worker);
                }
                assert(env@.owed_to(worker) == slashed.owed_to(worker));
            }
            Self::credit_owed(env, worker, share);
            i = i + 1;
        }
        assert(workers@.take(i as int) == workers@);
        proof {
            credit_all_frame(slashed, workers@, share);
        }
        Self::settle_question(env, question_id, question, Status::Resolved);
        env.transfer(token, this, platform, take);
        Ok(())
    }

    /// Why a quorum of this size is refused, if it is.
    fn refused_size(workers: usize, losing_workers: usize) -> (error: Option<ContractError>)
        ensures
            error == quorum_error(workers as int, losing_workers as int),
    {
        let max: usize = MAX_QUORUM_SIZE as usize;
        if workers == 0 {
            Some(ContractError::NoWorkers)
        } else if workers > max || losing_workers > max - workers {
            Some(ContractError::QuorumTooLarge)
        } else {
            None
        }
    }

    /// The first part of `resolve`: the administrator has to sign, and the quorum must not be
    /// empty or too large. Nothing that is listed has to be looked up for that.
    pub fn admit_quorum(env: &mut Env, workers: usize, losing_workers: usize) -> (result: Result<
        (),
        ContractError,
    >)
        ensures
            result == (if old(env)@.config.admin is None {
                Err(ContractError::NotInitialized)
            } else {
                match quorum_error(workers as int, losing_workers as int) {
                    Some(e) => Err(e),
                    None => Ok(()),
                }
            }),
            final(env)@ == old(env)@.ask_admin(),
    {
        Self::require_admin(env)?;
        match Self::refused_size(workers, losing_workers) {
            Some(e) => Err(e),
            None => Ok(()),
        }
    }

    /// What resolving needs once the administrator has signed and the quorum is admitted: the
    /// question, the platform and the token.
    fn resolvable(
        env: &Env,
        question_id: u64,
        workers: &Vec<Address>,
        losing_workers: &Vec<Address>,
    ) -> (result: Result<(Question, Address, Address), ContractError>)
        requires
            quorum_error(workers.len() as int, losing_workers.len() as int) is None,
        ensures
            env@.config.admin is Some ==> resolve_outcome(
                env@,
                question_id,
                workers@,
                losing_workers@,
            ) == (match result {
                Ok(_) => Ok(()),
                Err(e) => Err(e),
            }),
            result matches Ok((question, platform, token)) ==> {
                &&& env@.is_pending(question_id)
                &&& question == env@.questions[question_id]
                &&& env@.config.platform == Some(platform)
                &&& env@.config.token == Some(token)
            },
    {
        if let Err(e) = Self::validate_worker_lists(workers, losing_workers) {
            return Err(e);
        }
        let question: Question = match env.questions.get(&question_id) {
            Some(question) => *question,
            None => {
                return Err(ContractError::QuestionNotFound);
            },
        };
        if question.status != Status::Pending {
            return Err(ContractError::QuestionNotPending);
        }
        let platform: Address = match env.config.platform {
            Some(platform) => platform,
            None => {
                return Err(ContractError::NotInitialized);
            },
        };
        match Self::token(env) {
            Ok(token) => Ok((question, platform, token)),
            Err(e) => Err(e),
        }
    }

    /// Whether `resolve` can be called as it stands: either it refuses, or its figures stay within
    /// the number range and the index entries it moves are there.
    pub fn resolve_in_range(
        env: &Env,
        question_id: u64,
        workers: &Vec<Address>,
        losing_workers: &Vec<Address>,
    ) -> (in_range: bool)
        requires
            env@.wf(),
        ensures
            in_range == (resolve_outcome(env@, question_id, workers@, losing_workers@) is Ok
                ==> resolve_fits(env@, question_id, workers@, losing_workers@)),
    {
        if env.config.admin.is_none() || Self::refused_size(
            workers.len(),
            losing_workers.len(),
        ).is_some() {
            return true;
        }
        let amount: i128 = match Self::resolvable(env, question_id, workers, losing_workers) {
            Ok((question, _, _)) => question.amount,
            Err(_) => {
                return true;
            },
        };
        let ghost s = env@;
        if amount > i128::MAX / BPS_DENOM {
            return false;
        }
        let n: i128 = workers.len() as i128;
        proof {
            split_is_exact(amount as int, n as int);
        }
        let share: i128 = (amount - amount * PLATFORM_FEE_BPS / BPS_DENOM) / n;
        let most: i128 = i128::MAX / SLASH_BPS;
        let mut i: usize = 0;
        while i < losing_workers.len()
            invariant
                0 <= i <= losing_workers.len(),
                s == env@,
                s.wf(),
                most == i128::MAX / SLASH_BPS,
                resolve_outcome(s, question_id, workers@, losing_workers@) is Ok,
                forall|j: int|
                    0 <= j < i && s.stakes.contains_key(losing_workers[j].id) ==> s.recorded_stake(
                        #[trigger] losing_workers[j],
                    ).total() * SLASH_BPS <= i128::MAX,
            decreases losing_workers.len() - i,
        {
            if let Some(info) = env.stakes.get(&losing_workers[i].id) {
                assert(s.recorded_stake(losing_workers[i as int]) == *info);
                if info.settled > most || info.warming > most - info.settled || info.unbonding
                    > most - info.settled - info.warming {
                    return false;
                }
            }
            i = i + 1;
        }
        let mut i: usize = 0;
        while i < workers.len()
            invariant
                0 <= i <= workers.len(),
                s == env@,
                s.wf(),
                0 <= share,
                share == self::share(s.questions[question_id].amount as int, workers.len() as int),
                resolve_outcome(s, question_id, workers@, losing_workers@) is Ok,
                forall|j: int|
                    0 <= j < i ==> s.owed_to(#[trigger] workers[j]) + share <= i128::MAX,
            decreases workers.len() - i,
        {
            if env.owed_to(workers[i]) > i128::MAX - share {
                assert(s.owed_to(workers[i as int]) + share > i128::MAX);
                return false;
            }
            i = i + 1;
        }
        match env.pending_pos.get(&question_id) {
            Some(slot) => env.pending_count > 0 && (*slot == env.pending_count - 1
                || env.pending_at.contains_key(&(env.pending_count - 1))),
            None => true,
        }
    }

    /// Takes what `worker` forfeits out of the bond and returns it; the caller pays it out.
    fn slash(env: &mut Env, worker: Address, cap: i128) -> (amount: i128)
        requires
            old(env)@.wf(),
            old(env)@.stakes.contains_key(worker.id) ==> old(env)@.recorded_stake(worker).total()
                * SLASH_BPS <= i128::MAX,
        ensures
            amount == old(env)@.slash_of(worker, cap as int),
            final(env)@ == old(env)@.slash_one(worker, cap as int),
            final(env)@.wf(),
    {
        if !env.stakes.contains_key(&worker.id) {
            return 0;
        }
        let info: StakeInfo = Self::stake_info(env, worker);
        let amount: i128 = info.slash_due(cap);
        if amount == 0 {
            return 0;
        }
        env.put_stake(worker, info.take(amount));
        amount
    }

    /// Refuses an address that is listed twice, within a list or across the two.
    fn validate_worker_lists(workers: &Vec<Address>, losing_workers: &Vec<Address>) -> (result:
        Result<(), ContractError>)
        ensures
            result == (if lists_disjoint(workers@, losing_workers@) {
                Ok(())
            } else {
                Err(ContractError::InvalidWorkerLists)
            }),
    {
        let ghost all = workers@ + losing_workers@;
        let ghost n = workers.len() as int;
        let mut i: usize = 0;
        while i < workers.len()
            invariant
                0 <= i <= workers.len(),
                all == workers@ + losing_workers@,
                n == workers.len(),
                forall|a: int, b: int|
                    0 <= a < i && a < b < all.len() ==> all[a] != all[b],
            decreases workers.len() - i,
        {
            let a: Address = workers[i];
            assert(all[i as int] == a);
            let mut j: usize = i + 1;
            while j < workers.len()
                invariant
                    i < j <= workers.len(),
                    all == workers@ + losing_workers@,
                    all[i as int] == a,
                    forall|b: int| i < b < j ==> a != #[trigger] all[b],
                decreases workers.len() - j,
            {
                assert(all[j as int] == workers[j as int]);
                if workers[j] == a {
                    return Err(ContractError::InvalidWorkerLists);
                }
                j = j + 1;
            }
            let mut k: usize = 0;
            while k < losing_workers.len()
                invariant
                    i < workers.len(),
                    0 <= k <= losing_workers.len(),
                    all == workers@ + losing_workers@,
                    n == workers.len(),
                    all[i as int] == a,
                    forall|b: int| i < b < n + k ==> a != #[trigger] all[b],
                decreases losing_workers.len() - k,
            {
                assert(all[n + k] == losing_workers[k as int]);
                if losing_workers[k] == a {
                    return Err(ContractError::InvalidWorkerLists);
                }
                k = k + 1;
            }
            i = i + 1;
        }
        let mut i: usize = 0;
        while i < losing_workers.len()
            invariant
                0 <= i <= losing_workers.len(),
                all == workers@ + losing_workers@,
                n == workers.len(),
                forall|a: int, b: int|
                    0 <= a < n + i && a < b < all.len() ==> all[a] != all[b],
            decreases losing_workers.len() - i,
        {
            let a: Address = losing_workers[i];
            assert(all[n + i] == a);
            let mut j: usize = i + 1;
            while j < losing_workers.len()
                invariant
                    i < j <= losing_workers.len(),
                    all == workers@ + losing_workers@,
                    n == workers.len(),
                    all[n + i] == a,
                    forall|b: int| n + i < b < n + j ==> a != #[trigger] all[b],
                decreases losing_workers.len() - j,
            {
                assert(all[n + j] == losing_workers[j as int]);
                if losing_workers[j] == a {
                    return Err(ContractError::InvalidWorkerLists);
                }
                j = j + 1;
            }
            i = i + 1;
        }
        Ok(())
    }

    fn credit_owed(env: &mut Env, worker: Address, amount: i128)
        requires
            old(env)@.owed_to(worker) + amount <= i128::MAX,
            0 <= amount,
        ensures
            final(env)@ == old(env)@.put_owed(
                worker,
                (old(env)@.owed_to(worker) + amount) as i128,
            ),
            old(env)@.wf() ==> final(env)@.wf(),
    {
        let existing: i128 = env.owed_to(worker);
        env.put_owed(worker, existing + amount);
    }
}

} // verus!
