//! What holds after any number of calls, in any order, in any ledgers.
use crate::announcements::{announced, every_call_is_announced_right};
use crate::bank::carried_out;
use crate::books::{bonded, every_call_reconciles, flow, locked, plain};
use crate::calls::{calls_keep_entries_well_formed, Call, Landing};
use crate::env::{fresh_state, Config, State};
use crate::exits::{
    an_upgrade_keeps_everything, every_call_leaves_an_exit, upgrade_changes_only_by_its_calls,
};
use crate::lifecycle::{
    a_settled_question_is_final, questions_are_opened_pending, questions_only_change_status,
    setup_is_final,
};
use crate::limits::{MAX_TIMEOUT_LEDGERS, UPGRADE_DELAY_LEDGERS};
use crate::pending::{
    an_index_in_order_is_ready, every_call_keeps_the_index, the_index_stays_in_order,
};
use crate::questions::refund_timeout_outcome;
use crate::requests::{only_the_scheduled_code_is_asked_for, sift, Kind};
use crate::sums::sum_of;
use crate::types::{Address, Effect, Status};
use crate::upgrade::{execute_upgrade_next, execute_upgrade_outcome};
use vstd::prelude::*;

verus! {

impl State {
    /// Everything that always holds: the entries are well formed, the index lists exactly the
    /// pending questions, the events tell the same, and setup was done whole or not at all.
    pub open spec fn sound(self) -> bool {
        &&& self.wf()
        &&& self.indexed()
        &&& self.announced_right()
        &&& self.setup_is_whole()
    }

    /// Whether every call of a history draws its funds from others than the escrow itself.
    pub open spec fn funded_by_others(self, landings: Seq<Landing>) -> bool
        decreases landings.len(),
    {
        landings.len() > 0 ==> {
            let before = self.history(landings.drop_last()).at(landings.last().ledger);
            &&& self.funded_by_others(landings.drop_last())
            &&& landings.last().call.funded_by_others(before)
        }
    }

    /// Whether every call of a history pays others than the escrow itself.
    pub open spec fn pays_others(self, landings: Seq<Landing>) -> bool
        decreases landings.len(),
    {
        landings.len() > 0 ==> {
            let before = self.history(landings.drop_last()).at(landings.last().ledger);
            &&& self.pays_others(landings.drop_last())
            &&& landings.last().call.pays_others(before)
        }
    }

    /// How many calls of a history settled question `id`.
    pub open spec fn settlements(self, landings: Seq<Landing>, id: u64) -> int
        decreases landings.len(),
    {
        if landings.len() == 0 {
            0
        } else {
            let before = self.history(landings.drop_last()).at(landings.last().ledger);
            let call = landings.last().call;
            self.settlements(landings.drop_last(), id) + (if call.settles(id) is Some
                && call.accepted(before) {
                1int
            } else {
                0
            })
        }
    }
}

/// A fresh instance is sound, owes nothing and holds nothing.
pub proof fn a_fresh_instance_is_sound(this: Address, sequence: u32, max_ttl: u32)
    ensures
        fresh_state(this, sequence, max_ttl).sound(),
        fresh_state(this, sequence, max_ttl).obligations() == 0,
        fresh_state(this, sequence, max_ttl).holdings() == 0,
        fresh_state(this, sequence, max_ttl).exits_come_first(),
{
    let s = fresh_state(this, sequence, max_ttl);
    assert(sum_of(s.questions, locked()) == 0);
    assert(sum_of(s.stakes, bonded()) == 0);
    assert(sum_of(s.owed, plain()) == 0);
    assert(flow(s.effects, this) == 0);
}

/// One call, landing in a later ledger, keeps everything sound.
pub proof fn every_landing_keeps_it_sound(s: State, landing: Landing)
    requires
        s.sound(),
        landing.call.accepted(s.at(landing.ledger)) ==> landing.call.fits(s.at(landing.ledger)),
    ensures
        landing.call.after(s.at(landing.ledger)).sound(),
{
    let now = s.at(landing.ledger);
    assert(now.announced_right()) by {
        assert forall|id: u64| #[trigger]
            announced(now.effects).contains(id) <==> now.is_pending(id) by {
            assert(announced(s.effects).contains(id) <==> s.is_pending(id));
        }
    }
    the_index_stays_in_order(s, now);
    calls_keep_entries_well_formed(now, landing.call);
    every_call_keeps_the_index(now, landing.call);
    every_call_is_announced_right(now, landing.call);
    setup_is_final(now, landing.call);
}

/// Every history keeps everything sound, and a finished setup finished.
pub proof fn every_history_is_sound(s: State, landings: Seq<Landing>)
    requires
        s.sound(),
        s.possible(landings),
    ensures
        s.history(landings).sound(),
        s.configured() ==> s.history(landings).configured(),
        s.configured() ==> s.history(landings).config.token == s.config.token,
        s.history(landings).this == s.this,
        s.history(landings).sequence >= s.sequence,
    decreases landings.len(),
{
    if landings.len() > 0 {
        every_history_is_sound(s, landings.drop_last());
        let before = s.history(landings.drop_last());
        every_landing_keeps_it_sound(before, landings.last());
        setup_is_final(before.at(landings.last().ledger), landings.last().call);
    }
}

/// The books balance for good: after any history the escrow holds at least what it owes, and
/// exactly that much if it never paid itself.
pub proof fn the_books_always_balance(
    this: Address,
    sequence: u32,
    max_ttl: u32,
    landings: Seq<Landing>,
)
    requires
        fresh_state(this, sequence, max_ttl).possible(landings),
        fresh_state(this, sequence, max_ttl).funded_by_others(landings),
    ensures
        ({
            let end = fresh_state(this, sequence, max_ttl).history(landings);
            &&& end.holdings() >= end.obligations()
            &&& fresh_state(this, sequence, max_ttl).pays_others(landings) ==> end.holdings()
                == end.obligations()
        }),
    decreases landings.len(),
{
    let s = fresh_state(this, sequence, max_ttl);
    a_fresh_instance_is_sound(this, sequence, max_ttl);
    if landings.len() > 0 {
        let before = s.history(landings.drop_last());
        the_books_always_balance(this, sequence, max_ttl, landings.drop_last());
        every_history_is_sound(s, landings.drop_last());
        let now = before.at(landings.last().ledger);
        assert(now.obligations() == before.obligations());
        assert(now.holdings() == before.holdings());
        every_call_reconciles(now, landings.last().call);
    }
}

/// Exactly one settlement: whatever races in whatever order and ledgers, at most one call
/// settles a question, and one did if and only if it is no longer pending.
pub proof fn a_question_is_settled_at_most_once(s: State, landings: Seq<Landing>, id: u64)
    requires
        s.sound(),
        s.possible(landings),
        s.questions.contains_key(id) ==> s.is_pending(id),
    ensures
        0 <= s.settlements(landings, id) <= 1,
        s.settlements(landings, id) == 1 <==> {
            let end = s.history(landings);
            end.questions.contains_key(id) && end.questions[id].status != Status::Pending
        },
    decreases landings.len(),
{
    if landings.len() > 0 {
        let before = s.history(landings.drop_last());
        a_question_is_settled_at_most_once(s, landings.drop_last(), id);
        every_history_is_sound(s, landings.drop_last());
        let now = before.at(landings.last().ledger);
        let call = landings.last().call;
        if now.questions.contains_key(id) {
            questions_only_change_status(now, call, id);
            if now.questions[id].status != Status::Pending {
                a_settled_question_is_final(now, call, id);
            }
        } else {
            questions_are_opened_pending(now, call, id);
        }
    }
}

/// A question keeps its payer, its amount, its age and its window through any history; once it
/// is settled, nothing about it changes any more.
pub proof fn a_question_keeps_its_terms(s: State, landings: Seq<Landing>, id: u64)
    requires
        s.sound(),
        s.possible(landings),
        s.questions.contains_key(id),
    ensures
        s.history(landings).questions.contains_key(id),
        s.history(landings).questions[id] == s.questions[id].with_status(
            s.history(landings).questions[id].status,
        ),
        s.history(landings).questions[id].spec_deadline() == s.questions[id].spec_deadline(),
        s.questions[id].status != Status::Pending ==> s.history(landings).questions[id]
            == s.questions[id],
    decreases landings.len(),
{
    if landings.len() > 0 {
        let before = s.history(landings.drop_last());
        a_question_keeps_its_terms(s, landings.drop_last(), id);
        every_history_is_sound(s, landings.drop_last());
        let now = before.at(landings.last().ledger);
        questions_only_change_status(now, landings.last().call, id);
        if now.questions[id].status != Status::Pending {
            a_settled_question_is_final(now, landings.last().call, id);
        }
    }
}

/// Nobody is stranded: once a question was opened, then after any history, at any ledger from
/// its original deadline on, it is either settled or anyone can have it refunded.
pub proof fn nobody_is_ever_stranded(s: State, landings: Seq<Landing>, id: u64, ledger: u32)
    requires
        s.sound(),
        s.configured(),
        s.possible(landings),
        s.questions.contains_key(id),
        s.questions[id].spec_deadline() <= ledger,
    ensures
        ({
            let end = s.history(landings).at(ledger);
            ||| end.questions[id].status != Status::Pending
            ||| refund_timeout_outcome(end, id) is Ok && end.index_ready(id)
        }),
{
    every_history_is_sound(s, landings);
    a_question_keeps_its_terms(s, landings, id);
    an_index_in_order_is_ready(s.history(landings), id);
}

/// The exit window holds through any history: no pending question's deadline is ever overtaken by
/// a scheduled upgrade.
pub proof fn every_history_leaves_an_exit(s: State, landings: Seq<Landing>)
    requires
        s.sound(),
        s.exits_come_first(),
        s.possible(landings),
        s.history(landings).sequence + UPGRADE_DELAY_LEDGERS <= u32::MAX,
    ensures
        s.history(landings).exits_come_first(),
    decreases landings.len(),
{
    if landings.len() > 0 {
        let before = s.history(landings.drop_last());
        let now = before.at(landings.last().ledger);
        every_history_is_sound(s, landings.drop_last());
        setup_is_final(now, landings.last().call);
        every_history_leaves_an_exit(s, landings.drop_last());
        assert(now.exits_come_first()) by {
            assert forall|id: u64| #[trigger] now.is_pending(id) implies {
                &&& now.questions[id].timeout_ledgers <= MAX_TIMEOUT_LEDGERS
                &&& now.questions[id].created_at + now.questions[id].timeout_ledgers
                    <= now.sequence + MAX_TIMEOUT_LEDGERS
                &&& now.config.pending_upgrade is Some ==> now.questions[id].spec_deadline()
                    < now.config.pending_upgrade->0.executable_at
            } by {
                assert(before.is_pending(id));
            }
        }
        every_call_leaves_an_exit(now, landings.last().call);
    }
}

impl State {
    /// The ledger in which the last proposal of a history landed.
    pub open spec fn last_proposed(self, landings: Seq<Landing>) -> Option<u32>
        decreases landings.len(),
    {
        if landings.len() == 0 {
            None
        } else {
            let before = self.history(landings.drop_last()).at(landings.last().ledger);
            if landings.last().call is ProposeUpgrade && landings.last().call.accepted(before) {
                Some(landings.last().ledger)
            } else {
                self.last_proposed(landings.drop_last())
            }
        }
    }
}

/// After any history, an upgrade that is scheduled was proposed in it, and becomes executable the
/// whole delay after the last proposal.
pub proof fn a_scheduled_upgrade_was_proposed(s: State, landings: Seq<Landing>)
    requires
        s.sound(),
        s.config.pending_upgrade is None,
        s.possible(landings),
        s.history(landings).sequence + UPGRADE_DELAY_LEDGERS <= u32::MAX,
    ensures
        s.last_proposed(landings) matches Some(proposed) ==> proposed <= s.history(
            landings,
        ).sequence,
        s.history(landings).config.pending_upgrade matches Some(upgrade) ==> {
            &&& s.last_proposed(landings) is Some
            &&& upgrade.executable_at == s.last_proposed(landings)->0 + UPGRADE_DELAY_LEDGERS
        },
    decreases landings.len(),
{
    if landings.len() > 0 {
        let before = s.history(landings.drop_last());
        let now = before.at(landings.last().ledger);
        every_history_is_sound(s, landings.drop_last());
        setup_is_final(now, landings.last().call);
        a_scheduled_upgrade_was_proposed(s, landings.drop_last());
        upgrade_changes_only_by_its_calls(now, landings.last().call);
    }
}

/// The time lock, through any history: an upgrade runs no earlier than the whole delay after the
/// last proposal, and not before every pending question has come due, so that each could have been
/// refunded by anyone. Running it uses the proposal up and leaves everything else as it was.
pub proof fn an_upgrade_waits_for_everyone(
    s: State,
    landings: Seq<Landing>,
    ledger: u32,
    held: Map<u64, i128>,
)
    requires
        s.sound(),
        s.exits_come_first(),
        s.config.pending_upgrade is None,
        s.possible(landings),
        s.history(landings).sequence + UPGRADE_DELAY_LEDGERS <= u32::MAX,
        s.history(landings).sequence <= ledger,
        execute_upgrade_outcome(s.history(landings).at(ledger)) is Ok,
    ensures
        s.last_proposed(landings) is Some,
        s.last_proposed(landings)->0 + UPGRADE_DELAY_LEDGERS <= ledger,
        forall|id: u64| #[trigger]
            s.history(landings).is_pending(id) ==> {
                let end = s.history(landings).at(ledger);
                &&& end.questions[id].spec_deadline()
                    < end.config.pending_upgrade->0.executable_at <= ledger
                &&& refund_timeout_outcome(end, id) is Ok
            },
        ({
            let end = s.history(landings).at(ledger);
            let run = execute_upgrade_next(end);
            &&& run == (State {
                config: Config { pending_upgrade: None, ..end.config },
                effects: run.effects,
                ..end
            })
            &&& carried_out(held, run.effects) == carried_out(held, end.effects)
        }),
{
    every_history_is_sound(s, landings);
    a_scheduled_upgrade_was_proposed(s, landings);
    every_history_leaves_an_exit(s, landings);
    an_upgrade_keeps_everything(s.history(landings).at(ledger), Call::ExecuteUpgrade, held);
}

impl State {
    /// The code that the last proposal of a history named.
    pub open spec fn last_named(self, landings: Seq<Landing>) -> Option<[u8; 32]>
        decreases landings.len(),
    {
        if landings.len() == 0 {
            None
        } else {
            let before = self.history(landings.drop_last()).at(landings.last().ledger);
            match landings.last().call {
                Call::ProposeUpgrade { new_wasm_hash } if landings.last().call.accepted(
                    before,
                ) => Some(new_wasm_hash),
                _ => self.last_named(landings.drop_last()),
            }
        }
    }
}

/// After any history, an upgrade that is scheduled is to the code that the last proposal named.
proof fn the_last_proposal_stands(s: State, landings: Seq<Landing>)
    requires
        s.sound(),
        s.config.pending_upgrade is None,
        s.possible(landings),
    ensures
        s.history(landings).config.pending_upgrade matches Some(upgrade) ==> s.last_named(landings)
            == Some(upgrade.wasm_hash),
    decreases landings.len(),
{
    if landings.len() > 0 {
        let before = s.history(landings.drop_last());
        let now = before.at(landings.last().ledger);
        every_history_is_sound(s, landings.drop_last());
        the_last_proposal_stands(s, landings.drop_last());
        upgrade_changes_only_by_its_calls(now, landings.last().call);
    }
}

/// Whatever happened before, an upgrade that runs asks the host for exactly one thing to run: the
/// code that the last accepted proposal named, byte for byte.
pub proof fn an_upgrade_installs_the_last_proposal(s: State, landings: Seq<Landing>, ledger: u32)
    requires
        s.sound(),
        s.config.pending_upgrade is None,
        s.possible(landings),
        execute_upgrade_outcome(s.history(landings).at(ledger)) is Ok,
    ensures
        s.last_named(landings) is Some,
        ({
            let end = s.history(landings).at(ledger);
            sift(execute_upgrade_next(end).effects, Kind::Code) == sift(
                end.effects,
                Kind::Code,
            ).push(Effect::UpdateWasm { wasm_hash: s.last_named(landings)->0 })
        }),
{
    every_history_is_sound(s, landings);
    the_last_proposal_stands(s, landings);
    only_the_scheduled_code_is_asked_for(s.history(landings).at(ledger), Call::ExecuteUpgrade);
}

/// As long as no upgrade runs, no other code is ever asked for.
pub proof fn no_other_code_is_ever_asked_for(s: State, landings: Seq<Landing>)
    requires
        s.sound(),
        s.possible(landings),
        forall|i: int| 0 <= i < landings.len() ==> !((#[trigger] landings[i]).call is ExecuteUpgrade),
    ensures
        sift(s.history(landings).effects, Kind::Code) == sift(s.effects, Kind::Code),
    decreases landings.len(),
{
    if landings.len() > 0 {
        let earlier = landings.drop_last();
        assert forall|i: int| 0 <= i < earlier.len() implies !((
        #[trigger] earlier[i]).call is ExecuteUpgrade) by {
            assert(earlier[i] == landings[i]);
        }
        no_other_code_is_ever_asked_for(s, earlier);
        every_history_is_sound(s, earlier);
        let now = s.history(earlier).at(landings.last().ledger);
        assert(!(landings[landings.len() - 1].call is ExecuteUpgrade));
        if landings.last().call.accepted(now) {
            only_the_scheduled_code_is_asked_for(now, landings.last().call);
        }
    }
}

} // verus!
