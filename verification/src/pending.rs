//! The pending index always lists exactly the pending questions.
use crate::calls::Call;
use crate::env::State;
use crate::limits::MAX_PENDING_PAGE;
use crate::migration::{migrate_all_frame, movable_prefix_is_maximal};
use crate::questions::{funds_requested, opened_question};
use crate::settlement::{credit_all_frame, share, slash_all_frame, slash_cap};
use crate::types::{Address, Question, Status};
use vstd::prelude::*;

verus! {

impl State {
    /// The slots below the count are filled, each with a pending question that knows its slot,
    /// and every pending question has one.
    pub open spec fn indexed(self) -> bool {
        &&& forall|slot: u32| #[trigger]
            self.pending_at.contains_key(slot) <==> slot < self.pending_count
        &&& forall|id: u64| #[trigger] self.pending_pos.contains_key(id) <==> self.is_pending(id)
        &&& forall|id: u64| #[trigger]
            self.pending_pos.contains_key(id) ==> self.pending_pos[id] < self.pending_count
                && self.pending_at[self.pending_pos[id]] == id
        &&& forall|slot: u32|
            slot < self.pending_count ==> self.pending_pos.contains_key(
                #[trigger] self.pending_at[slot],
            ) && self.pending_pos[self.pending_at[slot]] == slot
    }
}

/// The index depends on nothing but the questions and its own entries.
pub proof fn the_index_stays_in_order(s: State, t: State)
    requires
        s.indexed(),
        t.questions == s.questions,
        t.pending_count == s.pending_count,
        t.pending_at == s.pending_at,
        t.pending_pos == s.pending_pos,
    ensures
        t.indexed(),
{
    assert forall|id: u64| #[trigger] t.pending_pos.contains_key(id) <==> t.is_pending(id) by {
        assert(s.pending_pos.contains_key(id) <==> s.is_pending(id));
    }
}

/// With the index in order, no settlement can miss an entry.
pub proof fn an_index_in_order_is_ready(s: State, id: u64)
    requires
        s.indexed(),
    ensures
        s.index_ready(id),
{
    if s.pending_pos.contains_key(id) {
        assert(s.pending_pos[id] < s.pending_count);
        assert(s.pending_at.contains_key((s.pending_count - 1) as u32));
    }
}

/// Recording a new question keeps the index in order.
proof fn recording_keeps_the_index(s: State, id: u64, question: Question)
    requires
        s.indexed(),
        !s.questions.contains_key(id),
        question.status == Status::Pending,
        s.pending_count < u32::MAX,
    ensures
        s.record_question(id, question).indexed(),
{
    let t = s.record_question(id, question);
    assert(!s.pending_pos.contains_key(id));
    assert forall|other: u64| #[trigger] t.pending_pos.contains_key(other) <==> t.is_pending(
        other,
    ) by {
        if other != id {
            assert(s.pending_pos.contains_key(other) <==> s.is_pending(other));
        }
    }
    assert forall|other: u64| #[trigger] t.pending_pos.contains_key(other) implies
        t.pending_pos[other] < t.pending_count && t.pending_at[t.pending_pos[other]]
        == other by {
        if other != id {
            assert(s.pending_pos.contains_key(other));
        }
    }
    assert forall|slot: u32| slot < t.pending_count implies t.pending_pos.contains_key(
        #[trigger] t.pending_at[slot],
    ) && t.pending_pos[t.pending_at[slot]] == slot by {
        if slot < s.pending_count {
            assert(s.pending_pos.contains_key(s.pending_at[slot]));
        }
    }
}

/// Settling a pending question keeps the index in order.
proof fn settling_keeps_the_index(s: State, id: u64, status: Status)
    requires
        s.indexed(),
        s.is_pending(id),
        status != Status::Pending,
    ensures
        s.settle_question(id, status).indexed(),
{
    let t = s.settle_question(id, status);
    assert(s.pending_pos.contains_key(id));
    let slot = s.pending_pos[id];
    let last = (s.pending_count - 1) as u32;
    let last_id = s.pending_at[last];
    assert(s.pending_at.contains_key(last));
    assert(s.pending_pos.contains_key(last_id));
    assert(s.pending_pos[last_id] == last);
    assert(last_id == id <==> slot == last);
    assert forall|other: u64| #[trigger] t.pending_pos.contains_key(other) <==> t.is_pending(
        other,
    ) by {
        assert(s.pending_pos.contains_key(other) <==> s.is_pending(other));
    }
    assert forall|other: u64| #[trigger] t.pending_pos.contains_key(other) implies
        t.pending_pos[other] < t.pending_count && t.pending_at[t.pending_pos[other]]
        == other by {
        assert(s.pending_pos.contains_key(other));
        if other != last_id {
            assert(s.pending_at[s.pending_pos[other]] == other);
            assert(s.pending_pos[other] != last);
            assert(s.pending_pos[other] != slot);
        }
    }
    assert forall|other: u32| other < t.pending_count implies t.pending_pos.contains_key(
        #[trigger] t.pending_at[other],
    ) && t.pending_pos[t.pending_at[other]] == other by {
        assert(s.pending_pos.contains_key(s.pending_at[other]));
        assert(s.pending_pos[s.pending_at[other]] == other);
    }
}

/// Handing questions over keeps the index in order, and finds it in order at every step.
proof fn migrating_keeps_the_index(s: State, ids: Seq<u64>, target: Address)
    requires
        s.wf(),
        s.indexed(),
        forall|i: int|
            0 <= i < ids.len() ==> s.is_pending(#[trigger] ids[i]) && !ids.take(i).contains(ids[i]),
    ensures
        s.migrate_all(ids, target).indexed(),
    decreases ids.len(),
{
    if ids.len() > 0 {
        let before = ids.drop_last();
        let last = ids.last();
        assert forall|i: int| 0 <= i < before.len() implies s.is_pending(#[trigger] before[i])
            && !before.take(i).contains(before[i]) by {
            assert(before[i] == ids[i]);
            assert(before.take(i) == ids.take(i));
        }
        migrating_keeps_the_index(s, before, target);
        migrate_all_frame(s, before, target);
        assert(ids[ids.len() - 1] == last);
        assert(ids.take(ids.len() - 1) == before);
        let mid = s.migrate_all(before, target);
        assert(mid.is_pending(last));
        settling_keeps_the_index(mid.hand_over(last, target), last, Status::Migrated);
    }
}

/// In a state whose index is in order, a batch finds every index entry it moves.
pub proof fn a_batch_finds_the_index_ready(s: State, ids: Seq<u64>, target: Address)
    requires
        s.wf(),
        s.indexed(),
    ensures
        forall|j: int|
            0 <= j < s.movable_prefix(ids) ==> (#[trigger] s.ask_admin().migrate_all(
                ids.take(j),
                target,
            )).index_ready(ids[j]),
{
    movable_prefix_is_maximal(s, ids);
    let asked = s.ask_admin();
    assert forall|j: int| 0 <= j < s.movable_prefix(ids) implies (#[trigger] asked.migrate_all(
        ids.take(j),
        target,
    )).index_ready(ids[j]) by {
        let part = ids.take(j);
        assert forall|i: int| 0 <= i < part.len() implies asked.is_pending(#[trigger] part[i])
            && !part.take(i).contains(part[i]) by {
            assert(part[i] == ids[i]);
            assert(part.take(i) == ids.take(i));
        }
        migrating_keeps_the_index(asked, part, target);
        an_index_in_order_is_ready(asked.migrate_all(part, target), ids[j]);
    }
}

/// The index law: every call keeps the index in order.
pub proof fn every_call_keeps_the_index(s: State, call: Call)
    requires
        s.wf(),
        s.indexed(),
        call.accepted(s) ==> call.fits(s),
    ensures
        call.after(s).indexed(),
{
    if call.accepted(s) {
        match call {
            Call::Submit { payer, id, amount } => {
                let a = funds_requested(s, payer, amount);
                recording_keeps_the_index(a, id, opened_question(a, payer, amount));
            },
            Call::Charge { payer, id, amount } => {
                let a = s.ask_admin().put_balance(payer, (s.balance_of(payer) - amount) as i128);
                recording_keeps_the_index(a, id, opened_question(a, payer, amount));
            },
            Call::ImportQuestion { source, id, payer, amount, created_at, timeout_ledgers, .. } => {
                recording_keeps_the_index(
                    s.require_auth(source).transfer(s.config.token->0, source, s.this, amount),
                    id,
                    Question { payer, amount, status: Status::Pending, created_at, timeout_ledgers },
                );
            },
            Call::Resolve { id, workers, losing_workers } => {
                let amount = s.questions[id].amount as int;
                let each = share(amount, workers.len() as int) as i128;
                let asked = s.ask_admin();
                let slashed = asked.slash_all(losing_workers, slash_cap(amount));
                slash_all_frame(asked, losing_workers, slash_cap(amount));
                credit_all_frame(slashed, workers, each);
                settling_keeps_the_index(slashed.credit_all(workers, each), id, Status::Resolved);
            },
            Call::Refund { id } => {
                settling_keeps_the_index(s.ask_admin(), id, Status::Refunded);
            },
            Call::RefundTimeout { id } => {
                settling_keeps_the_index(s, id, Status::Refunded);
            },
            Call::MigratePending { ids, target } => {
                movable_prefix_is_maximal(s, ids);
                migrating_keeps_the_index(s.ask_admin(), ids, target);
            },
            _ => {},
        }
    }
}

/// With the index in order, the slots from `start` to `end` hold different pending questions,
/// one each.
pub proof fn slots_are_pending_questions(s: State, start: int, end: int)
    requires
        s.indexed(),
        0 <= start <= end <= s.pending_count,
    ensures
        s.slots(start, end).len() == end - start,
        forall|i: int|
            0 <= i < end - start ==> #[trigger] s.slots(start, end)[i] == s.pending_at[(start
                + i) as u32],
        forall|i: int| 0 <= i < end - start ==> s.is_pending(#[trigger] s.slots(start, end)[i]),
        s.slots(start, end).no_duplicates(),
    decreases end - start,
{
    if start < end {
        slots_are_pending_questions(s, start, end - 1);
        let before = s.slots(start, end - 1);
        let all = s.slots(start, end);
        assert(s.pending_at.contains_key((end - 1) as u32));
        assert forall|i: int| 0 <= i < end - start implies #[trigger] all[i] == s.pending_at[(start
            + i) as u32] by {
            if i < before.len() {
                assert(all[i] == before[i]);
            }
        }
        assert forall|i: int| 0 <= i < end - start implies s.is_pending(#[trigger] all[i]) by {
            assert(all[i] == s.pending_at[(start + i) as u32]);
            assert(s.pending_pos.contains_key(s.pending_at[(start + i) as u32]));
        }
        assert forall|i: int, j: int|
            0 <= i < all.len() && 0 <= j < all.len() && i != j implies all[i] != all[j] by {
            assert(all[i] == s.pending_at[(start + i) as u32]);
            assert(all[j] == s.pending_at[(start + j) as u32]);
            assert(s.pending_pos[s.pending_at[(start + i) as u32]] == (start + i) as u32);
            assert(s.pending_pos[s.pending_at[(start + j) as u32]] == (start + j) as u32);
        }
    }
}

/// Reading every slot lists each pending question exactly once, and nothing else.
pub proof fn the_index_lists_what_is_pending(s: State)
    requires
        s.indexed(),
    ensures
        s.slots(0, s.pending_count as int).len() == s.pending_count,
        s.slots(0, s.pending_count as int).no_duplicates(),
        forall|id: u64| #[trigger]
            s.slots(0, s.pending_count as int).contains(id) <==> s.is_pending(id),
{
    let all = s.slots(0, s.pending_count as int);
    slots_are_pending_questions(s, 0, s.pending_count as int);
    assert forall|id: u64| #[trigger] all.contains(id) <==> s.is_pending(id) by {
        if s.is_pending(id) {
            assert(s.pending_pos.contains_key(id));
            let slot = s.pending_pos[id];
            assert(all[slot as int] == s.pending_at[slot]);
        }
    }
}

/// Two pages in a row are the longer page: paging over an unchanging escrow misses nothing.
pub proof fn pages_join(s: State, start: int, middle: int, end: int)
    requires
        start <= middle <= end,
    ensures
        s.slots(start, end) == s.slots(start, middle) + s.slots(middle, end),
    decreases end - middle,
{
    if middle < end {
        pages_join(s, start, middle, end - 1);
        assert(s.slots(start, end) == s.slots(start, middle) + s.slots(middle, end));
    }
}

/// A page never holds more than the largest page, nor more than was asked for, and the first
/// page of an escrow with pending questions is not empty unless nothing was asked for.
pub proof fn a_page_is_bounded(s: State, start: u32, limit: u32)
    requires
        s.indexed(),
    ensures
        s.slots(start as int, s.page_end(start, limit)).len() <= limit,
        s.slots(start as int, s.page_end(start, limit)).len() <= MAX_PENDING_PAGE,
        start < s.pending_count && limit > 0 ==> s.slots(
            start as int,
            s.page_end(start, limit),
        ).len() > 0,
{
    if start <= s.page_end(start, limit) {
        slots_are_pending_questions(s, start as int, s.page_end(start, limit));
    }
}

/// A page is full: it holds as many ids as were asked for, up to a hundred, or all that are left
/// from its start on if they are fewer, and they are those in the slots from its start on.
pub proof fn a_page_is_full(s: State, start: u32, limit: u32)
    requires
        s.indexed(),
    ensures
        ({
            let page = s.slots(start as int, s.page_end(start, limit));
            let left = s.pending_count - start;
            &&& page.len() <= limit && page.len() <= 100
            &&& left <= 0 ==> page.len() == 0
            &&& left > 0 ==> page.len() <= left
            &&& page.len() == limit || page.len() == 100 || page.len() >= left
            &&& forall|i: int|
                0 <= i < page.len() ==> #[trigger] page[i] == s.pending_at[(start + i) as u32]
        }),
{
    if start <= s.page_end(start, limit) {
        slots_are_pending_questions(s, start as int, s.page_end(start, limit));
    }
}

/// Reading page after page over an unchanging escrow, in steps of the page size, lists every
/// pending question: the one in slot `k` is in the page that covers slot `k`, at its place.
pub proof fn paging_lists_everything(s: State, id: u64, limit: u32, step: u32)
    requires
        s.indexed(),
        s.is_pending(id),
        0 < step <= limit,
        step <= 100,
    ensures
        ({
            let slot = s.pending_pos[id];
            let start = (slot as int / step as int * step) as u32;
            let page = s.slots(start as int, s.page_end(start, limit));
            &&& start <= slot < start + step
            &&& slot - start < page.len()
            &&& page[slot - start] == id
        }),
{
    assert(s.pending_pos.contains_key(id));
    let slot = s.pending_pos[id] as int;
    let start = slot / step as int * step;
    assert(0 <= start <= slot < start + step) by (nonlinear_arith)
        requires
            start == slot / step as int * step,
            slot >= 0,
            step > 0,
    ;
    a_page_is_full(s, start as u32, limit);
}

/// No page lists a question twice, and no two places do: an id that is read in two places over an
/// unchanging escrow was read in the same slot.
pub proof fn paging_lists_nothing_twice(
    s: State,
    start: u32,
    limit: u32,
    i: int,
    other_start: u32,
    other_limit: u32,
    j: int,
)
    requires
        s.indexed(),
        0 <= i < s.slots(start as int, s.page_end(start, limit)).len(),
        0 <= j < s.slots(other_start as int, s.page_end(other_start, other_limit)).len(),
        s.slots(start as int, s.page_end(start, limit))[i] == s.slots(
            other_start as int,
            s.page_end(other_start, other_limit),
        )[j],
    ensures
        start + i == other_start + j,
        s.is_pending(s.slots(start as int, s.page_end(start, limit))[i]),
{
    a_page_is_full(s, start, limit);
    a_page_is_full(s, other_start, other_limit);
    assert(s.pending_at.contains_key((start + i) as u32));
    assert(s.pending_at.contains_key((other_start + j) as u32));
    let id = s.pending_at[(start + i) as u32];
    assert(s.pending_pos.contains_key(id));
}

/// The slot law: a question that is opened takes the next slot, and every other keeps its own. When
/// one is settled, the question in the last slot takes its place, and every other keeps its own. No
/// other call touches the index. Batches are taken one question at a time.
pub proof fn slots_are_stable(s: State, call: Call, id: u64, other: u64)
    requires
        s.wf(),
        s.indexed(),
        call.accepted(s),
        call.fits(s),
        !(call is MigratePending),
        s.is_pending(other),
    ensures
        call.opens(id) ==> {
            let t = call.next(s);
            &&& t.pending_count == s.pending_count + 1
            &&& t.pending_pos[id] == s.pending_count
            &&& t.pending_pos[other] == s.pending_pos[other]
        },
        (call matches Call::Resolve { id: closed, .. } && closed == id) || (
        call matches Call::Refund { id: closed } && closed == id) || (
        call matches Call::RefundTimeout { id: closed } && closed == id) ==> {
            let t = call.next(s);
            &&& t.pending_count == s.pending_count - 1
            &&& other != id && s.pending_pos[other] == s.pending_count - 1 ==> t.pending_pos[other]
                == s.pending_pos[id]
            &&& other != id && s.pending_pos[other] != s.pending_count - 1 ==> t.pending_pos[other]
                == s.pending_pos[other]
        },
        (forall|k: u64| !call.opens(k)) && !(call is Resolve) && !(call is Refund) && !(
        call is RefundTimeout) ==> {
            let t = call.next(s);
            &&& t.pending_count == s.pending_count
            &&& t.pending_at == s.pending_at
            &&& t.pending_pos == s.pending_pos
        },
{
    assert(s.pending_pos.contains_key(other));
    match call {
        Call::Resolve { id: closed, workers, losing_workers } => {
            let amount = s.questions[closed].amount as int;
            let each = share(amount, workers.len() as int) as i128;
            let asked = s.ask_admin();
            let slashed = asked.slash_all(losing_workers, slash_cap(amount));
            slash_all_frame(asked, losing_workers, slash_cap(amount));
            credit_all_frame(slashed, workers, each);
            closing_moves_the_last(slashed.credit_all(workers, each), closed, Status::Resolved, other);
            assert(s.is_pending(closed));
        },
        Call::Refund { id: closed } => {
            closing_moves_the_last(s.ask_admin(), closed, Status::Refunded, other);
            assert(s.is_pending(closed));
        },
        Call::RefundTimeout { id: closed } => {
            closing_moves_the_last(s, closed, Status::Refunded, other);
            assert(s.is_pending(closed));
        },
        Call::Submit { id: opened, .. } => {
            assert(call.opens(opened));
        },
        Call::Charge { id: opened, .. } => {
            assert(call.opens(opened));
        },
        Call::ImportQuestion { id: opened, .. } => {
            assert(call.opens(opened));
        },
        _ => {},
    }
}

proof fn closing_moves_the_last(s: State, id: u64, status: Status, other: u64)
    requires
        s.indexed(),
        s.is_pending(id),
        s.is_pending(other),
    ensures
        s.settle_question(id, status).pending_count == s.pending_count - 1,
        other != id && s.pending_pos[other] == s.pending_count - 1 ==> s.settle_question(
            id,
            status,
        ).pending_pos[other] == s.pending_pos[id],
        other != id && s.pending_pos[other] != s.pending_count - 1 ==> s.settle_question(
            id,
            status,
        ).pending_pos[other] == s.pending_pos[other],
{
    assert(s.pending_pos.contains_key(id));
    assert(s.pending_pos.contains_key(other));
    assert(s.pending_at.contains_key((s.pending_count - 1) as u32));
}

/// Whatever is in a page is pending.
pub proof fn pages_hold_pending_questions(s: State, start: u32, limit: u32)
    requires
        s.indexed(),
    ensures
        forall|i: int|
            0 <= i < s.slots(start as int, s.page_end(start, limit)).len() ==> s.is_pending(
                #[trigger] s.slots(start as int, s.page_end(start, limit))[i],
            ),
{
    if start <= s.page_end(start, limit) {
        slots_are_pending_questions(s, start as int, s.page_end(start, limit));
    }
}

} // verus!
