//! Requests that neither sign nor move anything: lifetimes and events.
use crate::bank::carried_out;
use crate::env::State;
use crate::types::{Address, Effect, Question, Status};
use vstd::prelude::*;

verus! {

pub open spec fn is_routine(effect: Effect) -> bool {
    effect is ExtendEntry || effect is ExtendInstance || effect is Publish
}

/// From `s` to `t` only routine requests were added.
pub open spec fn adds_only_routine(s: State, t: State) -> bool {
    &&& s.effects.is_prefix_of(t.effects)
    &&& forall|i: int|
        s.effects.len() <= i < t.effects.len() ==> is_routine(#[trigger] t.effects[i])
}

/// Routine requests after routine requests are routine.
pub proof fn routine_joins(s: State, mid: State, t: State)
    requires
        adds_only_routine(s, mid),
        adds_only_routine(mid, t),
    ensures
        adds_only_routine(s, t),
{
    assert forall|i: int| s.effects.len() <= i < t.effects.len() implies is_routine(
        #[trigger] t.effects[i],
    ) by {
        if i < mid.effects.len() {
            assert(t.effects[i] == mid.effects[i]);
        }
    }
}

/// Slashing signs and moves nothing.
pub proof fn slashing_is_routine(s: State, losers: Seq<Address>, cap: int)
    ensures
        adds_only_routine(s, s.slash_all(losers, cap)),
    decreases losers.len(),
{
    if losers.len() > 0 {
        slashing_is_routine(s, losers.drop_last(), cap);
    }
}

/// Crediting signs and moves nothing.
pub proof fn crediting_is_routine(s: State, workers: Seq<Address>, amount: i128)
    ensures
        adds_only_routine(s, s.credit_all(workers, amount)),
    decreases workers.len(),
{
    if workers.len() > 0 {
        crediting_is_routine(s, workers.drop_last(), amount);
    }
}

/// Settling a question signs and moves nothing.
pub proof fn settling_is_routine(s: State, id: u64, status: Status)
    ensures
        adds_only_routine(s, s.settle_question(id, status)),
{
}

/// Recording a question signs and moves nothing.
pub proof fn recording_is_routine(s: State, id: u64, question: Question)
    ensures
        adds_only_routine(s, s.record_question(id, question)),
{
}

/// Routine requests move no tokens.
pub proof fn routine_moves_nothing(held: Map<u64, i128>, s: State, t: State)
    requires
        adds_only_routine(s, t),
    ensures
        carried_out(held, t.effects) == carried_out(held, s.effects),
    decreases t.effects.len(),
{
    if t.effects.len() == s.effects.len() {
        assert(t.effects == s.effects);
    } else {
        let before = State { effects: t.effects.drop_last(), ..t };
        assert forall|i: int| s.effects.len() <= i < before.effects.len() implies is_routine(
            #[trigger] before.effects[i],
        ) by {
            assert(before.effects[i] == t.effects[i]);
        }
        routine_moves_nothing(held, s, before);
        assert(is_routine(t.effects[t.effects.len() - 1]));
    }
}

} // verus!
