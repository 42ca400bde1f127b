//! The pending index: a dense array of question ids with a reverse map, kept by swap-removal.
use crate::env::{Env, State};
use crate::limits::MAX_PENDING_PAGE;
use crate::types::DataKey;
use vstd::prelude::*;

verus! {

impl State {
    /// Appends `id` to the index.
    pub open spec fn index_add(self, id: u64) -> State {
        let slot: u32 = self.pending_count;
        let a = State { pending_at: self.pending_at.insert(slot, id), ..self }.extend_persistent(
            DataKey::PendingAt(slot),
        );
        let b = State { pending_pos: a.pending_pos.insert(id, slot), ..a }.extend_persistent(
            DataKey::PendingPos(id),
        );
        State { pending_count: (slot + 1) as u32, ..b }.extend_persistent(DataKey::PendingCount)
    }

    /// Drops `id` from the index; the last id moves into its slot. An id that is not indexed
    /// leaves everything as it was.
    pub open spec fn index_remove(self, id: u64) -> State {
        if !self.pending_pos.contains_key(id) {
            self
        } else {
            let slot: u32 = self.pending_pos[id];
            let last: u32 = (self.pending_count - 1) as u32;
            let moved = if slot == last {
                self
            } else {
                let last_id: u64 = self.pending_at[last];
                let a = State {
                    pending_at: self.pending_at.insert(slot, last_id),
                    ..self
                }.extend_persistent(DataKey::PendingAt(slot));
                State { pending_pos: a.pending_pos.insert(last_id, slot), ..a }.extend_persistent(
                    DataKey::PendingPos(last_id),
                )
            };
            State {
                pending_at: moved.pending_at.remove(last),
                pending_pos: moved.pending_pos.remove(id),
                pending_count: last,
                ..moved
            }.extend_persistent(DataKey::PendingCount)
        }
    }

    /// Whether the entries that removing `id` reads are there.
    pub open spec fn index_ready(self, id: u64) -> bool {
        self.pending_pos.contains_key(id) ==> {
            &&& self.pending_count > 0
            &&& self.pending_pos[id] != self.pending_count - 1 ==> self.pending_at.contains_key(
                (self.pending_count - 1) as u32,
            )
        }
    }

    /// The ids in the slots `start..end`, in slot order.
    pub open spec fn slots(self, start: int, end: int) -> Seq<u64>
        decreases end - start,
    {
        if end <= start {
            Seq::empty()
        } else {
            let before = self.slots(start, end - 1);
            if self.pending_at.contains_key((end - 1) as u32) {
                before.push(self.pending_at[(end - 1) as u32])
            } else {
                before
            }
        }
    }

    /// One past the last slot of the page of at most `limit` ids from `start` on.
    pub open spec fn page_end(self, start: u32, limit: u32) -> int {
        let size: int = if limit < MAX_PENDING_PAGE {
            limit as int
        } else {
            MAX_PENDING_PAGE as int
        };
        if start + size < self.pending_count {
            start + size
        } else {
            self.pending_count as int
        }
    }
}

impl Env {
    pub(crate) fn index_add(&mut self, id: u64)
        requires
            old(self)@.pending_count < u32::MAX,
        ensures
            final(self)@ == old(self)@.index_add(id),
    {
        let slot: u32 = self.pending_count;
        self.pending_at.insert(slot, id);
        self.extend_persistent(DataKey::PendingAt(slot));
        self.pending_pos.insert(id, slot);
        self.extend_persistent(DataKey::PendingPos(id));
        self.pending_count = slot + 1;
        self.extend_persistent(DataKey::PendingCount);
    }

    pub(crate) fn index_remove(&mut self, id: u64)
        requires
            old(self)@.index_ready(id),
        ensures
            final(self)@ == old(self)@.index_remove(id),
    {
        let slot: u32 = match self.pending_pos.get(&id) {
            Some(slot) => *slot,
            None => {
                return ;
            },
        };
        let last: u32 = self.pending_count - 1;
        if slot != last {
            let last_id: u64 = *self.pending_at.get(&last).unwrap();
            self.pending_at.insert(slot, last_id);
            self.extend_persistent(DataKey::PendingAt(slot));
            self.pending_pos.insert(last_id, slot);
            self.extend_persistent(DataKey::PendingPos(last_id));
        }
        self.pending_at.remove(&last);
        self.pending_pos.remove(&id);
        self.pending_count = last;
        self.extend_persistent(DataKey::PendingCount);
    }

    pub(crate) fn page(&self, start: u32, limit: u32) -> (ids: Vec<u64>)
        ensures
            ids@ == self@.slots(start as int, self@.page_end(start, limit)),
    {
        let size: u32 = if limit < MAX_PENDING_PAGE {
            limit
        } else {
            MAX_PENDING_PAGE
        };
        let wanted: u32 = start.saturating_add(size);
        let end: u32 = if wanted < self.pending_count {
            wanted
        } else {
            self.pending_count
        };
        let mut ids: Vec<u64> = Vec::new();
        let mut i: u32 = start;
        while i < end
            invariant
                start <= i,
                start <= end ==> i <= end,
                end < start ==> i == start,
                ids@ == self@.slots(start as int, i as int),
            decreases end - i,
        {
            if let Some(id) = self.pending_at.get(&i) {
                ids.push(*id);
            }
            i = i + 1;
        }
        ids
    }
}

} // verus!
