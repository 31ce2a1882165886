//! The member map: an insertion-ordered store from id to payload key
//! with stable positional indexing, vacancy on removal, and explicit
//! compaction.

use vstd::prelude::*;

use crate::slots::{compacted, entries_from, has_id, occupied, removed_id, slot_id, Slot};

verus! {

/// A map from a caller-assigned `u64` id to a `u64` payload key, whose
/// positions stay fixed until `compact` runs.
pub struct MemberMap {
    slots: Vec<Slot>,
}

impl View for MemberMap {
    type V = Seq<Slot>;

    closed spec fn view(&self) -> Seq<Slot> {
        self.slots@
    }
}

impl MemberMap {
    /// An empty map.
    pub fn new() -> (r: Self)
        ensures
            r@ == Seq::<Slot>::empty(),
    {
        let slots: Vec<Slot> = Vec::new();
        assert(slots@ =~= Seq::<Slot>::empty());
        MemberMap { slots }
    }

    /// The number of positions, occupied and vacant together.
    pub fn index_len(&self) -> (r: usize)
        ensures
            r == self@.len(),
    {
        self.slots.len()
    }

    /// The entry at position `pos`, or nothing when the position is out
    /// of range or vacant.
    pub fn get_by_index(&self, pos: usize) -> (r: Option<(u64, u64)>)
        ensures
            r == if occupied(self@, pos as int) {
                Some(self@[pos as int]->Some_0)
            } else {
                Option::<(u64, u64)>::None
            },
    {
        if pos < self.slots.len() {
            self.slots[pos]
        } else {
            None
        }
    }

    /// Stores `key` under the fresh id `id`, appending a new occupied
    /// position after all existing ones: positions are append-only
    /// until compaction, and vacant ones are never reused.
    pub fn insert(&mut self, id: u64, key: u64)
        requires
            !has_id(old(self)@, id),
        ensures
            final(self)@ == old(self)@.push(Some((id, key))),
    {
        self.slots.push(Some((id, key)));
    }

    /// Vacates the position holding `id` and hands back its payload key;
    /// removing an absent id is a no-op.
    pub fn remove(&mut self, id: u64) -> (r: Option<u64>)
        ensures
            removed_id(old(self)@, final(self)@, id),
            r is Some <==> has_id(old(self)@, id),
    {
        let n = self.slots.len();
        let mut i: usize = 0;
        while i < n
            invariant
                n == self.slots.len(),
                i <= n,
                self@ == old(self)@,
                forall|p: int| 0 <= p < i && occupied(self@, p) ==> slot_id(self@, p) != id,
            decreases n - i,
        {
            let hit = match self.slots[i] {
                Some(e) => e.0 == id,
                None => false,
            };
            if hit {
                let key = match self.slots[i] {
                    Some(e) => e.1,
                    None => 0,
                };
                self.slots.set(i, None);
                assert(occupied(old(self)@, i as int) && slot_id(old(self)@, i as int) == id);
                assert(final(self)@ == old(self)@.update(i as int, Option::<(u64, u64)>::None));
                return Some(key);
            }
            i = i + 1;
        }
        assert(!has_id(self@, id));
        None
    }

    /// Packs the entries into a dense prefix, relative order kept, and
    /// drops every vacant position.
    pub fn compact(&mut self)
        ensures
            final(self)@ == compacted(old(self)@),
    {
        let n = self.slots.len();
        let mut out: Vec<Slot> = Vec::new();
        let mut i: usize = 0;
        while i < n
            invariant
                n == self.slots.len(),
                i <= n,
                self@ == old(self)@,
                out@ == entries_from(self@, 0, i as int).map_values(|e: (u64, u64)| Some(e)),
            decreases n - i,
        {
            match self.slots[i] {
                Some(e) => {
                    out.push(Some(e));
                    assert(out@ =~= entries_from(self@, 0, i + 1).map_values(
                        (|e: (u64, u64)| Some(e)),
                    ));
                },
                None => {
                    assert(out@ =~= entries_from(self@, 0, i + 1).map_values(
                        (|e: (u64, u64)| Some(e)),
                    ));
                },
            }
            i = i + 1;
        }
        self.slots = out;
    }

    /// Discards every position; the map is empty afterwards.
    pub fn clear(&mut self)
        ensures
            final(self)@ == Seq::<Slot>::empty(),
    {
        self.slots = Vec::new();
        assert(self@ =~= Seq::<Slot>::empty());
    }
}

} // verus!
