//! The registry: shared list state holding the member map, the id
//! counter and the count of outstanding iterators.

use vstd::prelude::*;

use crate::iter::Iter;
use crate::member_map::MemberMap;
use crate::slots::{
    compacted, distinct_ids, entries_from, entries_of, entry_in_range, ids_below,
    lemma_entries_from_distinct, lemma_entries_from_iff, lemma_next_occupied_entries, occupied,
    slot_id, Slot,
};

verus! {

/// A registry of members, each filed under a fresh `u64` id with the
/// `u64` key that stands for its payload. The `tag` is the registry's
/// opaque identity, chosen by the caller and never interpreted here; an
/// element records the tag of the registry it is attached to.
pub struct WeakList {
    /// The caller-chosen opaque identity of this registry.
    pub tag: u64,
    /// The next id to assign; ids are never reused within one registry.
    pub next_id: u64,
    /// The number of iterators created and not yet finished.
    pub active_iterators: usize,
    /// The member map: id and payload key, at stable positions.
    pub members: MemberMap,
}

impl WeakList {
    /// The slot-sequence model of the member map.
    pub open spec fn slots(&self) -> Seq<Slot> {
        self.members@
    }

    /// Well-formed: stored ids are pairwise distinct and below `next_id`.
    pub open spec fn wf(&self) -> bool {
        &&& distinct_ids(self.slots())
        &&& ids_below(self.slots(), self.next_id as int)
    }

    /// An empty registry carrying the caller-chosen `tag`.
    pub fn new(tag: u64) -> (r: Self)
        ensures
            r.tag == tag,
            r.next_id == 0,
            r.active_iterators == 0,
            r.slots() == Seq::<Slot>::empty(),
            r.wf(),
    {
        WeakList { tag, next_id: 0, active_iterators: 0, members: MemberMap::new() }
    }

    /// Removes every member. Elements attached here still believe they
    /// are attached; their later detach finds nothing to remove and is
    /// a harmless no-op.
    pub fn clear(&mut self)
        ensures
            final(self).tag == old(self).tag,
            final(self).next_id == old(self).next_id,
            final(self).active_iterators == old(self).active_iterators,
            final(self).slots() == Seq::<Slot>::empty(),
            final(self).wf(),
    {
        self.members.clear();
    }

    /// Opens an iteration: when no iterator is outstanding the member
    /// map is first compacted (safe, since no cursor holds positions of
    /// the old numbering), and the returned cursor snapshots the index
    /// range as of this instant.
    pub fn iter(&mut self) -> (r: Iter)
        requires
            old(self).active_iterators < usize::MAX,
        ensures
            final(self).tag == old(self).tag,
            final(self).next_id == old(self).next_id,
            final(self).active_iterators == old(self).active_iterators + 1,
            old(self).active_iterators == 0 ==> final(self).slots() == compacted(
                old(self).slots(),
            ),
            old(self).active_iterators != 0 ==> final(self).slots() == old(self).slots(),
            old(self).wf() ==> final(self).wf(),
            r.tag == old(self).tag,
            r.pos == 0,
            r.end == final(self).slots().len(),
    {
        if self.active_iterators == 0 {
            proof {
                if self.wf() {
                    lemma_compacted_wf(self.slots(), self.next_id as int);
                }
            }
            self.members.compact();
        }
        self.active_iterators = self.active_iterators + 1;
        let end = self.members.index_len();
        Iter { tag: self.tag, pos: 0, end }
    }

    /// Runs one whole iteration: opens a cursor, walks it to
    /// exhaustion, and gives it back, returning the yielded entries —
    /// id and payload key of every member, in position order.
    pub fn collect_entries(&mut self) -> (r: Vec<(u64, u64)>)
        requires
            old(self).active_iterators < usize::MAX,
        ensures
            final(self).tag == old(self).tag,
            final(self).next_id == old(self).next_id,
            final(self).active_iterators == old(self).active_iterators,
            old(self).active_iterators == 0 ==> final(self).slots() == compacted(
                old(self).slots(),
            ),
            old(self).active_iterators != 0 ==> final(self).slots() == old(self).slots(),
            old(self).wf() ==> final(self).wf(),
            r@ == entries_of(final(self).slots()),
    {
        let mut it = self.iter();
        let ghost t0 = self.tag;
        let ghost n0 = self.next_id;
        let ghost a0 = self.active_iterators;
        let ghost s = self.slots();
        let ghost w0 = self.wf();
        let mut out: Vec<(u64, u64)> = Vec::new();
        loop
            invariant_except_break
                self.tag == t0,
                self.next_id == n0,
                self.active_iterators == a0,
                self.slots() == s,
                self.wf() == w0,
                a0 > 0,
                it.end == s.len(),
                it.pos <= it.end,
                out@ + entries_from(s, it.pos as int, it.end as int) == entries_of(s),
            ensures
                self.tag == t0,
                self.next_id == n0,
                self.active_iterators == a0,
                self.slots() == s,
                self.wf() == w0,
                a0 > 0,
                out@ == entries_of(s),
            decreases it.end - it.pos,
        {
            proof {
                lemma_next_occupied_entries(s, it.pos as int, it.end as int);
            }
            match it.next(self) {
                Some(entry) => {
                    out.push(entry);
                    proof {
                        assert(out@ + entries_from(s, it.pos as int, it.end as int) =~= entries_of(
                            s,
                        ));
                    }
                },
                None => {
                    proof {
                        assert(out@ =~= entries_of(s));
                    }
                    break ;
                },
            }
        }
        it.finish(self);
        out
    }

    /// Closes an iteration: the matching step to `iter`, run when a
    /// cursor is given up, exhausted or not.
    pub fn end_iter(&mut self)
        requires
            old(self).active_iterators > 0,
        ensures
            final(self).tag == old(self).tag,
            final(self).next_id == old(self).next_id,
            final(self).active_iterators == old(self).active_iterators - 1,
            final(self).slots() == old(self).slots(),
    {
        self.active_iterators = self.active_iterators - 1;
    }
}

impl Default for WeakList {
    /// An empty registry under the tag `0`, for callers that attach no
    /// meaning to tags.
    fn default() -> (r: Self)
        ensures
            r.tag == 0,
            r.next_id == 0,
            r.active_iterators == 0,
            r.slots() == Seq::<Slot>::empty(),
            r.wf(),
    {
        WeakList::new(0)
    }
}

/// Compaction keeps ids distinct and below the same bound, and leaves
/// no vacant position behind.
pub proof fn lemma_compacted_wf(s: Seq<Slot>, bound: int)
    requires
        distinct_ids(s),
        ids_below(s, bound),
    ensures
        distinct_ids(compacted(s)),
        ids_below(compacted(s), bound),
        forall|p: int| 0 <= p < compacted(s).len() ==> occupied(compacted(s), p),
{
    let es = entries_of(s);
    let c = compacted(s);
    lemma_entries_from_distinct(s, 0, s.len() as int);
    lemma_entries_from_iff(s, 0, s.len() as int);
    assert(forall|p: int| 0 <= p < c.len() ==> occupied(c, p) && c[p] == Some(es[p]));
    assert forall|p: int| occupied(c, p) implies slot_id(c, p) < bound by {
        assert(es.contains(es[p]));
        assert(entry_in_range(s, 0, s.len() as int, es[p]));
        let q = choose|q: int| 0 <= q < s.len() && occupied(s, q) && s[q]->Some_0 == es[p];
        assert(slot_id(s, q) < bound);
    }
}

} // verus!
