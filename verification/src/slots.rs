//! The mathematical model of the member map: a sequence of slots, each
//! either occupied by an `(id, payload key)` entry or vacant.

use vstd::prelude::*;

verus! {

/// One position of the member map: `Some((id, key))` when occupied,
/// `None` when the position is vacant (never filled, or vacated).
pub type Slot = Option<(u64, u64)>;

/// Position `p` of `s` holds an entry.
pub open spec fn occupied(s: Seq<Slot>, p: int) -> bool {
    0 <= p < s.len() && s[p] is Some
}

/// The id stored at position `p`.
pub open spec fn slot_id(s: Seq<Slot>, p: int) -> u64 {
    (s[p]->Some_0).0
}

/// Some occupied position of `s` carries `id`.
pub open spec fn has_id(s: Seq<Slot>, id: u64) -> bool {
    exists|p: int| occupied(s, p) && slot_id(s, p) == id
}

/// No two occupied positions carry the same id.
pub open spec fn distinct_ids(s: Seq<Slot>) -> bool {
    forall|p: int, q: int|
        occupied(s, p) && occupied(s, q) && p != q ==> slot_id(s, p) != slot_id(s, q)
}

/// Every id stored in `s` lies below `bound`.
pub open spec fn ids_below(s: Seq<Slot>, bound: int) -> bool {
    forall|p: int| occupied(s, p) ==> slot_id(s, p) < bound
}

/// The entries of the occupied positions of `s` in `[from, end)`, in
/// position order: what a full walk over that range yields.
pub open spec fn entries_from(s: Seq<Slot>, from: int, end: int) -> Seq<(u64, u64)>
    decreases end - from,
{
    if end <= from {
        Seq::empty()
    } else {
        let init = entries_from(s, from, end - 1);
        if occupied(s, end - 1) {
            init.push(s[end - 1]->Some_0)
        } else {
            init
        }
    }
}

/// The entries of all occupied positions of `s`, in position order.
pub open spec fn entries_of(s: Seq<Slot>) -> Seq<(u64, u64)> {
    entries_from(s, 0, s.len() as int)
}

/// The first occupied position of `s` in `[from, end)`, if any.
pub open spec fn next_occupied(s: Seq<Slot>, from: int, end: int) -> Option<int>
    decreases end - from,
{
    if from >= end {
        None
    } else if occupied(s, from) {
        Some(from)
    } else {
        next_occupied(s, from + 1, end)
    }
}

/// How a removal changes the slot sequence: if `id` is present, its
/// position is vacated and every other position is untouched; otherwise
/// nothing changes.
pub open spec fn removed_id(s0: Seq<Slot>, s1: Seq<Slot>, id: u64) -> bool {
    if has_id(s0, id) {
        exists|p: int| occupied(s0, p) && slot_id(s0, p) == id && s1 == s0.update(p, None)
    } else {
        s1 == s0
    }
}

/// The compacted form of `s`: its entries packed into a dense prefix,
/// relative order kept.
pub open spec fn compacted(s: Seq<Slot>) -> Seq<Slot> {
    entries_of(s).map_values(|e: (u64, u64)| Some(e))
}

/// Some occupied position of `s` in `[from, end)` holds the entry `e`.
pub open spec fn entry_in_range(s: Seq<Slot>, from: int, end: int, e: (u64, u64)) -> bool {
    exists|p: int| from <= p < end && occupied(s, p) && s[p]->Some_0 == e
}

/// A walk over `[from, end)` yields exactly the entries of the occupied
/// positions of that range.
pub proof fn lemma_entries_from_iff(s: Seq<Slot>, from: int, end: int)
    ensures
        forall|e: (u64, u64)| #![all_triggers]
            entries_from(s, from, end).contains(e) <==> entry_in_range(s, from, end, e),
    decreases end - from,
{
    if end <= from {
    } else {
        lemma_entries_from_iff(s, from, end - 1);
        let pre = entries_from(s, from, end - 1);
        let cur = entries_from(s, from, end);
        assert forall|e: (u64, u64)| #![all_triggers]
            cur.contains(e) implies entry_in_range(s, from, end, e) by {
            let i = choose|i: int| 0 <= i < cur.len() && cur[i] == e;
            if i < pre.len() {
                assert(pre.contains(e));
                let p = choose|p: int| from <= p < end - 1 && occupied(s, p) && s[p]->Some_0 == e;
                assert(from <= p < end && occupied(s, p) && s[p]->Some_0 == e);
            } else {
                assert(occupied(s, end - 1) && s[end - 1]->Some_0 == e);
            }
        }
        assert forall|e: (u64, u64)| #![all_triggers]
            entry_in_range(s, from, end, e) implies cur.contains(e) by {
            let p = choose|p: int| from <= p < end && occupied(s, p) && s[p]->Some_0 == e;
            if p < end - 1 {
                assert(entry_in_range(s, from, end - 1, e));
                assert(pre.contains(e));
                let i = choose|i: int| 0 <= i < pre.len() && pre[i] == e;
                assert(cur[i] == e);
            } else {
                assert(cur.last() == e);
            }
        }
    }
}

/// Under distinct ids, a walk yields no id twice.
pub proof fn lemma_entries_from_distinct(s: Seq<Slot>, from: int, end: int)
    requires
        distinct_ids(s),
    ensures
        forall|i: int, j: int|
            0 <= i < entries_from(s, from, end).len() && 0 <= j < entries_from(s, from, end).len()
                && i != j ==> entries_from(s, from, end)[i].0 != entries_from(s, from, end)[j].0,
    decreases end - from,
{
    if end <= from {
    } else {
        lemma_entries_from_distinct(s, from, end - 1);
        lemma_entries_from_iff(s, from, end - 1);
        let pre = entries_from(s, from, end - 1);
        let cur = entries_from(s, from, end);
        assert forall|i: int, j: int|
            0 <= i < cur.len() && 0 <= j < cur.len() && i != j implies cur[i].0 != cur[j].0 by {
            if i < pre.len() && j < pre.len() {
                assert(pre[i] == cur[i] && pre[j] == cur[j]);
            } else {
                let k = if i < pre.len() {
                    i
                } else {
                    j
                };
                assert(occupied(s, end - 1));
                assert(pre.contains(pre[k]));
                assert(entry_in_range(s, from, end - 1, pre[k]));
                let p = choose|p: int|
                    from <= p < end - 1 && occupied(s, p) && s[p]->Some_0 == pre[k];
                assert(slot_id(s, p) != slot_id(s, end - 1));
            }
        }
    }
}

/// The first step of a walk: either the range holds no entry, or it
/// yields the entry of its first occupied position and continues past it.
pub proof fn lemma_next_occupied_entries(s: Seq<Slot>, from: int, end: int)
    ensures
        match next_occupied(s, from, end) {
            Option::None => entries_from(s, from, end) == Seq::<(u64, u64)>::empty(),
            Option::Some(p) => {
                &&& from <= p < end
                &&& occupied(s, p)
                &&& forall|q: int| from <= q < p ==> !occupied(s, q)
                &&& entries_from(s, from, end) == seq![s[p]->Some_0] + entries_from(s, p + 1, end)
            },
        },
    decreases end - from,
{
    if from >= end {
    } else {
        lemma_next_occupied_entries(s, from + 1, end);
        lemma_entries_from_head(s, from, end);
        match next_occupied(s, from, end) {
            Option::None => {
                assert(entries_from(s, from, end) =~= Seq::<(u64, u64)>::empty());
            },
            Option::Some(p) => {
                if occupied(s, from) {
                    assert(entries_from(s, from, end) =~= seq![s[from]->Some_0] + entries_from(
                        s,
                        from + 1,
                        end,
                    ));
                } else {
                    assert(entries_from(s, from, end) =~= seq![s[p]->Some_0] + entries_from(
                        s,
                        p + 1,
                        end,
                    ));
                }
            },
        }
    }
}

/// Peeling a walk at its front rather than its back.
pub proof fn lemma_entries_from_head(s: Seq<Slot>, from: int, end: int)
    requires
        from < end,
    ensures
        entries_from(s, from, end) == if occupied(s, from) {
            seq![s[from]->Some_0] + entries_from(s, from + 1, end)
        } else {
            entries_from(s, from + 1, end)
        },
    decreases end - from,
{
    if from + 1 == end {
        assert(entries_from(s, from, from) =~= Seq::<(u64, u64)>::empty());
        if occupied(s, from) {
            assert(entries_from(s, from, end) =~= seq![s[from]->Some_0] + entries_from(
                s,
                from + 1,
                end,
            ));
        }
    } else {
        lemma_entries_from_head(s, from, end - 1);
        if occupied(s, from) {
            assert(entries_from(s, from, end) =~= seq![s[from]->Some_0] + entries_from(
                s,
                from + 1,
                end,
            ));
        }
    }
}

} // verus!
