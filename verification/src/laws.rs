//! The laws of the registry: the invariant tying a registry to the
//! elements of its world, its preservation across the attach/detach
//! protocol, and what a walk over the member map yields.

use vstd::prelude::*;

use crate::element::{attach_effect, WeakListElement};
use crate::list::WeakList;
use crate::slots::{
    compacted, distinct_ids, entries_from, entries_of, entry_in_range, has_id,
    lemma_entries_from_distinct, lemma_entries_from_iff, occupied, removed_id, slot_id, Slot,
};

verus! {

/// `e` records an attachment to the registry carrying `l`'s tag.
pub open spec fn attached_to(e: WeakListElement, l: WeakList) -> bool {
    e.owner == Some(l.tag)
}

/// Some element of `es` is attached to `l` and carries the entry `e`.
pub open spec fn owned_entry(l: WeakList, es: Seq<WeakListElement>, e: (u64, u64)) -> bool {
    exists|i: int| 0 <= i < es.len() && attached_to(es[i], l) && e == (es[i].id, es[i].payload)
}

/// The registry invariant, stated over one registry `l` and a sequence
/// `es` standing for every element that could name `l`'s tag: attached
/// elements hold pairwise distinct ids, each attached element's entry
/// sits at some position of the member map, and every occupied position
/// holds the entry of some attached element.
pub open spec fn registered(l: WeakList, es: Seq<WeakListElement>) -> bool {
    &&& (forall|i: int, j: int|
        0 <= i < es.len() && 0 <= j < es.len() && i != j && #[trigger] attached_to(es[i], l)
            && #[trigger] attached_to(es[j], l) ==> es[i].id != es[j].id)
    &&& (forall|i: int|
        0 <= i < es.len() && #[trigger] attached_to(es[i], l) ==> entry_in_range(
            l.slots(),
            0,
            l.slots().len() as int,
            (es[i].id, es[i].payload),
        ))
    &&& (forall|p: int|
        #[trigger] occupied(l.slots(), p) ==> owned_entry(l, es, l.slots()[p]->Some_0))
}

/// Law: a freshly made or cleared registry is in the registry
/// invariant with any world of elements none of which claims it.
pub proof fn lemma_empty_registered(l: WeakList, es: Seq<WeakListElement>)
    requires
        l.slots() == Seq::<Slot>::empty(),
        forall|i: int| 0 <= i < es.len() ==> !(#[trigger] attached_to(es[i], l)),
    ensures
        registered(l, es),
{
    assert(forall|p: int| !occupied(l.slots(), p));
}

/// Law: under the registry invariant, a full walk over the member map
/// yields the entry of every attached element, yields nothing else, and
/// yields no element twice — whatever sequence of attaches and detaches
/// produced the state.
pub proof fn lemma_iteration_matches_attached(l: WeakList, es: Seq<WeakListElement>)
    requires
        l.wf(),
        registered(l, es),
    ensures
        forall|i: int|
            0 <= i < es.len() && #[trigger] attached_to(es[i], l) ==> entries_of(
                l.slots(),
            ).contains((es[i].id, es[i].payload)),
        forall|k: int| #![trigger entries_of(l.slots())[k]]
            0 <= k < entries_of(l.slots()).len() ==> owned_entry(l, es, entries_of(l.slots())[k]),
        forall|k1: int, k2: int| #![trigger entries_of(l.slots())[k1], entries_of(l.slots())[k2]]
            0 <= k1 < entries_of(l.slots()).len() && 0 <= k2 < entries_of(l.slots()).len() && k1
                != k2 ==> entries_of(l.slots())[k1].0 != entries_of(l.slots())[k2].0,
{
    let s = l.slots();
    let n = s.len() as int;
    lemma_entries_from_iff(s, 0, n);
    lemma_entries_from_distinct(s, 0, n);
    assert forall|k: int| #![trigger entries_of(l.slots())[k]]
        0 <= k < entries_of(l.slots()).len() implies owned_entry(
        l,
        es,
        entries_of(l.slots())[k],
    ) by {
        let e = entries_of(l.slots())[k];
        assert(entries_from(s, 0, n).contains(e));
        assert(entry_in_range(s, 0, n, e));
        let p = choose|p: int| 0 <= p < n && occupied(s, p) && s[p]->Some_0 == e;
        assert(occupied(s, p));
        assert(owned_entry(l, es, s[p]->Some_0));
    }
}

/// Law: attaching an element keeps the registry invariant. The element
/// is `es[k]`; `e1`, `l1` are the element and the registry as the
/// attach left them, related to the prior `e0`, `l0` exactly as the
/// attach's contract states.
pub proof fn lemma_attach_preserves_registered(
    l0: WeakList,
    l1: WeakList,
    e0: WeakListElement,
    e1: WeakListElement,
    es: Seq<WeakListElement>,
    k: int,
)
    requires
        l0.wf(),
        registered(l0, es),
        0 <= k < es.len(),
        es[k] == e0,
        e0.owner is Some ==> e0.owner == Some(l0.tag),
        e1.payload == e0.payload,
        e1.id == l0.next_id,
        e1.owner == Some(l0.tag),
        l1.tag == l0.tag,
        l1.next_id == l0.next_id + 1,
        attach_effect(l0.slots(), e0.owner is Some, e0.id, l0.next_id, e0.payload, l1.slots()),
        l1.wf(),
    ensures
        registered(l1, es.update(k, e1)),
{
    let s0 = l0.slots();
    let s1 = l1.slots();
    let es1 = es.update(k, e1);
    let fresh = Some((l0.next_id, e0.payload));
    let mid = choose|mid: Seq<Slot>|
        #![trigger mid.push(Some((l0.next_id, e0.payload)))]
        (if e0.owner is Some {
            removed_id(s0, mid, e0.id)
        } else {
            mid == s0
        }) && s1 == mid.push(Some((l0.next_id, e0.payload)));

    // Positions of `mid`: the surviving positions of `s0`.
    assert forall|p: int| occupied(mid, p) implies occupied(s0, p) && mid[p] == s0[p] by {
        if e0.owner is Some && has_id(s0, e0.id) {
            let q = choose|q: int|
                occupied(s0, q) && slot_id(s0, q) == e0.id && mid == s0.update(q, None);
            assert(p != q);
        }
    }
    assert forall|p: int|
        occupied(s0, p) && slot_id(s0, p) != e0.id implies occupied(mid, p) && mid[p]
        == s0[p] by {
        if e0.owner is Some && has_id(s0, e0.id) {
            let q = choose|q: int|
                occupied(s0, q) && slot_id(s0, q) == e0.id && mid == s0.update(q, None);
            assert(p != q);
        }
    }

    // The position of the fresh entry, and the stability of the rest.
    let q = mid.len() as int;
    assert(occupied(s1, q) && s1[q] == fresh);
    assert forall|p: int| occupied(s1, p) && p != q implies occupied(mid, p) && s1[p] == mid[p] by {}
    assert forall|p: int| occupied(mid, p) implies occupied(s1, p) && s1[p] == mid[p] by {
        assert(p != q);
    }

    // Ids of elements attached before the attach lie below the counter.
    assert forall|i: int|
        0 <= i < es.len() && i != k && #[trigger] attached_to(es[i], l0) implies es[i].id
        < l0.next_id by {
        assert(entry_in_range(s0, 0, s0.len() as int, (es[i].id, es[i].payload)));
        let p = choose|p: int|
            0 <= p < s0.len() && occupied(s0, p) && s0[p]->Some_0 == (es[i].id, es[i].payload);
        assert(slot_id(s0, p) < l0.next_id);
    }

    // Distinct ids among the attached elements afterwards.
    assert forall|i: int, j: int|
        0 <= i < es1.len() && 0 <= j < es1.len() && i != j && #[trigger] attached_to(es1[i], l1)
            && #[trigger] attached_to(es1[j], l1) implies es1[i].id != es1[j].id by {
        if i == k {
            assert(attached_to(es[j], l0));
        } else if j == k {
            assert(attached_to(es[i], l0));
        } else {
            assert(attached_to(es[i], l0) && attached_to(es[j], l0));
        }
    }

    // Every attached element still has its entry in the map.
    assert forall|i: int|
        0 <= i < es1.len() && #[trigger] attached_to(es1[i], l1) implies entry_in_range(
        s1,
        0,
        s1.len() as int,
        (es1[i].id, es1[i].payload),
    ) by {
        if i == k {
            assert(occupied(s1, q) && s1[q]->Some_0 == (es1[i].id, es1[i].payload));
        } else {
            assert(attached_to(es[i], l0));
            assert(entry_in_range(s0, 0, s0.len() as int, (es[i].id, es[i].payload)));
            let p = choose|p: int|
                0 <= p < s0.len() && occupied(s0, p) && s0[p]->Some_0 == (es[i].id, es[i].payload);
            assert(slot_id(s0, p) == es[i].id);
            if e0.owner is Some {
                assert(attached_to(es[k], l0));
                assert(es[i].id != e0.id);
            }
            assert(occupied(mid, p) && mid[p] == s0[p]);
            assert(occupied(s1, p) && s1[p] == s0[p]);
        }
    }

    // Every occupied position holds an attached element's entry.
    assert forall|p: int| #[trigger] occupied(s1, p) implies owned_entry(
        l1,
        es1,
        s1[p]->Some_0,
    ) by {
        if p == q {
            assert(attached_to(es1[k], l1) && s1[p]->Some_0 == (es1[k].id, es1[k].payload));
            assert(owned_entry(l1, es1, s1[p]->Some_0));
        } else {
            assert(occupied(mid, p) && occupied(s0, p) && s1[p] == s0[p]);
            assert(owned_entry(l0, es, s0[p]->Some_0));
            let i = choose|i: int|
                0 <= i < es.len() && attached_to(es[i], l0) && s0[p]->Some_0 == (
                es[i].id,
                es[i].payload,
                );
            assert(slot_id(mid, p) != e0.id || !(e0.owner is Some));
            if e0.owner is Some {
                assert(attached_to(es[k], l0));
                assert(es[i].id != e0.id || i == k);
                assert(i != k);
            } else {
                assert(i != k);
            }
            assert(attached_to(es1[i], l1) && s1[p]->Some_0 == (es1[i].id, es1[i].payload));
            assert(owned_entry(l1, es1, s1[p]->Some_0));
        }
    }
}

/// Law: detaching an element keeps the registry invariant, and its id
/// is gone from every position afterwards.
pub proof fn lemma_detach_preserves_registered(
    l0: WeakList,
    l1: WeakList,
    e0: WeakListElement,
    e1: WeakListElement,
    es: Seq<WeakListElement>,
    k: int,
)
    requires
        l0.wf(),
        registered(l0, es),
        0 <= k < es.len(),
        es[k] == e0,
        e0.owner is Some ==> e0.owner == Some(l0.tag),
        e1.payload == e0.payload,
        e1.id == e0.id,
        e1.owner is None,
        l1.tag == l0.tag,
        l1.next_id == l0.next_id,
        e0.owner is Some ==> removed_id(l0.slots(), l1.slots(), e0.id),
        e0.owner is None ==> l1.slots() == l0.slots(),
    ensures
        registered(l1, es.update(k, e1)),
{
    let s0 = l0.slots();
    let s1 = l1.slots();
    let es1 = es.update(k, e1);

    assert forall|p: int| occupied(s1, p) implies occupied(s0, p) && s1[p] == s0[p]
        && (e0.owner is Some ==> slot_id(s1, p) != e0.id) by {
        if e0.owner is Some && has_id(s0, e0.id) {
            let q = choose|q: int|
                occupied(s0, q) && slot_id(s0, q) == e0.id && s1 == s0.update(q, None);
            assert(p != q);
            assert(occupied(s0, p) && occupied(s0, q));
        }
    }
    assert forall|p: int|
        occupied(s0, p) && !(e0.owner is Some && slot_id(s0, p) == e0.id) implies occupied(s1, p)
        && s1[p] == s0[p] by {
        if e0.owner is Some && has_id(s0, e0.id) {
            let q = choose|q: int|
                occupied(s0, q) && slot_id(s0, q) == e0.id && s1 == s0.update(q, None);
            assert(p != q);
        }
    }

    assert forall|i: int|
        0 <= i < es1.len() && #[trigger] attached_to(es1[i], l1) implies entry_in_range(
        s1,
        0,
        s1.len() as int,
        (es1[i].id, es1[i].payload),
    ) by {
        assert(i != k);
        assert(attached_to(es[i], l0));
        assert(entry_in_range(s0, 0, s0.len() as int, (es[i].id, es[i].payload)));
        let p = choose|p: int|
            0 <= p < s0.len() && occupied(s0, p) && s0[p]->Some_0 == (es[i].id, es[i].payload);
        if e0.owner is Some {
            assert(attached_to(es[k], l0));
            assert(es[i].id != e0.id);
        }
        assert(occupied(s1, p) && s1[p] == s0[p]);
    }

    assert forall|p: int| #[trigger] occupied(s1, p) implies owned_entry(
        l1,
        es1,
        s1[p]->Some_0,
    ) by {
        assert(occupied(s0, p) && s1[p] == s0[p]);
        assert(owned_entry(l0, es, s0[p]->Some_0));
        let i = choose|i: int|
            0 <= i < es.len() && attached_to(es[i], l0) && s0[p]->Some_0 == (
            es[i].id,
            es[i].payload,
            );
        if e0.owner is Some {
            assert(slot_id(s1, p) != e0.id);
            assert(i != k);
        } else {
            assert(i != k);
        }
        assert(attached_to(es1[i], l1) && s1[p]->Some_0 == (es1[i].id, es1[i].payload));
        assert(owned_entry(l1, es1, s1[p]->Some_0));
    }
}

/// Law: once an id is gone from the map, no walk yields it.
pub proof fn lemma_missing_id_not_yielded(s: Seq<Slot>, id: u64)
    requires
        !has_id(s, id),
    ensures
        forall|k: int| #![trigger entries_of(s)[k]]
            0 <= k < entries_of(s).len() ==> entries_of(s)[k].0 != id,
{
    let n = s.len() as int;
    lemma_entries_from_iff(s, 0, n);
    assert forall|k: int|
        0 <= k < entries_of(s).len() implies entries_of(s)[k].0 != id by {
        let e = entries_of(s)[k];
        assert(entries_from(s, 0, n).contains(e));
        assert(entry_in_range(s, 0, n, e));
        let p = choose|p: int| 0 <= p < n && occupied(s, p) && s[p]->Some_0 == e;
        assert(occupied(s, p) && slot_id(s, p) == e.0);
    }
}

/// Law: vacating one id while a cursor still has the range
/// `[pos, end)` before it keeps every other pending entry at its
/// position — none is skipped, none is yielded twice — and no position
/// carries the vacated id any more.
pub proof fn lemma_detach_mid_iteration(s0: Seq<Slot>, s1: Seq<Slot>, id: u64, pos: int, end: int)
    requires
        removed_id(s0, s1, id),
        distinct_ids(s0),
    ensures
        forall|p: int| pos <= p < end && occupied(s1, p) ==> occupied(s0, p) && s1[p] == s0[p],
        forall|p: int|
            pos <= p < end && occupied(s0, p) && slot_id(s0, p) != id ==> occupied(s1, p) && s1[p]
                == s0[p],
        forall|p: int| occupied(s1, p) ==> slot_id(s1, p) != id,
{
    if has_id(s0, id) {
        let q = choose|q: int| occupied(s0, q) && slot_id(s0, q) == id && s1 == s0.update(q, None);
        assert forall|p: int| occupied(s1, p) implies occupied(s0, p) && s1[p] == s0[p]
            && slot_id(s1, p) != id by {
            assert(p != q);
            assert(occupied(s0, p) && occupied(s0, q));
        }
    }
}

/// Law: appending one fresh entry while a cursor is in flight leaves
/// every position numbered so far exactly as it was — no pending entry
/// is skipped or yielded twice — and the only position that gains an
/// entry is the fresh one past them; whether a given cursor's snapshot
/// range reaches that position is left open.
pub proof fn lemma_attach_mid_iteration(s0: Seq<Slot>, s1: Seq<Slot>, id: u64, key: u64)
    requires
        s1 == s0.push(Some((id, key))),
    ensures
        forall|p: int| 0 <= p < s0.len() ==> s1[p] == s0[p],
        forall|p: int| occupied(s0, p) ==> occupied(s1, p) && s1[p] == s0[p],
        forall|p: int|
            occupied(s1, p) ==> s1[p] == Some((id, key)) || (occupied(s0, p) && s1[p] == s0[p]),
{
}

/// Law: compaction reclaims every vacant position and nothing else: the
/// compacted map is dense, exactly as long as the entries it kept, and
/// a walk over it yields the same entries in the same order as a walk
/// over the map it came from.
pub proof fn lemma_compaction_reclaims(s: Seq<Slot>)
    ensures
        compacted(s).len() == entries_of(s).len(),
        forall|p: int| 0 <= p < compacted(s).len() ==> occupied(compacted(s), p),
        entries_of(compacted(s)) == entries_of(s),
{
    let es = entries_of(s);
    let c = compacted(s);
    lemma_entries_of_dense(c, es, c.len() as int);
    assert(es.subrange(0, es.len() as int) =~= es);
}

/// A walk over a dense prefix of entries yields exactly those entries.
proof fn lemma_entries_of_dense(c: Seq<Slot>, es: Seq<(u64, u64)>, k: int)
    requires
        c.len() == es.len(),
        forall|p: int| 0 <= p < c.len() ==> c[p] == Some(es[p]),
        0 <= k <= c.len(),
    ensures
        entries_from(c, 0, k) == es.subrange(0, k),
    decreases k,
{
    if k == 0 {
        assert(entries_from(c, 0, 0) =~= es.subrange(0, 0));
    } else {
        lemma_entries_of_dense(c, es, k - 1);
        assert(occupied(c, k - 1));
        assert(entries_from(c, 0, k) =~= es.subrange(0, k));
    }
}

} // verus!
