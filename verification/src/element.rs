//! The attachable element: per-member metadata recording which registry
//! the member is attached to, and under which id.

use vstd::prelude::*;

use crate::list::WeakList;
use crate::slots::{distinct_ids, has_id, ids_below, occupied, removed_id, slot_id, Slot};

verus! {

/// An element that a member owns. It carries the `u64` key standing for
/// the member's payload (fixed at construction) and the mutable
/// attachment record: the id assigned at the latest attach and the tag
/// of the owning registry, absent while detached. An element is
/// attached to at most one registry at a time.
pub struct WeakListElement {
    /// The key standing for the payload; fixed at construction.
    pub payload: u64,
    /// The id assigned by the latest attach; stale once detached.
    pub id: u64,
    /// The tag of the owning registry, or nothing while detached.
    pub owner: Option<u64>,
}

/// How one attach changes the owning registry's slots: if the element
/// already sat in this registry its old entry is vacated first, and the
/// fresh entry is then appended after every existing position.
pub open spec fn attach_effect(
    s0: Seq<Slot>,
    was_here: bool,
    old_id: u64,
    new_id: u64,
    key: u64,
    s1: Seq<Slot>,
) -> bool {
    exists|mid: Seq<Slot>|
        #![trigger mid.push(Some((new_id, key)))]
        (if was_here {
            removed_id(s0, mid, old_id)
        } else {
            mid == s0
        }) && s1 == mid.push(Some((new_id, key)))
}

impl WeakListElement {
    /// A fresh, detached element whose payload is represented by `payload`.
    pub fn new(payload: u64) -> (r: Self)
        ensures
            r.payload == payload,
            r.id == 0,
            r.owner is None,
    {
        WeakListElement { payload, id: 0, owner: None }
    }

    /// Attaches the element to `to` under a fresh id. If it is already
    /// attached to `to`, it is detached first, so the id is reassigned
    /// and the element's position moves to the insertion point. An
    /// element attached to a different registry must be detached from
    /// it before it can be attached here; its record names that
    /// registry, not this one.
    ///
    /// An iterator already open on `to` may or may not reach the new
    /// entry: that is left unspecified, since its snapshot bound was
    /// fixed earlier.
    pub fn attach(&mut self, to: &mut WeakList)
        requires
            old(self).owner is Some ==> old(self).owner == Some(old(to).tag),
            old(to).wf(),
            old(to).next_id < u64::MAX,
        ensures
            final(self).payload == old(self).payload,
            final(self).id == old(to).next_id,
            final(self).owner == Some(old(to).tag),
            final(to).tag == old(to).tag,
            final(to).next_id == old(to).next_id + 1,
            final(to).active_iterators == old(to).active_iterators,
            attach_effect(
                old(to).slots(),
                old(self).owner is Some,
                old(self).id,
                old(to).next_id,
                old(self).payload,
                final(to).slots(),
            ),
            final(to).wf(),
            has_id(final(to).slots(), old(to).next_id),
    {
        if self.owner.is_some() {
            to.members.remove(self.id);
            proof {
                lemma_removed_keeps_wf(
                    old(to).slots(),
                    to.slots(),
                    self.id,
                    to.next_id as int,
                );
            }
        }
        let ghost mid = to.slots();
        self.owner = Some(to.tag);
        self.id = to.next_id;
        proof {
            assert(!has_id(mid, to.next_id));
        }
        to.members.insert(self.id, self.payload);
        to.next_id = to.next_id + 1;
        proof {
            assert(to.slots() == mid.push(Some((self.id, self.payload))));
            lemma_appended_fresh_wf(mid, to.slots(), self.id, self.payload, old(to).next_id as int);
        }
    }

    /// Detaches the element from its registry, which the caller has
    /// resolved and hands in; detaching an element that is not attached
    /// is a no-op for both sides.
    pub fn detach(&mut self, list: &mut WeakList)
        requires
            old(self).owner is Some ==> old(self).owner == Some(old(list).tag),
        ensures
            final(self).payload == old(self).payload,
            final(self).id == old(self).id,
            final(self).owner is None,
            final(list).tag == old(list).tag,
            final(list).next_id == old(list).next_id,
            final(list).active_iterators == old(list).active_iterators,
            old(self).owner is Some ==> removed_id(
                old(list).slots(),
                final(list).slots(),
                old(self).id,
            ),
            old(self).owner is None ==> final(list).slots() == old(list).slots(),
            old(list).wf() ==> final(list).wf(),
            old(list).wf() && old(self).owner is Some ==> !has_id(
                final(list).slots(),
                old(self).id,
            ),
    {
        if self.owner.is_some() {
            self.owner = None;
            list.members.remove(self.id);
            proof {
                if old(list).wf() {
                    lemma_removed_keeps_wf(
                        old(list).slots(),
                        list.slots(),
                        self.id,
                        list.next_id as int,
                    );
                }
            }
        }
    }

    /// Clears the attachment record without touching any registry: the
    /// path taken when the owning registry is already gone, where there
    /// is nothing left to remove from. Hands back the owner tag the
    /// element believed in, if any.
    pub fn release(&mut self) -> (r: Option<u64>)
        ensures
            final(self).payload == old(self).payload,
            final(self).id == old(self).id,
            final(self).owner is None,
            r == old(self).owner,
    {
        let r = self.owner;
        self.owner = None;
        r
    }

    /// The opaque identity of the current owner, if any: all a
    /// diagnostic view of the element may show.
    pub fn owner_tag(&self) -> (r: Option<u64>)
        ensures
            r == self.owner,
    {
        self.owner
    }
}

/// Vacating one id keeps ids distinct and bounded, and, under distinct
/// ids, leaves no occurrence of the removed id behind; every other
/// position is untouched.
pub proof fn lemma_removed_keeps_wf(s0: Seq<Slot>, s1: Seq<Slot>, id: u64, bound: int)
    requires
        removed_id(s0, s1, id),
        distinct_ids(s0),
        ids_below(s0, bound),
    ensures
        distinct_ids(s1),
        ids_below(s1, bound),
        !has_id(s1, id),
        forall|p: int| occupied(s1, p) ==> occupied(s0, p) && s1[p] == s0[p],
        forall|p: int| occupied(s0, p) && slot_id(s0, p) != id ==> occupied(s1, p) && s1[p] == s0[p],
{
    if has_id(s0, id) {
        let q = choose|q: int| occupied(s0, q) && slot_id(s0, q) == id && s1 == s0.update(q, None);
        assert forall|p: int| occupied(s1, p) implies occupied(s0, p) && s1[p] == s0[p] by {
            assert(p != q);
        }
        assert forall|p: int| occupied(s1, p) implies slot_id(s1, p) != id by {
            assert(p != q);
            assert(occupied(s0, p) && occupied(s0, q));
        }
    }
}

/// Appending a fresh id keeps ids distinct and bounded; every
/// previously occupied position is untouched, and every occupied
/// position afterwards holds its old entry or the appended one.
pub proof fn lemma_appended_fresh_wf(s0: Seq<Slot>, s1: Seq<Slot>, id: u64, key: u64, bound: int)
    requires
        s1 == s0.push(Some((id, key))),
        distinct_ids(s0),
        ids_below(s0, bound),
        id == bound,
    ensures
        distinct_ids(s1),
        ids_below(s1, bound + 1),
        has_id(s1, id),
        forall|p: int| occupied(s0, p) ==> occupied(s1, p) && s1[p] == s0[p],
        forall|p: int| occupied(s1, p) ==> s1[p] == Some((id, key)) || (occupied(s0, p) && s1[p] == s0[p]),
{
    let q = s0.len() as int;
    assert(occupied(s1, q) && slot_id(s1, q) == id);
    assert forall|p: int| occupied(s1, p) && p != q implies occupied(s0, p) && s1[p] == s0[p] by {}
    assert forall|p: int| occupied(s0, p) implies occupied(s1, p) && s1[p] == s0[p] by {
        assert(p != q);
    }
    assert forall|p: int, r: int|
        occupied(s1, p) && occupied(s1, r) && p != r implies slot_id(s1, p) != slot_id(
        s1,
        r,
    ) by {
        if p == q {
            assert(slot_id(s1, r) < bound);
        } else if r == q {
            assert(slot_id(s1, p) < bound);
        }
    }
}

} // verus!
