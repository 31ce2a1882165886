//! The iterator: a cursor over a snapshot index range of the member
//! map, skipping vacant positions.

use vstd::prelude::*;

use crate::list::WeakList;
use crate::slots::next_occupied;

verus! {

/// A cursor over the positions `[pos, end)` of one registry's member
/// map, where `end` was the map's index bound when the cursor was made.
/// The cursor holds no reference of its own: each step is handed the
/// registry it belongs to.
pub struct Iter {
    /// The tag of the registry this cursor was opened on.
    pub tag: u64,
    /// The next position to look at.
    pub pos: usize,
    /// The snapshot index bound: positions at or past it are never read.
    pub end: usize,
}

impl Iter {
    /// Advances to the first occupied position at or after `pos` within
    /// the snapshot range and yields its entry, the id and the payload
    /// key; yields nothing once no occupied position remains. Vacant
    /// positions, including those vacated since the cursor was made,
    /// are skipped silently. After yielding nothing the cursor stays
    /// exhausted.
    pub fn next(&mut self, list: &WeakList) -> (r: Option<(u64, u64)>)
        ensures
            final(self).tag == old(self).tag,
            final(self).end == old(self).end,
            match next_occupied(list.slots(), old(self).pos as int, old(self).end as int) {
                Option::Some(p) => {
                    &&& r == Some(list.slots()[p]->Some_0)
                    &&& final(self).pos == p + 1
                },
                Option::None => {
                    &&& r is None
                    &&& final(self).pos == old(self).end
                },
            },
    {
        let end = self.end;
        let mut p = self.pos;
        if p >= end {
            self.pos = end;
            return None;
        }
        while p < end
            invariant
                *self == *old(self),
                end == self.end,
                self.pos <= p <= end,
                next_occupied(list.slots(), self.pos as int, end as int) == next_occupied(
                    list.slots(),
                    p as int,
                    end as int,
                ),
            decreases end - p,
        {
            match list.members.get_by_index(p) {
                Some(entry) => {
                    proof {
                        assert(next_occupied(list.slots(), p as int, end as int) == Some(
                            p as int,
                        ));
                    }
                    self.pos = p + 1;
                    return Some(entry);
                },
                None => {
                    proof {
                        assert(next_occupied(list.slots(), p as int, end as int) == next_occupied(
                            list.slots(),
                            p + 1,
                            end as int,
                        ));
                    }
                },
            }
            p = p + 1;
        }
        self.pos = end;
        None
    }

    /// A second, independent cursor over the same remaining range. The
    /// duplicate counts as one more outstanding iterator, so the
    /// registry is told.
    pub fn duplicate(&self, list: &mut WeakList) -> (r: Iter)
        requires
            old(list).active_iterators < usize::MAX,
        ensures
            r == *self,
            final(list).tag == old(list).tag,
            final(list).next_id == old(list).next_id,
            final(list).active_iterators == old(list).active_iterators + 1,
            final(list).slots() == old(list).slots(),
    {
        list.active_iterators = list.active_iterators + 1;
        Iter { tag: self.tag, pos: self.pos, end: self.end }
    }

    /// Gives the cursor up: the registry's outstanding-iterator count
    /// drops by one. Exhaustion alone does not do this; only giving the
    /// cursor up does.
    pub fn finish(self, list: &mut WeakList)
        requires
            old(list).active_iterators > 0,
        ensures
            final(list).tag == old(list).tag,
            final(list).next_id == old(list).next_id,
            final(list).active_iterators == old(list).active_iterators - 1,
            final(list).slots() == old(list).slots(),
    {
        list.end_iter();
    }
}

} // verus!
