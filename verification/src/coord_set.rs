//! A set of grid cells, duplicate-free vector backed; the result type of the
//! range calculators.

use vstd::prelude::*;

use crate::grid::GridCoord;

verus! {

/// A finite set of grid cells.
#[derive(Debug)]
pub struct CoordSet {
    items: Vec<GridCoord>,
}

impl CoordSet {
    /// The backing items, in insertion order.
    pub closed spec fn items_seq(&self) -> Seq<GridCoord> {
        self.items@
    }

    /// `c` is a member.
    pub open spec fn spec_contains(&self, c: GridCoord) -> bool {
        self.items_seq().contains(c)
    }

    /// No cell is stored twice, so `len` is the cardinality.
    pub open spec fn wf(&self) -> bool {
        forall|i: int, j: int|
            0 <= i < j < self.items_seq().len() ==> self.items_seq()[i] != self.items_seq()[j]
    }

    pub fn new() -> (s: CoordSet)
        ensures
            s.wf(),
            forall|c: GridCoord| !s.spec_contains(c),
    {
        CoordSet { items: Vec::new() }
    }

    pub fn contains(&self, c: &GridCoord) -> (r: bool)
        ensures
            r == self.spec_contains(*c),
    {
        let mut i: usize = 0;
        while i < self.items.len()
            invariant
                0 <= i <= self.items_seq().len(),
                forall|j: int| 0 <= j < i ==> self.items_seq()[j] != *c,
            decreases self.items_seq().len() - i,
        {
            if self.items[i] == *c {
                return true;
            }
            i += 1;
        }
        false
    }

    /// Adds `c`; adding a member again changes nothing.
    pub fn insert(&mut self, c: GridCoord)
        requires
            old(self).wf(),
        ensures
            final(self).wf(),
            forall|x: GridCoord|
                final(self).spec_contains(x) <==> (old(self).spec_contains(x) || x == c),
            old(self).spec_contains(c) ==> final(self).items_seq() == old(self).items_seq(),
            !old(self).spec_contains(c) ==> final(self).items_seq() == old(self).items_seq().push(
                c,
            ),
    {
        if !self.contains(&c) {
            self.items.push(c);
            proof {
                assert forall|x: GridCoord|
                    self.spec_contains(x) <==> (old(self).spec_contains(x) || x == c) by {
                    if old(self).spec_contains(x) {
                        let i = choose|i: int|
                            0 <= i < old(self).items_seq().len() && old(self).items_seq()[i] == x;
                        assert(self.items_seq()[i] == x);
                    }
                    if x == c {
                        assert(self.items_seq()[self.items_seq().len() - 1] == x);
                    }
                    if self.spec_contains(x) {
                        let i = choose|i: int|
                            0 <= i < self.items_seq().len() && self.items_seq()[i] == x;
                        if i < self.items_seq().len() - 1 {
                            assert(old(self).items_seq()[i] == x);
                        }
                    }
                }
            }
        }
    }

    /// The number of members.
    pub fn len(&self) -> (r: usize)
        ensures
            r == self.items_seq().len(),
    {
        self.items.len()
    }

    /// The members as a plain vector, in insertion order.
    pub fn as_vec(&self) -> (r: &Vec<GridCoord>)
        ensures
            r@ == self.items_seq(),
    {
        &self.items
    }
}

} // verus!
