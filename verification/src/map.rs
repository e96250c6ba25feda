//! Occupancy bookkeeping: which grid cell holds which unit, partitioned into
//! the player-controlled and the enemy-controlled faction. The map's invariant
//! is that each cell carries at most one entry per faction and never appears
//! in both factions at once.

use vstd::prelude::*;

use crate::grid::GridCoord;

verus! {

/// An opaque handle for a unit. The core never looks inside it; it only
/// carries the handle from input to output.
#[derive(Clone, Copy, PartialEq, Eq, Structural, Hash, Debug)]
pub struct UnitId(pub u64);

/// The faction a unit belongs to.
#[derive(Clone, Copy, PartialEq, Eq, Structural, Debug)]
pub enum UnitType {
    Player,
    Enemy,
}

/// Coordinate-keyed unit storage, one association list per faction.
#[derive(Debug)]
pub struct UnitsOnMap {
    player_units: Vec<(GridCoord, UnitId)>,
    enemy_units: Vec<(GridCoord, UnitId)>,
}

/// No two entries of `s` share a coordinate.
pub open spec fn keys_distinct(s: Seq<(GridCoord, UnitId)>) -> bool {
    forall|i: int, j: int| 0 <= i < j < s.len() ==> (#[trigger] s[i]).0 != (#[trigger] s[j]).0
}

/// Some entry of `s` has coordinate `c`.
pub open spec fn has_key(s: Seq<(GridCoord, UnitId)>, c: GridCoord) -> bool {
    exists|i: int| 0 <= i < s.len() && (#[trigger] s[i]).0 == c
}

/// `s` holds exactly the entry `(c, id)` at some index.
pub open spec fn has_entry(s: Seq<(GridCoord, UnitId)>, c: GridCoord, id: UnitId) -> bool {
    exists|i: int| 0 <= i < s.len() && #[trigger] s[i] == (c, id)
}

impl UnitsOnMap {
    /// Entries of the player faction.
    pub closed spec fn player_entries(&self) -> Seq<(GridCoord, UnitId)> {
        self.player_units@
    }

    /// Entries of the enemy faction.
    pub closed spec fn enemy_entries(&self) -> Seq<(GridCoord, UnitId)> {
        self.enemy_units@
    }

    /// A player unit stands on `c`.
    pub open spec fn spec_is_player(&self, c: GridCoord) -> bool {
        has_key(self.player_entries(), c)
    }

    /// An enemy unit stands on `c`.
    pub open spec fn spec_is_enemy(&self, c: GridCoord) -> bool {
        has_key(self.enemy_entries(), c)
    }

    /// Some unit of either faction stands on `c`.
    pub open spec fn spec_contains(&self, c: GridCoord) -> bool {
        self.spec_is_player(c) || self.spec_is_enemy(c)
    }

    /// Well-formedness: per-faction keys are unique, and the factions are
    /// disjoint — a coordinate appears in at most one of the two sets.
    pub open spec fn wf(&self) -> bool {
        &&& keys_distinct(self.player_entries())
        &&& keys_distinct(self.enemy_entries())
        &&& forall|c: GridCoord| self.spec_is_player(c) ==> !self.spec_is_enemy(c)
    }

    pub fn new() -> (m: UnitsOnMap)
        ensures
            m.wf(),
            m.player_entries() =~= Seq::<(GridCoord, UnitId)>::empty(),
            m.enemy_entries() =~= Seq::<(GridCoord, UnitId)>::empty(),
    {
        UnitsOnMap { player_units: Vec::new(), enemy_units: Vec::new() }
    }

    /// The unit standing on `coords`, if any; a player unit shadows an enemy
    /// unit, though under `wf` the two never coincide.
    pub fn get(&self, coords: &GridCoord) -> (r: Option<UnitId>)
        ensures
            match r {
                Some(id) => has_entry(self.player_entries(), *coords, id) || (!self.spec_is_player(
                    *coords,
                ) && has_entry(self.enemy_entries(), *coords, id)),
                None => !self.spec_contains(*coords),
            },
    {
        match find_entry(&self.player_units, coords) {
            Some(id) => Some(id),
            None => find_entry(&self.enemy_units, coords),
        }
    }

    /// Removes whatever unit stands on `coords`; other cells are untouched.
    pub fn remove(&mut self, coords: &GridCoord)
        requires
            old(self).wf(),
        ensures
            final(self).wf(),
            forall|c: GridCoord, id: UnitId|
                has_entry(final(self).player_entries(), c, id) <==> (has_entry(
                    old(self).player_entries(),
                    c,
                    id,
                ) && c != *coords),
            forall|c: GridCoord, id: UnitId|
                has_entry(final(self).enemy_entries(), c, id) <==> (has_entry(
                    old(self).enemy_entries(),
                    c,
                    id,
                ) && c != *coords),
    {
        remove_key(&mut self.player_units, coords);
        remove_key(&mut self.enemy_units, coords);
        proof {
            let po = old(self).player_entries();
            let eo = old(self).enemy_entries();
            let pf = self.player_entries();
            let ef = self.enemy_entries();
            lemma_key_entry(po);
            lemma_key_entry(eo);
            lemma_key_entry(pf);
            lemma_key_entry(ef);
            assert forall|c: GridCoord| has_key(pf, c) implies !has_key(ef, c) by {
                let id = choose|id: UnitId| #[trigger] has_entry(pf, c, id);
                assert(has_entry(po, c, id));
                assert(old(self).spec_is_player(c));
                if has_key(ef, c) {
                    let id2 = choose|id2: UnitId| #[trigger] has_entry(ef, c, id2);
                    assert(has_entry(eo, c, id2));
                    assert(old(self).spec_is_enemy(c));
                }
            }
        }
    }

    /// Places `val` on `coords` in the given faction, replacing any unit of
    /// that faction already there. Disjointness demands that the other faction
    /// does not hold the cell.
    pub fn add(&mut self, coords: &GridCoord, val: UnitId, unit_type: UnitType)
        requires
            old(self).wf(),
            unit_type == UnitType::Player ==> !old(self).spec_is_enemy(*coords),
            unit_type == UnitType::Enemy ==> !old(self).spec_is_player(*coords),
        ensures
            final(self).wf(),
            unit_type == UnitType::Player ==> {
                &&& final(self).enemy_entries() == old(self).enemy_entries()
                &&& forall|c: GridCoord, id: UnitId|
                    has_entry(final(self).player_entries(), c, id) <==> (if c == *coords {
                        id == val
                    } else {
                        has_entry(old(self).player_entries(), c, id)
                    })
            },
            unit_type == UnitType::Enemy ==> {
                &&& final(self).player_entries() == old(self).player_entries()
                &&& forall|c: GridCoord, id: UnitId|
                    has_entry(final(self).enemy_entries(), c, id) <==> (if c == *coords {
                        id == val
                    } else {
                        has_entry(old(self).enemy_entries(), c, id)
                    })
            },
    {
        match unit_type {
            UnitType::Player => {
                remove_key(&mut self.player_units, coords);
                let ghost pre = self.player_units@;
                self.player_units.push((*coords, val));
                proof {
                    lemma_push_entry(pre, *coords, val);
                    assert forall|c: GridCoord, id: UnitId|
                        has_entry(self.player_entries(), c, id) <==> (if c == *coords {
                            id == val
                        } else {
                            has_entry(old(self).player_entries(), c, id)
                        }) by {
                        assert(has_entry(self.player_units@, c, id) <==> (has_entry(pre, c, id)
                            || (c == *coords && id == val)));
                        assert(has_entry(pre, c, id) <==> (has_entry(
                            old(self).player_entries(),
                            c,
                            id,
                        ) && c != *coords));
                    }
                }
            },
            UnitType::Enemy => {
                remove_key(&mut self.enemy_units, coords);
                let ghost pre = self.enemy_units@;
                self.enemy_units.push((*coords, val));
                proof {
                    lemma_push_entry(pre, *coords, val);
                    assert forall|c: GridCoord, id: UnitId|
                        has_entry(self.enemy_entries(), c, id) <==> (if c == *coords {
                            id == val
                        } else {
                            has_entry(old(self).enemy_entries(), c, id)
                        }) by {
                        assert(has_entry(self.enemy_units@, c, id) <==> (has_entry(pre, c, id)
                            || (c == *coords && id == val)));
                        assert(has_entry(pre, c, id) <==> (has_entry(
                            old(self).enemy_entries(),
                            c,
                            id,
                        ) && c != *coords));
                    }
                }
            },
        }
        proof {
            let po = old(self).player_entries();
            let eo = old(self).enemy_entries();
            let pf = self.player_entries();
            let ef = self.enemy_entries();
            lemma_key_entry(po);
            lemma_key_entry(eo);
            lemma_key_entry(pf);
            lemma_key_entry(ef);
            assert forall|c: GridCoord| has_key(pf, c) implies !has_key(ef, c) by {
                let id = choose|id: UnitId| #[trigger] has_entry(pf, c, id);
                if c != *coords {
                    assert(has_entry(po, c, id));
                    assert(old(self).spec_is_player(c));
                }
                if has_key(ef, c) {
                    let id2 = choose|id2: UnitId| #[trigger] has_entry(ef, c, id2);
                    if c != *coords {
                        assert(has_entry(eo, c, id2));
                        assert(old(self).spec_is_enemy(c));
                    } else {
                        assert(has_entry(eo, c, id2));
                    }
                }
            }
        }
    }

    /// A unit of either faction stands on `coords`.
    pub fn contains(&self, coords: &GridCoord) -> (r: bool)
        ensures
            r == self.spec_contains(*coords),
    {
        self.is_player(coords) || self.is_enemy(coords)
    }

    pub fn clear(&mut self)
        ensures
            final(self).wf(),
            final(self).player_entries() =~= Seq::<(GridCoord, UnitId)>::empty(),
            final(self).enemy_entries() =~= Seq::<(GridCoord, UnitId)>::empty(),
    {
        self.player_units.clear();
        self.enemy_units.clear();
    }

    /// A player unit stands on `coords`.
    pub fn is_player(&self, coords: &GridCoord) -> (r: bool)
        ensures
            r == self.spec_is_player(*coords),
    {
        find_entry(&self.player_units, coords).is_some()
    }

    /// An enemy unit stands on `coords`.
    pub fn is_enemy(&self, coords: &GridCoord) -> (r: bool)
        ensures
            r == self.spec_is_enemy(*coords),
    {
        find_entry(&self.enemy_units, coords).is_some()
    }
}

/// Linear scan for the first entry keyed by `c`.
fn find_entry(s: &Vec<(GridCoord, UnitId)>, c: &GridCoord) -> (r: Option<UnitId>)
    ensures
        match r {
            Some(id) => has_entry(s@, *c, id),
            None => !has_key(s@, *c),
        },
        r is Some <==> has_key(s@, *c),
{
    let mut i: usize = 0;
    while i < s.len()
        invariant
            0 <= i <= s@.len(),
            forall|j: int| 0 <= j < i ==> (#[trigger] s@[j]).0 != *c,
        decreases s@.len() - i,
    {
        if s[i].0 == *c {
            return Some(s[i].1);
        }
        i += 1;
    }
    None
}

/// Removes every entry keyed by `c` (at most one under `keys_distinct`).
fn remove_key(s: &mut Vec<(GridCoord, UnitId)>, c: &GridCoord)
    requires
        keys_distinct(old(s)@),
    ensures
        keys_distinct(final(s)@),
        !has_key(final(s)@, *c),
        forall|x: GridCoord, id: UnitId|
            has_entry(final(s)@, x, id) <==> (has_entry(old(s)@, x, id) && x != *c),
{
    let mut i: usize = 0;
    let mut found: Option<usize> = None;
    while i < s.len() && found.is_none()
        invariant
            0 <= i <= s@.len(),
            match found {
                Some(k) => k < s@.len() && s@[k as int].0 == *c,
                None => forall|j: int| 0 <= j < i ==> (#[trigger] s@[j]).0 != *c,
            },
        decreases s@.len() - i,
    {
        if s[i].0 == *c {
            found = Some(i);
        }
        i += 1;
    }
    match found {
        Some(k) => {
            let ghost pre = s@;
            s.remove(k);
            proof {
                lemma_remove_entry(pre, k as int, *c);
            }
        },
        None => {
            proof {
                assert(!has_key(s@, *c));
            }
        },
    }
}

/// A key is present exactly when some entry carries it.
proof fn lemma_key_entry(s: Seq<(GridCoord, UnitId)>)
    ensures
        forall|c: GridCoord| #[trigger] has_key(s, c) ==> exists|id: UnitId| has_entry(s, c, id),
        forall|c: GridCoord, id: UnitId| #[trigger] has_entry(s, c, id) ==> has_key(s, c),
{
    assert forall|c: GridCoord| #[trigger] has_key(s, c) implies exists|id: UnitId|
        has_entry(s, c, id) by {
        let i = choose|i: int| 0 <= i < s.len() && (#[trigger] s[i]).0 == c;
        let e = s[i];
        assert(e == (e.0, e.1));
        assert(has_entry(s, c, e.1));
    }
    assert forall|c: GridCoord, id: UnitId| #[trigger] has_entry(s, c, id) implies has_key(
        s,
        c,
    ) by {
        let i = choose|i: int| 0 <= i < s.len() && #[trigger] s[i] == (c, id);
        assert((#[trigger] s[i]).0 == c);
    }
}

/// Appending a fresh key keeps the existing entries and adds exactly one.
proof fn lemma_push_entry(s: Seq<(GridCoord, UnitId)>, c: GridCoord, id: UnitId)
    requires
        keys_distinct(s),
        !has_key(s, c),
    ensures
        keys_distinct(s.push((c, id))),
        forall|x: GridCoord, xid: UnitId|
            has_entry(s.push((c, id)), x, xid) <==> (has_entry(s, x, xid) || (x == c && xid == id)),
{
    let t = s.push((c, id));
    assert forall|i: int, j: int| 0 <= i < j < t.len() implies (#[trigger] t[i]).0 != (
    #[trigger] t[j]).0 by {
        if j == s.len() {
            assert(t[i] == s[i]);
            assert(!(s[i].0 == c));
        } else {
            assert(t[i] == s[i]);
            assert(t[j] == s[j]);
        }
    }
    assert forall|x: GridCoord, xid: UnitId| has_entry(t, x, xid) implies (has_entry(s, x, xid) || (
    x == c && xid == id)) by {
        let j = choose|j: int| 0 <= j < t.len() && #[trigger] t[j] == (x, xid);
        if j < s.len() {
            assert(s[j] == (x, xid));
        }
    }
    assert forall|x: GridCoord, xid: UnitId| has_entry(s, x, xid) implies has_entry(t, x, xid) by {
        let j = choose|j: int| 0 <= j < s.len() && #[trigger] s[j] == (x, xid);
        assert(t[j] == (x, xid));
    }
    assert(t[s.len() as int] == (c, id));
}

/// Removing index `k` (keyed by `c`, unique) from `s` keeps exactly the other
/// entries.
proof fn lemma_remove_entry(s: Seq<(GridCoord, UnitId)>, k: int, c: GridCoord)
    requires
        keys_distinct(s),
        0 <= k < s.len(),
        s[k].0 == c,
    ensures
        keys_distinct(s.remove(k)),
        !has_key(s.remove(k), c),
        forall|x: GridCoord, id: UnitId|
            has_entry(s.remove(k), x, id) <==> (has_entry(s, x, id) && x != c),
{
    let t = s.remove(k);
    assert forall|j: int| 0 <= j < t.len() implies (#[trigger] t[j]).0 != c by {
        if j < k {
            assert(t[j] == s[j]);
        } else {
            assert(t[j] == s[j + 1]);
        }
    }
    assert forall|x: GridCoord, id: UnitId| has_entry(s, x, id) && x != c implies has_entry(
        t,
        x,
        id,
    ) by {
        let j = choose|j: int| 0 <= j < s.len() && #[trigger] s[j] == (x, id);
        if j < k {
            assert(t[j] == s[j]);
        } else {
            assert(j != k);
            assert(t[j - 1] == s[j]);
        }
    }
    assert forall|x: GridCoord, id: UnitId| has_entry(t, x, id) implies (has_entry(s, x, id) && x
        != c) by {
        let j = choose|j: int| 0 <= j < t.len() && #[trigger] t[j] == (x, id);
        if j < k {
            assert(t[j] == s[j]);
        } else {
            assert(t[j] == s[j + 1]);
        }
    }
}

} // verus!
