//! A small coordinate-keyed map, association-list backed, used by the
//! pathfinder for its score and back-pointer tables.

use vstd::prelude::*;

use crate::grid::GridCoord;

verus! {

/// No two entries of `s` share a coordinate key.
pub open spec fn cm_keys_distinct<V>(s: Seq<(GridCoord, V)>) -> bool {
    forall|i: int, j: int| 0 <= i < j < s.len() ==> (#[trigger] s[i]).0 != (#[trigger] s[j]).0
}

/// Some entry of `s` is keyed by `c`.
pub open spec fn cm_has_key<V>(s: Seq<(GridCoord, V)>, c: GridCoord) -> bool {
    exists|i: int| 0 <= i < s.len() && (#[trigger] s[i]).0 == c
}

/// `s` holds the entry `(c, v)` at some index.
pub open spec fn cm_has_entry<V>(s: Seq<(GridCoord, V)>, c: GridCoord, v: V) -> bool {
    exists|i: int| 0 <= i < s.len() && #[trigger] s[i] == (c, v)
}

/// A map from grid cells to values of `V`, keyed uniquely.
pub struct CoordMap<V> {
    entries: Vec<(GridCoord, V)>,
}

impl<V: Copy> CoordMap<V> {
    /// The backing entries.
    pub closed spec fn entries_seq(&self) -> Seq<(GridCoord, V)> {
        self.entries@
    }

    /// Key uniqueness.
    pub open spec fn wf(&self) -> bool {
        cm_keys_distinct(self.entries_seq())
    }

    /// `c` is bound.
    pub open spec fn spec_has(&self, c: GridCoord) -> bool {
        cm_has_key(self.entries_seq(), c)
    }

    /// The value bound to `c`; meaningful under `wf` when `spec_has(c)`.
    pub open spec fn spec_get(&self, c: GridCoord) -> V {
        self.entries_seq()[choose|i: int|
            0 <= i < self.entries_seq().len() && (#[trigger] self.entries_seq()[i]).0 == c].1
    }

    pub fn new() -> (m: CoordMap<V>)
        ensures
            m.wf(),
            forall|c: GridCoord| !m.spec_has(c),
    {
        CoordMap { entries: Vec::new() }
    }

    /// The value bound to `c`, if any.
    pub fn get(&self, c: &GridCoord) -> (r: Option<V>)
        requires
            self.wf(),
        ensures
            match r {
                Some(v) => self.spec_has(*c) && v == self.spec_get(*c),
                None => !self.spec_has(*c),
            },
    {
        let s = &self.entries;
        let mut i: usize = 0;
        while i < s.len()
            invariant
                0 <= i <= s@.len(),
                s@ == self.entries_seq(),
                cm_keys_distinct(s@),
                forall|j: int| 0 <= j < i ==> (#[trigger] s@[j]).0 != *c,
            decreases s@.len() - i,
        {
            if s[i].0 == *c {
                proof {
                    let j = choose|j: int| 0 <= j < s@.len() && (#[trigger] s@[j]).0 == *c;
                    if j != i as int {
                        assert((#[trigger] s@[i as int]).0 == (#[trigger] s@[j]).0);
                        assert(false);
                    }
                }
                return Some(s[i].1);
            }
            i += 1;
        }
        None
    }

    /// Binds `c` to `v`, replacing any earlier binding of `c` and keeping
    /// every other binding.
    pub fn insert(&mut self, c: GridCoord, v: V)
        requires
            old(self).wf(),
        ensures
            final(self).wf(),
            forall|x: GridCoord|
                final(self).spec_has(x) <==> (old(self).spec_has(x) || x == c),
            final(self).spec_get(c) == v,
            forall|x: GridCoord|
                x != c && old(self).spec_has(x) ==> final(self).spec_get(x) == old(self).spec_get(
                    x,
                ),
    {
        cm_remove_key(&mut self.entries, &c);
        let ghost pre = self.entries@;
        self.entries.push((c, v));
        proof {
            cm_lemma_push(pre, c, v);
            let t = self.entries_seq();
            assert(t[t.len() - 1] == (c, v));
            assert forall|x: GridCoord| self.spec_has(x) implies (old(self).spec_has(x) || x
                == c) by {
                let i = choose|i: int| 0 <= i < t.len() && (#[trigger] t[i]).0 == x;
                if i < t.len() - 1 {
                    assert(pre[i].0 == x);
                    assert(cm_has_entry(pre, x, pre[i].1));
                    assert(cm_has_entry(old(self).entries_seq(), x, pre[i].1));
                    assert((#[trigger] old(self).entries_seq()[choose|k: int|
                        0 <= k < old(self).entries_seq().len() && old(self).entries_seq()[k]
                            == (x, pre[i].1)]) == (x, pre[i].1));
                }
            }
            assert forall|x: GridCoord| (old(self).spec_has(x) || x == c) implies self.spec_has(
                x,
            ) by {
                if x == c {
                    assert(t[t.len() - 1].0 == c);
                } else if old(self).spec_has(x) {
                    let i = choose|i: int|
                        0 <= i < old(self).entries_seq().len() && (#[trigger] old(
                            self,
                        ).entries_seq()[i]).0 == x;
                    let oe = old(self).entries_seq()[i];
                    assert(oe == (x, oe.1));
                    assert(cm_has_entry(old(self).entries_seq(), x, oe.1));
                    assert(cm_has_entry(pre, x, oe.1));
                    assert(cm_has_entry(t, x, oe.1));
                    let k = choose|k: int| 0 <= k < t.len() && #[trigger] t[k] == (x, oe.1);
                    assert(t[k].0 == x);
                }
            }
            assert(self.spec_get(c) == v) by {
                let j = choose|j: int| 0 <= j < t.len() && (#[trigger] t[j]).0 == c;
                if j != t.len() - 1 {
                    assert((#[trigger] t[j]).0 == (#[trigger] t[t.len() - 1]).0);
                    assert(false);
                }
            }
            assert forall|x: GridCoord| x != c && old(self).spec_has(x) implies self.spec_get(x)
                == old(self).spec_get(x) by {
                let io = choose|i: int|
                    0 <= i < old(self).entries_seq().len() && (#[trigger] old(
                        self,
                    ).entries_seq()[i]).0 == x;
                let ov = old(self).entries_seq()[io].1;
                assert(old(self).entries_seq()[io] == (x, ov));
                assert(cm_has_entry(old(self).entries_seq(), x, ov));
                assert(old(self).spec_get(x) == ov);
                assert(cm_has_entry(pre, x, ov));
                assert(cm_has_entry(t, x, ov));
                let k = choose|k: int| 0 <= k < t.len() && #[trigger] t[k] == (x, ov);
                let j = choose|j: int| 0 <= j < t.len() && (#[trigger] t[j]).0 == x;
                if j != k {
                    assert((#[trigger] t[j]).0 == (#[trigger] t[k]).0);
                    assert(false);
                }
                assert(self.spec_get(x) == ov);
            }
        }
    }
}

/// Removes the (unique) entry keyed by `c`, keeping every other entry.
fn cm_remove_key<V: Copy>(s: &mut Vec<(GridCoord, V)>, c: &GridCoord)
    requires
        cm_keys_distinct(old(s)@),
    ensures
        cm_keys_distinct(final(s)@),
        !cm_has_key(final(s)@, *c),
        forall|x: GridCoord, v: V|
            cm_has_entry(final(s)@, x, v) <==> (cm_has_entry(old(s)@, x, v) && x != *c),
{
    let mut i: usize = 0;
    let mut found: Option<usize> = None;
    while i < s.len() && found.is_none()
        invariant
            0 <= i <= s@.len(),
            match found {
                Some(k) => k < s@.len() && s@[k as int].0 == *c,
                None => forall|j: int| 0 <= j < i ==> (#[trigger] s@[j]).0 != *c,
            },
        decreases s@.len() - i,
    {
        if s[i].0 == *c {
            found = Some(i);
        }
        i += 1;
    }
    match found {
        Some(k) => {
            let ghost pre = s@;
            s.remove(k);
            proof {
                cm_lemma_remove(pre, k as int, *c);
            }
        },
        None => {
            proof {
                assert(!cm_has_key(s@, *c));
            }
        },
    }
}

/// Removing index `k` (keyed by `c`, unique) keeps exactly the other entries.
proof fn cm_lemma_remove<V>(s: Seq<(GridCoord, V)>, k: int, c: GridCoord)
    requires
        cm_keys_distinct(s),
        0 <= k < s.len(),
        s[k].0 == c,
    ensures
        cm_keys_distinct(s.remove(k)),
        !cm_has_key(s.remove(k), c),
        forall|x: GridCoord, v: V|
            cm_has_entry(s.remove(k), x, v) <==> (cm_has_entry(s, x, v) && x != c),
{
    let t = s.remove(k);
    assert forall|j: int| 0 <= j < t.len() implies (#[trigger] t[j]).0 != c by {
        if j < k {
            assert(t[j] == s[j]);
        } else {
            assert(t[j] == s[j + 1]);
        }
    }
    assert forall|x: GridCoord, v: V| cm_has_entry(s, x, v) && x != c implies cm_has_entry(
        t,
        x,
        v,
    ) by {
        let j = choose|j: int| 0 <= j < s.len() && #[trigger] s[j] == (x, v);
        if j < k {
            assert(t[j] == s[j]);
        } else {
            assert(j != k);
            assert(t[j - 1] == s[j]);
        }
    }
    assert forall|x: GridCoord, v: V| cm_has_entry(t, x, v) implies (cm_has_entry(s, x, v) && x
        != c) by {
        let j = choose|j: int| 0 <= j < t.len() && #[trigger] t[j] == (x, v);
        if j < k {
            assert(t[j] == s[j]);
        } else {
            assert(t[j] == s[j + 1]);
        }
    }
}

/// Appending a fresh key keeps the existing entries and adds exactly one.
proof fn cm_lemma_push<V>(s: Seq<(GridCoord, V)>, c: GridCoord, v: V)
    requires
        cm_keys_distinct(s),
        !cm_has_key(s, c),
    ensures
        cm_keys_distinct(s.push((c, v))),
        forall|x: GridCoord, xv: V|
            cm_has_entry(s.push((c, v)), x, xv) <==> (cm_has_entry(s, x, xv) || (x == c && xv
                == v)),
{
    let t = s.push((c, v));
    assert forall|i: int, j: int| 0 <= i < j < t.len() implies (#[trigger] t[i]).0 != (
    #[trigger] t[j]).0 by {
        if j == s.len() {
            assert(t[i] == s[i]);
            assert(!(s[i].0 == c));
        } else {
            assert(t[i] == s[i]);
            assert(t[j] == s[j]);
        }
    }
    assert forall|x: GridCoord, xv: V| cm_has_entry(t, x, xv) implies (cm_has_entry(s, x, xv) || (x
        == c && xv == v)) by {
        let j = choose|j: int| 0 <= j < t.len() && #[trigger] t[j] == (x, xv);
        if j < s.len() {
            assert(s[j] == (x, xv));
        }
    }
    assert forall|x: GridCoord, xv: V| cm_has_entry(s, x, xv) implies cm_has_entry(t, x, xv) by {
        let j = choose|j: int| 0 <= j < s.len() && #[trigger] s[j] == (x, xv);
        assert(t[j] == (x, xv));
    }
    assert(t[s.len() as int] == (c, v));
}

} // verus!
