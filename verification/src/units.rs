//! Units: stat blocks with their derived combat stats, the set of player
//! units that have already moved this turn, and the weapon pack a unit
//! carries.

use vstd::prelude::*;

use crate::map::UnitId;
use crate::weapon::{Weapon, in_table, weapon_wf};

verus! {

/// A unit's stat block. `hp` is the current hit-point total; the maximum is
/// implied by the initial value and never restored mid-battle.
#[derive(Clone, Debug, PartialEq)]
pub struct UnitStats {
    pub name: String,
    pub hp: u32,
    pub def: u32,
    pub atk: u32,
    pub spd: u32,
    pub mov: u32,
}

impl Default for UnitStats {
    fn default() -> (s: UnitStats)
        ensures
            s.name@ =~= Seq::<char>::empty(),
            s.hp == 10,
            s.def == 0,
            s.atk == 3,
            s.spd == 2,
            s.mov == 3,
    {
        UnitStats { name: String::new(), hp: 10, def: 0, atk: 3, spd: 2, mov: 3 }
    }
}

impl UnitStats {
    pub fn enemy() -> (s: UnitStats)
        ensures
            s.name@ == "Enemy"@,
            s.hp == 3,
            s.def == 0,
            s.atk == 1,
            s.spd == 2,
            s.mov == 1,
    {
        UnitStats { name: "Enemy".to_owned(), hp: 3, def: 0, atk: 1, spd: 2, mov: 1 }
    }

    pub fn player() -> (s: UnitStats)
        ensures
            s.name@ == "Player"@,
            s.hp == 10,
            s.def == 1,
            s.atk == 3,
            s.spd == 3,
            s.mov == 2,
    {
        UnitStats { name: "Player".to_owned(), hp: 10, def: 1, atk: 3, spd: 3, mov: 2 }
    }

    /// Base hit chance, derived from speed: `70 + 2 * min(spd, 15)`.
    /// Monotone in `spd` and bounded by 100.
    pub open spec fn spec_accuracy(self) -> u32 {
        if self.spd >= 15 {
            100
        } else {
            (70 + 2 * self.spd) as u32
        }
    }

    /// Chance to evade, derived from speed: `2 * min(spd, 50)`.
    /// Monotone in `spd` and bounded by 100.
    pub open spec fn spec_dodge(self) -> u32 {
        if self.spd >= 50 {
            100
        } else {
            (2 * self.spd) as u32
        }
    }

    /// Base crit chance, derived from speed: `min(spd / 2, 25)`.
    /// Monotone in `spd` and bounded by 25.
    pub open spec fn spec_crit(self) -> u32 {
        if self.spd / 2 >= 25 {
            25
        } else {
            self.spd / 2
        }
    }

    /// Swing speed before the weapon's weight is charged; the raw speed stat.
    pub open spec fn spec_attack_speed(self) -> u32 {
        self.spd
    }

    pub fn accuracy(&self) -> (r: u32)
        ensures
            r == self.spec_accuracy(),
            70 <= r <= 100,
    {
        if self.spd >= 15 {
            100
        } else {
            70 + 2 * self.spd
        }
    }

    pub fn dodge(&self) -> (r: u32)
        ensures
            r == self.spec_dodge(),
            r <= 100,
    {
        if self.spd >= 50 {
            100
        } else {
            2 * self.spd
        }
    }

    pub fn crit(&self) -> (r: u32)
        ensures
            r == self.spec_crit(),
            r <= 25,
    {
        let half = self.spd / 2;
        if half >= 25 {
            25
        } else {
            half
        }
    }

    pub fn attack_speed(&self) -> (r: u32)
        ensures
            r == self.spec_attack_speed(),
    {
        self.spd
    }
}

/// The player units that have finished their move this turn.
pub struct Teams {
    moved_player_units: Vec<UnitId>,
}

impl Teams {
    /// The recorded units, in insertion order.
    pub closed spec fn units(&self) -> Seq<UnitId> {
        self.moved_player_units@
    }

    /// `id` has been recorded.
    pub open spec fn spec_contains(&self, id: UnitId) -> bool {
        self.units().contains(id)
    }

    /// No unit is recorded twice, so the count below is a cardinality.
    pub open spec fn wf(&self) -> bool {
        forall|i: int, j: int|
            0 <= i < j < self.units().len() ==> self.units()[i] != self.units()[j]
    }

    pub fn new() -> (t: Teams)
        ensures
            t.wf(),
            t.units() =~= Seq::<UnitId>::empty(),
    {
        Teams { moved_player_units: Vec::new() }
    }

    /// Records `entity`; recording the same unit twice changes nothing.
    pub fn add(&mut self, entity: UnitId)
        requires
            old(self).wf(),
        ensures
            final(self).wf(),
            forall|x: UnitId|
                final(self).spec_contains(x) <==> (old(self).spec_contains(x) || x == entity),
            old(self).spec_contains(entity) ==> final(self).units() == old(self).units(),
            !old(self).spec_contains(entity) ==> final(self).units() == old(self).units().push(
                entity,
            ),
    {
        if !self.contains(&entity) {
            self.moved_player_units.push(entity);
            proof {
                assert forall|x: UnitId|
                    self.spec_contains(x) <==> (old(self).spec_contains(x) || x == entity) by {
                    if old(self).spec_contains(x) {
                        let i = choose|i: int|
                            0 <= i < old(self).units().len() && old(self).units()[i] == x;
                        assert(self.units()[i] == x);
                    }
                    if x == entity {
                        assert(self.units()[self.units().len() - 1] == x);
                    }
                    if self.spec_contains(x) {
                        let i = choose|i: int| 0 <= i < self.units().len() && self.units()[i] == x;
                        if i < self.units().len() - 1 {
                            assert(old(self).units()[i] == x);
                        }
                    }
                }
            }
        }
    }

    pub fn contains(&self, entity: &UnitId) -> (r: bool)
        ensures
            r == self.spec_contains(*entity),
    {
        let mut i: usize = 0;
        while i < self.moved_player_units.len()
            invariant
                0 <= i <= self.units().len(),
                forall|j: int| 0 <= j < i ==> self.units()[j] != *entity,
            decreases self.units().len() - i,
        {
            if self.moved_player_units[i] == *entity {
                return true;
            }
            i += 1;
        }
        false
    }

    /// How many units have moved; under `wf` this is the number of distinct
    /// recorded units.
    pub fn count(&self) -> (r: usize)
        ensures
            r == self.units().len(),
    {
        self.moved_player_units.len()
    }

    pub fn clear(&mut self)
        ensures
            final(self).wf(),
            final(self).units() =~= Seq::<UnitId>::empty(),
    {
        self.moved_player_units.clear();
    }
}

/// The ordered weapons a unit carries; exactly one is equipped at a time.
#[derive(Clone, Debug)]
pub struct WeaponPack {
    pub weapons: Vec<Weapon>,
    pub equipped: usize,
}

impl WeaponPack {
    /// The equipped index points into the weapon list.
    pub open spec fn wf(&self) -> bool {
        self.equipped < self.weapons@.len()
    }

    /// A fresh pack of three random weapons with the first equipped. Each
    /// weapon is one of the fixed candidates of its rarity's draw table.
    pub fn new() -> (p: WeaponPack)
        ensures
            p.wf(),
            p.weapons@.len() == 3,
            p.equipped == 0,
            forall|i: int| 0 <= i < p.weapons@.len() ==> weapon_wf(#[trigger] p.weapons@[i]),
            forall|i: int|
                0 <= i < p.weapons@.len() ==> in_table(
                    #[trigger] p.weapons@[i],
                    p.weapons@[i].rarity,
                ),
    {
        let mut weapons: Vec<Weapon> = Vec::new();
        let mut i: usize = 0;
        while i < 3
            invariant
                0 <= i <= 3,
                weapons@.len() == i,
                forall|j: int| 0 <= j < weapons@.len() ==> weapon_wf(#[trigger] weapons@[j]),
                forall|j: int|
                    0 <= j < weapons@.len() ==> in_table(
                        #[trigger] weapons@[j],
                        weapons@[j].rarity,
                    ),
            decreases 3 - i,
        {
            weapons.push(Weapon::get_random_weapon());
            i += 1;
        }
        WeaponPack { weapons, equipped: 0 }
    }

    /// The currently equipped weapon.
    pub fn get_equipped(&self) -> (w: &Weapon)
        requires
            self.wf(),
        ensures
            *w == self.weapons@[self.equipped as int],
    {
        &self.weapons[self.equipped]
    }
}

} // verus!
