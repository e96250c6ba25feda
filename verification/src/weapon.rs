//! Weapons: rarity tiers, weapon types with their triangle-style
//! effectiveness relation, reach, and the random weapon tables.

use vstd::prelude::*;

use crate::rng::sample_below;
use vstd::string::StringExecFns;

verus! {

/// How rare a weapon is; decides which table a random draw comes from.
#[derive(PartialEq, Eq, Structural, Clone, Copy, Debug)]
pub enum Rarity {
    Common,
    Uncommon,
    Rare,
    Legendary,
}

/// The kind of a weapon; drives the effectiveness triangle.
#[derive(PartialEq, Eq, Structural, Clone, Copy, Debug)]
pub enum WeaponType {
    Lance,
    Sword,
    Axe,
    Bow,
    Light,
    Dark,
    Natural,
}

/// Situations when a weapon effect may take place.
#[derive(PartialEq, Eq, Structural, Clone, Copy, Debug)]
pub enum WeaponEffect {
    OnAttack,
    AfterAttack,
    OnMove,
    Passive,
}

/// A weapon's reach. `Melee(d)` strikes at any distance up to `d`;
/// `Ranged { min, max }` strikes at the inclusive band `min..=max`, so
/// `Ranged { min: 1, max: 2 }` subsumes `Melee(2)`.
#[derive(PartialEq, Eq, Structural, Clone, Copy, Debug)]
pub enum WeaponRange {
    Melee(u32),
    Ranged { min: u32, max: u32 },
}

/// How one weapon type fares against another.
#[derive(PartialEq, Eq, Structural, Clone, Copy, Debug)]
pub enum WeaponEffectiveness {
    Strong,
    Weak,
    Neutral,
}

#[derive(PartialEq, Clone, Copy, Debug)]
pub struct Weapon {
    pub attack: u32,
    pub hit: u32,
    pub weight: u32,
    pub crit: u32,
    pub range: WeaponRange,
    pub rarity: Rarity,
    pub weapon_type: WeaponType,
    pub weapon_effect: Option<WeaponEffect>,
}

/// The reach band of a weapon is ordered: a `Ranged` weapon's minimum never
/// exceeds its maximum.
pub open spec fn weapon_wf(w: Weapon) -> bool {
    match w.range {
        WeaponRange::Melee(_) => true,
        WeaponRange::Ranged { min, max } => min <= max,
    }
}

/// The weapon every table entry starts from: a plain common sword with no
/// stats and reach 1.
pub open spec fn default_weapon() -> Weapon {
    Weapon {
        attack: 0,
        hit: 0,
        weight: 0,
        crit: 0,
        range: WeaponRange::Melee(1),
        rarity: Rarity::Common,
        weapon_type: WeaponType::Sword,
        weapon_effect: None,
    }
}

impl Default for Weapon {
    fn default() -> (w: Weapon)
        ensures
            w == default_weapon(),
    {
        Weapon {
            attack: 0,
            hit: 0,
            weight: 0,
            crit: 0,
            range: WeaponRange::Melee(1),
            rarity: Rarity::Common,
            weapon_type: WeaponType::Sword,
            weapon_effect: None,
        }
    }
}

impl WeaponType {
    /// `self` is at a disadvantage against `weapon_type`.
    pub open spec fn spec_is_weak(self, weapon_type: WeaponType) -> bool {
        match self {
            WeaponType::Lance => weapon_type == WeaponType::Axe,
            WeaponType::Sword => weapon_type == WeaponType::Lance,
            WeaponType::Axe => weapon_type == WeaponType::Sword,
            WeaponType::Light => weapon_type == WeaponType::Natural,
            WeaponType::Dark => weapon_type == WeaponType::Light,
            WeaponType::Natural => weapon_type == WeaponType::Dark,
            WeaponType::Bow => false,
        }
    }

    /// `self` has the advantage against `weapon_type`.
    pub open spec fn spec_is_strong(self, weapon_type: WeaponType) -> bool {
        match self {
            WeaponType::Lance => weapon_type == WeaponType::Sword,
            WeaponType::Sword => weapon_type == WeaponType::Axe,
            WeaponType::Axe => weapon_type == WeaponType::Lance,
            WeaponType::Light => weapon_type == WeaponType::Natural,
            WeaponType::Dark => weapon_type == WeaponType::Light,
            WeaponType::Natural => weapon_type == WeaponType::Light,
            WeaponType::Bow => false,
        }
    }

    pub fn is_weak(&self, weapon_type: WeaponType) -> (r: bool)
        ensures
            r == self.spec_is_weak(weapon_type),
    {
        match self {
            WeaponType::Lance => weapon_type == WeaponType::Axe,
            WeaponType::Sword => weapon_type == WeaponType::Lance,
            WeaponType::Axe => weapon_type == WeaponType::Sword,
            WeaponType::Light => weapon_type == WeaponType::Natural,
            WeaponType::Dark => weapon_type == WeaponType::Light,
            WeaponType::Natural => weapon_type == WeaponType::Dark,
            WeaponType::Bow => false,
        }
    }

    pub fn is_strong(&self, weapon_type: WeaponType) -> (r: bool)
        ensures
            r == self.spec_is_strong(weapon_type),
    {
        match self {
            WeaponType::Lance => weapon_type == WeaponType::Sword,
            WeaponType::Sword => weapon_type == WeaponType::Axe,
            WeaponType::Axe => weapon_type == WeaponType::Lance,
            WeaponType::Light => weapon_type == WeaponType::Natural,
            WeaponType::Dark => weapon_type == WeaponType::Light,
            WeaponType::Natural => weapon_type == WeaponType::Light,
            WeaponType::Bow => false,
        }
    }
}

/// Effectiveness of `mine` against `theirs`: advantage is checked first, then
/// disadvantage, else neutral.
pub open spec fn spec_effectiveness(mine: WeaponType, theirs: WeaponType) -> WeaponEffectiveness {
    if mine.spec_is_strong(theirs) {
        WeaponEffectiveness::Strong
    } else if mine.spec_is_weak(theirs) {
        WeaponEffectiveness::Weak
    } else {
        WeaponEffectiveness::Neutral
    }
}

impl Weapon {
    /// `self` could strike a target standing `dist` cells away.
    pub open spec fn spec_within_range(self, dist: u32) -> bool {
        match self.range {
            WeaponRange::Melee(d) => dist <= d,
            WeaponRange::Ranged { min, max } => min <= dist && dist <= max,
        }
    }

    pub fn within_range(&self, dist: u32) -> (r: bool)
        ensures
            r == self.spec_within_range(dist),
    {
        match self.range {
            WeaponRange::Melee(d) => dist <= d,
            WeaponRange::Ranged { min, max } => min <= dist && dist <= max,
        }
    }

    /// How this weapon fares against `other` in the effectiveness triangle.
    pub fn get_effectivness(&self, other: &Weapon) -> (r: WeaponEffectiveness)
        ensures
            r == spec_effectiveness(self.weapon_type, other.weapon_type),
    {
        if self.weapon_type.is_strong(other.weapon_type) {
            WeaponEffectiveness::Strong
        } else if self.weapon_type.is_weak(other.weapon_type) {
            WeaponEffectiveness::Weak
        } else {
            WeaponEffectiveness::Neutral
        }
    }

    /// Draws a rarity at random, then a weapon of that rarity.
    pub fn get_random_weapon() -> (w: Weapon)
        ensures
            weapon_wf(w),
            in_table(w, w.rarity),
    {
        let roll = sample_below(101);
        let rarity = rarity_from_roll(roll);
        Self::get_random_weapon_by_rarity(rarity)
    }

    /// Draws a weapon of the given rarity from that rarity's table.
    pub fn get_random_weapon_by_rarity(rarity: Rarity) -> (w: Weapon)
        ensures
            w.rarity == rarity,
            weapon_wf(w),
            in_table(w, rarity),
    {
        match rarity {
            Rarity::Common => get_common_weapon(),
            Rarity::Uncommon => get_uncommon_weapon(),
            Rarity::Rare => get_rare_weapon(),
            Rarity::Legendary => get_legendary_weapon(),
        }
    }

    /// The display name, `"<rarity>-<type>"`.
    pub fn get_name(&self) -> (r: String)
        ensures
            r@ == spec_weapon_name(self.rarity, self.weapon_type),
    {
        let base: &str = match self.rarity {
            Rarity::Common => "common",
            Rarity::Uncommon => "uncommon",
            Rarity::Rare => "rare",
            Rarity::Legendary => "legendary",
        };
        let suffix: &str = match self.weapon_type {
            WeaponType::Sword => "sword",
            WeaponType::Lance => "lance",
            WeaponType::Axe => "axe",
            WeaponType::Bow => "bow",
            WeaponType::Natural => "natural",
            WeaponType::Light => "light",
            WeaponType::Dark => "dark",
        };
        let mut name = base.to_owned();
        name.append("-");
        name.append(suffix);
        name
    }
}

/// Label of a rarity tier in weapon names.
pub open spec fn rarity_label(r: Rarity) -> Seq<char> {
    match r {
        Rarity::Common => "common"@,
        Rarity::Uncommon => "uncommon"@,
        Rarity::Rare => "rare"@,
        Rarity::Legendary => "legendary"@,
    }
}

/// Label of a weapon type in weapon names.
pub open spec fn type_label(t: WeaponType) -> Seq<char> {
    match t {
        WeaponType::Sword => "sword"@,
        WeaponType::Lance => "lance"@,
        WeaponType::Axe => "axe"@,
        WeaponType::Bow => "bow"@,
        WeaponType::Natural => "natural"@,
        WeaponType::Light => "light"@,
        WeaponType::Dark => "dark"@,
    }
}

/// The full display name of a weapon: rarity label, a dash, type label.
pub open spec fn spec_weapon_name(r: Rarity, t: WeaponType) -> Seq<char> {
    rarity_label(r) + "-"@ + type_label(t)
}

/// The fixed candidate table a random draw of the given rarity picks from.
pub open spec fn weapon_table(r: Rarity) -> Seq<Weapon> {
    match r {
        Rarity::Common => seq![
            Weapon { attack: 5, hit: 90, weight: 5, ..default_weapon() },
            Weapon {
                attack: 7,
                hit: 80,
                weight: 8,
                weapon_type: WeaponType::Lance,
                ..default_weapon()
            },
            Weapon {
                attack: 7,
                hit: 60,
                weight: 12,
                weapon_type: WeaponType::Axe,
                ..default_weapon()
            },
            Weapon {
                attack: 4,
                hit: 85,
                weight: 6,
                range: WeaponRange::Ranged { min: 2, max: 2 },
                weapon_type: WeaponType::Bow,
                ..default_weapon()
            },
            Weapon {
                attack: 4,
                hit: 90,
                weight: 5,
                range: WeaponRange::Ranged { min: 1, max: 2 },
                weapon_type: WeaponType::Natural,
                ..default_weapon()
            },
            Weapon {
                attack: 4,
                hit: 95,
                weight: 6,
                crit: 5,
                range: WeaponRange::Ranged { min: 1, max: 2 },
                weapon_type: WeaponType::Light,
                ..default_weapon()
            },
            Weapon {
                attack: 7,
                hit: 80,
                weight: 8,
                range: WeaponRange::Ranged { min: 1, max: 2 },
                weapon_type: WeaponType::Dark,
                ..default_weapon()
            },
        ],
        Rarity::Uncommon => seq![
            Weapon {
                attack: 11,
                hit: 65,
                weight: 14,
                rarity: Rarity::Uncommon,
                ..default_weapon()
            },
            Weapon {
                attack: 10,
                hit: 70,
                weight: 11,
                crit: 5,
                rarity: Rarity::Uncommon,
                weapon_type: WeaponType::Lance,
                ..default_weapon()
            },
            Weapon {
                attack: 11,
                hit: 65,
                weight: 15,
                rarity: Rarity::Uncommon,
                weapon_type: WeaponType::Axe,
                ..default_weapon()
            },
            Weapon {
                attack: 6,
                hit: 70,
                weight: 9,
                crit: 5,
                rarity: Rarity::Uncommon,
                range: WeaponRange::Ranged { min: 2, max: 3 },
                weapon_type: WeaponType::Bow,
                ..default_weapon()
            },
            Weapon {
                attack: 10,
                hit: 85,
                weight: 10,
                rarity: Rarity::Uncommon,
                range: WeaponRange::Ranged { min: 1, max: 2 },
                weapon_type: WeaponType::Natural,
                ..default_weapon()
            },
            Weapon {
                attack: 8,
                hit: 85,
                weight: 12,
                crit: 10,
                rarity: Rarity::Uncommon,
                range: WeaponRange::Ranged { min: 1, max: 2 },
                weapon_type: WeaponType::Light,
                ..default_weapon()
            },
            Weapon {
                attack: 10,
                hit: 75,
                weight: 8,
                crit: 10,
                rarity: Rarity::Uncommon,
                range: WeaponRange::Ranged { min: 1, max: 2 },
                weapon_type: WeaponType::Dark,
                ..default_weapon()
            },
        ],
        Rarity::Rare => seq![
            Weapon {
                attack: 9,
                hit: 75,
                weight: 7,
                crit: 35,
                rarity: Rarity::Rare,
                ..default_weapon()
            },
            Weapon {
                attack: 14,
                hit: 90,
                weight: 9,
                crit: 5,
                rarity: Rarity::Rare,
                weapon_type: WeaponType::Lance,
                ..default_weapon()
            },
            Weapon {
                attack: 20,
                hit: 65,
                weight: 15,
                rarity: Rarity::Rare,
                weapon_type: WeaponType::Axe,
                ..default_weapon()
            },
            Weapon {
                attack: 13,
                hit: 75,
                weight: 9,
                crit: 5,
                rarity: Rarity::Rare,
                range: WeaponRange::Ranged { min: 2, max: 2 },
                weapon_type: WeaponType::Bow,
                ..default_weapon()
            },
            Weapon {
                attack: 13,
                hit: 80,
                weight: 10,
                crit: 5,
                rarity: Rarity::Rare,
                range: WeaponRange::Ranged { min: 1, max: 2 },
                weapon_type: WeaponType::Natural,
                ..default_weapon()
            },
            Weapon {
                attack: 10,
                hit: 75,
                weight: 10,
                rarity: Rarity::Rare,
                range: WeaponRange::Ranged { min: 1, max: 3 },
                weapon_type: WeaponType::Light,
                ..default_weapon()
            },
            Weapon {
                attack: 15,
                hit: 70,
                weight: 12,
                crit: 10,
                rarity: Rarity::Rare,
                range: WeaponRange::Ranged { min: 1, max: 2 },
                weapon_type: WeaponType::Dark,
                ..default_weapon()
            },
        ],
        Rarity::Legendary => seq![
            Weapon {
                attack: 20,
                hit: 85,
                weight: 9,
                crit: 10,
                rarity: Rarity::Legendary,
                ..default_weapon()
            },
            Weapon {
                attack: 19,
                hit: 100,
                weight: 11,
                crit: 5,
                rarity: Rarity::Legendary,
                range: WeaponRange::Ranged { min: 1, max: 2 },
                weapon_type: WeaponType::Lance,
                ..default_weapon()
            },
            Weapon {
                attack: 15,
                hit: 80,
                weight: 9,
                crit: 20,
                rarity: Rarity::Legendary,
                range: WeaponRange::Ranged { min: 1, max: 2 },
                weapon_type: WeaponType::Axe,
                ..default_weapon()
            },
            Weapon {
                attack: 20,
                hit: 80,
                weight: 10,
                crit: 10,
                rarity: Rarity::Legendary,
                range: WeaponRange::Ranged { min: 2, max: 3 },
                weapon_type: WeaponType::Bow,
                ..default_weapon()
            },
            Weapon {
                attack: 18,
                hit: 100,
                weight: 9,
                crit: 10,
                rarity: Rarity::Legendary,
                range: WeaponRange::Ranged { min: 1, max: 2 },
                weapon_type: WeaponType::Natural,
                ..default_weapon()
            },
            Weapon {
                attack: 16,
                hit: 80,
                weight: 12,
                crit: 25,
                rarity: Rarity::Legendary,
                range: WeaponRange::Ranged { min: 1, max: 2 },
                weapon_type: WeaponType::Light,
                ..default_weapon()
            },
            Weapon {
                attack: 20,
                hit: 95,
                weight: 12,
                crit: 10,
                rarity: Rarity::Legendary,
                range: WeaponRange::Ranged { min: 1, max: 2 },
                weapon_type: WeaponType::Dark,
                ..default_weapon()
            },
        ],
    }
}

/// `w` is one of the fixed candidates of rarity `r`'s draw table.
pub open spec fn in_table(w: Weapon, r: Rarity) -> bool {
    exists|i: int| 0 <= i < weapon_table(r).len() && w == weapon_table(r)[i]
}

/// The rarity a uniform roll of `0..=100` maps to: 5% legendary, 15% rare,
/// 30% uncommon, the rest common.
pub open spec fn spec_rarity_from_roll(x: u32) -> Rarity {
    if x <= 4 {
        Rarity::Legendary
    } else if x <= 19 {
        Rarity::Rare
    } else if x <= 49 {
        Rarity::Uncommon
    } else {
        Rarity::Common
    }
}

pub fn rarity_from_roll(x: u32) -> (r: Rarity)
    ensures
        r == spec_rarity_from_roll(x),
{
    if x <= 4 {
        Rarity::Legendary
    } else if x <= 19 {
        Rarity::Rare
    } else if x <= 49 {
        Rarity::Uncommon
    } else {
        Rarity::Common
    }
}

/// Builds one table entry; the effect slot is always empty.
fn weapon_with(
    attack: u32,
    hit: u32,
    weight: u32,
    crit: u32,
    range: WeaponRange,
    rarity: Rarity,
    weapon_type: WeaponType,
) -> (w: Weapon)
    ensures
        w == (Weapon { attack, hit, weight, crit, range, rarity, weapon_type, weapon_effect: None }),
{
    Weapon { attack, hit, weight, crit, range, rarity, weapon_type, weapon_effect: None }
}

/// Picks one entry of `table` at random.
fn pick_weapon(table: Vec<Weapon>) -> (w: Weapon)
    requires
        table@.len() >= 1,
        table@.len() <= u32::MAX,
    ensures
        exists|i: int| 0 <= i < table@.len() && w == table@[i],
{
    let n: u32 = table.len() as u32;
    let idx = sample_below(n) as usize;
    table[idx]
}

fn get_common_weapon() -> (w: Weapon)
    ensures
        w.rarity == Rarity::Common,
        weapon_wf(w),
        in_table(w, Rarity::Common),
{
    let table = vec![
        weapon_with(5, 90, 5, 0, WeaponRange::Melee(1), Rarity::Common, WeaponType::Sword),
        weapon_with(7, 80, 8, 0, WeaponRange::Melee(1), Rarity::Common, WeaponType::Lance),
        weapon_with(7, 60, 12, 0, WeaponRange::Melee(1), Rarity::Common, WeaponType::Axe),
        weapon_with(
            4,
            85,
            6,
            0,
            WeaponRange::Ranged { min: 2, max: 2 },
            Rarity::Common,
            WeaponType::Bow,
        ),
        weapon_with(
            4,
            90,
            5,
            0,
            WeaponRange::Ranged { min: 1, max: 2 },
            Rarity::Common,
            WeaponType::Natural,
        ),
        weapon_with(
            4,
            95,
            6,
            5,
            WeaponRange::Ranged { min: 1, max: 2 },
            Rarity::Common,
            WeaponType::Light,
        ),
        weapon_with(
            7,
            80,
            8,
            0,
            WeaponRange::Ranged { min: 1, max: 2 },
            Rarity::Common,
            WeaponType::Dark,
        ),
    ];
    proof {
        assert(table@ =~= weapon_table(Rarity::Common));
    }
    pick_weapon(table)
}

fn get_uncommon_weapon() -> (w: Weapon)
    ensures
        w.rarity == Rarity::Uncommon,
        weapon_wf(w),
        in_table(w, Rarity::Uncommon),
{
    let table = vec![
        weapon_with(11, 65, 14, 0, WeaponRange::Melee(1), Rarity::Uncommon, WeaponType::Sword),
        weapon_with(10, 70, 11, 5, WeaponRange::Melee(1), Rarity::Uncommon, WeaponType::Lance),
        weapon_with(11, 65, 15, 0, WeaponRange::Melee(1), Rarity::Uncommon, WeaponType::Axe),
        weapon_with(
            6,
            70,
            9,
            5,
            WeaponRange::Ranged { min: 2, max: 3 },
            Rarity::Uncommon,
            WeaponType::Bow,
        ),
        weapon_with(
            10,
            85,
            10,
            0,
            WeaponRange::Ranged { min: 1, max: 2 },
            Rarity::Uncommon,
            WeaponType::Natural,
        ),
        weapon_with(
            8,
            85,
            12,
            10,
            WeaponRange::Ranged { min: 1, max: 2 },
            Rarity::Uncommon,
            WeaponType::Light,
        ),
        weapon_with(
            10,
            75,
            8,
            10,
            WeaponRange::Ranged { min: 1, max: 2 },
            Rarity::Uncommon,
            WeaponType::Dark,
        ),
    ];
    proof {
        assert(table@ =~= weapon_table(Rarity::Uncommon));
    }
    pick_weapon(table)
}

fn get_rare_weapon() -> (w: Weapon)
    ensures
        w.rarity == Rarity::Rare,
        weapon_wf(w),
        in_table(w, Rarity::Rare),
{
    let table = vec![
        weapon_with(9, 75, 7, 35, WeaponRange::Melee(1), Rarity::Rare, WeaponType::Sword),
        weapon_with(14, 90, 9, 5, WeaponRange::Melee(1), Rarity::Rare, WeaponType::Lance),
        weapon_with(20, 65, 15, 0, WeaponRange::Melee(1), Rarity::Rare, WeaponType::Axe),
        weapon_with(
            13,
            75,
            9,
            5,
            WeaponRange::Ranged { min: 2, max: 2 },
            Rarity::Rare,
            WeaponType::Bow,
        ),
        weapon_with(
            13,
            80,
            10,
            5,
            WeaponRange::Ranged { min: 1, max: 2 },
            Rarity::Rare,
            WeaponType::Natural,
        ),
        weapon_with(
            10,
            75,
            10,
            0,
            WeaponRange::Ranged { min: 1, max: 3 },
            Rarity::Rare,
            WeaponType::Light,
        ),
        weapon_with(
            15,
            70,
            12,
            10,
            WeaponRange::Ranged { min: 1, max: 2 },
            Rarity::Rare,
            WeaponType::Dark,
        ),
    ];
    proof {
        assert(table@ =~= weapon_table(Rarity::Rare));
    }
    pick_weapon(table)
}

fn get_legendary_weapon() -> (w: Weapon)
    ensures
        w.rarity == Rarity::Legendary,
        weapon_wf(w),
        in_table(w, Rarity::Legendary),
{
    let table = vec![
        weapon_with(20, 85, 9, 10, WeaponRange::Melee(1), Rarity::Legendary, WeaponType::Sword),
        weapon_with(
            19,
            100,
            11,
            5,
            WeaponRange::Ranged { min: 1, max: 2 },
            Rarity::Legendary,
            WeaponType::Lance,
        ),
        weapon_with(
            15,
            80,
            9,
            20,
            WeaponRange::Ranged { min: 1, max: 2 },
            Rarity::Legendary,
            WeaponType::Axe,
        ),
        weapon_with(
            20,
            80,
            10,
            10,
            WeaponRange::Ranged { min: 2, max: 3 },
            Rarity::Legendary,
            WeaponType::Bow,
        ),
        weapon_with(
            18,
            100,
            9,
            10,
            WeaponRange::Ranged { min: 1, max: 2 },
            Rarity::Legendary,
            WeaponType::Natural,
        ),
        weapon_with(
            16,
            80,
            12,
            25,
            WeaponRange::Ranged { min: 1, max: 2 },
            Rarity::Legendary,
            WeaponType::Light,
        ),
        weapon_with(
            20,
            95,
            12,
            10,
            WeaponRange::Ranged { min: 1, max: 2 },
            Rarity::Legendary,
            WeaponType::Dark,
        ),
    ];
    proof {
        assert(table@ =~= weapon_table(Rarity::Legendary));
    }
    pick_weapon(table)
}

} // verus!
