//! Combat resolution: the deterministic damage / accuracy / crit /
//! double-attack formulas, the per-pairing battle summary, the randomized
//! per-swing outcome, and the ordered battle queue of one exchange.

use vstd::prelude::*;

use crate::grid::{GridCoord, manhattan_dist, spec_manhattan};
use crate::rng::sample_below;
use crate::units::{UnitStats, WeaponPack};
use crate::weapon::{Weapon, WeaponEffectiveness, spec_effectiveness};
use std::collections::VecDeque;
use vstd::string::StringExecFns;

verus! {

/// Flat accuracy swing granted or taken by weapon-triangle advantage.
pub const WEAPON_ACCURACY_BONUS: u32 = 15;

/// Flat damage swing granted or taken by weapon-triangle advantage.
pub const WEAPON_DAMAGE_BONUS: u32 = 1;

/// Speed-difference threshold of the double-attack rule.
pub const DOUBLE_ATTACK_SPEED: u32 = 4;

/// Saturating subtraction over mathematical integers.
pub open spec fn sat_sub(a: int, b: int) -> int {
    if a >= b {
        a - b
    } else {
        0
    }
}

/// Damage one swing of `aw` by `atk` deals to `def` holding `dw`:
/// `max(atk + weapon attack - def, 0)`, then one flat point up on a strong
/// matchup and one saturating point down on a weak one.
pub open spec fn spec_damage(atk: UnitStats, aw: Weapon, def: UnitStats, dw: Weapon) -> int {
    let base = sat_sub(atk.atk + aw.attack, def.def as int);
    match spec_effectiveness(aw.weapon_type, dw.weapon_type) {
        WeaponEffectiveness::Strong => base + WEAPON_DAMAGE_BONUS,
        WeaponEffectiveness::Weak => sat_sub(base, WEAPON_DAMAGE_BONUS as int),
        WeaponEffectiveness::Neutral => base,
    }
}

/// Chance to hit of one swing: accuracy plus weapon hit, the target's dodge
/// taken off saturating, the triangle bonus applied, clamped into `[0, 100]`.
pub open spec fn spec_accuracy(atk: UnitStats, aw: Weapon, def: UnitStats, dw: Weapon) -> int {
    let acc = sat_sub(atk.spec_accuracy() + aw.hit, def.spec_dodge() as int);
    let adj = match spec_effectiveness(aw.weapon_type, dw.weapon_type) {
        WeaponEffectiveness::Strong => acc + WEAPON_ACCURACY_BONUS,
        WeaponEffectiveness::Weak => sat_sub(acc, WEAPON_ACCURACY_BONUS as int),
        WeaponEffectiveness::Neutral => acc,
    };
    if adj > 100 {
        100
    } else {
        adj
    }
}

/// Chance to crit of one swing: the unit's crit stat plus the weapon's crit
/// bonus, uncapped.
pub open spec fn spec_crit(atk: UnitStats, aw: Weapon) -> int {
    atk.spec_crit() + aw.crit
}

/// The double-attack rule: the attacker swings twice when its weighted swing
/// speed exceeds the defender's by less than the threshold, every difference
/// taken saturating.
pub open spec fn spec_is_double(atk: UnitStats, aw: Weapon, def: UnitStats, dw: Weapon) -> bool {
    sat_sub(
        sat_sub(atk.spec_attack_speed() as int, aw.weight as int),
        sat_sub(def.spd as int, dw.weight as int),
    ) < DOUBLE_ATTACK_SPEED
}

/// The double-attack rule always favors at least one side: whichever side
/// has the lower weighted swing speed saturates to a zero difference, which
/// lies below the threshold. An in-reach exchange therefore never queues
/// exactly one swing per side.
pub proof fn lemma_some_side_doubles(atk: UnitStats, aw: Weapon, def: UnitStats, dw: Weapon)
    ensures
        spec_is_double(atk, aw, def, dw) || spec_is_double(def, dw, atk, aw),
{
}

/// The hit chance of any pairing is clamped into `[0, 100]` inclusive, for
/// every stat block and weapon.
pub proof fn lemma_accuracy_clamped(atk: UnitStats, aw: Weapon, def: UnitStats, dw: Weapon)
    ensures
        0 <= spec_accuracy(atk, aw, def, dw) <= 100,
{
}

/// Hit-point subtraction saturates: no swing can take a hit-point total
/// below zero.
pub proof fn lemma_hp_never_underflows(hp: u32, dealt: u32)
    ensures
        sat_sub(hp as int, dealt as int) >= 0,
        sat_sub(hp as int, dealt as int) <= hp,
{
}

/// Machine bounds under which the damage and crit sums of a pairing fit in
/// `u32`, in both directions.
pub open spec fn combat_bounds(atk: UnitStats, aw: Weapon, def: UnitStats, dw: Weapon) -> bool {
    &&& atk.atk + aw.attack + WEAPON_DAMAGE_BONUS <= u32::MAX
    &&& def.atk + dw.attack + WEAPON_DAMAGE_BONUS <= u32::MAX
    &&& aw.crit + 25 <= u32::MAX
    &&& dw.crit + 25 <= u32::MAX
}

pub fn calculate_damage(
    attacker: &UnitStats,
    attacker_weapon: &Weapon,
    defender: &UnitStats,
    defender_weapon: &Weapon,
) -> (r: u32)
    requires
        attacker.atk + attacker_weapon.attack + WEAPON_DAMAGE_BONUS <= u32::MAX,
    ensures
        r == spec_damage(*attacker, *attacker_weapon, *defender, *defender_weapon),
{
    let damage = (attacker.atk + attacker_weapon.attack).saturating_sub(defender.def);
    match attacker_weapon.get_effectivness(defender_weapon) {
        WeaponEffectiveness::Strong => damage + WEAPON_DAMAGE_BONUS,
        WeaponEffectiveness::Weak => damage.saturating_sub(WEAPON_DAMAGE_BONUS),
        WeaponEffectiveness::Neutral => damage,
    }
}

/// The two directed damage figures of a pairing: the same formula with the
/// sides swapped.
pub fn calculate_damage_for_both(
    attacker: &UnitStats,
    attacker_weapon: &Weapon,
    defender: &UnitStats,
    defender_weapon: &Weapon,
) -> (r: (u32, u32))
    requires
        combat_bounds(*attacker, *attacker_weapon, *defender, *defender_weapon),
    ensures
        r.0 == spec_damage(*attacker, *attacker_weapon, *defender, *defender_weapon),
        r.1 == spec_damage(*defender, *defender_weapon, *attacker, *attacker_weapon),
{
    let atk_damage = calculate_damage(attacker, attacker_weapon, defender, defender_weapon);
    let def_damage = calculate_damage(defender, defender_weapon, attacker, attacker_weapon);
    (atk_damage, def_damage)
}

pub fn calculate_accuracy(
    attacker: &UnitStats,
    attacker_weapon: &Weapon,
    defender: &UnitStats,
    defender_weapon: &Weapon,
) -> (r: u32)
    ensures
        r == spec_accuracy(*attacker, *attacker_weapon, *defender, *defender_weapon),
        r <= 100,
{
    let acc: u64 = attacker.accuracy() as u64 + attacker_weapon.hit as u64;
    let dodge: u64 = defender.dodge() as u64;
    let acc: u64 = if acc >= dodge {
        acc - dodge
    } else {
        0
    };
    let adj: u64 = match attacker_weapon.get_effectivness(defender_weapon) {
        WeaponEffectiveness::Strong => acc + WEAPON_ACCURACY_BONUS as u64,
        WeaponEffectiveness::Weak => {
            if acc >= WEAPON_ACCURACY_BONUS as u64 {
                acc - WEAPON_ACCURACY_BONUS as u64
            } else {
                0
            }
        },
        WeaponEffectiveness::Neutral => acc,
    };
    if adj > 100 {
        100
    } else {
        adj as u32
    }
}

/// The two directed hit chances of a pairing: the same formula with the sides
/// swapped.
pub fn calculate_accuracy_for_both(
    attacker: &UnitStats,
    attacker_weapon: &Weapon,
    defender: &UnitStats,
    defender_weapon: &Weapon,
) -> (r: (u32, u32))
    ensures
        r.0 == spec_accuracy(*attacker, *attacker_weapon, *defender, *defender_weapon),
        r.1 == spec_accuracy(*defender, *defender_weapon, *attacker, *attacker_weapon),
        r.0 <= 100,
        r.1 <= 100,
{
    let atk_acc = calculate_accuracy(attacker, attacker_weapon, defender, defender_weapon);
    let def_acc = calculate_accuracy(defender, defender_weapon, attacker, attacker_weapon);
    (atk_acc, def_acc)
}

pub fn calculate_crit(attacker: &UnitStats, attacker_weapon: &Weapon) -> (r: u32)
    requires
        attacker_weapon.crit + 25 <= u32::MAX,
    ensures
        r == spec_crit(*attacker, *attacker_weapon),
{
    attacker.crit() + attacker_weapon.crit
}

/// The two crit chances of a pairing.
pub fn calculate_crit_for_both(
    attacker: &UnitStats,
    attacker_weapon: &Weapon,
    defender: &UnitStats,
    defender_weapon: &Weapon,
) -> (r: (u32, u32))
    requires
        attacker_weapon.crit + 25 <= u32::MAX,
        defender_weapon.crit + 25 <= u32::MAX,
    ensures
        r.0 == spec_crit(*attacker, *attacker_weapon),
        r.1 == spec_crit(*defender, *defender_weapon),
{
    (calculate_crit(attacker, attacker_weapon), calculate_crit(defender, defender_weapon))
}

pub fn is_double_attack(
    attacker: &UnitStats,
    attacker_weapon: &Weapon,
    defender: &UnitStats,
    defender_weapon: &Weapon,
) -> (r: bool)
    ensures
        r == spec_is_double(*attacker, *attacker_weapon, *defender, *defender_weapon),
{
    let atk_speed = attacker.attack_speed().saturating_sub(attacker_weapon.weight);
    let def_speed = defender.spd.saturating_sub(defender_weapon.weight);
    atk_speed.saturating_sub(def_speed) < DOUBLE_ATTACK_SPEED
}

/// The two double-attack verdicts of a pairing: the same rule with the sides
/// swapped.
pub fn is_double_attack_for_both(
    attacker: &UnitStats,
    attacker_weapon: &Weapon,
    defender: &UnitStats,
    defender_weapon: &Weapon,
) -> (r: (bool, bool))
    ensures
        r.0 == spec_is_double(*attacker, *attacker_weapon, *defender, *defender_weapon),
        r.1 == spec_is_double(*defender, *defender_weapon, *attacker, *attacker_weapon),
{
    (
        is_double_attack(attacker, attacker_weapon, defender, defender_weapon),
        is_double_attack(defender, defender_weapon, attacker, attacker_weapon),
    )
}

/// One side's figures in a battle summary.
#[derive(PartialEq, Eq, Structural, Clone, Copy, Debug)]
pub struct ActorSummary {
    pub hp: u32,
    pub dmg: u32,
    pub hit: u32,
    pub crit: u32,
    pub is_double: bool,
}

/// The all-zero summary of a side that cannot act.
pub open spec fn zeroed_summary() -> ActorSummary {
    ActorSummary { hp: 0, dmg: 0, hit: 0, crit: 0, is_double: false }
}

/// The figures one side would bring to the exchange, were it able to act.
pub open spec fn spec_actor_summary(
    own: UnitStats,
    own_w: Weapon,
    other: UnitStats,
    other_w: Weapon,
) -> ActorSummary {
    ActorSummary {
        hp: own.hp,
        dmg: spec_damage(own, own_w, other, other_w) as u32,
        hit: spec_accuracy(own, own_w, other, other_w) as u32,
        crit: spec_crit(own, own_w) as u32,
        is_double: spec_is_double(own, own_w, other, other_w),
    }
}

/// Both sides' figures for one pairing at distance `dist`.
#[derive(PartialEq, Eq, Structural, Clone, Copy, Debug)]
pub struct BattleSummary {
    pub attacker: ActorSummary,
    pub defender: ActorSummary,
}

impl BattleSummary {
    /// Computes both sides' figures. The defender's side is zeroed out when
    /// its weapon cannot reach across `dist`: no counter-attack out of range.
    pub fn new(
        attacker: &UnitStats,
        attacker_weapon: &Weapon,
        defender: &UnitStats,
        defender_weapon: &Weapon,
        dist: u32,
    ) -> (r: BattleSummary)
        requires
            combat_bounds(*attacker, *attacker_weapon, *defender, *defender_weapon),
        ensures
            r.attacker == spec_actor_summary(
                *attacker,
                *attacker_weapon,
                *defender,
                *defender_weapon,
            ),
            defender_weapon.spec_within_range(dist) ==> r.defender == spec_actor_summary(
                *defender,
                *defender_weapon,
                *attacker,
                *attacker_weapon,
            ),
            !defender_weapon.spec_within_range(dist) ==> r.defender == zeroed_summary(),
    {
        let (atk_hit, def_hit) = calculate_accuracy_for_both(
            attacker,
            attacker_weapon,
            defender,
            defender_weapon,
        );
        let (atk_crit, def_crit) = calculate_crit_for_both(
            attacker,
            attacker_weapon,
            defender,
            defender_weapon,
        );
        let (atk_dmg, def_dmg) = calculate_damage_for_both(
            attacker,
            attacker_weapon,
            defender,
            defender_weapon,
        );
        let (atk_is_double, def_is_double) = is_double_attack_for_both(
            attacker,
            attacker_weapon,
            defender,
            defender_weapon,
        );

        let attacker_summary = ActorSummary {
            hp: attacker.hp,
            dmg: atk_dmg,
            hit: atk_hit,
            crit: atk_crit,
            is_double: atk_is_double,
        };

        let defender_summary = if defender_weapon.within_range(dist) {
            ActorSummary {
                hp: defender.hp,
                dmg: def_dmg,
                hit: def_hit,
                crit: def_crit,
                is_double: def_is_double,
            }
        } else {
            ActorSummary { hp: 0, dmg: 0, hit: 0, crit: 0, is_double: false }
        };

        BattleSummary { attacker: attacker_summary, defender: defender_summary }
    }

    /// Renders the four-line summary text, byte for byte as the display
    /// format prescribes.
    pub fn summary_text(&self) -> (r: String)
        ensures
            r@ == spec_summary_text(*self),
    {
        let mut out = u32_text(self.attacker.hp);
        out.append(" HP ");
        let t = u32_text(self.defender.hp);
        out.append(t.as_str());
        out.append("\n");
        let t = u32_text(self.attacker.dmg);
        out.append(t.as_str());
        if self.attacker.is_double {
            out.append("x2");
        }
        out.append(" DMG ");
        let t = u32_text(self.defender.dmg);
        out.append(t.as_str());
        if self.defender.is_double {
            out.append("x2");
        }
        out.append("\n");
        let t = u32_text(self.attacker.hit);
        out.append(t.as_str());
        out.append(" HIT ");
        let t = u32_text(self.defender.hit);
        out.append(t.as_str());
        out.append("\n");
        let t = u32_text(self.attacker.crit);
        out.append(t.as_str());
        out.append(" CRIT ");
        let t = u32_text(self.defender.crit);
        out.append(t.as_str());
        out.append("\n");
        proof {
            assert(out@ =~= spec_summary_text(*self));
        }
        out
    }
}

/// The decimal digit character for `d`.
pub open spec fn digit_char(d: int) -> char {
    if d == 0 {
        '0'
    } else if d == 1 {
        '1'
    } else if d == 2 {
        '2'
    } else if d == 3 {
        '3'
    } else if d == 4 {
        '4'
    } else if d == 5 {
        '5'
    } else if d == 6 {
        '6'
    } else if d == 7 {
        '7'
    } else if d == 8 {
        '8'
    } else {
        '9'
    }
}

/// The decimal rendering of a nonnegative integer, most significant digit
/// first.
pub open spec fn spec_decimal(n: int) -> Seq<char>
    recommends
        n >= 0,
    decreases n,
{
    if n < 10 {
        seq![digit_char(n)]
    } else {
        spec_decimal(n / 10).push(digit_char(n % 10))
    }
}

/// The one-character string of a single decimal digit.
fn digit_str(d: u32) -> (s: &'static str)
    requires
        d < 10,
    ensures
        s@ == seq![digit_char(d as int)],
{
    let s: &'static str = if d == 0 {
        "0"
    } else if d == 1 {
        "1"
    } else if d == 2 {
        "2"
    } else if d == 3 {
        "3"
    } else if d == 4 {
        "4"
    } else if d == 5 {
        "5"
    } else if d == 6 {
        "6"
    } else if d == 7 {
        "7"
    } else if d == 8 {
        "8"
    } else {
        "9"
    };
    proof {
        reveal_strlit("0");
        reveal_strlit("1");
        reveal_strlit("2");
        reveal_strlit("3");
        reveal_strlit("4");
        reveal_strlit("5");
        reveal_strlit("6");
        reveal_strlit("7");
        reveal_strlit("8");
        reveal_strlit("9");
        assert(s@ =~= seq![digit_char(d as int)]);
    }
    s
}

/// Renders `n` in decimal.
pub fn u32_text(n: u32) -> (s: String)
    ensures
        s@ == spec_decimal(n as int),
    decreases n,
{
    if n < 10 {
        digit_str(n).to_owned()
    } else {
        let mut s = u32_text(n / 10);
        let d = digit_str(n % 10);
        s.append(d);
        proof {
            assert(s@ =~= spec_decimal((n / 10) as int).push(digit_char((n % 10) as int)));
        }
        s
    }
}

/// The `x2` marker a doubling side carries after its damage figure.
pub open spec fn double_mark(is_double: bool) -> Seq<char> {
    if is_double {
        "x2"@
    } else {
        Seq::<char>::empty()
    }
}

/// The four-line text of a battle summary: hit points, damage with the
/// double-hit marker, hit chance, crit chance, attacker first on each line.
pub open spec fn spec_summary_text(s: BattleSummary) -> Seq<char> {
    spec_decimal(s.attacker.hp as int) + " HP "@ + spec_decimal(s.defender.hp as int) + "\n"@
        + spec_decimal(s.attacker.dmg as int) + double_mark(s.attacker.is_double) + " DMG "@
        + spec_decimal(s.defender.dmg as int) + double_mark(s.defender.is_double) + "\n"@
        + spec_decimal(s.attacker.hit as int) + " HIT "@ + spec_decimal(s.defender.hit as int)
        + "\n"@ + spec_decimal(s.attacker.crit as int) + " CRIT "@ + spec_decimal(
        s.defender.crit as int,
    ) + "\n"@
}

/// Which side an action belongs to.
#[derive(PartialEq, Eq, Structural, Clone, Copy, Debug)]
pub enum Actor {
    Attacker,
    Defender,
}

/// The outcome of one swing.
#[derive(PartialEq, Eq, Structural, Clone, Copy, Debug)]
pub enum Damage {
    Hit(u32),
    Crit(u32),
    Miss,
}

/// One queued step of an exchange: a resolved swing, or a death.
#[derive(PartialEq, Eq, Structural, Clone, Copy, Debug)]
pub enum BattleAction {
    Attack { actor: Actor, damage: Damage },
    Death(Actor),
}

/// The ordered actions of one exchange, drained front to back.
#[derive(Debug)]
pub struct BattleQueue {
    pub queue: VecDeque<BattleAction>,
}

impl BattleQueue {
    pub fn new() -> (q: BattleQueue)
        ensures
            q.queue@ =~= Seq::<BattleAction>::empty(),
    {
        BattleQueue { queue: VecDeque::new() }
    }
}

/// Three times `d`, saturating at the type's ceiling.
pub open spec fn spec_triple(d: u32) -> u32 {
    if 3 * d > u32::MAX {
        u32::MAX
    } else {
        (3 * d) as u32
    }
}

/// What a swing with figures `s` resolves to under the two percent rolls: a
/// miss unless the hit chance beats the first roll, then a plain hit unless
/// the crit chance beats the second, which triples the damage.
pub open spec fn spec_swing(s: ActorSummary, hit_roll: u32, crit_roll: u32) -> Damage {
    if s.hit > hit_roll {
        if s.crit > crit_roll {
            Damage::Crit(spec_triple(s.dmg))
        } else {
            Damage::Hit(s.dmg)
        }
    } else {
        Damage::Miss
    }
}

/// `d` is an outcome the summary `s` can produce under some pair of percent
/// rolls.
pub open spec fn valid_swing(d: Damage, s: ActorSummary) -> bool {
    exists|h: u32, c: u32| h < 100 && c < 100 && d == spec_swing(s, h, c)
}

/// Resolves one swing from its two percent rolls; pure and deterministic.
pub fn resolve_swing(attacker: &ActorSummary, hit_roll: u32, crit_roll: u32) -> (d: Damage)
    requires
        hit_roll < 100,
        crit_roll < 100,
    ensures
        d == spec_swing(*attacker, hit_roll, crit_roll),
        valid_swing(d, *attacker),
{
    if attacker.hit > hit_roll {
        if attacker.crit > crit_roll {
            let tripled = if attacker.dmg <= u32::MAX / 3 {
                attacker.dmg * 3
            } else {
                u32::MAX
            };
            Damage::Crit(tripled)
        } else {
            Damage::Hit(attacker.dmg)
        }
    } else {
        Damage::Miss
    }
}

/// Draws the two percent rolls and resolves one swing. The crit roll is only
/// drawn when the hit lands; a miss ignores it either way.
pub fn simulate_attack(attacker: &ActorSummary) -> (d: Damage)
    ensures
        valid_swing(d, *attacker),
{
    let hit_roll = sample_below(100);
    let crit_roll = if attacker.hit > hit_roll {
        sample_below(100)
    } else {
        0
    };
    resolve_swing(attacker, hit_roll, crit_roll)
}

/// `a` is a resolved swing of `actor` that `s` can produce.
pub open spec fn is_attack_of(a: BattleAction, actor: Actor, s: ActorSummary) -> bool {
    match a {
        BattleAction::Attack { actor: ac, damage: d } => ac == actor && valid_swing(d, s),
        BattleAction::Death(_) => false,
    }
}

/// How many actions an exchange queues: the attacker's swing, the defender's
/// counter when in reach, the attacker's second swing on a double, the
/// defender's second when in reach and doubling.
pub open spec fn spec_queue_len(within: bool, atk_double: bool, def_double: bool) -> int {
    1 + (if within {
        1int
    } else {
        0int
    }) + (if atk_double {
        1int
    } else {
        0int
    }) + (if within && def_double {
        1int
    } else {
        0int
    })
}

/// Builds the ordered queue of one exchange in the fixed four-slot order:
/// attacker, defender (in reach only), attacker again (double only), defender
/// again (in reach and double only).
pub fn calculate_battle_queue(
    atk_stats: &UnitStats,
    atk_pack: &WeaponPack,
    atk_coords: &GridCoord,
    def_stats: &UnitStats,
    def_pack: &WeaponPack,
    def_coords: &GridCoord,
) -> (q: BattleQueue)
    requires
        atk_pack.wf(),
        def_pack.wf(),
        spec_manhattan(*atk_coords, *def_coords) <= u32::MAX,
        combat_bounds(
            *atk_stats,
            atk_pack.weapons@[atk_pack.equipped as int],
            *def_stats,
            def_pack.weapons@[def_pack.equipped as int],
        ),
    ensures
        ({
            let aw = atk_pack.weapons@[atk_pack.equipped as int];
            let dw = def_pack.weapons@[def_pack.equipped as int];
            let dist = spec_manhattan(*atk_coords, *def_coords);
            let within = dw.spec_within_range(dist as u32);
            let asum = spec_actor_summary(*atk_stats, aw, *def_stats, dw);
            let dsum = spec_actor_summary(*def_stats, dw, *atk_stats, aw);
            &&& q.queue@.len() == spec_queue_len(within, asum.is_double, within && dsum.is_double)
            &&& is_attack_of(q.queue@[0], Actor::Attacker, asum)
            &&& within ==> is_attack_of(q.queue@[1], Actor::Defender, dsum)
            &&& asum.is_double ==> is_attack_of(
                q.queue@[1 + (if within {
                    1int
                } else {
                    0int
                })],
                Actor::Attacker,
                asum,
            )
            &&& (within && dsum.is_double) ==> is_attack_of(
                q.queue@[q.queue@.len() - 1],
                Actor::Defender,
                dsum,
            )
            &&& forall|i: int| 0 <= i < q.queue@.len() ==> !((#[trigger] q.queue@[i]) is Death)
        }),
{
    let atk_weapon = atk_pack.get_equipped();
    let def_weapon = def_pack.get_equipped();

    let dist = manhattan_dist(*atk_coords, *def_coords);
    let battle_summary = BattleSummary::new(atk_stats, atk_weapon, def_stats, def_weapon, dist);
    let mut battle_queue = BattleQueue::new();

    let atk_action = BattleAction::Attack {
        actor: Actor::Attacker,
        damage: simulate_attack(&battle_summary.attacker),
    };
    battle_queue.queue.push_back(atk_action);

    if def_weapon.within_range(dist) {
        let def_action = BattleAction::Attack {
            actor: Actor::Defender,
            damage: simulate_attack(&battle_summary.defender),
        };
        battle_queue.queue.push_back(def_action);
    }
    if battle_summary.attacker.is_double {
        let atk_action = BattleAction::Attack {
            actor: Actor::Attacker,
            damage: simulate_attack(&battle_summary.attacker),
        };
        battle_queue.queue.push_back(atk_action);
    }
    if def_weapon.within_range(dist) && battle_summary.defender.is_double {
        let def_action = BattleAction::Attack {
            actor: Actor::Defender,
            damage: simulate_attack(&battle_summary.defender),
        };
        battle_queue.queue.push_back(def_action);
    }

    battle_queue
}

} // verus!
