use tactics_core::combat::{
    Actor, BattleAction, BattleQueue, BattleSummary, Damage, calculate_accuracy,
    calculate_accuracy_for_both, calculate_battle_queue, calculate_crit, calculate_damage,
    calculate_damage_for_both, is_double_attack, is_double_attack_for_both, resolve_swing,
    simulate_attack, u32_text, ActorSummary,
};
use tactics_core::grid::GridCoord;
use tactics_core::units::{UnitStats, WeaponPack};
use tactics_core::weapon::{Rarity, Weapon, WeaponRange, WeaponType};

fn stats(hp: u32, def: u32, atk: u32, spd: u32, mov: u32) -> UnitStats {
    UnitStats { name: String::new(), hp, def, atk, spd, mov }
}

fn weapon(attack: u32, hit: u32, weight: u32, crit: u32, weapon_type: WeaponType) -> Weapon {
    Weapon {
        attack,
        hit,
        weight,
        crit,
        range: WeaponRange::Melee(1),
        rarity: Rarity::Common,
        weapon_type,
        weapon_effect: None,
    }
}

#[test]
fn base_damage_subtracts_defense() {
    // atk 3 + weapon 5 against def 2: base damage 6 on a neutral matchup.
    let attacker = stats(10, 0, 3, 2, 2);
    let defender = stats(10, 2, 1, 2, 2);
    let aw = weapon(5, 90, 5, 0, WeaponType::Sword);
    let dw = weapon(5, 90, 5, 0, WeaponType::Sword);
    assert_eq!(calculate_damage(&attacker, &aw, &defender, &dw), 6);
}

#[test]
fn strong_matchup_adds_one_damage() {
    // Sword is strong against Axe: 3 + 5 - 2 + 1 = 7.
    let attacker = stats(10, 0, 3, 2, 2);
    let defender = stats(10, 2, 1, 2, 2);
    let aw = weapon(5, 90, 5, 0, WeaponType::Sword);
    let dw = weapon(5, 90, 5, 0, WeaponType::Axe);
    assert_eq!(calculate_damage(&attacker, &aw, &defender, &dw), 7);
}

#[test]
fn weak_matchup_takes_one_damage() {
    // Sword is weak against Lance: 3 + 5 - 2 - 1 = 5.
    let attacker = stats(10, 0, 3, 2, 2);
    let defender = stats(10, 2, 1, 2, 2);
    let aw = weapon(5, 90, 5, 0, WeaponType::Sword);
    let dw = weapon(5, 90, 5, 0, WeaponType::Lance);
    assert_eq!(calculate_damage(&attacker, &aw, &defender, &dw), 5);
}

#[test]
fn damage_saturates_at_zero() {
    let attacker = stats(10, 0, 1, 2, 2);
    let defender = stats(10, 50, 1, 2, 2);
    let aw = weapon(2, 90, 5, 0, WeaponType::Sword);
    let dw = weapon(2, 90, 5, 0, WeaponType::Sword);
    assert_eq!(calculate_damage(&attacker, &aw, &defender, &dw), 0);
}

#[test]
fn damage_pair_swaps_the_same_formula() {
    let a = stats(10, 1, 3, 2, 2);
    let b = stats(10, 2, 5, 2, 2);
    let aw = weapon(5, 90, 5, 0, WeaponType::Sword);
    let bw = weapon(4, 80, 6, 0, WeaponType::Axe);
    let (ad, bd) = calculate_damage_for_both(&a, &aw, &b, &bw);
    assert_eq!(ad, calculate_damage(&a, &aw, &b, &bw));
    assert_eq!(bd, calculate_damage(&b, &bw, &a, &aw));
    assert_eq!(ad, 3 + 5 - 2 + 1);
    assert_eq!(bd, 5 + 4 - 1 - 1);
}

#[test]
fn accuracy_pair_swaps_the_same_formula() {
    let a = stats(10, 1, 3, 4, 2);
    let b = stats(10, 2, 5, 9, 2);
    let aw = weapon(5, 90, 5, 0, WeaponType::Sword);
    let bw = weapon(4, 80, 6, 0, WeaponType::Axe);
    let (ah, bh) = calculate_accuracy_for_both(&a, &aw, &b, &bw);
    assert_eq!(ah, calculate_accuracy(&a, &aw, &b, &bw));
    assert_eq!(bh, calculate_accuracy(&b, &bw, &a, &aw));
}

#[test]
fn accuracy_is_clamped_to_one_hundred() {
    // accuracy 70 + 2*spd = 78, + hit 90, - dodge 18, + 15 strong: clamps.
    let attacker = stats(10, 0, 3, 4, 2);
    let defender = stats(10, 2, 1, 9, 2);
    let aw = weapon(5, 90, 5, 0, WeaponType::Sword);
    let dw = weapon(5, 90, 5, 0, WeaponType::Axe);
    assert_eq!(calculate_accuracy(&attacker, &aw, &defender, &dw), 100);
}

#[test]
fn accuracy_saturates_at_zero_not_below() {
    // hit 0 against an untouchable dodger on a weak matchup.
    let attacker = stats(10, 0, 3, 0, 2);
    let defender = stats(10, 2, 1, 50, 2);
    let aw = weapon(5, 0, 5, 0, WeaponType::Sword);
    let dw = weapon(5, 90, 5, 0, WeaponType::Lance);
    let acc = calculate_accuracy(&attacker, &aw, &defender, &dw);
    assert_eq!(acc, 0);
}

#[test]
fn accuracy_exact_middle_value() {
    // accuracy 70 + 2*2 = 74, + hit 60 = 134, - dodge 2*9 = 116, clamped 100;
    // with a weak matchup instead: 116 - 15 = 101 -> 100; use lower hit.
    let attacker = stats(10, 0, 3, 2, 2);
    let defender = stats(10, 2, 1, 9, 2);
    let aw = weapon(5, 10, 5, 0, WeaponType::Sword);
    let dw = weapon(5, 90, 5, 0, WeaponType::Sword);
    // 74 + 10 - 18 = 66 on a neutral matchup.
    assert_eq!(calculate_accuracy(&attacker, &aw, &defender, &dw), 66);
}

#[test]
fn crit_adds_weapon_bonus() {
    // crit = min(spd / 2, 25) + weapon crit = 5 + 35.
    let attacker = stats(10, 0, 3, 10, 2);
    let aw = weapon(5, 90, 5, 35, WeaponType::Sword);
    assert_eq!(calculate_crit(&attacker, &aw), 40);
}

#[test]
fn slower_side_double_attacks() {
    let fast = stats(10, 0, 3, 10, 2);
    let slow = stats(10, 0, 3, 2, 2);
    let fw = weapon(5, 90, 0, 0, WeaponType::Sword);
    let sw = weapon(5, 90, 0, 0, WeaponType::Sword);
    // The fast side exceeds the slow one by 8 >= 4: no double for it.
    assert!(!is_double_attack(&fast, &fw, &slow, &sw));
    assert!(is_double_attack(&slow, &sw, &fast, &fw));
    let (fd, sd) = is_double_attack_for_both(&fast, &fw, &slow, &sw);
    assert!(!fd);
    assert!(sd);
}

#[test]
fn summary_zeroes_defender_out_of_reach() {
    let attacker = stats(10, 0, 3, 2, 2);
    let defender = stats(9, 2, 1, 2, 2);
    let aw = Weapon {
        range: WeaponRange::Ranged { min: 2, max: 2 },
        ..weapon(5, 90, 5, 0, WeaponType::Bow)
    };
    let dw = weapon(5, 90, 5, 0, WeaponType::Sword);
    // Distance 2: the defender's melee weapon cannot reach back.
    let summary = BattleSummary::new(&attacker, &aw, &defender, &dw, 2);
    assert_eq!(summary.attacker.hp, 10);
    assert_eq!(summary.defender.hp, 0);
    assert_eq!(summary.defender.dmg, 0);
    assert_eq!(summary.defender.hit, 0);
    assert_eq!(summary.defender.crit, 0);
    assert!(!summary.defender.is_double);
}

#[test]
fn summary_keeps_defender_in_reach() {
    let attacker = stats(10, 0, 3, 2, 2);
    let defender = stats(9, 2, 1, 2, 2);
    let aw = weapon(5, 90, 5, 0, WeaponType::Sword);
    let dw = weapon(5, 90, 5, 0, WeaponType::Sword);
    let summary = BattleSummary::new(&attacker, &aw, &defender, &dw, 1);
    assert_eq!(summary.defender.hp, 9);
    assert_eq!(summary.defender.dmg, 1 + 5 - 0);
}

#[test]
fn swing_resolution_is_exact() {
    let s = ActorSummary { hp: 10, dmg: 4, hit: 60, crit: 30, is_double: false };
    assert_eq!(resolve_swing(&s, 59, 30), Damage::Hit(4));
    assert_eq!(resolve_swing(&s, 59, 29), Damage::Crit(12));
    assert_eq!(resolve_swing(&s, 60, 0), Damage::Miss);
}

#[test]
fn simulated_swing_is_a_possible_outcome() {
    let s = ActorSummary { hp: 10, dmg: 4, hit: 100, crit: 0, is_double: false };
    for _ in 0..50 {
        // Hit chance 100 always lands; crit chance 0 never triples.
        assert_eq!(simulate_attack(&s), Damage::Hit(4));
    }
    let never = ActorSummary { hp: 10, dmg: 4, hit: 0, crit: 100, is_double: false };
    for _ in 0..50 {
        assert_eq!(simulate_attack(&never), Damage::Miss);
    }
}

fn melee_pack(attack: u32, hit: u32, weight: u32, weapon_type: WeaponType) -> WeaponPack {
    WeaponPack { weapons: vec![weapon(attack, hit, weight, 0, weapon_type)], equipped: 0 }
}

#[test]
fn queue_has_three_actions_for_single_double() {
    // Attacker slow (doubles), defender fast (does not), in reach.
    let atk_stats = stats(10, 0, 3, 2, 2);
    let def_stats = stats(10, 0, 3, 10, 2);
    let atk_pack = melee_pack(5, 100, 0, WeaponType::Sword);
    let def_pack = melee_pack(5, 100, 0, WeaponType::Sword);
    let q = calculate_battle_queue(
        &atk_stats,
        &atk_pack,
        &GridCoord::new(0, 0),
        &def_stats,
        &def_pack,
        &GridCoord::new(1, 0),
    );
    assert_eq!(q.queue.len(), 3);
    assert!(matches!(q.queue[0], BattleAction::Attack { actor: Actor::Attacker, .. }));
    assert!(matches!(q.queue[1], BattleAction::Attack { actor: Actor::Defender, .. }));
    assert!(matches!(q.queue[2], BattleAction::Attack { actor: Actor::Attacker, .. }));
}

#[test]
fn queue_has_four_actions_when_both_double() {
    let atk_stats = stats(10, 0, 3, 2, 2);
    let def_stats = stats(10, 0, 3, 2, 2);
    let atk_pack = melee_pack(5, 100, 0, WeaponType::Sword);
    let def_pack = melee_pack(5, 100, 0, WeaponType::Sword);
    let q = calculate_battle_queue(
        &atk_stats,
        &atk_pack,
        &GridCoord::new(0, 0),
        &def_stats,
        &def_pack,
        &GridCoord::new(1, 0),
    );
    assert_eq!(q.queue.len(), 4);
    assert!(matches!(q.queue[3], BattleAction::Attack { actor: Actor::Defender, .. }));
}

#[test]
fn queue_has_one_action_when_defender_cannot_reach() {
    // Attacker strikes from distance 2 with a bow; the fast attacker does
    // not double, and the melee defender cannot answer.
    let atk_stats = stats(10, 0, 3, 10, 2);
    let def_stats = stats(10, 0, 3, 2, 2);
    let atk_pack = WeaponPack {
        weapons: vec![Weapon {
            range: WeaponRange::Ranged { min: 2, max: 2 },
            ..weapon(5, 100, 0, 0, WeaponType::Bow)
        }],
        equipped: 0,
    };
    let def_pack = melee_pack(5, 100, 0, WeaponType::Sword);
    let q = calculate_battle_queue(
        &atk_stats,
        &atk_pack,
        &GridCoord::new(0, 0),
        &def_stats,
        &def_pack,
        &GridCoord::new(2, 0),
    );
    assert_eq!(q.queue.len(), 1);
    assert!(matches!(q.queue[0], BattleAction::Attack { actor: Actor::Attacker, .. }));
}

#[test]
fn summary_text_renders_all_four_lines() {
    let summary = BattleSummary {
        attacker: ActorSummary { hp: 10, dmg: 6, hit: 95, crit: 5, is_double: true },
        defender: ActorSummary { hp: 3, dmg: 1, hit: 40, crit: 0, is_double: false },
    };
    assert_eq!(summary.summary_text(), "10 HP 3\n6x2 DMG 1\n95 HIT 40\n5 CRIT 0\n");
}

#[test]
fn decimal_rendering_is_exact() {
    assert_eq!(u32_text(0), "0");
    assert_eq!(u32_text(7), "7");
    assert_eq!(u32_text(10), "10");
    assert_eq!(u32_text(907), "907");
    assert_eq!(u32_text(4294967295), "4294967295");
}

#[test]
fn hp_subtraction_saturates_for_all_swings() {
    let mut bq = BattleQueue::new();
    bq.queue.push_back(BattleAction::Attack { actor: Actor::Attacker, damage: Damage::Hit(50) });
    let mut atk = stats(10, 0, 3, 2, 2);
    let mut def = stats(4, 0, 1, 2, 2);
    tactics_core::turn::step_battle(&mut bq, &mut atk, &mut def);
    assert_eq!(def.hp, 0);
    assert_eq!(atk.hp, 10);
}
