use tactics_core::units::WeaponPack;
use tactics_core::weapon::{
    Rarity, Weapon, WeaponEffectiveness, WeaponRange, WeaponType, rarity_from_roll,
};

#[test]
fn weapon_names_join_rarity_and_type() {
    let w = Weapon { rarity: Rarity::Common, weapon_type: WeaponType::Sword, ..Weapon::default() };
    assert_eq!(w.get_name(), "common-sword");
    let w = Weapon {
        rarity: Rarity::Legendary,
        weapon_type: WeaponType::Bow,
        ..Weapon::default()
    };
    assert_eq!(w.get_name(), "legendary-bow");
    let w = Weapon { rarity: Rarity::Uncommon, weapon_type: WeaponType::Dark, ..Weapon::default() };
    assert_eq!(w.get_name(), "uncommon-dark");
}

#[test]
fn weapon_triangle_relations() {
    assert!(WeaponType::Sword.is_strong(WeaponType::Axe));
    assert!(WeaponType::Axe.is_strong(WeaponType::Lance));
    assert!(WeaponType::Lance.is_strong(WeaponType::Sword));
    assert!(WeaponType::Sword.is_weak(WeaponType::Lance));
    assert!(WeaponType::Axe.is_weak(WeaponType::Sword));
    assert!(WeaponType::Lance.is_weak(WeaponType::Axe));
    assert!(!WeaponType::Bow.is_strong(WeaponType::Sword));
    assert!(!WeaponType::Bow.is_weak(WeaponType::Sword));
    assert!(WeaponType::Dark.is_strong(WeaponType::Light));
    assert!(WeaponType::Natural.is_weak(WeaponType::Dark));
}

#[test]
fn effectiveness_prefers_advantage() {
    let sword = Weapon { weapon_type: WeaponType::Sword, ..Weapon::default() };
    let axe = Weapon { weapon_type: WeaponType::Axe, ..Weapon::default() };
    let bow = Weapon { weapon_type: WeaponType::Bow, ..Weapon::default() };
    assert_eq!(sword.get_effectivness(&axe), WeaponEffectiveness::Strong);
    assert_eq!(axe.get_effectivness(&sword), WeaponEffectiveness::Weak);
    assert_eq!(bow.get_effectivness(&sword), WeaponEffectiveness::Neutral);
}

#[test]
fn reach_bands_are_inclusive() {
    let melee = Weapon { range: WeaponRange::Melee(1), ..Weapon::default() };
    assert!(melee.within_range(0));
    assert!(melee.within_range(1));
    assert!(!melee.within_range(2));

    let bow = Weapon { range: WeaponRange::Ranged { min: 2, max: 3 }, ..Weapon::default() };
    assert!(!bow.within_range(1));
    assert!(bow.within_range(2));
    assert!(bow.within_range(3));
    assert!(!bow.within_range(4));
}

#[test]
fn rarity_roll_boundaries() {
    assert_eq!(rarity_from_roll(0), Rarity::Legendary);
    assert_eq!(rarity_from_roll(4), Rarity::Legendary);
    assert_eq!(rarity_from_roll(5), Rarity::Rare);
    assert_eq!(rarity_from_roll(19), Rarity::Rare);
    assert_eq!(rarity_from_roll(20), Rarity::Uncommon);
    assert_eq!(rarity_from_roll(49), Rarity::Uncommon);
    assert_eq!(rarity_from_roll(50), Rarity::Common);
    assert_eq!(rarity_from_roll(100), Rarity::Common);
}

#[test]
fn random_weapons_come_from_the_asked_table() {
    for _ in 0..20 {
        let w = Weapon::get_random_weapon_by_rarity(Rarity::Rare);
        assert_eq!(w.rarity, Rarity::Rare);
        let w = Weapon::get_random_weapon_by_rarity(Rarity::Common);
        assert_eq!(w.rarity, Rarity::Common);
        if let WeaponRange::Ranged { min, max } = w.range {
            assert!(min <= max);
        }
    }
}

#[test]
fn random_weapon_is_well_formed() {
    for _ in 0..50 {
        let w = Weapon::get_random_weapon();
        if let WeaponRange::Ranged { min, max } = w.range {
            assert!(min <= max);
        }
    }
}

#[test]
fn fresh_packs_hold_three_weapons() {
    let p = WeaponPack::new();
    assert_eq!(p.weapons.len(), 3);
    assert_eq!(p.equipped, 0);
    let first = p.weapons[0].clone();
    assert_eq!(p.get_equipped(), &first);
}

#[test]
fn default_weapon_is_a_plain_sword() {
    let w = Weapon::default();
    assert_eq!(w.attack, 0);
    assert_eq!(w.hit, 0);
    assert_eq!(w.weight, 0);
    assert_eq!(w.crit, 0);
    assert_eq!(w.range, WeaponRange::Melee(1));
    assert_eq!(w.rarity, Rarity::Common);
    assert_eq!(w.weapon_type, WeaponType::Sword);
    assert_eq!(w.weapon_effect, None);
}

#[test]
fn unit_presets_match_their_roles() {
    let e = tactics_core::units::UnitStats::enemy();
    assert_eq!(e.name, "Enemy");
    assert_eq!(e.hp, 3);
    assert_eq!(e.mov, 1);
    let p = tactics_core::units::UnitStats::player();
    assert_eq!(p.name, "Player");
    assert_eq!(p.hp, 10);
    assert_eq!(p.spd, 3);
}

#[test]
fn drawn_weapons_match_a_fixed_table_entry() {
    // The common table holds exactly seven fixed candidates; every draw
    // returns one of them.
    let expected = [
        (5, 90, 5, 0, WeaponType::Sword),
        (7, 80, 8, 0, WeaponType::Lance),
        (7, 60, 12, 0, WeaponType::Axe),
        (4, 85, 6, 0, WeaponType::Bow),
        (4, 90, 5, 0, WeaponType::Natural),
        (4, 95, 6, 5, WeaponType::Light),
        (7, 80, 8, 0, WeaponType::Dark),
    ];
    for _ in 0..30 {
        let w = Weapon::get_random_weapon_by_rarity(Rarity::Common);
        assert!(expected
            .iter()
            .any(|&(attack, hit, weight, crit, weapon_type)| w.attack == attack
                && w.hit == hit
                && w.weight == weight
                && w.crit == crit
                && w.weapon_type == weapon_type));
    }
}
