use tactics_core::combat::{Actor, BattleAction, BattleQueue, Damage};
use tactics_core::turn::{
    BattleState, StepOutcome, check_for_team_refresh, enemy_turn, step_battle,
    transition_animation, transition_to_game,
};
use tactics_core::units::UnitStats;

fn stats(hp: u32) -> UnitStats {
    UnitStats { name: String::new(), hp, def: 0, atk: 3, spd: 2, mov: 2 }
}

#[test]
fn loading_finishes_when_both_components_are_in() {
    assert_eq!(transition_to_game(0), None);
    assert_eq!(transition_to_game(1), None);
    assert_eq!(transition_to_game(2), Some(BattleState::Select));
    assert_eq!(transition_to_game(3), Some(BattleState::Select));
}

#[test]
fn turn_passes_to_enemy_when_all_units_moved() {
    assert_eq!(check_for_team_refresh(3, 2), None);
    assert_eq!(check_for_team_refresh(3, 3), Some(BattleState::ToEnemyTurn));
}

#[test]
fn transition_states_resolve() {
    assert_eq!(transition_animation(BattleState::ToPlayerTurn), Some(BattleState::Select));
    assert_eq!(transition_animation(BattleState::ToEnemyTurn), Some(BattleState::EnemyTurn));
    assert_eq!(transition_animation(BattleState::Select), None);
    assert_eq!(enemy_turn(), BattleState::ToPlayerTurn);
}

#[test]
fn swing_applies_damage_to_the_struck_side() {
    let mut bq = BattleQueue::new();
    bq.queue.push_back(BattleAction::Attack { actor: Actor::Attacker, damage: Damage::Hit(3) });
    bq.queue.push_back(BattleAction::Attack { actor: Actor::Defender, damage: Damage::Crit(2) });
    let mut atk = stats(10);
    let mut def = stats(10);

    let r = step_battle(&mut bq, &mut atk, &mut def);
    assert_eq!(r, StepOutcome::Swing { actor: Actor::Attacker, damage: Damage::Hit(3) });
    assert_eq!(def.hp, 7);
    assert_eq!(atk.hp, 10);

    let r = step_battle(&mut bq, &mut atk, &mut def);
    assert_eq!(r, StepOutcome::Swing { actor: Actor::Defender, damage: Damage::Crit(2) });
    assert_eq!(atk.hp, 8);
    assert_eq!(def.hp, 7);
}

#[test]
fn a_miss_changes_no_hit_points() {
    let mut bq = BattleQueue::new();
    bq.queue.push_back(BattleAction::Attack { actor: Actor::Attacker, damage: Damage::Miss });
    let mut atk = stats(10);
    let mut def = stats(10);
    step_battle(&mut bq, &mut atk, &mut def);
    assert_eq!(def.hp, 10);
    assert_eq!(atk.hp, 10);
    assert_eq!(bq.queue.len(), 0);
}

#[test]
fn kill_preempts_remaining_swings_with_a_death() {
    let mut bq = BattleQueue::new();
    bq.queue.push_back(BattleAction::Attack { actor: Actor::Attacker, damage: Damage::Hit(10) });
    bq.queue.push_back(BattleAction::Attack { actor: Actor::Defender, damage: Damage::Hit(4) });
    bq.queue.push_back(BattleAction::Attack { actor: Actor::Attacker, damage: Damage::Hit(10) });
    let mut atk = stats(10);
    let mut def = stats(5);

    // The first swing kills: the death lands at the front of the queue.
    step_battle(&mut bq, &mut atk, &mut def);
    assert_eq!(def.hp, 0);
    assert_eq!(bq.queue[0], BattleAction::Death(Actor::Defender));

    // Draining the death clears the whole queue without further HP changes.
    let r = step_battle(&mut bq, &mut atk, &mut def);
    assert_eq!(r, StepOutcome::Died(Actor::Defender));
    assert_eq!(bq.queue.len(), 0);
    assert_eq!(atk.hp, 10);
    assert_eq!(def.hp, 0);

    // The drained queue reports the exchange finished.
    let r = step_battle(&mut bq, &mut atk, &mut def);
    assert_eq!(r, StepOutcome::Finished);
}

#[test]
fn attacker_death_works_symmetrically() {
    let mut bq = BattleQueue::new();
    bq.queue.push_back(BattleAction::Attack { actor: Actor::Defender, damage: Damage::Crit(30) });
    let mut atk = stats(10);
    let mut def = stats(5);
    step_battle(&mut bq, &mut atk, &mut def);
    assert_eq!(atk.hp, 0);
    assert_eq!(bq.queue[0], BattleAction::Death(Actor::Attacker));
}
