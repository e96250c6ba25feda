//! The battle turn state machine: the scene states with their transition
//! rules, and the draining of a battle queue one action per step, with the
//! death short-circuit that ends an exchange on the first kill.

use vstd::prelude::*;

use crate::combat::{Actor, BattleAction, BattleQueue, Damage, sat_sub};
use crate::units::UnitStats;

verus! {

/// How many battlefield components (walls, units) must load before the scene
/// leaves its loading state.
pub const REQUIRED_BATTLE_COMPONENTS: u32 = 2;

/// The states of the battle scene.
#[derive(Clone, Copy, Default, Eq, PartialEq, Structural, Hash, Debug)]
pub enum BattleState {
    #[default]
    Loading,
    Select,
    ConfirmMovement,
    Attack,
    ToEnemyTurn,
    ToPlayerTurn,
    EnemyTurn,
}

/// Leaves the loading state for unit selection once every required component
/// has been loaded.
pub fn transition_to_game(components_loaded: u32) -> (r: Option<BattleState>)
    ensures
        r == (if components_loaded >= REQUIRED_BATTLE_COMPONENTS {
            Some(BattleState::Select)
        } else {
            None::<BattleState>
        }),
{
    if components_loaded >= REQUIRED_BATTLE_COMPONENTS {
        Some(BattleState::Select)
    } else {
        None
    }
}

/// Hands the turn to the enemy once every player unit has moved.
pub fn check_for_team_refresh(num_of_players: usize, moved_units: usize) -> (r: Option<
    BattleState,
>)
    ensures
        r == (if num_of_players == moved_units {
            Some(BattleState::ToEnemyTurn)
        } else {
            None::<BattleState>
        }),
{
    if num_of_players == moved_units {
        Some(BattleState::ToEnemyTurn)
    } else {
        None
    }
}

/// Resolves the two transition states: the hand-over to the player lands in
/// selection, the hand-over to the enemy in the enemy's turn.
pub fn transition_animation(current: BattleState) -> (r: Option<BattleState>)
    ensures
        current == BattleState::ToPlayerTurn ==> r == Some(BattleState::Select),
        current == BattleState::ToEnemyTurn ==> r == Some(BattleState::EnemyTurn),
        (current != BattleState::ToPlayerTurn && current != BattleState::ToEnemyTurn) ==> r
            == None::<BattleState>,
{
    if current == BattleState::ToPlayerTurn {
        Some(BattleState::Select)
    } else if current == BattleState::ToEnemyTurn {
        Some(BattleState::EnemyTurn)
    } else {
        None
    }
}

/// The enemy's turn; a stand-in that hands the turn straight back.
pub fn enemy_turn() -> (r: BattleState)
    ensures
        r == BattleState::ToPlayerTurn,
{
    BattleState::ToPlayerTurn
}

/// What one step of draining the battle queue reported.
#[derive(PartialEq, Eq, Structural, Clone, Copy, Debug)]
pub enum StepOutcome {
    /// A swing was applied, with the outcome it carried.
    Swing { actor: Actor, damage: Damage },
    /// The named side died; the exchange is over.
    Died(Actor),
    /// The queue was already drained; control returns to selection.
    Finished,
}

/// Hit points a resolved swing takes off: nothing on a miss.
pub open spec fn spec_damage_amount(d: Damage) -> u32 {
    match d {
        Damage::Miss => 0,
        Damage::Hit(x) => x,
        Damage::Crit(x) => x,
    }
}

/// `s` with its hit points replaced and every other stat kept.
pub open spec fn with_hp(s: UnitStats, hp: u32) -> UnitStats {
    UnitStats { hp, ..s }
}

/// Drains one action off the front of the battle queue.
///
/// A swing subtracts its damage from the struck side's hit points,
/// saturating at zero; a side dropping to zero puts its death at the front of
/// the queue, pre-empting every remaining swing. A death action clears the
/// whole queue and ends the exchange with no further change to any stats. An
/// empty queue reports the exchange finished.
pub fn step_battle(bq: &mut BattleQueue, atk_stats: &mut UnitStats, def_stats: &mut UnitStats) -> (r:
    StepOutcome)
    ensures
        old(bq).queue@.len() == 0 ==> {
            &&& r == StepOutcome::Finished
            &&& final(bq).queue@ == old(bq).queue@
            &&& *final(atk_stats) == *old(atk_stats)
            &&& *final(def_stats) == *old(def_stats)
        },
        old(bq).queue@.len() > 0 ==> match old(bq).queue@[0] {
            BattleAction::Attack { actor, damage } => {
                let dealt = spec_damage_amount(damage);
                let rest = old(bq).queue@.subrange(1, old(bq).queue@.len() as int);
                &&& r == (StepOutcome::Swing { actor, damage })
                &&& actor == Actor::Attacker ==> {
                    &&& *final(atk_stats) == *old(atk_stats)
                    &&& *final(def_stats) == with_hp(
                        *old(def_stats),
                        sat_sub(old(def_stats).hp as int, dealt as int) as u32,
                    )
                    &&& final(bq).queue@ == (if final(def_stats).hp == 0 {
                        seq![BattleAction::Death(Actor::Defender)] + rest
                    } else {
                        rest
                    })
                }
                &&& actor == Actor::Defender ==> {
                    &&& *final(def_stats) == *old(def_stats)
                    &&& *final(atk_stats) == with_hp(
                        *old(atk_stats),
                        sat_sub(old(atk_stats).hp as int, dealt as int) as u32,
                    )
                    &&& final(bq).queue@ == (if final(atk_stats).hp == 0 {
                        seq![BattleAction::Death(Actor::Attacker)] + rest
                    } else {
                        rest
                    })
                }
            },
            BattleAction::Death(a) => {
                &&& r == StepOutcome::Died(a)
                &&& final(bq).queue@ =~= Seq::<BattleAction>::empty()
                &&& *final(atk_stats) == *old(atk_stats)
                &&& *final(def_stats) == *old(def_stats)
            },
        },
{
    match bq.queue.pop_front() {
        Some(BattleAction::Attack { actor, damage }) => {
            let dealt = match damage {
                Damage::Miss => 0,
                Damage::Crit(x) => x,
                Damage::Hit(x) => x,
            };
            match actor {
                Actor::Attacker => {
                    def_stats.hp = def_stats.hp.saturating_sub(dealt);
                    if def_stats.hp == 0 {
                        bq.queue.push_front(BattleAction::Death(Actor::Defender));
                    }
                },
                Actor::Defender => {
                    atk_stats.hp = atk_stats.hp.saturating_sub(dealt);
                    if atk_stats.hp == 0 {
                        bq.queue.push_front(BattleAction::Death(Actor::Attacker));
                    }
                },
            }
            StepOutcome::Swing { actor, damage }
        },
        Some(BattleAction::Death(a)) => {
            bq.queue.clear();
            StepOutcome::Died(a)
        },
        None => StepOutcome::Finished,
    }
}

} // verus!
