//! Tactical resolution core for a grid-based tactics game: coordinate and
//! occupancy bookkeeping, budget-bounded pathfinding, movement/attack range
//! computation, and deterministic combat resolution with an ordered action
//! queue.

pub mod combat;
mod coord_map;
pub mod coord_set;
pub mod grid;
pub mod map;
pub mod path;
pub mod range;
mod rng;
pub mod turn;
pub mod units;
pub mod weapon;
