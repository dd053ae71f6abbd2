//! Turn-based simulation core for a grid-world game: creatures on tiled
//! maps, validated actions, and a fair cost-weighted turn scheduler.
pub mod actions;
pub mod arena;
pub mod creatures;
pub mod geometry;
pub mod map;
pub mod scheduler;
pub mod world;

pub use actions::{
    is_move_valid, move_check, move_cost, move_creature, move_target, Action, ActionError,
    MOVE_COST,
};
pub use arena::{Arena, Handle};
pub use creatures::{Creature, CreatureType, Points, MAX_DEMONICITY};
pub use geometry::{Direction, Position};
pub use map::{TileMap, Tile, TileType, Tiles};
pub use scheduler::{Scheduler, SchedulerError, SchedulerView};
pub use world::{World, LEVEL_SIZE};
