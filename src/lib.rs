//! A transactional state engine for a persistent multiplayer text-adventure
//! world: typed record tables, the gameplay operations that are the only way
//! to change them, the world clock, and a command dispatcher that aborts
//! stale submissions with a retryable conflict.
pub mod records;
pub mod store;
pub mod ops;
pub mod engine;
pub mod laws;

pub use records::{
    parse_direction, Direction, GameError, GameState, Identity, MonsterInstance, Player,
    PlayerInventory, PlayerStats, Room, TimeOfDay, Weather,
};
pub use store::{World, CLOCK_ID};
pub use ops::{
    attack_monster, create_character, init, loot_for, move_player, tick, NIGHT_PERIOD,
    START_HP, START_ROOM_ID, START_STAMINA, START_STRENGTH,
};
pub use engine::{execute, submit, Command};
