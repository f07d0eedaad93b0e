//! The records held by the world's tables.
use vstd::prelude::*;

verus! {

/// An opaque caller identity: a 256-bit token, held as two halves.
#[derive(Clone, Copy, Debug, PartialEq, Eq, Structural)]
pub struct Identity {
    pub hi: u128,
    pub lo: u128,
}

/// Part of the day, as the world clock reports it.
#[derive(Clone, Copy, Debug, PartialEq, Eq, Structural)]
pub enum TimeOfDay {
    Day,
    Night,
}

/// Weather, as the world clock reports it.
#[derive(Clone, Copy, Debug, PartialEq, Eq, Structural)]
pub enum Weather {
    Clear,
}

/// The singleton world-clock record.
#[derive(Clone, Copy, Debug, PartialEq, Eq, Structural)]
pub struct GameState {
    pub id: u32,
    pub tick_count: u64,
    pub time_of_day: TimeOfDay,
    pub weather: Weather,
}

/// A player character, keyed by its owner's identity.
#[derive(Debug)]
pub struct Player {
    pub identity: Identity,
    pub name: String,
    pub current_room_id: u32,
    pub hp: i32,
    pub max_hp: i32,
}

/// A player's attributes, keyed by the same identity as its `Player`.
#[derive(Clone, Copy, Debug, PartialEq, Eq, Structural)]
pub struct PlayerStats {
    pub player_identity: Identity,
    pub strength: u32,
    pub stamina: u32,
}

/// One item owned by a player, keyed by a globally unique instance id.
#[derive(Debug)]
pub struct PlayerInventory {
    pub item_instance_id: u64,
    pub owner_identity: Identity,
    pub item_template_id: String,
}

/// A live monster, keyed by a globally unique instance id.
#[derive(Debug)]
pub struct MonsterInstance {
    pub instance_id: u64,
    pub template_id: String,
    pub room_id: u32,
    pub hp: i32,
    pub max_hp: i32,
}

/// A room of the world graph, with one optional exit per direction.
#[derive(Debug)]
pub struct Room {
    pub id: u32,
    pub name: String,
    pub description: String,
    pub north_exit: Option<u32>,
    pub south_exit: Option<u32>,
    pub east_exit: Option<u32>,
    pub west_exit: Option<u32>,
    pub up_exit: Option<u32>,
    pub down_exit: Option<u32>,
}

/// The directions a player can move in.
#[derive(Clone, Copy, Debug, PartialEq, Eq, Structural)]
pub enum Direction {
    North,
    South,
    East,
    West,
    Up,
    Down,
}

/// Why an operation failed. A failed operation changes nothing.
#[derive(Clone, Copy, Debug, PartialEq, Eq, Structural)]
pub enum GameError {
    /// A referenced character, monster or room does not exist.
    NotFound,
    /// The key of a record to insert is already taken.
    AlreadyExists,
    /// The input is malformed or not recognized.
    InvalidArgument,
    /// The request is well formed but the world disallows it.
    Blocked,
    /// A competing operation committed first; resubmitting is safe.
    Conflict,
    /// A store invariant would break; never expected in correct operation.
    Internal,
}

/// The direction named by `s`, if it names one.
pub open spec fn direction_named(s: Seq<char>) -> Option<Direction> {
    if s == "north"@ {
        Some(Direction::North)
    } else if s == "south"@ {
        Some(Direction::South)
    } else if s == "east"@ {
        Some(Direction::East)
    } else if s == "west"@ {
        Some(Direction::West)
    } else if s == "up"@ {
        Some(Direction::Up)
    } else if s == "down"@ {
        Some(Direction::Down)
    } else {
        None
    }
}

/// Reads a direction from its lower-case name.
pub fn parse_direction(s: &String) -> (r: Option<Direction>)
    ensures
        r == direction_named(s@),
{
    if *s == "north".to_owned() {
        Some(Direction::North)
    } else if *s == "south".to_owned() {
        Some(Direction::South)
    } else if *s == "east".to_owned() {
        Some(Direction::East)
    } else if *s == "west".to_owned() {
        Some(Direction::West)
    } else if *s == "up".to_owned() {
        Some(Direction::Up)
    } else if *s == "down".to_owned() {
        Some(Direction::Down)
    } else {
        None
    }
}

impl Room {
    /// The exit of this room in direction `d`.
    pub open spec fn exit_spec(&self, d: Direction) -> Option<u32> {
        match d {
            Direction::North => self.north_exit,
            Direction::South => self.south_exit,
            Direction::East => self.east_exit,
            Direction::West => self.west_exit,
            Direction::Up => self.up_exit,
            Direction::Down => self.down_exit,
        }
    }

    /// The exit of this room in direction `d`, `None` where there is no exit.
    pub fn exit(&self, d: Direction) -> (r: Option<u32>)
        ensures
            r == self.exit_spec(d),
    {
        match d {
            Direction::North => self.north_exit,
            Direction::South => self.south_exit,
            Direction::East => self.east_exit,
            Direction::West => self.west_exit,
            Direction::Up => self.up_exit,
            Direction::Down => self.down_exit,
        }
    }
}

} // verus!
