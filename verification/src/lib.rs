//! Deterministic simulation core of a maze-chase arcade game: a tile map with
//! collectible pellets, a player moving under direction-intent rules, and four
//! adversaries driven by a pursuit/retreat/flee mode machine.

pub mod game;
pub mod ghost;
pub mod map;

pub use game::Direction;
