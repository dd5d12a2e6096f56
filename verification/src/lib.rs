//! Procedural dungeon layouts on a square tile grid.
//!
//! A world places rectangular rooms that keep a margin between each other,
//! links every room to its nearest neighbour with a corridor, and paints the
//! result onto a tile grid.

pub mod corridor;
pub mod error;
pub mod random;
pub mod room;
pub mod tiles;
pub mod world;
