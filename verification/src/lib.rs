//! A small dungeon game on a grid of tiles, in exact integer arithmetic.
//!
//! The heart of the crate is the field of view: a light that stands on
//! the grid shows the tiles around it by recursive shadowcasting, octant
//! by octant, and shades each tile by its distance. Around it stand the
//! making of the map, the objects on it and the turns of the game.
//!
//! Numbers that are not whole are held exactly: angles and shades as
//! fractions, distances in thousandths of a tile.

pub mod colors;
pub mod distance;
pub mod entities;
pub mod fraction;
pub mod game;
pub mod map;
