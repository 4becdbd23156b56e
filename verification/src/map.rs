//! The tile grid and the visibility scan over it.

pub mod map;
pub mod movement_helper;
pub mod occlusion;
pub mod point;
mod random;
pub mod rect;
pub mod rooms;
pub mod shadow_line;
pub mod sight;
pub mod tile;
