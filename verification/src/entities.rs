//! What stands on the grid: objects and the lights they carry.

pub mod light;
pub mod movement;
pub mod object;
