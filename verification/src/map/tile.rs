use crate::colors::Color;
use crate::entities::light::max_shade;
use crate::fraction::Fraction;
use vstd::prelude::*;

verus! {

pub open spec fn spec_color_dark_wall() -> Color {
    Color { r: 51, g: 21, b: 0 }
}

pub open spec fn spec_color_dark_floor() -> Color {
    Color { r: 80, g: 64, b: 20 }
}

/// The unshaded colour of a wall.
#[verifier::when_used_as_spec(spec_color_dark_wall)]
pub fn color_dark_wall() -> (c: Color)
    ensures
        c == spec_color_dark_wall(),
{
    Color { r: 51, g: 21, b: 0 }
}

/// The unshaded colour of a floor.
#[verifier::when_used_as_spec(spec_color_dark_floor)]
pub fn color_dark_floor() -> (c: Color)
    ensures
        c == spec_color_dark_floor(),
{
    Color { r: 80, g: 64, b: 20 }
}

/// One cell of the grid.
#[derive(Clone, Copy, Debug)]
pub struct Tile {
    /// Nothing can stand on the tile or pass it.
    pub blocked: bool,
    /// The tile hides what lies behind it.
    pub block_sight: bool,
    /// The tile has been seen at some time.
    pub explored: bool,
    /// The tile was seen and lit in the last pass.
    pub visible: bool,
    pub x: i32,
    pub y: i32,
    /// How dark the tile is, from zero (fully lit) to the darkest shade.
    pub shade_factor: Fraction,
    /// The colour of the tile when fully lit.
    pub color: Color,
}

impl Tile {
    /// The shade is a fraction that is not above the darkest shade.
    pub open spec fn wf(&self) -> bool {
        self.shade_factor.wf() && self.shade_factor.spec_le(&max_shade())
    }

    /// A floor tile, not yet seen.
    pub open spec fn spec_floor(x: i32, y: i32, shade_factor: Fraction) -> Tile {
        Tile {
            blocked: false,
            block_sight: false,
            explored: false,
            visible: false,
            x: x,
            y: y,
            shade_factor: shade_factor,
            color: spec_color_dark_floor(),
        }
    }

    /// A wall tile, not yet seen.
    pub open spec fn spec_wall(x: i32, y: i32, shade_factor: Fraction) -> Tile {
        Tile {
            blocked: true,
            block_sight: true,
            explored: false,
            visible: false,
            x: x,
            y: y,
            shade_factor: shade_factor,
            color: spec_color_dark_wall(),
        }
    }

    /// A floor tile: open to walk on and to look through.
    #[verifier::when_used_as_spec(spec_floor)]
    pub fn floor(x: i32, y: i32, shade_factor: Fraction) -> (tile: Self)
        ensures
            tile == Self::spec_floor(x, y, shade_factor),
    {
        Tile {
            blocked: false,
            block_sight: false,
            explored: false,
            visible: false,
            x: x,
            y: y,
            shade_factor: shade_factor,
            color: color_dark_floor(),
        }
    }

    /// A wall tile: it blocks the way and the view.
    #[verifier::when_used_as_spec(spec_wall)]
    pub fn wall(x: i32, y: i32, shade_factor: Fraction) -> (tile: Self)
        ensures
            tile == Self::spec_wall(x, y, shade_factor),
    {
        Tile {
            blocked: true,
            block_sight: true,
            explored: false,
            visible: false,
            x: x,
            y: y,
            shade_factor: shade_factor,
            color: color_dark_wall(),
        }
    }
}

} // verus!
