use crate::colors::Color;
use crate::entities::light::LightSource;
use vstd::prelude::*;

pub use crate::map::movement_helper::{is_blocked, move_by};

verus! {

/// What becomes of an object when it dies.
#[derive(Clone, Copy, Debug, PartialEq, Eq, Structural)]
pub enum DeathCallback {
    Player,
    Monster,
}

/// How a monster decides what to do.
#[derive(Clone, Copy, Debug, PartialEq, Eq, Structural)]
pub enum Ai {
    Basic,
}

/// What an object needs to take part in a fight.
#[derive(Clone, Copy, Debug)]
pub struct Fighter {
    pub max_hp: i32,
    pub hp: i32,
    pub defense: i32,
    pub power: i32,
    pub on_death: DeathCallback,
}

/// Anything that stands on the grid: the player, a monster, an item.
pub struct Object {
    pub x: i32,
    pub y: i32,
    pub char: char,
    pub color: Color,
    pub name: String,
    pub blocks: bool,
    pub alive: bool,
    pub fighter: Option<Fighter>,
    pub ai: Option<Ai>,
    pub light: Option<LightSource>,
}

impl Object {
    /// An object at `(x, y)` that is not alive, cannot fight, does not act
    /// and carries no light.
    pub fn new(x: i32, y: i32, char: char, name: &str, color: Color, blocks: bool) -> (object: Self)
        ensures
            object.x == x,
            object.y == y,
            object.char == char,
            object.color == color,
            object.name@ == name@,
            object.blocks == blocks,
            !object.alive,
            object.fighter is None,
            object.ai is None,
            object.light is None,
    {
        Object {
            x: x,
            y: y,
            char: char,
            color: color,
            name: name.to_owned(),
            blocks,
            alive: false,
            fighter: None,
            ai: None,
            light: None,
        }
    }

    /// Where the object stands.
    pub fn get_pos(&self) -> (pos: (i32, i32))
        ensures
            pos == (self.x, self.y),
    {
        (self.x, self.y)
    }

    /// Puts the object at `(x, y)`.
    pub fn set_pos(&mut self, x: i32, y: i32)
        ensures
            *final(self) == (Object { x: x, y: y, ..*old(self) }),
    {
        self.x = x;
        self.y = y;
    }
}

} // verus!
