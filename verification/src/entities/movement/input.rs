use crate::entities::object::Object;
use crate::map::map::Grid;
use vstd::prelude::*;

verus! {

/// Something that moves an object on the grid when its turn comes: the
/// keyboard for the player, a plan for a monster.
pub trait Input {
    fn update(&mut self, object: &mut Object, map: &Grid);
}

} // verus!
