use crate::entities::object::Object;
use crate::map::map::Grid;
use crate::map::tile::Tile;
use vstd::prelude::*;

verus! {

/// Some object that blocks stands at `(x, y)`.
pub open spec fn blocker_at(objects: Seq<Object>, x: int, y: int) -> bool {
    exists|i: int|
        0 <= i < objects.len() && (#[trigger] objects[i]).blocks && objects[i].x == x
            && objects[i].y == y
}

/// Nothing can move to `(x, y)`: the tile there is blocked, or an object
/// that blocks stands on it.
pub open spec fn spec_is_blocked(x: int, y: int, grid: Seq<Seq<Tile>>, objects: Seq<Object>) -> bool {
    grid[x][y].blocked || blocker_at(objects, x, y)
}

/// Whether anything stands in the way at `(x, y)`.
pub fn is_blocked(x: i32, y: i32, map: &Grid, objects: &[Object]) -> (blocked: bool)
    requires
        map.wf(),
        map.contains(x as int, y as int),
    ensures
        blocked == spec_is_blocked(x as int, y as int, map@, objects@),
{
    proof {
        map.lemma_columns();
    }
    if map.map[x as usize][y as usize].blocked {
        return true;
    }
    let mut i: usize = 0;
    while i < objects.len()
        invariant
            i <= objects.len(),
            forall|j: int|
                0 <= j < i ==> !((#[trigger] objects@[j]).blocks && objects@[j].x == x
                    && objects@[j].y == y),
        decreases objects.len() - i,
    {
        let (object_x, object_y) = objects[i].get_pos();
        if objects[i].blocks && object_x == x && object_y == y {
            return true;
        }
        i = i + 1;
    }
    false
}

/// Moves the object at `idx` by `(dx, dy)`, unless something stands in the
/// way there.
pub fn move_by(idx: usize, dx: i32, dy: i32, map: &Grid, objects: &mut [Object])
    requires
        idx < old(objects)@.len(),
        map.wf(),
        map.contains(old(objects)@[idx as int].x + dx, old(objects)@[idx as int].y + dy),
    ensures
        final(objects)@.len() == old(objects)@.len(),
        forall|i: int|
            0 <= i < old(objects)@.len() && i != idx ==> final(objects)@[i] == old(objects)@[i],
        final(objects)@[idx as int] == (if spec_is_blocked(
            old(objects)@[idx as int].x + dx,
            old(objects)@[idx as int].y + dy,
            map@,
            old(objects)@,
        ) {
            old(objects)@[idx as int]
        } else {
            Object {
                x: (old(objects)@[idx as int].x + dx) as i32,
                y: (old(objects)@[idx as int].y + dy) as i32,
                ..old(objects)@[idx as int]
            }
        }),
{
    let (x, y) = objects[idx].get_pos();
    let new_x = x + dx;
    let new_y = y + dy;
    if !is_blocked(new_x, new_y, map, objects) {
        objects[idx].set_pos(new_x, new_y);
    }
}

/// One step towards a target that is `d` away along this axis and `other`
/// along the other axis: this axis' part of the vector to the target, brought
/// to length one and rounded to the nearest whole number. The part rounds
/// away from zero when it is at least half the length, that is when
/// `4 * d * d >= d * d + other * other`.
pub open spec fn unit_step(d: int, other: int) -> int {
    if d > 0 && 4 * d * d >= d * d + other * other {
        1
    } else if d < 0 && 4 * d * d >= d * d + other * other {
        -1
    } else {
        0
    }
}

/// One step along an axis towards a target that is `d` away along it and
/// `other` along the other axis.
pub fn step_towards(d: i32, other: i32) -> (step: i32)
    ensures
        step == unit_step(d as int, other as int),
{
    let wide: i128 = d as i128;
    let side: i128 = other as i128;
    assert(0 <= wide * wide <= 0x8000_0000 * 0x8000_0000) by (nonlinear_arith)
        requires
            -0x8000_0000 <= wide <= 0x8000_0000,
    ;
    assert(0 <= side * side <= 0x8000_0000 * 0x8000_0000) by (nonlinear_arith)
        requires
            -0x8000_0000 <= side <= 0x8000_0000,
    ;
    let reaches = 4 * (wide * wide) >= wide * wide + side * side;
    assert(reaches == (4 * d * d >= d * d + other * other)) by (nonlinear_arith)
        requires
            wide == d,
            side == other,
            reaches == (4 * (wide * wide) >= wide * wide + side * side),
    ;
    if d > 0 && reaches {
        1
    } else if d < 0 && reaches {
        -1
    } else {
        0
    }
}

/// Moves the object at `id` one step towards `(target_x, target_y)`,
/// unless something stands in the way there.
pub fn move_towards(id: usize, target_x: i32, target_y: i32, map: &Grid, objects: &mut [Object])
    requires
        id < old(objects)@.len(),
        map.wf(),
        i32::MIN <= target_x - old(objects)@[id as int].x <= i32::MAX,
        i32::MIN <= target_y - old(objects)@[id as int].y <= i32::MAX,
        ({
            let dx = target_x - old(objects)@[id as int].x;
            let dy = target_y - old(objects)@[id as int].y;
            map.contains(
                old(objects)@[id as int].x + unit_step(dx, dy),
                old(objects)@[id as int].y + unit_step(dy, dx),
            )
        }),
    ensures
        final(objects)@.len() == old(objects)@.len(),
        forall|i: int|
            0 <= i < old(objects)@.len() && i != id ==> final(objects)@[i] == old(objects)@[i],
        ({
            let from = old(objects)@[id as int];
            let x = from.x + unit_step(target_x - from.x, target_y - from.y);
            let y = from.y + unit_step(target_y - from.y, target_x - from.x);
            final(objects)@[id as int] == (if spec_is_blocked(x, y, map@, old(objects)@) {
                from
            } else {
                Object { x: x as i32, y: y as i32, ..from }
            })
        }),
{
    let (x, y) = objects[id].get_pos();
    let dx = target_x - x;
    let dy = target_y - y;
    let step_x = step_towards(dx, dy);
    let step_y = step_towards(dy, dx);
    move_by(id, step_x, step_y, map, objects);
}

} // verus!
