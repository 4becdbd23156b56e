//! The turns of the game: what a key does, and what a monster does.

use crate::entities::object::Object;
use crate::map::map::Grid;
use crate::map::movement_helper::{move_by, move_towards, spec_is_blocked, unit_step};
use crate::map::tile::Tile;
use vstd::prelude::*;
use vstd::string::StringExecFns;

verus! {

/// The object at this place in the list is the player.
pub const PLAYER_IDX: usize = 0;

/// Two separate items of a slice, the one at `first_index` and the one at
/// `second_index`, both to write to.
pub fn mut_two<T>(first_index: usize, second_index: usize, items: &mut [T]) -> (pair: (
    &mut T,
    &mut T,
))
    requires
        first_index != second_index,
        first_index < old(items)@.len(),
        second_index < old(items)@.len(),
    ensures
        *pair.0 == old(items)@[first_index as int],
        *pair.1 == old(items)@[second_index as int],
        final(items)@ == old(items)@.update(first_index as int, *final(pair.0)).update(
            second_index as int,
            *final(pair.1),
        ),
{
    let split_at_index = if first_index > second_index {
        first_index
    } else {
        second_index
    };
    let (first_slice, second_slice) = items.split_at_mut(split_at_index);
    if first_index < second_index {
        (&mut first_slice[first_index], &mut second_slice[0])
    } else {
        (&mut second_slice[0], &mut first_slice[second_index])
    }
}

/// What the player did with a turn.
#[derive(Clone, Copy, Debug, PartialEq, Eq, Structural)]
pub enum PlayerAction {
    TookTurn,
    DidntTakeTurn,
    Exit,
}

/// The keys that the game tells apart.
#[derive(Clone, Copy, Debug, PartialEq, Eq, Structural)]
pub enum KeyCode {
    Enter,
    Escape,
    Up,
    Down,
    Left,
    Right,
    Other,
}

/// A key as it was pressed.
#[derive(Clone, Copy, Debug)]
pub struct Key {
    pub code: KeyCode,
    pub alt: bool,
}

/// What a key asks for.
#[derive(Clone, Copy, Debug, PartialEq, Eq, Structural)]
pub enum KeyCommand {
    ToggleFullscreen,
    Exit,
    Step { dx: i32, dy: i32 },
    Nothing,
}

/// What came of a key.
#[derive(Clone, Copy, Debug)]
pub struct KeyOutcome {
    /// What the player did with the turn.
    pub action: PlayerAction,
    /// The window is to change between full screen and not.
    pub toggle_fullscreen: bool,
    /// The object that the player is to attack.
    pub attack: Option<usize>,
}

/// What `key` asks for. Enter with Alt changes the screen whether the
/// player lives or not; every other key counts only while the player lives.
pub open spec fn spec_key_command(key: Key, player_alive: bool) -> KeyCommand {
    if key.code == KeyCode::Enter && key.alt {
        KeyCommand::ToggleFullscreen
    } else if !player_alive {
        KeyCommand::Nothing
    } else {
        match key.code {
            KeyCode::Escape => KeyCommand::Exit,
            KeyCode::Up => KeyCommand::Step { dx: 0, dy: -1i32 },
            KeyCode::Down => KeyCommand::Step { dx: 0, dy: 1 },
            KeyCode::Left => KeyCommand::Step { dx: -1i32, dy: 0 },
            KeyCode::Right => KeyCommand::Step { dx: 1, dy: 0 },
            _ => KeyCommand::Nothing,
        }
    }
}

/// What `key` asks for.
pub fn key_command(key: &Key, player_alive: bool) -> (command: KeyCommand)
    ensures
        command == spec_key_command(*key, player_alive),
{
    match (key.code, key.alt, player_alive) {
        (KeyCode::Enter, true, _) => KeyCommand::ToggleFullscreen,
        (KeyCode::Escape, _, true) => KeyCommand::Exit,
        (KeyCode::Up, _, true) => KeyCommand::Step { dx: 0, dy: -1 },
        (KeyCode::Down, _, true) => KeyCommand::Step { dx: 0, dy: 1 },
        (KeyCode::Left, _, true) => KeyCommand::Step { dx: -1, dy: 0 },
        (KeyCode::Right, _, true) => KeyCommand::Step { dx: 1, dy: 0 },
        _ => KeyCommand::Nothing,
    }
}

/// The object can fight and stands at `(x, y)`.
pub open spec fn fighter_at(object: Object, x: int, y: int) -> bool {
    object.fighter is Some && object.x == x && object.y == y
}

/// The place in the list, from `from` on, of the first object that can
/// fight and stands at `(x, y)`; the length of the list if there is none.
pub open spec fn first_fighter_from(objects: Seq<Object>, x: int, y: int, from: int) -> int
    decreases objects.len() - from,
{
    if from < 0 || from >= objects.len() || fighter_at(objects[from], x, y) {
        from
    } else {
        first_fighter_from(objects, x, y, from + 1)
    }
}

/// The first object that can fight and stands at `(x, y)`, if there is one.
pub open spec fn first_fighter_at(objects: Seq<Object>, x: int, y: int) -> Option<usize> {
    let found = first_fighter_from(objects, x, y, 0);
    if found < objects.len() {
        Some(found as usize)
    } else {
        None
    }
}

/// The first object that can fight and stands at `(x, y)`, if there is one.
pub fn find_fighter(objects: &[Object], x: i32, y: i32) -> (found: Option<usize>)
    ensures
        found == first_fighter_at(objects@, x as int, y as int),
{
    let mut i: usize = 0;
    while i < objects.len()
        invariant
            i <= objects.len(),
            first_fighter_from(objects@, x as int, y as int, 0) == first_fighter_from(
                objects@,
                x as int,
                y as int,
                i as int,
            ),
        decreases objects.len() - i,
    {
        let (object_x, object_y) = objects[i].get_pos();
        if objects[i].fighter.is_some() && object_x == x && object_y == y {
            return Some(i);
        }
        i = i + 1;
    }
    None
}

/// The objects after the one at `idx` has tried to move by `(dx, dy)`.
pub open spec fn moved(objects: Seq<Object>, idx: int, dx: int, dy: int, grid: Seq<Seq<Tile>>) -> Seq<
    Object,
> {
    let from = objects[idx];
    if spec_is_blocked(from.x + dx, from.y + dy, grid, objects) {
        objects
    } else {
        objects.update(idx, Object { x: (from.x + dx) as i32, y: (from.y + dy) as i32, ..from })
    }
}

/// The player steps by `(dx, dy)`, or attacks what stands there: if an
/// object that can fight stands at the place that the player steps to,
/// nothing moves and the first such object is returned for the player to
/// attack. Else the player moves there, unless something is in the way.
pub fn player_move_or_attack(dx: i32, dy: i32, map: &Grid, objects: &mut [Object]) -> (target:
    Option<usize>)
    requires
        old(objects)@.len() > PLAYER_IDX,
        map.wf(),
        i32::MIN <= old(objects)@[PLAYER_IDX as int].x + dx <= i32::MAX,
        i32::MIN <= old(objects)@[PLAYER_IDX as int].y + dy <= i32::MAX,
        first_fighter_at(
            old(objects)@,
            old(objects)@[PLAYER_IDX as int].x + dx,
            old(objects)@[PLAYER_IDX as int].y + dy,
        ) is None ==> map.contains(
            old(objects)@[PLAYER_IDX as int].x + dx,
            old(objects)@[PLAYER_IDX as int].y + dy,
        ),
    ensures
        target == first_fighter_at(
            old(objects)@,
            old(objects)@[PLAYER_IDX as int].x + dx,
            old(objects)@[PLAYER_IDX as int].y + dy,
        ),
        target is Some ==> final(objects)@ == old(objects)@,
        target is None ==> final(objects)@ == moved(
            old(objects)@,
            PLAYER_IDX as int,
            dx as int,
            dy as int,
            map@,
        ),
{
    // where the player steps to, or strikes
    let (x, y) = objects[PLAYER_IDX].get_pos();
    let new_x = x + dx;
    let new_y = y + dy;
    let target_id = find_fighter(objects, new_x, new_y);
    match target_id {
        Some(_) => {},
        None => {
            let ghost before = objects@;
            move_by(PLAYER_IDX, dx, dy, map, objects);
            assert(objects@ =~= moved(before, PLAYER_IDX as int, dx as int, dy as int, map@));
        },
    }
    target_id
}

/// The step that `key` asks for can be taken: it leaves the player at a
/// place with whole coordinates, and on the grid unless the player
/// attacks what stands there.
pub open spec fn step_allowed(key: Key, map: &Grid, objects: Seq<Object>) -> bool {
    spec_key_command(key, objects[PLAYER_IDX as int].alive) matches KeyCommand::Step { dx, dy } ==> {
        let x = objects[PLAYER_IDX as int].x + dx;
        let y = objects[PLAYER_IDX as int].y + dy;
        &&& i32::MIN <= x <= i32::MAX
        &&& i32::MIN <= y <= i32::MAX
        &&& first_fighter_at(objects, x, y) is None ==> map.contains(x, y)
    }
}

/// Answers a key. Enter with Alt asks for the window to change and takes
/// no turn. While the player lives, Escape ends the game and an arrow key
/// takes a turn: the player steps in its direction, or is to attack what
/// stands there. Nothing else does anything.
pub fn handle_keys(key: &Key, map: &Grid, objects: &mut Vec<Object>) -> (outcome: KeyOutcome)
    requires
        old(objects)@.len() > PLAYER_IDX,
        map.wf(),
        step_allowed(*key, map, old(objects)@),
    ensures
        match spec_key_command(*key, old(objects)@[PLAYER_IDX as int].alive) {
            KeyCommand::ToggleFullscreen => {
                &&& outcome.action == PlayerAction::DidntTakeTurn
                &&& outcome.toggle_fullscreen
                &&& outcome.attack is None
                &&& final(objects)@ == old(objects)@
            },
            KeyCommand::Exit => {
                &&& outcome.action == PlayerAction::Exit
                &&& !outcome.toggle_fullscreen
                &&& outcome.attack is None
                &&& final(objects)@ == old(objects)@
            },
            KeyCommand::Step { dx, dy } => {
                let x = old(objects)@[PLAYER_IDX as int].x + dx;
                let y = old(objects)@[PLAYER_IDX as int].y + dy;
                &&& outcome.action == PlayerAction::TookTurn
                &&& !outcome.toggle_fullscreen
                &&& outcome.attack == first_fighter_at(old(objects)@, x, y)
                &&& outcome.attack is Some ==> final(objects)@ == old(objects)@
                &&& outcome.attack is None ==> final(objects)@ == moved(
                    old(objects)@,
                    PLAYER_IDX as int,
                    dx as int,
                    dy as int,
                    map@,
                )
            },
            KeyCommand::Nothing => {
                &&& outcome.action == PlayerAction::DidntTakeTurn
                &&& !outcome.toggle_fullscreen
                &&& outcome.attack is None
                &&& final(objects)@ == old(objects)@
            },
        },
{
    let player_alive = objects[PLAYER_IDX].alive;
    match key_command(key, player_alive) {
        KeyCommand::ToggleFullscreen => KeyOutcome {
            action: PlayerAction::DidntTakeTurn,
            toggle_fullscreen: true,
            attack: None,
        },
        KeyCommand::Exit => KeyOutcome {
            action: PlayerAction::Exit,
            toggle_fullscreen: false,
            attack: None,
        },
        KeyCommand::Step { dx, dy } => {
            let target = player_move_or_attack(dx, dy, map, objects.as_mut_slice());
            KeyOutcome { action: PlayerAction::TookTurn, toggle_fullscreen: false, attack: target }
        },
        KeyCommand::Nothing => KeyOutcome {
            action: PlayerAction::DidntTakeTurn,
            toggle_fullscreen: false,
            attack: None,
        },
    }
}

/// `other` is two tiles or more away from `object`, as the crow flies.
pub open spec fn spec_is_far(object: Object, other: Object) -> bool {
    let dx = other.x - object.x;
    let dy = other.y - object.y;
    dx * dx + dy * dy >= 4
}

/// Whether `other` is two tiles or more away from `object`.
pub fn is_far(object: &Object, other: &Object) -> (far: bool)
    ensures
        far == spec_is_far(*object, *other),
{
    let dx: i128 = other.x as i128 - object.x as i128;
    let dy: i128 = other.y as i128 - object.y as i128;
    assert(0 <= dx * dx <= 0x1_0000_0000 * 0x1_0000_0000) by (nonlinear_arith)
        requires
            -0x1_0000_0000 <= dx <= 0x1_0000_0000,
    ;
    assert(0 <= dy * dy <= 0x1_0000_0000 * 0x1_0000_0000) by (nonlinear_arith)
        requires
            -0x1_0000_0000 <= dy <= 0x1_0000_0000,
    ;
    dx * dx + dy * dy >= 4
}

/// The monster sees the player and is far from it, so it moves.
pub open spec fn monster_moves(objects: Seq<Object>, monster_id: int, grid: Seq<Seq<Tile>>) -> bool {
    let monster = objects[monster_id];
    grid[monster.x as int][monster.y as int].visible && spec_is_far(
        monster,
        objects[PLAYER_IDX as int],
    )
}

/// The monster sees the player, is near it, and the player is not yet dead,
/// so it attacks.
pub open spec fn monster_attacks(objects: Seq<Object>, monster_id: int, grid: Seq<Seq<Tile>>) -> bool {
    let monster = objects[monster_id];
    let player = objects[PLAYER_IDX as int];
    &&& grid[monster.x as int][monster.y as int].visible
    &&& !spec_is_far(monster, player)
    &&& player.fighter matches Some(fighter) && fighter.hp > 0
}

/// The turn of the monster at `monster_id`. A monster on a tile that is
/// not visible does nothing. One that is two tiles or more from the player
/// takes a step towards the player. One that is nearer attacks, while the
/// player has hit points left: then `true` is returned, and the attack is
/// for the caller to carry out.
pub fn ai_turn(monster_id: usize, map: &Grid, objects: &mut [Object]) -> (attacks: bool)
    requires
        monster_id < old(objects)@.len(),
        old(objects)@.len() > PLAYER_IDX,
        map.wf(),
        map.contains(
            old(objects)@[monster_id as int].x as int,
            old(objects)@[monster_id as int].y as int,
        ),
        monster_moves(old(objects)@, monster_id as int, map@) ==> {
            let monster = old(objects)@[monster_id as int];
            let player = old(objects)@[PLAYER_IDX as int];
            let dx = player.x - monster.x;
            let dy = player.y - monster.y;
            &&& i32::MIN <= dx <= i32::MAX
            &&& i32::MIN <= dy <= i32::MAX
            &&& map.contains(monster.x + unit_step(dx, dy), monster.y + unit_step(dy, dx))
        },
    ensures
        attacks == monster_attacks(old(objects)@, monster_id as int, map@),
        final(objects)@ == (if monster_moves(old(objects)@, monster_id as int, map@) {
            let monster = old(objects)@[monster_id as int];
            let player = old(objects)@[PLAYER_IDX as int];
            moved(
                old(objects)@,
                monster_id as int,
                unit_step(player.x - monster.x, player.y - monster.y),
                unit_step(player.y - monster.y, player.x - monster.x),
                map@,
            )
        } else {
            old(objects)@
        }),
{
    proof {
        map.lemma_columns();
    }
    let (monster_x, monster_y) = objects[monster_id].get_pos();
    let monster_tile = map.map[monster_x as usize][monster_y as usize];
    if monster_tile.visible {
        if is_far(&objects[monster_id], &objects[PLAYER_IDX]) {
            let (player_x, player_y) = objects[PLAYER_IDX].get_pos();
            let ghost before = objects@;
            move_towards(monster_id, player_x, player_y, map, objects);
            assert(objects@ =~= moved(
                before,
                monster_id as int,
                unit_step(player_x - monster_x, player_y - monster_y),
                unit_step(player_y - monster_y, player_x - monster_x),
                map@,
            ));
            false
        } else {
            match objects[PLAYER_IDX].fighter {
                Some(fighter) => fighter.hp > 0,
                None => false,
            }
        }
    } else {
        false
    }
}

/// The names one after the other, with `separator` between each two.
pub open spec fn joined(names: Seq<Seq<char>>, separator: Seq<char>) -> Seq<char>
    decreases names.len(),
{
    if names.len() == 0 {
        Seq::empty()
    } else if names.len() == 1 {
        names[0]
    } else {
        joined(names.drop_last(), separator) + separator + names.last()
    }
}

/// The names of the objects that stand at `(x, y)`, in the order of the
/// list, if the tile there is visible; none if it is not.
pub open spec fn names_at(objects: Seq<Object>, x: int, y: int, grid: Seq<Seq<Tile>>) -> Seq<
    Seq<char>,
>
    decreases objects.len(),
{
    if objects.len() == 0 {
        Seq::empty()
    } else {
        let rest = names_at(objects.drop_last(), x, y, grid);
        let object = objects.last();
        if object.x == x && object.y == y && grid[x][y].visible {
            rest.push(object.name@)
        } else {
            rest
        }
    }
}

/// The names of the objects that stand at `(x, y)` and can be seen there,
/// in one line, with a comma and a blank between each two.
pub fn get_names_under_mouse(x: i32, y: i32, objects: &[Object], map: &Grid) -> (names: String)
    requires
        map.wf(),
        (exists|i: int| 0 <= i < objects@.len() && (#[trigger] objects@[i]).x == x && objects@[i].y == y)
            ==> map.contains(x as int, y as int),
    ensures
        names@ == joined(names_at(objects@, x as int, y as int, map@), ", "@),
{
    let mut names = String::new();
    let mut found: usize = 0;
    let mut i: usize = 0;
    while i < objects.len()
        invariant
            i <= objects.len(),
            map.wf(),
            (exists|k: int| 0 <= k < objects@.len() && (#[trigger] objects@[k]).x == x && objects@[k].y == y)
                ==> map.contains(x as int, y as int),
            found == names_at(objects@.take(i as int), x as int, y as int, map@).len(),
            found <= i,
            names@ == joined(names_at(objects@.take(i as int), x as int, y as int, map@), ", "@),
        decreases objects.len() - i,
    {
        let object = &objects[i];
        let ghost so_far = names_at(objects@.take(i as int), x as int, y as int, map@);
        proof {
            assert(objects@.take(i + 1).drop_last() =~= objects@.take(i as int));
            assert(objects@.take(i + 1).last() == objects@[i as int]);
        }
        let (object_x, object_y) = object.get_pos();
        if object_x == x && object_y == y && map.is_in_fov(object) {
            proof {
                assert(so_far.push(object.name@).drop_last() =~= so_far);
            }
            if found > 0 {
                names.append(", ");
            }
            names.append(object.name.as_str());
            found = found + 1;
        }
        i = i + 1;
    }
    proof {
        assert(objects@.take(objects@.len() as int) =~= objects@);
    }
    names
}

} // verus!
