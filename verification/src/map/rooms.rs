//! Carving rooms and tunnels out of a grid of walls, and placing the
//! player and the monsters in them.

use crate::colors::{darker_green, desaturated_green, white};
use crate::colors::{spec_darker_green, spec_desaturated_green, spec_white};
use crate::entities::light::LightSource;
use crate::entities::object::{Ai, DeathCallback, Fighter, Object};
use crate::map::map::{default_shade, spec_default_shade, Grid};
use crate::map::random::{random_coin, random_in_range, random_ratio};
use crate::map::rect::Rect;
use crate::map::tile::Tile;
use vstd::prelude::*;

verus! {

pub const ROOM_MAX_SIZE: i32 = 10;

pub const ROOM_MIN_SIZE: i32 = 6;

pub const MAX_ROOMS: i32 = 30;

pub const MAX_ROOM_MONSTERS: i32 = 3;

/// The floor tile that carving leaves at `(x, y)`.
pub open spec fn floor_at(x: int, y: int) -> Tile {
    Tile::spec_floor(x as i32, y as i32, spec_default_shade())
}

/// Every tile of the second grid is the tile at its place in the first, or
/// the floor tile that carving leaves there.
pub open spec fn carved(
    before: Seq<Seq<Tile>>,
    after: Seq<Seq<Tile>>,
    width: int,
    height: int,
) -> bool {
    forall|x: int, y: int|
        0 <= x < width && 0 <= y < height ==> #[trigger] after[x][y] == before[x][y]
            || after[x][y] == floor_at(x, y)
}

/// `object` is the player as the game begins, standing at `(x, y)`.
pub open spec fn is_player(object: Object, x: int, y: int) -> bool {
    &&& object.x == x
    &&& object.y == y
    &&& object.char == '@'
    &&& object.color == spec_white()
    &&& object.name@ == "player"@
    &&& object.blocks
    &&& object.alive
    &&& object.fighter == Some(
        Fighter { max_hp: 30, hp: 30, defense: 2, power: 5, on_death: DeathCallback::Player },
    )
    &&& object.ai is None
    &&& object.light matches Some(light) && light.fall_off_distance == 3000 && light.intensity
        == 8000 && light.angle == 360 && light.wf()
}

/// `object` is a fresh monster at `(x, y)`: an orc, or else a troll.
pub open spec fn is_monster(object: Object, x: int, y: int, orc: bool) -> bool {
    &&& object.x == x
    &&& object.y == y
    &&& object.blocks
    &&& object.alive
    &&& object.ai == Some(Ai::Basic)
    &&& object.light is None
    &&& if orc {
        &&& object.char == 'o'
        &&& object.name@ == "Orc"@
        &&& object.color == spec_desaturated_green()
        &&& object.fighter == Some(
            Fighter { max_hp: 10, hp: 10, defense: 0, power: 3, on_death: DeathCallback::Monster },
        )
    } else {
        &&& object.char == 'T'
        &&& object.name@ == "Troll"@
        &&& object.color == spec_darker_green()
        &&& object.fighter == Some(
            Fighter { max_hp: 16, hp: 16, defense: 1, power: 4, on_death: DeathCallback::Monster },
        )
    }
}

/// `object` is a fresh monster that stands inside `room`.
pub open spec fn is_monster_in(object: Object, room: Rect) -> bool {
    &&& room.inside(object.x as int, object.y as int)
    &&& exists|orc: bool| is_monster(object, object.x as int, object.y as int, orc)
}

/// The player as the game begins, at `(x, y)`, with a light to see by.
pub fn player(x: i32, y: i32) -> (object: Object)
    ensures
        is_player(object, x as int, y as int),
{
    let mut player = Object::new(x, y, '@', "player", white(), true);
    player.alive = true;
    player.fighter = Some(
        Fighter { max_hp: 30, hp: 30, defense: 2, power: 5, on_death: DeathCallback::Player },
    );
    player.light = Some(LightSource::new(3000, 8000));
    player
}

/// A fresh monster at `(x, y)`: an orc if `orc`, else a troll.
pub fn monster(x: i32, y: i32, orc: bool) -> (object: Object)
    ensures
        is_monster(object, x as int, y as int, orc),
{
    let mut monster = if orc {
        let mut orc = Object::new(x, y, 'o', "Orc", desaturated_green(), true);
        orc.fighter = Some(
            Fighter { max_hp: 10, hp: 10, defense: 0, power: 3, on_death: DeathCallback::Monster },
        );
        orc.ai = Some(Ai::Basic);
        orc
    } else {
        let mut troll = Object::new(x, y, 'T', "Troll", darker_green(), true);
        troll.fighter = Some(
            Fighter { max_hp: 16, hp: 16, defense: 1, power: 4, on_death: DeathCallback::Monster },
        );
        troll.ai = Some(Ai::Basic);
        troll
    };
    monster.alive = true;
    monster
}

/// Where a monster is to stand, and of which kind it is.
#[derive(Clone, Copy, Debug)]
pub struct Spawn {
    pub x: i32,
    pub y: i32,
    /// An orc; else a troll.
    pub orc: bool,
}

/// Adds to `objects` one fresh monster for each of `spawns`, in their
/// order: at the place and of the kind that the spawn says.
pub fn place_monsters(objects: &mut Vec<Object>, spawns: &Vec<Spawn>)
    ensures
        final(objects)@.len() == old(objects)@.len() + spawns@.len(),
        forall|i: int| 0 <= i < old(objects)@.len() ==> final(objects)@[i] == old(objects)@[i],
        forall|k: int|
            0 <= k < spawns@.len() ==> is_monster(
                #[trigger] final(objects)@[old(objects)@.len() + k],
                spawns@[k].x as int,
                spawns@[k].y as int,
                spawns@[k].orc,
            ),
{
    let mut placed: usize = 0;
    while placed < spawns.len()
        invariant
            placed <= spawns@.len(),
            objects@.len() == old(objects)@.len() + placed,
            forall|i: int| 0 <= i < old(objects)@.len() ==> objects@[i] == old(objects)@[i],
            forall|k: int|
                0 <= k < placed ==> is_monster(
                    #[trigger] objects@[old(objects)@.len() + k],
                    spawns@[k].x as int,
                    spawns@[k].y as int,
                    spawns@[k].orc,
                ),
        decreases spawns@.len() - placed,
    {
        let spawn = spawns[placed];
        let ghost before = objects@;
        objects.push(monster(spawn.x, spawn.y, spawn.orc));
        proof {
            assert forall|k: int| 0 <= k < placed + 1 implies is_monster(
                #[trigger] objects@[old(objects)@.len() + k],
                spawns@[k].x as int,
                spawns@[k].y as int,
                spawns@[k].orc,
            ) by {
                if k < placed {
                    assert(objects@[old(objects)@.len() + k] == before[old(objects)@.len() + k]);
                }
            }
        }
        placed = placed + 1;
    }
}

/// Whether `room` has a point in common with one of `rooms`.
pub fn intersects_any(rooms: &Vec<Rect>, room: &Rect) -> (hit: bool)
    ensures
        hit == exists|i: int|
            0 <= i < rooms@.len() && room.spec_intersects_with(&#[trigger] rooms@[i]),
{
    let mut i: usize = 0;
    while i < rooms.len()
        invariant
            i <= rooms.len(),
            forall|j: int| 0 <= j < i ==> !room.spec_intersects_with(&#[trigger] rooms@[j]),
        decreases rooms.len() - i,
    {
        if room.intersects_with(&rooms[i]) {
            return true;
        }
        i = i + 1;
    }
    false
}

impl Grid {
    /// Turns the inside of `room` into floor.
    pub fn create_room(&mut self, room: Rect)
        requires
            old(self).wf(),
            room.x1 < i32::MAX,
            room.x1 + 1 < room.x2 ==> room.y1 < i32::MAX,
            room.x1 + 1 < room.x2 && room.y1 + 1 < room.y2 ==> old(self).contains(
                room.x1 + 1,
                room.y1 + 1,
            ) && old(self).contains(room.x2 - 1, room.y2 - 1),
        ensures
            final(self).wf(),
            final(self).width == old(self).width,
            final(self).height == old(self).height,
            forall|x: int, y: int|
                old(self).contains(x, y) ==> #[trigger] final(self)@[x][y] == (if room.inside(x, y) {
                    floor_at(x, y)
                } else {
                    old(self)@[x][y]
                }),
    {
        let ghost start = self@;
        let mut x: i32 = room.x1 + 1;
        while x < room.x2
            invariant
                self.wf(),
                self.width == old(self).width,
                self.height == old(self).height,
                room.x1 < x,
                x < room.x2 ==> room.y1 < i32::MAX,
                x < room.x2 && room.y1 + 1 < room.y2 ==> 0 <= room.x1 + 1 && room.x2 <= self.width
                    && 0 <= room.y1 + 1 && room.y2 <= self.height,
                forall|i: int, j: int|
                    0 <= i < self.width && 0 <= j < self.height ==> #[trigger] self@[i][j] == (
                    if room.inside(i, j) && i < x {
                        floor_at(i, j)
                    } else {
                        start[i][j]
                    }),
            decreases room.x2 - x,
        {
            let mut y: i32 = room.y1 + 1;
            while y < room.y2
                invariant
                    self.wf(),
                    self.width == old(self).width,
                    self.height == old(self).height,
                    room.x1 < x < room.x2,
                    room.y1 < y,
                    room.y1 + 1 < room.y2 ==> 0 <= room.x1 + 1 && room.x2 <= self.width && 0
                        <= room.y1 + 1 && room.y2 <= self.height,
                    forall|i: int, j: int|
                        0 <= i < self.width && 0 <= j < self.height ==> #[trigger] self@[i][j] == (
                        if room.inside(i, j) && (i < x || (i == x && j < y)) {
                            floor_at(i, j)
                        } else {
                            start[i][j]
                        }),
                decreases room.y2 - y,
            {
                self.set_floor(x, y);
                y = y + 1;
            }
            x = x + 1;
        }
    }

    /// Turns the tile at `(x, y)` into floor.
    pub fn set_floor(&mut self, x: i32, y: i32)
        requires
            old(self).wf(),
            old(self).contains(x as int, y as int),
        ensures
            final(self).wf(),
            final(self).width == old(self).width,
            final(self).height == old(self).height,
            forall|i: int, j: int|
                old(self).contains(i, j) ==> #[trigger] final(self)@[i][j] == (if i == x && j == y {
                    floor_at(i, j)
                } else {
                    old(self)@[i][j]
                }),
    {
        proof {
            self.lemma_columns();
        }
        let ghost start = self@;
        self.map[x as usize][y as usize] = Tile::floor(x, y, default_shade());
        proof {
            assert forall|i: int, j: int| 0 <= i < self.width && 0 <= j < self.height implies (
            #[trigger] self@[i][j]) == (if i == x && j == y {
                floor_at(i, j)
            } else {
                start[i][j]
            }) by {
                if i != x {
                    assert(self@[i] == start[i]);
                }
            }
            assert(floor_at(x as int, y as int).wf());
        }
    }

    /// Turns the tiles of row `y` from `x1` to `x2`, in either order and
    /// with both ends, into floor.
    pub fn create_h_tunnel(&mut self, x1: i32, x2: i32, y: i32)
        requires
            old(self).wf(),
            old(self).contains(x1 as int, y as int),
            old(self).contains(x2 as int, y as int),
        ensures
            final(self).wf(),
            final(self).width == old(self).width,
            final(self).height == old(self).height,
            forall|i: int, j: int|
                old(self).contains(i, j) ==> #[trigger] final(self)@[i][j] == (if j == y && between(
                    x1 as int,
                    x2 as int,
                    i,
                ) {
                    floor_at(i, j)
                } else {
                    old(self)@[i][j]
                }),
    {
        let ghost start = self@;
        let low = if x1 < x2 {
            x1
        } else {
            x2
        };
        let high = if x1 < x2 {
            x2
        } else {
            x1
        };
        let mut x: i32 = low;
        while x < high + 1
            invariant
                self.wf(),
                self.width == old(self).width,
                self.height == old(self).height,
                0 <= low <= x <= high + 1 <= self.width,
                0 <= y < self.height,
                forall|i: int, j: int|
                    0 <= i < self.width && 0 <= j < self.height ==> #[trigger] self@[i][j] == (
                    if j == y && low <= i < x {
                        floor_at(i, j)
                    } else {
                        start[i][j]
                    }),
            decreases high + 1 - x,
        {
            self.set_floor(x, y);
            x = x + 1;
        }
    }

    /// Turns the tiles of column `x` from `y1` to `y2`, in either order and
    /// with both ends, into floor.
    pub fn create_v_tunnel(&mut self, y1: i32, y2: i32, x: i32)
        requires
            old(self).wf(),
            old(self).contains(x as int, y1 as int),
            old(self).contains(x as int, y2 as int),
        ensures
            final(self).wf(),
            final(self).width == old(self).width,
            final(self).height == old(self).height,
            forall|i: int, j: int|
                old(self).contains(i, j) ==> #[trigger] final(self)@[i][j] == (if i == x && between(
                    y1 as int,
                    y2 as int,
                    j,
                ) {
                    floor_at(i, j)
                } else {
                    old(self)@[i][j]
                }),
    {
        let ghost start = self@;
        let low = if y1 < y2 {
            y1
        } else {
            y2
        };
        let high = if y1 < y2 {
            y2
        } else {
            y1
        };
        let mut y: i32 = low;
        while y < high + 1
            invariant
                self.wf(),
                self.width == old(self).width,
                self.height == old(self).height,
                0 <= low <= y <= high + 1 <= self.height,
                0 <= x < self.width,
                forall|i: int, j: int|
                    0 <= i < self.width && 0 <= j < self.height ==> #[trigger] self@[i][j] == (
                    if i == x && low <= j < y {
                        floor_at(i, j)
                    } else {
                        start[i][j]
                    }),
            decreases high + 1 - y,
        {
            self.set_floor(x, y);
            y = y + 1;
        }
    }

    /// Joins `(prev_x, prev_y)` and `(new_x, new_y)` by two tunnels that
    /// meet at a corner: first along the row and then along the column if
    /// `horizontal_first`, else the other way round.
    pub fn create_tunnels(
        &mut self,
        prev_x: i32,
        prev_y: i32,
        new_x: i32,
        new_y: i32,
        horizontal_first: bool,
    )
        requires
            old(self).wf(),
            old(self).contains(prev_x as int, prev_y as int),
            old(self).contains(new_x as int, new_y as int),
        ensures
            final(self).wf(),
            final(self).width == old(self).width,
            final(self).height == old(self).height,
            forall|i: int, j: int|
                old(self).contains(i, j) ==> #[trigger] final(self)@[i][j] == (if on_tunnels(
                    i,
                    j,
                    prev_x as int,
                    prev_y as int,
                    new_x as int,
                    new_y as int,
                    horizontal_first,
                ) {
                    floor_at(i, j)
                } else {
                    old(self)@[i][j]
                }),
    {
        if horizontal_first {
            self.create_h_tunnel(prev_x, new_x, prev_y);
            self.create_v_tunnel(prev_y, new_y, new_x);
        } else {
            self.create_v_tunnel(prev_y, new_y, prev_x);
            self.create_h_tunnel(prev_x, new_x, new_y);
        }
    }

    /// Puts up to `MAX_ROOM_MONSTERS` fresh monsters at random places
    /// inside `room`, four orcs for every troll: draws how many, then for
    /// each its place and its kind, and has `place_monsters` add them.
    pub fn place_object(&mut self, room: Rect, objects: &mut Vec<Object>)
        requires
            room.x1 < i32::MAX,
            room.y1 < i32::MAX,
            room.x1 + 1 < room.x2,
            room.y1 + 1 < room.y2,
        ensures
            *final(self) == *old(self),
            old(objects)@.len() <= final(objects)@.len() <= old(objects)@.len()
                + MAX_ROOM_MONSTERS,
            forall|i: int| 0 <= i < old(objects)@.len() ==> final(objects)@[i] == old(objects)@[i],
            forall|i: int|
                old(objects)@.len() <= i < final(objects)@.len() ==> is_monster_in(
                    #[trigger] final(objects)@[i],
                    room,
                ),
    {
        let num_monsters = random_in_range(0, MAX_ROOM_MONSTERS + 1);
        let mut spawns: Vec<Spawn> = Vec::new();
        let mut drawn: i32 = 0;
        while drawn < num_monsters
            invariant
                0 <= drawn <= num_monsters <= MAX_ROOM_MONSTERS,
                room.x1 < i32::MAX,
                room.y1 < i32::MAX,
                room.x1 + 1 < room.x2,
                room.y1 + 1 < room.y2,
                spawns@.len() == drawn,
                forall|k: int|
                    0 <= k < spawns@.len() ==> room.inside(
                        (#[trigger] spawns@[k]).x as int,
                        spawns@[k].y as int,
                    ),
            decreases num_monsters - drawn,
        {
            let x = random_in_range(room.x1 + 1, room.x2);
            let y = random_in_range(room.y1 + 1, room.y2);
            let orc = random_ratio(4, 5);
            spawns.push(Spawn { x, y, orc });
            drawn = drawn + 1;
        }
        place_monsters(objects, &spawns);
        proof {
            let before = old(objects)@.len() as int;
            assert forall|i: int| before <= i < objects@.len() implies is_monster_in(
                #[trigger] objects@[i],
                room,
            ) by {
                let spawn = spawns@[i - before];
                assert(is_monster(objects@[before + (i - before)], spawn.x as int, spawn.y as int, spawn.orc));
                assert(room.inside(spawn.x as int, spawn.y as int));
            }
        }
    }

    /// Carves up to `MAX_ROOMS` rooms at random places out of the grid,
    /// leaving out each one that would touch a room made before it, and
    /// joins every room to the one made before it by two tunnels. The
    /// player is put in the middle of the first room and monsters in the
    /// others.
    ///
    /// Whatever the random numbers are, the first object returned is the
    /// player, all others are fresh monsters, at most `MAX_ROOM_MONSTERS`
    /// for each room after the first, and each of them stands on a floor
    /// tile.
    pub fn make_rand_map(&mut self) -> (objects: Vec<Object>)
        requires
            old(self).wf(),
            old(self).width > ROOM_MAX_SIZE,
            old(self).height > ROOM_MAX_SIZE,
        ensures
            final(self).wf(),
            final(self).width == old(self).width,
            final(self).height == old(self).height,
            carved(old(self)@, final(self)@, old(self).width as int, old(self).height as int),
            1 <= objects@.len() <= 1 + (MAX_ROOMS - 1) * MAX_ROOM_MONSTERS,
            is_player(objects@[0], objects@[0].x as int, objects@[0].y as int),
            forall|i: int|
                1 <= i < objects@.len() ==> exists|orc: bool|
                    is_monster(#[trigger] objects@[i], objects@[i].x as int, objects@[i].y as int, orc),
            forall|i: int|
                0 <= i < objects@.len() ==> on_floor(
                    final(self)@,
                    #[trigger] objects@[i],
                    old(self).width as int,
                    old(self).height as int,
                ),
    {
        let ghost start = self@;
        let ghost width = self.width as int;
        let ghost height = self.height as int;
        let mut rooms: Vec<Rect> = Vec::new();
        let mut objects: Vec<Object> = Vec::new();
        let mut made: i32 = 0;
        while made < MAX_ROOMS
            invariant
                0 <= made <= MAX_ROOMS,
                self.wf(),
                self.width == width,
                self.height == height,
                width > ROOM_MAX_SIZE,
                height > ROOM_MAX_SIZE,
                carved(start, self@, width, height),
                (rooms@.len() == 0) == (objects@.len() == 0),
                made >= 1 ==> rooms@.len() >= 1,
                rooms@.len() <= made,
                objects@.len() >= 1 ==> objects@.len() <= 1 + (rooms@.len() - 1) * MAX_ROOM_MONSTERS,
                forall|r: int| 0 <= r < rooms@.len() ==> room_fits(#[trigger] rooms@[r], width, height),
                objects@.len() >= 1 ==> is_player(
                    objects@[0],
                    objects@[0].x as int,
                    objects@[0].y as int,
                ),
                forall|i: int|
                    1 <= i < objects@.len() ==> exists|orc: bool|
                        is_monster(
                            #[trigger] objects@[i],
                            objects@[i].x as int,
                            objects@[i].y as int,
                            orc,
                        ),
                forall|i: int|
                    0 <= i < objects@.len() ==> on_floor(self@, #[trigger] objects@[i], width, height),
            decreases MAX_ROOMS - made,
        {
            let w = random_in_range(ROOM_MIN_SIZE, ROOM_MAX_SIZE + 1);
            let h = random_in_range(ROOM_MIN_SIZE, ROOM_MAX_SIZE + 1);
            // a random place that keeps the room on the grid
            let x = random_in_range(0, self.width - w);
            let y = random_in_range(0, self.height - h);
            let new_room = Rect::new(x, y, w, h);
            let failed = intersects_any(&rooms, &new_room);
            if !failed {
                let ghost before = self@;
                self.create_room(new_room);
                let (new_x, new_y) = new_room.center();
                proof {
                    assert(carved(before, self@, width, height));
                    lemma_carved_trans(start, before, self@, width, height);
                    lemma_carved_keeps_floor(before, self@, objects@, width, height);
                    assert(new_room.inside(new_x as int, new_y as int));
                    assert(self@[new_x as int][new_y as int] == floor_at(new_x as int, new_y as int));
                }
                if rooms.is_empty() {
                    let player = player(new_x, new_y);
                    objects.push(player);
                } else {
                    // join the room to the one made before it
                    let (prev_x, prev_y) = rooms[rooms.len() - 1].center();
                    let ghost carved_room = self@;
                    // toss a coin for the way the tunnels turn
                    let horizontal_first = random_coin();
                    self.create_tunnels(prev_x, prev_y, new_x, new_y, horizontal_first);
                    proof {
                        lemma_carved_trans(start, carved_room, self@, width, height);
                        lemma_carved_keeps_floor(carved_room, self@, objects@, width, height);
                    }
                    let ghost placed_before = objects@;
                    let ghost tunnelled = self@;
                    self.place_object(new_room, &mut objects);
                    proof {
                        assert forall|i: int| 0 <= i < objects@.len() implies on_floor(
                            self@,
                            #[trigger] objects@[i],
                            width,
                            height,
                        ) by {
                            if i < placed_before.len() {
                                assert(objects@[i] == placed_before[i]);
                            } else {
                                let o = objects@[i];
                                assert(is_monster_in(o, new_room));
                                assert(carved_room[o.x as int][o.y as int] == floor_at(
                                    o.x as int,
                                    o.y as int,
                                ));
                                assert(tunnelled[o.x as int][o.y as int] == carved_room[o.x as int][o.y as int]
                                    || tunnelled[o.x as int][o.y as int] == floor_at(
                                    o.x as int,
                                    o.y as int,
                                ));
                            }
                        }
                        assert forall|i: int| 1 <= i < objects@.len() implies exists|orc: bool|
                            is_monster(
                                #[trigger] objects@[i],
                                objects@[i].x as int,
                                objects@[i].y as int,
                                orc,
                            ) by {
                            if i < placed_before.len() {
                                assert(objects@[i] == placed_before[i]);
                            } else {
                                assert(is_monster_in(objects@[i], new_room));
                            }
                        }
                    }
                }
                // the room is made: remember it
                rooms.push(new_room);
            }
            made = made + 1;
        }
        objects
    }
}

/// The coordinate `at` lies between `from` and `to`, whichever comes first.
pub open spec fn between(from: int, to: int, at: int) -> bool {
    from <= at <= to || to <= at <= from
}

/// The position `(x, y)` lies on the two tunnels that join `(prev_x,
/// prev_y)` and `(new_x, new_y)`.
pub open spec fn on_tunnels(
    x: int,
    y: int,
    prev_x: int,
    prev_y: int,
    new_x: int,
    new_y: int,
    horizontal_first: bool,
) -> bool {
    if horizontal_first {
        (y == prev_y && between(prev_x, new_x, x)) || (x == new_x && between(prev_y, new_y, y))
    } else {
        (x == prev_x && between(prev_y, new_y, y)) || (y == new_y && between(prev_x, new_x, x))
    }
}

/// The room lies on the grid, off its last row and column, and is as wide
/// and as high as a room can be.
pub open spec fn room_fits(room: Rect, width: int, height: int) -> bool {
    &&& 0 <= room.x1
    &&& room.x2 < width
    &&& ROOM_MIN_SIZE <= room.x2 - room.x1 <= ROOM_MAX_SIZE
    &&& 0 <= room.y1
    &&& room.y2 < height
    &&& ROOM_MIN_SIZE <= room.y2 - room.y1 <= ROOM_MAX_SIZE
}

/// `object` stands on the grid, on the floor tile that carving leaves.
pub open spec fn on_floor(grid: Seq<Seq<Tile>>, object: Object, width: int, height: int) -> bool {
    &&& 0 <= object.x < width
    &&& 0 <= object.y < height
    &&& grid[object.x as int][object.y as int] == floor_at(object.x as int, object.y as int)
}

/// Carving a carved grid further gives a grid carved from the first.
pub proof fn lemma_carved_trans(
    first: Seq<Seq<Tile>>,
    second: Seq<Seq<Tile>>,
    third: Seq<Seq<Tile>>,
    width: int,
    height: int,
)
    requires
        carved(first, second, width, height),
        carved(second, third, width, height),
    ensures
        carved(first, third, width, height),
{
    assert forall|x: int, y: int| 0 <= x < width && 0 <= y < height implies #[trigger] third[x][y]
        == first[x][y] || third[x][y] == floor_at(x, y) by {
        assert(second[x][y] == first[x][y] || second[x][y] == floor_at(x, y));
    }
}

/// An object that stands on carved floor still does so after more carving.
pub proof fn lemma_carved_keeps_floor(
    before: Seq<Seq<Tile>>,
    after: Seq<Seq<Tile>>,
    objects: Seq<Object>,
    width: int,
    height: int,
)
    requires
        carved(before, after, width, height),
        forall|i: int| 0 <= i < objects.len() ==> on_floor(before, #[trigger] objects[i], width, height),
    ensures
        forall|i: int| 0 <= i < objects.len() ==> on_floor(after, #[trigger] objects[i], width, height),
{
    assert forall|i: int| 0 <= i < objects.len() implies on_floor(
        after,
        #[trigger] objects[i],
        width,
        height,
    ) by {
        let o = objects[i];
        assert(on_floor(before, o, width, height));
        assert(after[o.x as int][o.y as int] == before[o.x as int][o.y as int] || after[o.x as int][o.y as int]
            == floor_at(o.x as int, o.y as int));
    }
}

} // verus!
