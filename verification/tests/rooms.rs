use rogue_light::entities::object::{Ai, DeathCallback, Object};
use rogue_light::map::map::Grid;
use rogue_light::map::rect::Rect;
use rogue_light::map::rooms::{
    intersects_any, monster, place_monsters, player, Spawn, MAX_ROOMS, MAX_ROOM_MONSTERS,
    ROOM_MAX_SIZE, ROOM_MIN_SIZE,
};
use rogue_light::map::tile::Tile;

fn is_floor_at(tile: &Tile, x: i32, y: i32) -> bool {
    !tile.blocked
        && !tile.block_sight
        && !tile.visible
        && !tile.explored
        && (tile.x, tile.y) == (x, y)
        && (tile.shade_factor.num, tile.shade_factor.den) == (4, 5)
        && (tile.color.r, tile.color.g, tile.color.b) == (80, 64, 20)
}

fn is_first_wall(tile: &Tile) -> bool {
    tile.blocked && tile.block_sight && (tile.x, tile.y) == (0, 0)
}

fn floor_count(grid: &Grid) -> usize {
    grid.map.iter().map(|column| column.iter().filter(|t| !t.blocked).count()).sum()
}

#[test]
fn limits_of_the_rooms() {
    assert_eq!(ROOM_MAX_SIZE, 10);
    assert_eq!(ROOM_MIN_SIZE, 6);
    assert_eq!(MAX_ROOMS, 30);
    assert_eq!(MAX_ROOM_MONSTERS, 3);
}

#[test]
fn player_begins_alive_with_a_light() {
    let p = player(7, 9);
    assert_eq!(p.get_pos(), (7, 9));
    assert_eq!(p.char, '@');
    assert_eq!(p.name, "player");
    assert_eq!((p.color.r, p.color.g, p.color.b), (255, 255, 255));
    assert!(p.blocks && p.alive);
    let fighter = p.fighter.unwrap();
    assert_eq!((fighter.max_hp, fighter.hp, fighter.defense, fighter.power), (30, 30, 2, 5));
    assert_eq!(fighter.on_death, DeathCallback::Player);
    assert!(p.ai.is_none());
    let light = p.light.unwrap();
    assert_eq!((light.fall_off_distance, light.intensity, light.angle), (3000, 8000, 360));
    assert_eq!(light.max_dist, 10_000);
}

#[test]
fn monster_is_an_orc_or_a_troll() {
    let orc = monster(2, 3, true);
    assert_eq!(orc.get_pos(), (2, 3));
    assert_eq!((orc.char, orc.name.as_str()), ('o', "Orc"));
    assert_eq!((orc.color.r, orc.color.g, orc.color.b), (63, 127, 63));
    let fighter = orc.fighter.unwrap();
    assert_eq!((fighter.max_hp, fighter.hp, fighter.defense, fighter.power), (10, 10, 0, 3));
    assert_eq!(fighter.on_death, DeathCallback::Monster);
    assert_eq!(orc.ai, Some(Ai::Basic));
    assert!(orc.blocks && orc.alive && orc.light.is_none());

    let troll = monster(4, 5, false);
    assert_eq!(troll.get_pos(), (4, 5));
    assert_eq!((troll.char, troll.name.as_str()), ('T', "Troll"));
    assert_eq!((troll.color.r, troll.color.g, troll.color.b), (0, 127, 0));
    let fighter = troll.fighter.unwrap();
    assert_eq!((fighter.max_hp, fighter.hp, fighter.defense, fighter.power), (16, 16, 1, 4));
    assert_eq!(fighter.on_death, DeathCallback::Monster);
    assert_eq!(troll.ai, Some(Ai::Basic));
    assert!(troll.blocks && troll.alive && troll.light.is_none());
}

#[test]
fn intersects_any_looks_at_every_room() {
    let rooms = vec![Rect::new(0, 0, 5, 5), Rect::new(10, 10, 5, 5)];
    assert!(intersects_any(&rooms, &Rect::new(12, 12, 6, 6)));
    assert!(intersects_any(&rooms, &Rect::new(5, 5, 2, 2)));
    assert!(!intersects_any(&rooms, &Rect::new(6, 0, 3, 9)));
    assert!(!intersects_any(&Vec::new(), &Rect::new(0, 0, 5, 5)));
}

#[test]
fn create_room_carves_the_inside() {
    let mut grid = Grid::new(12, 10);
    grid.create_room(Rect::new(2, 1, 6, 5));
    for x in 0..12 {
        for y in 0..10 {
            let tile = &grid.map[x as usize][y as usize];
            let inside = 2 < x && x < 8 && 1 < y && y < 6;
            if inside {
                assert!(is_floor_at(tile, x, y), "floor at {:?}", (x, y));
            } else {
                assert!(is_first_wall(tile), "wall at {:?}", (x, y));
            }
        }
    }
    assert_eq!(floor_count(&grid), 5 * 4);
}

#[test]
fn create_room_without_an_inside_carves_nothing() {
    let mut grid = Grid::new(6, 6);
    grid.create_room(Rect::new(2, 2, 1, 4));
    grid.create_room(Rect::new(2, 2, 4, 1));
    grid.create_room(Rect::new(4, 4, -2, -2));
    grid.create_room(Rect::new(100, 2, 0, 3));
    assert_eq!(floor_count(&grid), 0);
}

#[test]
fn create_room_up_to_the_border() {
    let mut grid = Grid::new(6, 5);
    grid.create_room(Rect { x1: -1, y1: -1, x2: 6, y2: 5 });
    assert_eq!(floor_count(&grid), 30);
}

#[test]
fn tunnels_run_between_both_ends() {
    let mut grid = Grid::new(10, 10);
    grid.create_h_tunnel(7, 3, 4);
    for x in 0..10 {
        for y in 0..10 {
            let tile = &grid.map[x as usize][y as usize];
            if y == 4 && (3..=7).contains(&x) {
                assert!(is_floor_at(tile, x, y));
            } else {
                assert!(is_first_wall(tile));
            }
        }
    }
    grid.create_v_tunnel(2, 8, 5);
    assert!(is_floor_at(&grid.map[5][2], 5, 2));
    assert!(is_floor_at(&grid.map[5][8], 5, 8));
    assert!(is_floor_at(&grid.map[5][4], 5, 4));
    assert!(is_first_wall(&grid.map[5][1]));
    assert!(is_first_wall(&grid.map[5][9]));
    assert_eq!(floor_count(&grid), 5 + 7 - 1);
    grid.create_h_tunnel(0, 0, 0);
    assert!(is_floor_at(&grid.map[0][0], 0, 0));
    grid.create_v_tunnel(9, 9, 9);
    assert!(is_floor_at(&grid.map[9][9], 9, 9));
}

#[test]
fn place_object_puts_monsters_inside_the_room() {
    let room = Rect::new(3, 4, 6, 7);
    let mut most = 0;
    for _ in 0..200 {
        let mut grid = Grid::new(20, 20);
        let mut objects: Vec<Object> = vec![player(1, 1)];
        grid.place_object(room, &mut objects);
        assert_eq!(floor_count(&grid), 0);
        assert_eq!(objects[0].name, "player");
        assert!(objects.len() >= 1 && objects.len() <= 1 + MAX_ROOM_MONSTERS as usize);
        most = most.max(objects.len() - 1);
        for m in &objects[1..] {
            let (x, y) = m.get_pos();
            assert!(3 < x && x < 9 && 4 < y && y < 11, "monster at {:?}", (x, y));
            assert!(m.alive && m.blocks);
            assert_eq!(m.ai, Some(Ai::Basic));
            let fighter = m.fighter.unwrap();
            match m.name.as_str() {
                "Orc" => assert_eq!((m.char, fighter.max_hp, fighter.power), ('o', 10, 3)),
                "Troll" => assert_eq!((m.char, fighter.max_hp, fighter.power), ('T', 16, 4)),
                other => panic!("unknown monster {}", other),
            }
        }
    }
    assert!(most >= 1);
}

#[test]
fn place_object_in_the_smallest_room() {
    let room = Rect::new(0, 0, 2, 2);
    for _ in 0..50 {
        let mut grid = Grid::new(5, 5);
        let mut objects: Vec<Object> = Vec::new();
        grid.place_object(room, &mut objects);
        for m in &objects {
            assert_eq!(m.get_pos(), (1, 1));
        }
    }
}

#[test]
fn random_map_keeps_its_promises() {
    for _ in 0..30 {
        let mut grid = Grid::new(80, 43);
        let objects = grid.make_rand_map();
        assert_eq!((grid.width, grid.height), (80, 43));
        // every tile is the wall it was or carved floor
        for x in 0..80 {
            for y in 0..43 {
                let tile = &grid.map[x as usize][y as usize];
                assert!(is_first_wall(tile) || is_floor_at(tile, x, y), "tile at {:?}", (x, y));
            }
        }
        // the border stays wall
        for x in 0..80 {
            assert!(grid.map[x][0].blocked && grid.map[x][42].blocked);
        }
        for y in 0..43 {
            assert!(grid.map[0][y].blocked && grid.map[79][y].blocked);
        }
        // at least the inside of the first room is floor
        assert!(floor_count(&grid) >= 16);
        // the player comes first, then monsters, all of them on floor
        assert!(!objects.is_empty());
        assert_eq!(objects[0].name, "player");
        assert_eq!(objects[0].char, '@');
        assert!(objects[0].alive);
        assert!(objects[0].light.is_some());
        assert!(objects.len() <= 1 + (MAX_ROOMS as usize - 1) * MAX_ROOM_MONSTERS as usize);
        for (i, object) in objects.iter().enumerate() {
            let (x, y) = object.get_pos();
            assert!(0 <= x && x < 80 && 0 <= y && y < 43);
            assert!(is_floor_at(&grid.map[x as usize][y as usize], x, y));
            if i > 0 {
                assert!(object.name == "Orc" || object.name == "Troll");
                assert_eq!(object.ai, Some(Ai::Basic));
                assert!(object.alive && object.light.is_none());
            }
        }
    }
}

#[test]
fn random_map_on_the_smallest_grid() {
    for _ in 0..30 {
        let mut grid = Grid::new(11, 11);
        let objects = grid.make_rand_map();
        assert!(!objects.is_empty());
        let (x, y) = objects[0].get_pos();
        assert!(is_floor_at(&grid.map[x as usize][y as usize], x, y));
        for x in 0..11 {
            assert!(grid.map[x][0].blocked && grid.map[x][10].blocked);
        }
    }
}

#[test]
fn random_maps_differ() {
    let mut counts = Vec::new();
    for _ in 0..20 {
        let mut grid = Grid::new(80, 43);
        grid.make_rand_map();
        counts.push(floor_count(&grid));
    }
    counts.sort();
    counts.dedup();
    assert!(counts.len() > 1);
}

#[test]
fn tunnels_turn_one_way_or_the_other() {
    let mut grid = Grid::new(10, 10);
    grid.create_tunnels(2, 3, 6, 7, true);
    for x in 0..10 {
        for y in 0..10 {
            let on_path = (y == 3 && (2..=6).contains(&x)) || (x == 6 && (3..=7).contains(&y));
            let tile = &grid.map[x as usize][y as usize];
            assert_eq!(is_floor_at(tile, x, y), on_path, "at {:?}", (x, y));
        }
    }
    let mut grid = Grid::new(10, 10);
    grid.create_tunnels(2, 3, 6, 7, false);
    for x in 0..10 {
        for y in 0..10 {
            let on_path = (x == 2 && (3..=7).contains(&y)) || (y == 7 && (2..=6).contains(&x));
            let tile = &grid.map[x as usize][y as usize];
            assert_eq!(is_floor_at(tile, x, y), on_path, "at {:?}", (x, y));
        }
    }
    let mut grid = Grid::new(10, 10);
    grid.create_tunnels(8, 8, 1, 1, true);
    assert_eq!(floor_count(&grid), 8 + 8 - 1);
    assert!(is_floor_at(&grid.map[1][8], 1, 8));
    assert!(is_first_wall(&grid.map[8][1]));
}

#[test]
fn place_monsters_adds_one_for_each_spawn_in_order() {
    let mut objects: Vec<Object> = vec![player(1, 1)];
    let spawns = vec![
        Spawn { x: 4, y: 5, orc: true },
        Spawn { x: 6, y: 7, orc: false },
        Spawn { x: 4, y: 5, orc: true },
    ];
    place_monsters(&mut objects, &spawns);
    assert_eq!(objects.len(), 4);
    assert_eq!(objects[0].name, "player");
    assert_eq!(objects[0].get_pos(), (1, 1));
    let seen: Vec<(i32, i32, &str, char)> =
        objects[1..].iter().map(|o| (o.x, o.y, o.name.as_str(), o.char)).collect();
    assert_eq!(seen, vec![(4, 5, "Orc", 'o'), (6, 7, "Troll", 'T'), (4, 5, "Orc", 'o')]);
    for m in &objects[1..] {
        assert!(m.alive && m.blocks);
        assert_eq!(m.ai, Some(Ai::Basic));
        assert!(m.fighter.is_some() && m.light.is_none());
    }
}

#[test]
fn place_monsters_without_spawns_adds_nothing() {
    let mut objects: Vec<Object> = vec![player(1, 1)];
    place_monsters(&mut objects, &Vec::new());
    assert_eq!(objects.len(), 1);
    let mut none: Vec<Object> = Vec::new();
    place_monsters(&mut none, &vec![Spawn { x: -3, y: 9, orc: false }]);
    assert_eq!(none.len(), 1);
    assert_eq!((none[0].get_pos(), none[0].name.as_str()), ((-3, 9), "Troll"));
}
