use rogue_light::colors::white;
use rogue_light::entities::movement::input::Input;
use rogue_light::entities::object::Object;
use rogue_light::map::map::{default_shade, Grid};
use rogue_light::map::movement_helper::{is_blocked, move_by, move_towards, step_towards};
use rogue_light::map::tile::Tile;

fn open_grid(width: i32, height: i32) -> Grid {
    let mut grid = Grid::new(width, height);
    for x in 0..width {
        for y in 0..height {
            grid.map[x as usize][y as usize] = Tile::floor(x, y, default_shade());
        }
    }
    grid
}

fn thing(x: i32, y: i32, blocks: bool) -> Object {
    Object::new(x, y, 'x', "thing", white(), blocks)
}

#[test]
fn new_object_is_plain() {
    let object = Object::new(3, 4, '@', "player", white(), true);
    assert_eq!(object.get_pos(), (3, 4));
    assert_eq!(object.char, '@');
    assert_eq!(object.name, "player");
    assert_eq!((object.color.r, object.color.g, object.color.b), (255, 255, 255));
    assert!(object.blocks);
    assert!(!object.alive);
    assert!(object.fighter.is_none());
    assert!(object.ai.is_none());
    assert!(object.light.is_none());
}

#[test]
fn set_pos_moves_only_the_position() {
    let mut object = Object::new(3, 4, 'o', "Orc", white(), false);
    object.alive = true;
    object.set_pos(-7, 9);
    assert_eq!(object.get_pos(), (-7, 9));
    assert_eq!(object.name, "Orc");
    assert_eq!(object.char, 'o');
    assert!(object.alive && !object.blocks);
}

#[test]
fn walls_and_blocking_objects_block() {
    let mut grid = open_grid(5, 5);
    grid.map[1][1] = Tile::wall(1, 1, default_shade());
    let objects = vec![thing(2, 2, true), thing(3, 3, false)];
    assert!(is_blocked(1, 1, &grid, &objects));
    assert!(is_blocked(2, 2, &grid, &objects));
    assert!(!is_blocked(3, 3, &grid, &objects));
    assert!(!is_blocked(4, 4, &grid, &objects));
    assert!(!is_blocked(0, 0, &grid, &[]));
}

#[test]
fn the_same_functions_are_found_beside_the_object() {
    let grid = open_grid(3, 3);
    let mut objects = vec![thing(1, 1, true)];
    assert!(rogue_light::entities::object::is_blocked(1, 1, &grid, &objects));
    rogue_light::entities::object::move_by(0, 1, 0, &grid, &mut objects);
    assert_eq!(objects[0].get_pos(), (2, 1));
}

#[test]
fn move_by_moves_onto_free_tiles() {
    let grid = open_grid(5, 5);
    let mut objects = vec![thing(2, 2, true), thing(0, 0, true)];
    move_by(0, 1, -1, &grid, &mut objects);
    assert_eq!(objects[0].get_pos(), (3, 1));
    assert_eq!(objects[1].get_pos(), (0, 0));
}

#[test]
fn move_by_stops_at_walls_and_objects() {
    let mut grid = open_grid(5, 5);
    grid.map[3][2] = Tile::wall(3, 2, default_shade());
    let mut objects = vec![thing(2, 2, true), thing(2, 3, true), thing(1, 2, false)];
    move_by(0, 1, 0, &grid, &mut objects);
    assert_eq!(objects[0].get_pos(), (2, 2));
    move_by(0, 0, 1, &grid, &mut objects);
    assert_eq!(objects[0].get_pos(), (2, 2));
    // an object that does not block is no obstacle
    move_by(0, -1, 0, &grid, &mut objects);
    assert_eq!(objects[0].get_pos(), (1, 2));
}

#[test]
fn blocking_object_that_stays_is_in_its_own_way() {
    let grid = open_grid(3, 3);
    let mut objects = vec![thing(1, 1, true)];
    move_by(0, 0, 0, &grid, &mut objects);
    assert_eq!(objects[0].get_pos(), (1, 1));
}

#[test]
fn step_is_the_rounded_unit_vector() {
    assert_eq!(step_towards(0, 0), 0);
    assert_eq!(step_towards(5, 0), 1);
    assert_eq!(step_towards(-5, 0), -1);
    assert_eq!(step_towards(0, 5), 0);
    // at a diagonal both parts are 0.707
    assert_eq!(step_towards(3, 3), 1);
    assert_eq!(step_towards(-3, 3), -1);
    // 1 / sqrt(5) is 0.447, 2 / sqrt(5) is 0.894
    assert_eq!(step_towards(1, 2), 0);
    assert_eq!(step_towards(2, 1), 1);
    // 4 / sqrt(16 + 49) is 0.496, 4 / sqrt(16 + 36) is 0.555
    assert_eq!(step_towards(4, 7), 0);
    assert_eq!(step_towards(4, 6), 1);
    assert_eq!(step_towards(-4, -7), 0);
    assert_eq!(step_towards(-4, -6), -1);
    assert_eq!(step_towards(i32::MIN, i32::MAX), -1);
    assert_eq!(step_towards(1, i32::MIN), 0);
}

#[test]
fn move_towards_takes_one_step() {
    let grid = open_grid(20, 20);
    let mut objects = vec![thing(5, 5, true)];
    move_towards(0, 15, 5, &grid, &mut objects);
    assert_eq!(objects[0].get_pos(), (6, 5));
    move_towards(0, 10, 9, &grid, &mut objects);
    assert_eq!(objects[0].get_pos(), (7, 6));
    move_towards(0, 6, 16, &grid, &mut objects);
    assert_eq!(objects[0].get_pos(), (7, 7));
    move_towards(0, 0, 0, &grid, &mut objects);
    assert_eq!(objects[0].get_pos(), (6, 6));
}

#[test]
fn move_towards_its_own_place_stays() {
    let grid = open_grid(4, 4);
    let mut objects = vec![thing(2, 2, false)];
    move_towards(0, 2, 2, &grid, &mut objects);
    assert_eq!(objects[0].get_pos(), (2, 2));
}

#[test]
fn move_towards_is_stopped_by_what_is_in_the_way() {
    let grid = open_grid(10, 10);
    let mut objects = vec![thing(5, 5, true), thing(6, 5, true)];
    move_towards(0, 9, 5, &grid, &mut objects);
    assert_eq!(objects[0].get_pos(), (5, 5));
    assert_eq!(objects[1].get_pos(), (6, 5));
}

struct Wanderer {
    steps: i32,
}

impl Input for Wanderer {
    fn update(&mut self, object: &mut Object, map: &Grid) {
        let (x, y) = object.get_pos();
        if x + 1 < map.width {
            object.set_pos(x + 1, y);
            self.steps += 1;
        }
    }
}

#[test]
fn input_moves_an_object() {
    let grid = open_grid(3, 1);
    let mut object = thing(0, 0, false);
    let mut wanderer = Wanderer { steps: 0 };
    for _ in 0..5 {
        wanderer.update(&mut object, &grid);
    }
    assert_eq!(object.get_pos(), (2, 0));
    assert_eq!(wanderer.steps, 2);
}
