use rogue_light::colors::white;
use rogue_light::entities::light::{max_shade, LightSource};
use rogue_light::entities::object::Object;
use rogue_light::fraction::Fraction;
use rogue_light::map::map::{default_shade, Grid};
use rogue_light::map::tile::Tile;

fn open_grid(width: i32, height: i32) -> Grid {
    let mut grid = Grid::new(width, height);
    for x in 0..width {
        for y in 0..height {
            grid.map[x as usize][y as usize] = Tile::floor(x, y, default_shade());
        }
    }
    grid
}

fn put_wall(grid: &mut Grid, x: i32, y: i32) {
    grid.map[x as usize][y as usize] = Tile::wall(x, y, default_shade());
}

fn torch() -> LightSource {
    LightSource::new(3000, 8000)
}

fn visible(grid: &Grid, x: i32, y: i32) -> bool {
    grid.map[x as usize][y as usize].visible
}

#[test]
fn new_grid_is_all_walls() {
    let grid = Grid::new(4, 3);
    assert_eq!((grid.width, grid.height), (4, 3));
    assert_eq!(grid.map.len(), 4);
    for column in &grid.map {
        assert_eq!(column.len(), 3);
        for tile in column {
            assert!(tile.blocked && tile.block_sight);
            assert!(!tile.visible && !tile.explored);
            assert_eq!((tile.x, tile.y), (0, 0));
            assert_eq!((tile.shade_factor.num, tile.shade_factor.den), (4, 5));
        }
    }
}

#[test]
fn empty_grid_can_be_made() {
    let grid = Grid::new(0, 0);
    assert!(grid.map.is_empty());
    let grid = Grid::new(3, 0);
    assert_eq!(grid.map.len(), 3);
    assert!(grid.map[0].is_empty());
}

#[test]
fn default_shade_is_the_darkest() {
    assert!(default_shade().same(&max_shade()));
    assert!(default_shade().same(&Fraction::new(8, 10)));
}

#[test]
fn octants_turn_row_and_column_into_steps() {
    let grid = Grid::new(1, 1);
    assert_eq!(grid.transform_octant(3, 1, 0), (1, -3));
    assert_eq!(grid.transform_octant(3, 1, 1), (3, -1));
    assert_eq!(grid.transform_octant(3, 1, 2), (3, 1));
    assert_eq!(grid.transform_octant(3, 1, 3), (1, 3));
    assert_eq!(grid.transform_octant(3, 1, 4), (-1, 3));
    assert_eq!(grid.transform_octant(3, 1, 5), (-3, 1));
    assert_eq!(grid.transform_octant(3, 1, 6), (-3, -1));
    assert_eq!(grid.transform_octant(3, 1, 7), (-1, -3));
    assert_eq!(grid.transform_octant(3, 1, 8), (-1, -3));
    assert_eq!(grid.transform_octant(3, 1, -1), (-1, -3));
}

#[test]
fn octants_cover_every_neighbour_of_the_origin() {
    let grid = Grid::new(1, 1);
    let mut met = Vec::new();
    for octant in 0..8 {
        for col in 0..2 {
            let step = grid.transform_octant(1, col, octant);
            if !met.contains(&step) {
                met.push(step);
            }
        }
    }
    met.sort();
    assert_eq!(
        met,
        vec![(-1, -1), (-1, 0), (-1, 1), (0, -1), (0, 1), (1, -1), (1, 0), (1, 1)]
    );
}

#[test]
fn projection_of_a_cell() {
    let grid = Grid::new(1, 1);
    let p = grid.project_tile(1, 0);
    assert_eq!((p.start.num, p.start.den, p.end.num, p.end.den), (0, 3, 1, 2));
    let p = grid.project_tile(2, 1);
    assert_eq!((p.start.num, p.start.den, p.end.num, p.end.den), (1, 4, 2, 3));
    let p = grid.project_tile(5, 5);
    assert_eq!((p.start.num, p.start.den, p.end.num, p.end.den), (5, 7, 6, 6));
    let p = grid.project_tile(i32::MAX, i32::MAX);
    assert_eq!(
        (p.start.num, p.start.den, p.end.num, p.end.den),
        (2147483647, 2147483649, 2147483648, 2147483648)
    );
}

#[test]
fn shade_factor_is_capped_at_the_default() {
    let grid = Grid::new(1, 1);
    let light = torch();
    let s = grid.get_shade_factor(5, 0, &light);
    assert_eq!((s.num, s.den), (2000, 8000));
    let s = grid.get_shade_factor(3, 4, &light);
    assert_eq!((s.num, s.den), (2000, 8000));
    let s = grid.get_shade_factor(1, 1, &light);
    assert_eq!((s.num, s.den), (0, 1));
    let s = grid.get_shade_factor(9, 0, &light);
    assert_eq!((s.num, s.den), (6000, 8000));
    // sqrt(90) tiles is 9486 units: (9486 - 3000) / 8000 is above 4 / 5
    let s = grid.get_shade_factor(9, 3, &light);
    assert_eq!((s.num, s.den), (4, 5));
    // exactly 4 / 5 at 9.4 tiles: the cap itself is returned
    let s = grid.get_shade_factor(-94, 0, &LightSource::new(30_000, 80_000));
    assert_eq!((s.num, s.den), (4, 5));
}

#[test]
fn open_grid_shows_all_within_reach() {
    let radius = 12;
    let size = 2 * radius + 1;
    let mut grid = open_grid(size, size);
    let light = torch();
    assert_eq!(light.max_dist, 10_000);
    grid.refresh_lights(radius, radius, &light);
    for x in 0..size {
        for y in 0..size {
            if (x, y) == (radius, radius) {
                continue;
            }
            let (dx, dy) = (x - radius, y - radius);
            let within = dx * dx + dy * dy < 100;
            let tile = grid.map[x as usize][y as usize];
            assert_eq!(tile.visible, within, "visible at {:?}", (x, y));
            assert_eq!(tile.explored, within, "explored at {:?}", (x, y));
            if !within {
                assert_eq!((tile.shade_factor.num, tile.shade_factor.den), (4, 5));
            }
        }
    }
}

#[test]
fn open_grid_is_the_same_in_all_eight_octants() {
    let radius = 12;
    let size = 2 * radius + 1;
    let mut grid = open_grid(size, size);
    grid.refresh_lights(radius, radius, &torch());
    for dx in 0..=radius {
        for dy in 0..=radius {
            if (dx, dy) == (0, 0) {
                continue;
            }
            let here = grid.map[(radius + dx) as usize][(radius + dy) as usize];
            let images = [
                (dx, -dy),
                (-dx, dy),
                (-dx, -dy),
                (dy, dx),
                (dy, -dx),
                (-dy, dx),
                (-dy, -dx),
            ];
            for (ix, iy) in images {
                let there = grid.map[(radius + ix) as usize][(radius + iy) as usize];
                assert_eq!(there.visible, here.visible);
                assert!(there.shade_factor.same(&here.shade_factor));
            }
        }
    }
}

#[test]
fn origin_is_not_scanned() {
    let mut grid = open_grid(5, 5);
    grid.refresh_lights(2, 2, &torch());
    let tile = grid.map[2][2];
    assert!(!tile.visible);
    assert!(!tile.explored);
    assert_eq!((tile.shade_factor.num, tile.shade_factor.den), (4, 5));
}

#[test]
fn lit_tiles_are_shaded_by_distance() {
    let mut grid = open_grid(21, 21);
    grid.refresh_lights(10, 10, &torch());
    // within the fall-off distance: no shade
    let near = grid.map[12][10];
    assert!(near.visible && near.explored);
    assert!(near.shade_factor.is_zero());
    // five tiles away: a quarter
    for (x, y) in [(15, 10), (10, 15), (5, 10), (10, 5), (13, 14), (6, 7)] {
        let tile = grid.map[x][y];
        assert!(tile.visible && tile.explored);
        assert_eq!((tile.shade_factor.num, tile.shade_factor.den), (2000, 8000));
        assert!(tile.shade_factor.same(&Fraction::new(1, 4)));
    }
    // nine tiles away: three quarters
    let far = grid.map[19][10];
    assert!(far.visible);
    assert_eq!((far.shade_factor.num, far.shade_factor.den), (6000, 8000));
    // ten tiles away: out of reach
    let out = grid.map[20][10];
    assert!(!out.visible && !out.explored);
    assert_eq!((out.shade_factor.num, out.shade_factor.den), (4, 5));
    // sqrt(90) tiles away: seen, and capped at the darkest shade
    let dim = grid.map[19][13];
    assert!(dim.visible && dim.explored);
    assert_eq!((dim.shade_factor.num, dim.shade_factor.den), (4, 5));
}

#[test]
fn explored_tiles_stay_explored() {
    let mut grid = open_grid(40, 5);
    let light = torch();
    grid.refresh_lights(2, 2, &light);
    let first: Vec<Vec<bool>> =
        grid.map.iter().map(|column| column.iter().map(|t| t.explored).collect()).collect();
    assert!(first[5][2]);
    assert!(!first[30][2]);
    grid.refresh_lights(36, 2, &light);
    assert!(!visible(&grid, 5, 2));
    assert!(visible(&grid, 30, 2));
    for x in 0..40 {
        for y in 0..5 {
            let tile = grid.map[x][y];
            if first[x][y] {
                assert!(tile.explored, "explored was lost at {:?}", (x, y));
            }
            assert_eq!(tile.explored, first[x][y] || tile.visible);
        }
    }
    grid.refresh_lights(2, 2, &light);
    assert!(grid.map[30][2].explored);
    assert!(!visible(&grid, 30, 2));
}

#[test]
fn shade_stays_between_zero_and_the_darkest() {
    let mut grid = open_grid(30, 20);
    for (x, y) in [(10, 8), (11, 8), (12, 12), (3, 3), (20, 10), (15, 15), (14, 9)] {
        put_wall(&mut grid, x, y);
    }
    let lights = [torch(), LightSource::new(0, 1), LightSource::new(50_000, 1), LightSource::new(1, 100_000)];
    for light in lights.iter() {
        for (x, y) in [(12, 10), (0, 0), (29, 19), (10, 9)] {
            grid.refresh_lights(x, y, light);
            for column in &grid.map {
                for tile in column {
                    assert!(tile.shade_factor.den > 0);
                    assert!(tile.shade_factor.le(&max_shade()));
                    assert!(Fraction::new(0, 1).le(&tile.shade_factor));
                }
            }
        }
    }
}

#[test]
fn refresh_keeps_what_it_does_not_own() {
    let mut grid = open_grid(12, 12);
    put_wall(&mut grid, 4, 5);
    put_wall(&mut grid, 7, 7);
    let before: Vec<Vec<Tile>> = grid.map.clone();
    grid.refresh_lights(5, 5, &torch());
    assert_eq!((grid.width, grid.height), (12, 12));
    for x in 0..12 {
        for y in 0..12 {
            let (old, new) = (before[x][y], grid.map[x][y]);
            assert_eq!(new.blocked, old.blocked);
            assert_eq!(new.block_sight, old.block_sight);
            assert_eq!((new.x, new.y), (old.x, old.y));
            assert_eq!((new.color.r, new.color.g, new.color.b), (old.color.r, old.color.g, old.color.b));
        }
    }
}

#[test]
fn full_line_hides_the_rest_of_the_octant() {
    let mut grid = open_grid(9, 9);
    put_wall(&mut grid, 4, 3);
    put_wall(&mut grid, 5, 3);
    grid.refresh_lights(4, 4, &torch());
    // the two walls are seen
    assert!(visible(&grid, 4, 3));
    assert!(visible(&grid, 5, 3));
    // all that lies behind them in their octant is not
    for (x, y) in [(5, 2), (5, 1), (6, 1), (5, 0), (6, 0), (7, 0)] {
        let tile = grid.map[x][y];
        assert!(!tile.visible, "visible at {:?}", (x, y));
        assert!(!tile.explored);
        assert_eq!((tile.shade_factor.num, tile.shade_factor.den), (4, 5));
    }
    // nor is what lies on the borders of the octant
    assert!(!visible(&grid, 4, 2));
    assert!(!visible(&grid, 6, 2));
    // the octant on the other side is open
    assert!(visible(&grid, 3, 2));
    assert!(visible(&grid, 4, 5));
}

#[test]
fn wall_next_to_the_origin_hides_the_cell_behind_it() {
    let steps = [(0, -1), (1, -1), (1, 0), (1, 1), (0, 1), (-1, 1), (-1, 0), (-1, -1)];
    for (dx, dy) in steps {
        let mut grid = open_grid(11, 11);
        put_wall(&mut grid, 5 + dx, 5 + dy);
        grid.refresh_lights(5, 5, &torch());
        assert!(visible(&grid, 5 + dx, 5 + dy), "the wall at {:?}", (dx, dy));
        assert!(!visible(&grid, 5 + 2 * dx, 5 + 2 * dy), "behind the wall at {:?}", (dx, dy));
        assert!(visible(&grid, 5 - 2 * dx, 5 - 2 * dy), "opposite the wall at {:?}", (dx, dy));
    }
}

#[test]
fn partly_covered_cell_is_still_seen() {
    let mut grid = open_grid(11, 11);
    put_wall(&mut grid, 5, 4);
    grid.refresh_lights(5, 5, &torch());
    // row 2, column 1 of the first octant: from 1/4 to 2/3, the wall covers up to 1/2
    assert!(visible(&grid, 6, 3));
    // row 2, column 0: from 0 to 1/3, covered
    assert!(!visible(&grid, 5, 3));
}

#[test]
fn refresh_from_a_corner_stays_on_the_grid() {
    for (x, y) in [(0, 0), (7, 0), (0, 5), (7, 5), (3, 0), (0, 3)] {
        let mut grid = open_grid(8, 6);
        grid.refresh_lights(x, y, &torch());
        for px in 0..8 {
            for py in 0..6 {
                if (px, py) != (x, y) {
                    assert!(visible(&grid, px, py), "from {:?} at {:?}", (x, y), (px, py));
                }
            }
        }
    }
}

#[test]
fn refresh_on_the_smallest_grid_changes_nothing() {
    let mut grid = open_grid(1, 1);
    grid.refresh_lights(0, 0, &torch());
    let tile = grid.map[0][0];
    assert!(!tile.visible && !tile.explored);
}

#[test]
fn one_octant_changes_only_its_wedge() {
    let mut grid = open_grid(9, 9);
    grid.refresh_octant(4, 4, 2, &torch());
    for x in 0..9 {
        for y in 0..9 {
            let (dx, dy) = (x - 4, y - 4);
            let in_wedge = dx >= 1 && 0 <= dy && dy <= dx;
            assert_eq!(visible(&grid, x, y), in_wedge, "at {:?}", (x, y));
        }
    }
}

#[test]
fn tiles_no_longer_lit_are_not_visible() {
    let mut grid = open_grid(40, 3);
    let light = torch();
    grid.refresh_lights(1, 1, &light);
    assert!(visible(&grid, 3, 1));
    grid.refresh_lights(38, 1, &light);
    let tile = grid.map[3][1];
    assert!(!tile.visible);
    assert!(tile.explored);
    assert_eq!((tile.shade_factor.num, tile.shade_factor.den), (4, 5));
}

#[test]
fn is_in_fov_reads_the_tile_under_the_object() {
    let mut grid = open_grid(30, 3);
    grid.refresh_lights(1, 1, &torch());
    let near = Object::new(4, 1, 'o', "Orc", white(), true);
    let far = Object::new(25, 1, 'T', "Troll", white(), true);
    let at_origin = Object::new(1, 1, '@', "player", white(), true);
    assert!(grid.is_in_fov(&near));
    assert!(!grid.is_in_fov(&far));
    assert!(!grid.is_in_fov(&at_origin));
}
