//! What holds of every scan: a full line hides the rest of its octant, and
//! on a grid without walls a light shows every cell within its reach.

use crate::distance::{lemma_distance_lt_tiles, spec_distance, UNITS_PER_TILE};
use crate::entities::light::{lemma_max_dist_is_ceiling, LightSource};
use crate::map::map::{lemma_projection_wf, octant_delta, refresh_from, spec_project_tile, Sweep};
use crate::map::shadow_line::{lemma_full_line_covers, line_covers, line_is_full, Shadow};
use crate::map::tile::Tile;
use vstd::prelude::*;

verus! {

/// The grid has `width` columns of `height` tiles.
pub open spec fn grid_shape(grid: Seq<Seq<Tile>>, width: int, height: int) -> bool {
    &&& grid.len() == width
    &&& forall|i: int| 0 <= i < width ==> (#[trigger] grid[i]).len() == height
}

/// The tile at `(px, py)` is visible.
pub open spec fn visible_at(grid: Seq<Seq<Tile>>, px: int, py: int) -> bool {
    grid[px][py].visible
}

/// The tile at `(px, py)` blocks sight.
pub open spec fn wall_at(grid: Seq<Seq<Tile>>, px: int, py: int) -> bool {
    grid[px][py].block_sight
}

/// No tile of the grid blocks sight.
pub open spec fn no_walls(grid: Seq<Seq<Tile>>, width: int, height: int) -> bool {
    forall|px: int, py: int| 0 <= px < width && 0 <= py < height ==> !#[trigger] wall_at(grid, px, py)
}

/// A light at `(x, y)` reaches the cell at `(px, py)`.
pub open spec fn in_reach(light: LightSource, x: int, y: int, px: int, py: int) -> bool {
    spec_distance(px - x, py - y) < light.max_dist
}

/// The tile at `(px, py)` is visible exactly if the light at `(x, y)` reaches it.
pub open spec fn settled(
    grid: Seq<Seq<Tile>>,
    light: LightSource,
    x: int,
    y: int,
    px: int,
    py: int,
) -> bool {
    grid[px][py].visible == in_reach(light, x, y, px, py)
}

/// A cell of an octant is as far from the origin as its row and column say,
/// whatever the octant.
pub proof fn lemma_delta_distance(row: int, col: int, octant: int)
    ensures
        ({
            let delta = octant_delta(row, col, octant);
            spec_distance(delta.0, delta.1) == spec_distance(row, col)
        }),
{
    let delta = octant_delta(row, col, octant);
    assert(delta.0 * delta.0 + delta.1 * delta.1 == row * row + col * col) by (nonlinear_arith)
        requires
            (delta.0 == row || delta.0 == -row) && (delta.1 == col || delta.1 == -col) || (delta.0
                == col || delta.0 == -col) && (delta.1 == row || delta.1 == -row),
    ;
}

/// The octant, row and column at which a scan meets the cell that lies
/// `dx` columns and `dy` rows from the origin.
pub open spec fn octant_of(dx: int, dy: int) -> (int, int, int) {
    if dy < 0 && 0 <= dx <= -dy {
        (0, -dy, dx)
    } else if dx > 0 && dy <= 0 {
        (1, dx, -dy)
    } else if dx > 0 && dy <= dx {
        (2, dx, dy)
    } else if dy > 0 && dx >= 0 {
        (3, dy, dx)
    } else if dy > 0 && -dx <= dy {
        (4, dy, -dx)
    } else if dx < 0 && dy >= 0 {
        (5, -dx, dy)
    } else if dx < 0 && dy >= dx {
        (6, -dx, -dy)
    } else {
        (7, -dy, -dx)
    }
}

/// The eight octants leave no gap: every cell but the origin lies in one
/// of them, at a row from the first on and a column up to the row.
pub proof fn lemma_octants_cover(dx: int, dy: int)
    requires
        dx != 0 || dy != 0,
    ensures
        ({
            let (octant, row, col) = octant_of(dx, dy);
            &&& 0 <= octant < 8
            &&& 1 <= row
            &&& 0 <= col <= row
            &&& octant_delta(row, col, octant) == (dx, dy)
        }),
{
}

/// A cell of a row lies on the grid only if the cells before it in the
/// row do, and only if the rows before it begin on the grid.
pub proof fn lemma_holds_earlier(sweep: Sweep, row: int, col: int, earlier_row: int, earlier_col: int)
    requires
        sweep.wf(),
        0 <= col <= row,
        sweep.holds(row, col),
        0 <= earlier_col <= col,
        0 <= earlier_row <= row,
    ensures
        sweep.holds(row, earlier_col),
        sweep.holds(earlier_row, 0),
        row <= i32::MAX,
{
}

/// Scanning one cell under a full line leaves the line as it is and the
/// cell not visible; no other tile changes.
pub proof fn lemma_full_shadow_cell(
    sweep: Sweep,
    grid: Seq<Seq<Tile>>,
    line: Seq<Shadow>,
    row: int,
    col: int,
)
    requires
        sweep.wf(),
        grid_shape(grid, sweep.width as int, sweep.height as int),
        line_is_full(line),
        0 <= col <= row,
        sweep.holds(row, col),
    ensures
        ({
            let out = sweep.scan_cell(grid, line, row, col);
            let p = sweep.pos(row, col);
            &&& out.1 == line
            &&& grid_shape(out.0, sweep.width as int, sweep.height as int)
            &&& !visible_at(out.0, p.0, p.1)
            &&& forall|px: int, py: int|
                0 <= px < sweep.width && 0 <= py < sweep.height && (px, py) != p ==> out.0[px][py]
                    == grid[px][py]
        }),
{
    lemma_holds_earlier(sweep, row, col, row, col);
    lemma_projection_wf(row, col);
    lemma_full_line_covers(line, spec_project_tile(row, col));
}

/// Under a full line the rest of a row is scanned without a change to the
/// line. Every cell of the row that the scan reaches is left not visible,
/// and no tile of the grid becomes visible.
pub proof fn lemma_full_shadow_row(
    sweep: Sweep,
    grid: Seq<Seq<Tile>>,
    line: Seq<Shadow>,
    row: int,
    col: int,
)
    requires
        sweep.wf(),
        grid_shape(grid, sweep.width as int, sweep.height as int),
        line_is_full(line),
        0 <= col <= row + 1,
    ensures
        ({
            let out = sweep.scan_row(grid, line, row, col);
            &&& out.1 == line
            &&& grid_shape(out.0, sweep.width as int, sweep.height as int)
            &&& forall|px: int, py: int|
                0 <= px < sweep.width && 0 <= py < sweep.height && #[trigger] visible_at(
                    out.0,
                    px,
                    py,
                ) ==> visible_at(grid, px, py)
            &&& forall|c: int|
                col <= c <= row && #[trigger] sweep.holds(row, c) ==> !visible_at(
                    out.0,
                    sweep.pos(row, c).0,
                    sweep.pos(row, c).1,
                )
        }),
    decreases row - col + 1,
{
    let out = sweep.scan_row(grid, line, row, col);
    if col > row || !sweep.holds(row, col) {
        assert forall|c: int| col <= c <= row && #[trigger] sweep.holds(row, c) implies !visible_at(
            out.0,
            sweep.pos(row, c).0,
            sweep.pos(row, c).1,
        ) by {
            lemma_holds_earlier(sweep, row, c, row, col);
        }
    } else {
        let next = sweep.scan_cell(grid, line, row, col);
        let p = sweep.pos(row, col);
        lemma_full_shadow_cell(sweep, grid, line, row, col);
        lemma_full_shadow_row(sweep, next.0, next.1, row, col + 1);
        assert forall|px: int, py: int|
            0 <= px < sweep.width && 0 <= py < sweep.height && #[trigger] visible_at(
                out.0,
                px,
                py,
            ) implies visible_at(grid, px, py) by {
            assert(visible_at(next.0, px, py));
            if (px, py) != p {
                assert(next.0[px][py] == grid[px][py]);
            }
        }
        assert forall|c: int| col <= c <= row && #[trigger] sweep.holds(row, c) implies !visible_at(
            out.0,
            sweep.pos(row, c).0,
            sweep.pos(row, c).1,
        ) by {
            let q = sweep.pos(row, c);
            if c == col {
                assert(!visible_at(next.0, q.0, q.1));
                assert(!visible_at(out.0, q.0, q.1));
            }
        }
    }
}

/// Once the line of an octant is full, the rest of the octant is scanned
/// without a change to the line: every cell that the scan reaches from
/// `row` on is left not visible, and no tile of the grid becomes visible.
pub proof fn lemma_full_shadow_octant(
    sweep: Sweep,
    grid: Seq<Seq<Tile>>,
    line: Seq<Shadow>,
    row: int,
)
    requires
        sweep.wf(),
        grid_shape(grid, sweep.width as int, sweep.height as int),
        line_is_full(line),
        0 <= row,
    ensures
        ({
            let out = sweep.scan_octant(grid, line, row);
            &&& grid_shape(out, sweep.width as int, sweep.height as int)
            &&& forall|px: int, py: int|
                0 <= px < sweep.width && 0 <= py < sweep.height && #[trigger] visible_at(
                    out,
                    px,
                    py,
                ) ==> visible_at(grid, px, py)
            &&& forall|r: int, c: int|
                row <= r && 0 <= c <= r && #[trigger] sweep.holds(r, c) ==> !visible_at(
                    out,
                    sweep.pos(r, c).0,
                    sweep.pos(r, c).1,
                )
        }),
    decreases sweep.row_limit() - row,
{
    let out = sweep.scan_octant(grid, line, row);
    if !sweep.holds(row, 0) {
        assert forall|r: int, c: int|
            row <= r && 0 <= c <= r && #[trigger] sweep.holds(r, c) implies !visible_at(
            out,
            sweep.pos(r, c).0,
            sweep.pos(r, c).1,
        ) by {
            lemma_holds_earlier(sweep, r, c, row, 0);
        }
    } else {
        let next = sweep.scan_row(grid, line, row, 0);
        lemma_full_shadow_row(sweep, grid, line, row, 0);
        lemma_full_shadow_octant(sweep, next.0, next.1, row + 1);
        assert forall|px: int, py: int|
            0 <= px < sweep.width && 0 <= py < sweep.height && #[trigger] visible_at(
                out,
                px,
                py,
            ) implies visible_at(grid, px, py) by {
            assert(visible_at(next.0, px, py));
        }
        assert forall|r: int, c: int|
            row <= r && 0 <= c <= r && #[trigger] sweep.holds(r, c) implies !visible_at(
            out,
            sweep.pos(r, c).0,
            sweep.pos(r, c).1,
        ) by {
            let q = sweep.pos(r, c);
            if r == row {
                assert(!visible_at(next.0, q.0, q.1));
                assert(!visible_at(out, q.0, q.1));
            }
        }
    }
}

/// On a grid without walls, scanning one cell under an empty line leaves
/// the line empty and the cell visible exactly if the light reaches it; no
/// other tile changes.
pub proof fn lemma_open_cell(sweep: Sweep, grid: Seq<Seq<Tile>>, row: int, col: int)
    requires
        sweep.wf(),
        grid_shape(grid, sweep.width as int, sweep.height as int),
        no_walls(grid, sweep.width as int, sweep.height as int),
        0 <= col <= row,
        sweep.holds(row, col),
    ensures
        ({
            let out = sweep.scan_cell(grid, Seq::empty(), row, col);
            let p = sweep.pos(row, col);
            &&& out.1 == Seq::<Shadow>::empty()
            &&& grid_shape(out.0, sweep.width as int, sweep.height as int)
            &&& no_walls(out.0, sweep.width as int, sweep.height as int)
            &&& settled(out.0, sweep.light, sweep.x as int, sweep.y as int, p.0, p.1)
            &&& forall|px: int, py: int|
                0 <= px < sweep.width && 0 <= py < sweep.height && (px, py) != p ==> out.0[px][py]
                    == grid[px][py]
        }),
{
    let out = sweep.scan_cell(grid, Seq::empty(), row, col);
    let p = sweep.pos(row, col);
    lemma_delta_distance(row, col, sweep.octant as int);
    assert(!wall_at(grid, p.0, p.1));
    assert(!line_covers(Seq::<Shadow>::empty(), spec_project_tile(row, col)));
    assert forall|px: int, py: int|
        0 <= px < sweep.width && 0 <= py < sweep.height implies !#[trigger] wall_at(
        out.0,
        px,
        py,
    ) by {
        assert(!wall_at(grid, px, py));
    }
}

/// On a grid without walls, scanning the rest of a row under an empty
/// line settles every cell of the row that lies on the grid, and unsettles
/// none.
pub proof fn lemma_open_row(sweep: Sweep, grid: Seq<Seq<Tile>>, row: int, col: int)
    requires
        sweep.wf(),
        grid_shape(grid, sweep.width as int, sweep.height as int),
        no_walls(grid, sweep.width as int, sweep.height as int),
        0 <= col <= row + 1,
    ensures
        ({
            let out = sweep.scan_row(grid, Seq::empty(), row, col);
            &&& out.1 == Seq::<Shadow>::empty()
            &&& grid_shape(out.0, sweep.width as int, sweep.height as int)
            &&& no_walls(out.0, sweep.width as int, sweep.height as int)
            &&& forall|px: int, py: int|
                0 <= px < sweep.width && 0 <= py < sweep.height && settled(
                    grid,
                    sweep.light,
                    sweep.x as int,
                    sweep.y as int,
                    px,
                    py,
                ) ==> #[trigger] settled(out.0, sweep.light, sweep.x as int, sweep.y as int, px, py)
            &&& forall|c: int|
                col <= c <= row && #[trigger] sweep.holds(row, c) ==> settled(
                    out.0,
                    sweep.light,
                    sweep.x as int,
                    sweep.y as int,
                    sweep.pos(row, c).0,
                    sweep.pos(row, c).1,
                )
        }),
    decreases row - col + 1,
{
    let out = sweep.scan_row(grid, Seq::empty(), row, col);
    let (x, y) = (sweep.x as int, sweep.y as int);
    if col > row || !sweep.holds(row, col) {
        assert forall|c: int| col <= c <= row && #[trigger] sweep.holds(row, c) implies settled(
            out.0,
            sweep.light,
            x,
            y,
            sweep.pos(row, c).0,
            sweep.pos(row, c).1,
        ) by {
            lemma_holds_earlier(sweep, row, c, row, col);
        }
    } else {
        let next = sweep.scan_cell(grid, Seq::empty(), row, col);
        let p = sweep.pos(row, col);
        lemma_open_cell(sweep, grid, row, col);
        lemma_open_row(sweep, next.0, row, col + 1);
        assert forall|px: int, py: int|
            0 <= px < sweep.width && 0 <= py < sweep.height && settled(
                grid,
                sweep.light,
                x,
                y,
                px,
                py,
            ) implies #[trigger] settled(out.0, sweep.light, x, y, px, py) by {
            if (px, py) != p {
                assert(next.0[px][py] == grid[px][py]);
            }
            assert(settled(next.0, sweep.light, x, y, px, py));
        }
        assert forall|c: int| col <= c <= row && #[trigger] sweep.holds(row, c) implies settled(
            out.0,
            sweep.light,
            x,
            y,
            sweep.pos(row, c).0,
            sweep.pos(row, c).1,
        ) by {
            let q = sweep.pos(row, c);
            if c == col {
                assert(settled(next.0, sweep.light, x, y, q.0, q.1));
                assert(settled(out.0, sweep.light, x, y, q.0, q.1));
            }
        }
    }
}

/// On a grid without walls, scanning an octant from `row` on under an
/// empty line settles every cell of those rows that lies on the grid, and
/// unsettles none.
pub proof fn lemma_open_octant(sweep: Sweep, grid: Seq<Seq<Tile>>, row: int)
    requires
        sweep.wf(),
        grid_shape(grid, sweep.width as int, sweep.height as int),
        no_walls(grid, sweep.width as int, sweep.height as int),
        0 <= row,
    ensures
        ({
            let out = sweep.scan_octant(grid, Seq::empty(), row);
            &&& grid_shape(out, sweep.width as int, sweep.height as int)
            &&& no_walls(out, sweep.width as int, sweep.height as int)
            &&& forall|px: int, py: int|
                0 <= px < sweep.width && 0 <= py < sweep.height && settled(
                    grid,
                    sweep.light,
                    sweep.x as int,
                    sweep.y as int,
                    px,
                    py,
                ) ==> #[trigger] settled(out, sweep.light, sweep.x as int, sweep.y as int, px, py)
            &&& forall|r: int, c: int|
                row <= r && 0 <= c <= r && #[trigger] sweep.holds(r, c) ==> settled(
                    out,
                    sweep.light,
                    sweep.x as int,
                    sweep.y as int,
                    sweep.pos(r, c).0,
                    sweep.pos(r, c).1,
                )
        }),
    decreases sweep.row_limit() - row,
{
    let out = sweep.scan_octant(grid, Seq::empty(), row);
    let (x, y) = (sweep.x as int, sweep.y as int);
    if !sweep.holds(row, 0) {
        assert forall|r: int, c: int|
            row <= r && 0 <= c <= r && #[trigger] sweep.holds(r, c) implies settled(
            out,
            sweep.light,
            x,
            y,
            sweep.pos(r, c).0,
            sweep.pos(r, c).1,
        ) by {
            lemma_holds_earlier(sweep, r, c, row, 0);
        }
    } else {
        let next = sweep.scan_row(grid, Seq::empty(), row, 0);
        lemma_open_row(sweep, grid, row, 0);
        lemma_open_octant(sweep, next.0, row + 1);
        assert forall|px: int, py: int|
            0 <= px < sweep.width && 0 <= py < sweep.height && settled(
                grid,
                sweep.light,
                x,
                y,
                px,
                py,
            ) implies #[trigger] settled(out, sweep.light, x, y, px, py) by {
            assert(settled(next.0, sweep.light, x, y, px, py));
        }
        assert forall|r: int, c: int|
            row <= r && 0 <= c <= r && #[trigger] sweep.holds(r, c) implies settled(
            out,
            sweep.light,
            x,
            y,
            sweep.pos(r, c).0,
            sweep.pos(r, c).1,
        ) by {
            let q = sweep.pos(r, c);
            if r == row {
                assert(settled(next.0, sweep.light, x, y, q.0, q.1));
                assert(settled(out, sweep.light, x, y, q.0, q.1));
            }
        }
    }
}

/// On a grid without walls, scanning the octants from `octant` on settles
/// every cell of those octants that lies on the grid, and unsettles none.
pub proof fn lemma_open_refresh(
    grid: Seq<Seq<Tile>>,
    width: i32,
    height: i32,
    x: i32,
    y: i32,
    light: LightSource,
    octant: int,
)
    requires
        grid_shape(grid, width as int, height as int),
        no_walls(grid, width as int, height as int),
        0 <= x < width,
        0 <= y < height,
        light.intensity > 0,
        0 <= octant <= 8,
    ensures
        ({
            let out = refresh_from(grid, width, height, x, y, light, octant);
            &&& grid_shape(out, width as int, height as int)
            &&& forall|px: int, py: int|
                0 <= px < width && 0 <= py < height && settled(
                    grid,
                    light,
                    x as int,
                    y as int,
                    px,
                    py,
                ) ==> #[trigger] settled(out, light, x as int, y as int, px, py)
            &&& forall|k: int, r: int, c: int|
                octant <= k < 8 && 1 <= r && 0 <= c <= r && #[trigger] (Sweep {
                    width,
                    height,
                    x,
                    y,
                    octant: k as i32,
                    light,
                }).holds(r, c) ==> settled(
                    out,
                    light,
                    x as int,
                    y as int,
                    x + octant_delta(r, c, k).0,
                    y + octant_delta(r, c, k).1,
                )
        }),
    decreases 8 - octant,
{
    if octant < 8 {
        let out = refresh_from(grid, width, height, x, y, light, octant);
        let sweep = Sweep { width, height, x, y, octant: octant as i32, light };
        let next = sweep.scan_octant(grid, Seq::empty(), 1);
        lemma_open_octant(sweep, grid, 1);
        lemma_open_refresh(next, width, height, x, y, light, octant + 1);
        assert forall|px: int, py: int|
            0 <= px < width && 0 <= py < height && settled(
                grid,
                light,
                x as int,
                y as int,
                px,
                py,
            ) implies #[trigger] settled(out, light, x as int, y as int, px, py) by {
            assert(settled(next, light, x as int, y as int, px, py));
        }
        assert forall|k: int, r: int, c: int|
            octant <= k < 8 && 1 <= r && 0 <= c <= r && #[trigger] (Sweep {
                width,
                height,
                x,
                y,
                octant: k as i32,
                light,
            }).holds(r, c) implies settled(
            out,
            light,
            x as int,
            y as int,
            x + octant_delta(r, c, k).0,
            y + octant_delta(r, c, k).1,
        ) by {
            if k == octant {
                let q = sweep.pos(r, c);
                assert(sweep.holds(r, c));
                assert(settled(next, light, x as int, y as int, q.0, q.1));
                assert(settled(out, light, x as int, y as int, q.0, q.1));
            }
        }
    }
}

/// On a grid without walls, after the light at `(x, y)` was refreshed every
/// cell of the grid but the origin is visible exactly if it is nearer than
/// the reach of the light, whichever octants the scan met it in. The
/// origin itself is not scanned.
pub proof fn lemma_open_grid_shows_reach(
    grid: Seq<Seq<Tile>>,
    width: i32,
    height: i32,
    x: i32,
    y: i32,
    light: LightSource,
    px: int,
    py: int,
)
    requires
        grid_shape(grid, width as int, height as int),
        no_walls(grid, width as int, height as int),
        0 <= x < width,
        0 <= y < height,
        light.intensity > 0,
        0 <= px < width,
        0 <= py < height,
        px != x || py != y,
    ensures
        refresh_from(grid, width, height, x, y, light, 0)[px][py].visible == (spec_distance(
            px - x,
            py - y,
        ) < light.max_dist),
{
    let (k, r, c) = octant_of(px - x, py - y);
    lemma_octants_cover(px - x, py - y);
    lemma_open_refresh(grid, width, height, x, y, light, 0);
    let sweep = Sweep { width, height, x, y, octant: k as i32, light };
    assert(sweep.holds(r, c));
}

/// The reach of a well-formed light is a whole number of tiles, so a cell
/// is nearer than the reach exactly if the sum of the squares of its
/// offsets is below the square of that number: on a grid without walls the
/// visible cells are those within the true distance.
pub proof fn lemma_open_grid_shows_circle(
    grid: Seq<Seq<Tile>>,
    width: i32,
    height: i32,
    x: i32,
    y: i32,
    light: LightSource,
    px: int,
    py: int,
)
    requires
        grid_shape(grid, width as int, height as int),
        no_walls(grid, width as int, height as int),
        0 <= x < width,
        0 <= y < height,
        light.wf(),
        0 <= px < width,
        0 <= py < height,
        px != x || py != y,
    ensures
        ({
            let tiles = light.max_dist as int / UNITS_PER_TILE as int;
            refresh_from(grid, width, height, x, y, light, 0)[px][py].visible == ((px - x) * (px
                - x) + (py - y) * (py - y) < tiles * tiles)
        }),
{
    lemma_open_grid_shows_reach(grid, width, height, x, y, light, px, py);
    lemma_max_dist_is_ceiling(light.fall_off_distance, light.intensity);
    let tiles = light.max_dist as int / UNITS_PER_TILE as int;
    assert(light.max_dist == tiles * UNITS_PER_TILE);
    lemma_distance_lt_tiles(px - x, py - y, tiles as nat);
}

} // verus!
