//! What a wall does to the scan: the line never loses what it covers, a
//! cell whose projection the line covers is left not visible, and a wall
//! next to the origin hides the cell behind it.

use crate::entities::light::LightSource;
use crate::map::map::{lemma_projection_wf, refresh_from, spec_project_tile, Sweep};
use crate::map::shadow_line::{
    first_not_before, insertion_index, lemma_merged_keeps_cover, lemma_merged_wf, line_covers,
    line_wf, merged, overlaps_next, overlaps_prev, Shadow,
};
use crate::map::sight::{
    grid_shape, lemma_holds_earlier, lemma_octants_cover, octant_of, visible_at, wall_at,
};
use crate::map::tile::Tile;
use vstd::prelude::*;

verus! {

/// The row and column at which a scan of `octant` meets the cell that lies
/// `dx` columns and `dy` rows from the origin, if it meets it at all.
pub open spec fn octant_cell(dx: int, dy: int, octant: int) -> (int, int) {
    if octant == 0 {
        (-dy, dx)
    } else if octant == 1 {
        (dx, -dy)
    } else if octant == 2 {
        (dx, dy)
    } else if octant == 3 {
        (dy, dx)
    } else if octant == 4 {
        (dy, -dx)
    } else if octant == 5 {
        (-dx, dy)
    } else if octant == 6 {
        (-dx, -dy)
    } else {
        (-dy, -dx)
    }
}

impl Sweep {
    /// The row and column of the octant at which the position `(px, py)` lies.
    pub open spec fn cell_of(&self, px: int, py: int) -> (int, int) {
        octant_cell(px - self.x, py - self.y, self.octant as int)
    }
}

/// A position has one row and column in an octant, and they lead back to it.
pub proof fn lemma_cell_of_pos(sweep: Sweep, row: int, col: int)
    ensures
        sweep.cell_of(sweep.pos(row, col).0, sweep.pos(row, col).1) == (row, col),
{
}

/// Scanning one cell keeps the shape of the grid and its walls, changes no
/// other tile, keeps the line well formed and keeps what it covers. A
/// cell whose projection the line covers is left not visible.
pub proof fn lemma_cell_basics(
    sweep: Sweep,
    grid: Seq<Seq<Tile>>,
    line: Seq<Shadow>,
    row: int,
    col: int,
    covered: Shadow,
)
    requires
        sweep.wf(),
        grid_shape(grid, sweep.width as int, sweep.height as int),
        line_wf(line),
        0 <= col <= row,
        sweep.holds(row, col),
    ensures
        ({
            let out = sweep.scan_cell(grid, line, row, col);
            let p = sweep.pos(row, col);
            &&& grid_shape(out.0, sweep.width as int, sweep.height as int)
            &&& line_wf(out.1)
            &&& line_covers(line, covered) ==> line_covers(out.1, covered)
            &&& line_covers(line, spec_project_tile(row, col)) ==> !visible_at(out.0, p.0, p.1)
            &&& forall|px: int, py: int|
                0 <= px < sweep.width && 0 <= py < sweep.height ==> #[trigger] wall_at(
                    out.0,
                    px,
                    py,
                ) == wall_at(grid, px, py)
            &&& forall|px: int, py: int|
                0 <= px < sweep.width && 0 <= py < sweep.height && (px, py) != p ==> out.0[px][py]
                    == grid[px][py]
        }),
{
    let projection = spec_project_tile(row, col);
    lemma_holds_earlier(sweep, row, col, row, col);
    lemma_projection_wf(row, col);
    if !line_covers(line, projection) {
        lemma_merged_wf(line, projection);
        if line_covers(line, covered) {
            lemma_merged_keeps_cover(line, projection, covered);
        }
    }
}

/// Scanning the rest of a row keeps the shape of the grid and its walls,
/// keeps the line well formed and keeps what it covers.
pub proof fn lemma_row_basics(
    sweep: Sweep,
    grid: Seq<Seq<Tile>>,
    line: Seq<Shadow>,
    row: int,
    col: int,
    covered: Shadow,
)
    requires
        sweep.wf(),
        grid_shape(grid, sweep.width as int, sweep.height as int),
        line_wf(line),
        0 <= col <= row + 1,
    ensures
        ({
            let out = sweep.scan_row(grid, line, row, col);
            &&& grid_shape(out.0, sweep.width as int, sweep.height as int)
            &&& line_wf(out.1)
            &&& line_covers(line, covered) ==> line_covers(out.1, covered)
            &&& forall|px: int, py: int|
                0 <= px < sweep.width && 0 <= py < sweep.height ==> #[trigger] wall_at(
                    out.0,
                    px,
                    py,
                ) == wall_at(grid, px, py)
        }),
    decreases row - col + 1,
{
    if !(col > row || !sweep.holds(row, col)) {
        let next = sweep.scan_cell(grid, line, row, col);
        lemma_cell_basics(sweep, grid, line, row, col, covered);
        lemma_row_basics(sweep, next.0, next.1, row, col + 1, covered);
        let out = sweep.scan_row(grid, line, row, col);
        assert forall|px: int, py: int|
            0 <= px < sweep.width && 0 <= py < sweep.height implies #[trigger] wall_at(
            out.0,
            px,
            py,
        ) == wall_at(grid, px, py) by {
            assert(wall_at(next.0, px, py) == wall_at(grid, px, py));
        }
    }
}

/// Scanning the rest of an octant keeps the shape of the grid and its walls.
pub proof fn lemma_octant_basics(sweep: Sweep, grid: Seq<Seq<Tile>>, line: Seq<Shadow>, row: int)
    requires
        sweep.wf(),
        grid_shape(grid, sweep.width as int, sweep.height as int),
        line_wf(line),
        0 <= row,
    ensures
        ({
            let out = sweep.scan_octant(grid, line, row);
            &&& grid_shape(out, sweep.width as int, sweep.height as int)
            &&& forall|px: int, py: int|
                0 <= px < sweep.width && 0 <= py < sweep.height ==> #[trigger] wall_at(out, px, py)
                    == wall_at(grid, px, py)
        }),
    decreases sweep.row_limit() - row,
{
    if sweep.holds(row, 0) {
        let next = sweep.scan_row(grid, line, row, 0);
        lemma_row_basics(sweep, grid, line, row, 0, arbitrary());
        lemma_octant_basics(sweep, next.0, next.1, row + 1);
        let out = sweep.scan_octant(grid, line, row);
        assert forall|px: int, py: int|
            0 <= px < sweep.width && 0 <= py < sweep.height implies #[trigger] wall_at(out, px, py)
            == wall_at(grid, px, py) by {
            assert(wall_at(next.0, px, py) == wall_at(grid, px, py));
        }
    }
}

/// Scanning the rest of a row changes no tile but those of the cells of
/// the row from `col` on.
pub proof fn lemma_row_frame(
    sweep: Sweep,
    grid: Seq<Seq<Tile>>,
    line: Seq<Shadow>,
    row: int,
    col: int,
    px: int,
    py: int,
)
    requires
        sweep.wf(),
        grid_shape(grid, sweep.width as int, sweep.height as int),
        line_wf(line),
        0 <= col <= row + 1,
        0 <= px < sweep.width,
        0 <= py < sweep.height,
        !(sweep.cell_of(px, py).0 == row && col <= sweep.cell_of(px, py).1 <= row),
    ensures
        sweep.scan_row(grid, line, row, col).0[px][py] == grid[px][py],
    decreases row - col + 1,
{
    if !(col > row || !sweep.holds(row, col)) {
        let next = sweep.scan_cell(grid, line, row, col);
        lemma_cell_basics(sweep, grid, line, row, col, arbitrary());
        lemma_cell_of_pos(sweep, row, col);
        lemma_row_frame(sweep, next.0, next.1, row, col + 1, px, py);
    }
}

/// Scanning the rest of an octant changes no tile but those of the cells
/// of the octant from `row` on.
pub proof fn lemma_octant_frame(
    sweep: Sweep,
    grid: Seq<Seq<Tile>>,
    line: Seq<Shadow>,
    row: int,
    px: int,
    py: int,
)
    requires
        sweep.wf(),
        grid_shape(grid, sweep.width as int, sweep.height as int),
        line_wf(line),
        0 <= row,
        0 <= px < sweep.width,
        0 <= py < sweep.height,
        !(sweep.cell_of(px, py).0 >= row && 0 <= sweep.cell_of(px, py).1 <= sweep.cell_of(px, py).0),
    ensures
        sweep.scan_octant(grid, line, row)[px][py] == grid[px][py],
    decreases sweep.row_limit() - row,
{
    if sweep.holds(row, 0) {
        let next = sweep.scan_row(grid, line, row, 0);
        lemma_row_basics(sweep, grid, line, row, 0, arbitrary());
        lemma_row_frame(sweep, grid, line, row, 0, px, py);
        lemma_octant_frame(sweep, next.0, next.1, row + 1, px, py);
    }
}

/// A cell of the row whose projection the line covers is left not visible
/// by the scan of the rest of the row.
pub proof fn lemma_covered_in_row(
    sweep: Sweep,
    grid: Seq<Seq<Tile>>,
    line: Seq<Shadow>,
    row: int,
    col: int,
    c: int,
)
    requires
        sweep.wf(),
        grid_shape(grid, sweep.width as int, sweep.height as int),
        line_wf(line),
        0 <= col <= c <= row,
        sweep.holds(row, c),
        line_covers(line, spec_project_tile(row, c)),
    ensures
        !visible_at(
            sweep.scan_row(grid, line, row, col).0,
            sweep.pos(row, c).0,
            sweep.pos(row, c).1,
        ),
    decreases row - col + 1,
{
    let p = sweep.pos(row, c);
    let covered = spec_project_tile(row, c);
    lemma_holds_earlier(sweep, row, c, row, col);
    let next = sweep.scan_cell(grid, line, row, col);
    lemma_cell_basics(sweep, grid, line, row, col, covered);
    if col == c {
        lemma_cell_of_pos(sweep, row, c);
        lemma_row_frame(sweep, next.0, next.1, row, col + 1, p.0, p.1);
    } else {
        lemma_covered_in_row(sweep, next.0, next.1, row, col + 1, c);
    }
}

/// A cell of the octant whose projection the line covers is left not
/// visible by the scan of the rest of the octant: a shadow, once cast,
/// stays.
pub proof fn lemma_covered_in_octant(
    sweep: Sweep,
    grid: Seq<Seq<Tile>>,
    line: Seq<Shadow>,
    row: int,
    r: int,
    c: int,
)
    requires
        sweep.wf(),
        grid_shape(grid, sweep.width as int, sweep.height as int),
        line_wf(line),
        0 <= row <= r,
        0 <= c <= r,
        sweep.holds(r, c),
        line_covers(line, spec_project_tile(r, c)),
    ensures
        !visible_at(sweep.scan_octant(grid, line, row), sweep.pos(r, c).0, sweep.pos(r, c).1),
    decreases sweep.row_limit() - row,
{
    let p = sweep.pos(r, c);
    let covered = spec_project_tile(r, c);
    lemma_holds_earlier(sweep, r, c, row, 0);
    let next = sweep.scan_row(grid, line, row, 0);
    lemma_row_basics(sweep, grid, line, row, 0, covered);
    if row == r {
        lemma_covered_in_row(sweep, grid, line, row, 0, c);
        lemma_cell_of_pos(sweep, r, c);
        lemma_octant_frame(sweep, next.0, next.1, row + 1, p.0, p.1);
    } else {
        lemma_covered_in_octant(sweep, next.0, next.1, row + 1, r, c);
    }
}

/// A wall in the first row of an octant, at its column `near` (the first or
/// the second), hides the cell that lies as far again from the origin in
/// the same direction: the scan of the octant leaves that cell not visible,
/// whatever else stands on the grid.
pub proof fn lemma_adjacent_wall_in_octant(sweep: Sweep, grid: Seq<Seq<Tile>>, near: int)
    requires
        sweep.wf(),
        grid_shape(grid, sweep.width as int, sweep.height as int),
        near == 0 || near == 1,
        sweep.holds(2, 2 * near),
        wall_at(grid, sweep.pos(1, near).0, sweep.pos(1, near).1),
    ensures
        !visible_at(
            sweep.scan_octant(grid, Seq::empty(), 1),
            sweep.pos(2, 2 * near).0,
            sweep.pos(2, 2 * near).1,
        ),
{
    let empty = Seq::<Shadow>::empty();
    let first = spec_project_tile(1, 0);
    let second = spec_project_tile(1, 1);
    let behind = spec_project_tile(2, 2 * near);
    lemma_holds_earlier(sweep, 2, 2 * near, 1, 0);
    lemma_projection_wf(1, 0);
    lemma_projection_wf(1, 1);
    assert(sweep.holds(1, near));
    // the first cell of the first row
    let a = sweep.scan_cell(grid, empty, 1, 0);
    lemma_cell_basics(sweep, grid, empty, 1, 0, behind);
    assert(!line_covers(empty, first));
    assert(merged(empty, first) =~= seq![first]);
    assert(a.1 == empty || a.1 == seq![first]);
    // the rest of the first row
    let b = sweep.scan_row(a.0, a.1, 1, 1);
    lemma_row_basics(sweep, a.0, a.1, 1, 1, behind);
    assert(sweep.scan_row(grid, empty, 1, 0) == b);
    assert(sweep.scan_octant(grid, empty, 1) == sweep.scan_octant(b.0, b.1, 2));
    if near == 0 {
        assert(a.1 == seq![first]);
        assert(a.1[0].spec_contains(&behind));
    } else {
        let p = sweep.pos(1, 1);
        assert(wall_at(a.0, p.0, p.1));
        let c = sweep.scan_cell(a.0, a.1, 1, 1);
        assert(sweep.scan_row(c.0, c.1, 1, 2) == c);
        assert(b == c);
        assert(!line_covers(a.1, second)) by {
            if a.1 == seq![first] {
                assert(!first.spec_contains(&second));
            }
        }
        assert(c.1 == merged(a.1, second));
        if a.1 == empty {
            assert(merged(empty, second) =~= seq![second]);
            assert(c.1[0].spec_contains(&behind));
        } else {
            let line = seq![first];
            assert(first_not_before(line, second.start, 1) == 1);
            assert(first_not_before(line, second.start, 0) == 1);
            assert(insertion_index(line, second.start) == 1);
            assert(overlaps_prev(line, second));
            assert(!overlaps_next(line, second));
            let joined = Shadow { start: first.start, end: second.end };
            assert(merged(line, second) =~= seq![joined]);
            assert(c.1[0].spec_contains(&behind));
        }
    }
    assert(line_covers(b.1, behind));
    lemma_covered_in_octant(sweep, b.0, b.1, 2, 2, 2 * near);
}

/// The cell behind a wall stays hidden through the scans of the octants
/// from `octant` on: each of them that meets the cell leaves it not
/// visible, and the others leave it as it is.
pub proof fn lemma_hidden_from_octant(
    grid: Seq<Seq<Tile>>,
    width: i32,
    height: i32,
    x: i32,
    y: i32,
    light: LightSource,
    dx: int,
    dy: int,
    octant: int,
)
    requires
        grid_shape(grid, width as int, height as int),
        0 <= x < width,
        0 <= y < height,
        light.intensity > 0,
        -1 <= dx <= 1,
        -1 <= dy <= 1,
        dx != 0 || dy != 0,
        0 <= x + 2 * dx < width,
        0 <= y + 2 * dy < height,
        wall_at(grid, x + dx, y + dy),
        0 <= octant <= 8,
        !visible_at(grid, x + 2 * dx, y + 2 * dy) || octant_of(2 * dx, 2 * dy).0 >= octant,
    ensures
        !visible_at(
            refresh_from(grid, width, height, x, y, light, octant),
            x + 2 * dx,
            y + 2 * dy,
        ),
    decreases 8 - octant,
{
    lemma_octants_cover(2 * dx, 2 * dy);
    if octant < 8 {
        let sweep = Sweep { width, height, x, y, octant: octant as i32, light };
        let next = sweep.scan_octant(grid, Seq::empty(), 1);
        let cell = sweep.cell_of(x + 2 * dx, y + 2 * dy);
        lemma_octant_basics(sweep, grid, Seq::empty(), 1);
        assert(wall_at(next, x + dx, y + dy));
        if cell.0 >= 1 && 0 <= cell.1 <= cell.0 {
            // the octant meets the cell, in its second row, behind the wall
            let near = cell.1 / 2;
            assert(cell.0 == 2 && cell.1 == 2 * near);
            assert(sweep.pos(1, near) == (x + dx, y + dy));
            assert(sweep.pos(2, 2 * near) == (x + 2 * dx, y + 2 * dy));
            lemma_adjacent_wall_in_octant(sweep, grid, near);
        } else {
            lemma_octant_frame(sweep, grid, Seq::empty(), 1, x + 2 * dx, y + 2 * dy);
        }
        lemma_hidden_from_octant(next, width, height, x, y, light, dx, dy, octant + 1);
    }
}

/// A tile that blocks sight next to the origin, in any of the eight
/// directions, hides the cell that lies behind it in that direction: after
/// the light at `(x, y)` was refreshed, the cell two steps away is not
/// visible, whatever else stands on the grid.
pub proof fn lemma_wall_hides_cell_behind(
    grid: Seq<Seq<Tile>>,
    width: i32,
    height: i32,
    x: i32,
    y: i32,
    light: LightSource,
    dx: int,
    dy: int,
)
    requires
        grid_shape(grid, width as int, height as int),
        0 <= x < width,
        0 <= y < height,
        light.intensity > 0,
        -1 <= dx <= 1,
        -1 <= dy <= 1,
        dx != 0 || dy != 0,
        0 <= x + 2 * dx < width,
        0 <= y + 2 * dy < height,
        wall_at(grid, x + dx, y + dy),
    ensures
        !visible_at(refresh_from(grid, width, height, x, y, light, 0), x + 2 * dx, y + 2 * dy),
{
    lemma_octants_cover(2 * dx, 2 * dy);
    lemma_hidden_from_octant(grid, width, height, x, y, light, dx, dy, 0);
}

} // verus!
