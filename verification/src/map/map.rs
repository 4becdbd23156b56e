use crate::distance::{distance, spec_distance};
use crate::entities::light::{max_shade, spec_max_shade, LightSource};
use crate::entities::object::Object;
use crate::fraction::Fraction;
use crate::map::shadow_line::{
    lemma_full_line_covers, line_covers, line_is_full, merged, Shadow, ShadowLine,
};
use crate::map::tile::Tile;
use vstd::prelude::*;

verus! {

/// The shade of a tile that no light reaches: the darkest shade.
pub open spec fn spec_default_shade() -> Fraction {
    spec_max_shade()
}

/// The shade of a tile that no light reaches: the darkest shade.
#[verifier::when_used_as_spec(spec_default_shade)]
pub fn default_shade() -> (shade: Fraction)
    ensures
        shade == spec_default_shade(),
{
    max_shade()
}

/// The step from the origin to the cell at `row` (the distance outward)
/// and `col` (the offset to the side) of an octant. Octants are counted
/// clockwise from the one that lies above the origin and to its right;
/// every number that is not one of the first seven stands for the eighth.
pub open spec fn octant_delta(row: int, col: int, octant: int) -> (int, int) {
    if octant == 0 {
        (col, -row)
    } else if octant == 1 {
        (row, -col)
    } else if octant == 2 {
        (row, col)
    } else if octant == 3 {
        (col, row)
    } else if octant == 4 {
        (-col, row)
    } else if octant == 5 {
        (-row, col)
    } else if octant == 6 {
        (-row, -col)
    } else {
        (-col, -row)
    }
}

/// The part of the sweep that the cell at `row` and `col` of an octant
/// takes up: from `col / (row + 2)` to `(col + 1) / (row + 1)`.
pub open spec fn spec_project_tile(row: int, col: int) -> Shadow {
    Shadow {
        start: Fraction { num: col as u64, den: (row + 2) as u64 },
        end: Fraction { num: (col + 1) as u64, den: (row + 1) as u64 },
    }
}

/// The shade that `light` leaves on a cell at `row` and `col` from it: the
/// shade at that distance, capped at the default shade.
pub open spec fn spec_shade_factor(row: int, col: int, light: LightSource) -> Fraction {
    let shade = light.spec_shade_percent(spec_distance(row, col) as int);
    if shade.spec_lt(&spec_default_shade()) {
        shade
    } else {
        spec_default_shade()
    }
}

/// The tile after the scan has passed it. A tile that is seen and nearer
/// than the reach of the light is visible, explored and shaded by its
/// distance. Any other tile is not visible and has the default shade.
pub open spec fn lit_tile(tile: Tile, seen: bool, row: int, col: int, light: LightSource) -> Tile {
    if seen && spec_distance(row, col) < light.max_dist {
        Tile {
            visible: true,
            explored: true,
            shade_factor: spec_shade_factor(row, col, light),
            ..tile
        }
    } else {
        Tile { visible: false, shade_factor: spec_default_shade(), ..tile }
    }
}

/// The grid has `width` columns of `height` tiles, each tile well formed.
pub open spec fn grid_wf(grid: Seq<Seq<Tile>>, width: int, height: int) -> bool {
    &&& grid.len() == width
    &&& forall|i: int| 0 <= i < width ==> (#[trigger] grid[i]).len() == height
    &&& forall|i: int, j: int|
        0 <= i < width && 0 <= j < height ==> (#[trigger] grid[i][j]).wf()
}

/// What one scan of an octant is given: the size of the grid, the origin
/// of the scan, the octant and the light at the origin.
pub struct Sweep {
    pub width: i32,
    pub height: i32,
    pub x: i32,
    pub y: i32,
    pub octant: i32,
    pub light: LightSource,
}

impl Sweep {
    /// The origin lies on the grid and the light has some intensity.
    pub open spec fn wf(&self) -> bool {
        &&& 0 <= self.x < self.width
        &&& 0 <= self.y < self.height
        &&& self.light.intensity > 0
    }

    /// The position on the grid of the cell at `row` and `col` of the octant.
    pub open spec fn pos(&self, row: int, col: int) -> (int, int) {
        let delta = octant_delta(row, col, self.octant as int);
        (self.x + delta.0, self.y + delta.1)
    }

    /// The cell at `row` and `col` of the octant lies on the grid.
    pub open spec fn holds(&self, row: int, col: int) -> bool {
        let p = self.pos(row, col);
        0 <= p.0 < self.width && 0 <= p.1 < self.height
    }

    /// The grid and the line after the cell at `row` and `col` was scanned.
    ///
    /// The cell is seen unless the line covers its projection. A cell that
    /// is seen and blocks sight adds its projection to the line.
    pub open spec fn scan_cell(
        &self,
        grid: Seq<Seq<Tile>>,
        line: Seq<Shadow>,
        row: int,
        col: int,
    ) -> (Seq<Seq<Tile>>, Seq<Shadow>) {
        let p = self.pos(row, col);
        let tile = grid[p.0][p.1];
        let projection = spec_project_tile(row, col);
        let seen = !line_covers(line, projection);
        (
            grid.update(p.0, grid[p.0].update(p.1, lit_tile(tile, seen, row, col, self.light))),
            if seen && tile.block_sight {
                merged(line, projection)
            } else {
                line
            },
        )
    }

    /// The grid and the line after the cells of `row` from `col` on were
    /// scanned: up to `col == row`, or up to the first cell off the grid.
    pub open spec fn scan_row(
        &self,
        grid: Seq<Seq<Tile>>,
        line: Seq<Shadow>,
        row: int,
        col: int,
    ) -> (Seq<Seq<Tile>>, Seq<Shadow>)
        decreases row - col + 1,
    {
        if col > row || !self.holds(row, col) {
            (grid, line)
        } else {
            let next = self.scan_cell(grid, line, row, col);
            self.scan_row(next.0, next.1, row, col + 1)
        }
    }

    /// An upper bound on the rows of an octant that begin on the grid.
    pub open spec fn row_limit(&self) -> int {
        self.width + self.height + (if self.x >= 0 {
            self.x as int
        } else {
            -self.x
        }) + (if self.y >= 0 {
            self.y as int
        } else {
            -self.y
        })
    }

    /// The grid after the rows of the octant from `row` on were scanned,
    /// up to the first row whose leading cell is off the grid.
    pub open spec fn scan_octant(&self, grid: Seq<Seq<Tile>>, line: Seq<Shadow>, row: int) -> Seq<
        Seq<Tile>,
    >
        decreases self.row_limit() - row,
    {
        if !self.holds(row, 0) {
            grid
        } else {
            let next = self.scan_row(grid, line, row, 0);
            self.scan_octant(next.0, next.1, row + 1)
        }
    }
}

/// The grid after the octants from `octant` on were scanned, each from
/// the first row and with an empty line, for a light at `(x, y)`.
pub open spec fn refresh_from(
    grid: Seq<Seq<Tile>>,
    width: i32,
    height: i32,
    x: i32,
    y: i32,
    light: LightSource,
    octant: int,
) -> Seq<Seq<Tile>>
    decreases 8 - octant,
{
    if octant < 0 || octant >= 8 {
        grid
    } else {
        let sweep = Sweep { width, height, x, y, octant: octant as i32, light };
        refresh_from(
            sweep.scan_octant(grid, Seq::empty(), 1),
            width,
            height,
            x,
            y,
            light,
            octant + 1,
        )
    }
}

/// The projection of a cell of an octant is a well-formed interval.
pub proof fn lemma_projection_wf(row: int, col: int)
    requires
        0 <= col <= row <= i32::MAX,
    ensures
        spec_project_tile(row, col).wf(),
{
    assert(col * (row + 1) <= (col + 1) * (row + 2)) by (nonlinear_arith)
        requires
            0 <= col <= row,
    ;
}

/// The grid of tiles, column by column: `map[x][y]` is the tile at `(x, y)`.
pub struct Grid {
    pub map: Vec<Vec<Tile>>,
    pub width: i32,
    pub height: i32,
}

impl View for Grid {
    type V = Seq<Seq<Tile>>;

    open spec fn view(&self) -> Seq<Seq<Tile>> {
        Seq::new(self.map@.len(), |i: int| self.map@[i]@)
    }
}

impl Grid {
    /// The grid has `width` columns of `height` tiles, each tile well formed.
    pub open spec fn wf(&self) -> bool {
        &&& 0 <= self.width
        &&& 0 <= self.height
        &&& grid_wf(self@, self.width as int, self.height as int)
    }

    /// The position `(x, y)` lies on the grid.
    pub open spec fn contains(&self, x: int, y: int) -> bool {
        0 <= x < self.width && 0 <= y < self.height
    }

    /// In a well-formed grid the vector has `width` columns of `height`
    /// tiles, and the view holds the tiles of each column.
    pub proof fn lemma_columns(&self)
        requires
            self.wf(),
        ensures
            self.map@.len() == self.width,
            forall|x: int|
                0 <= x < self.width ==> (#[trigger] self.map@[x])@.len() == self.height
                    && self@[x] == self.map@[x]@,
    {
        assert forall|x: int| 0 <= x < self.width implies (#[trigger] self.map@[x])@.len()
            == self.height && self@[x] == self.map@[x]@ by {
            assert(self@[x].len() == self.height);
        }
    }

    /// A grid of `width` by `height` walls.
    pub fn new(width: i32, height: i32) -> (grid: Self)
        requires
            0 <= width,
            0 <= height,
        ensures
            grid.width == width,
            grid.height == height,
            grid.wf(),
            forall|x: int, y: int|
                0 <= x < width && 0 <= y < height ==> #[trigger] grid@[x][y] == Tile::spec_wall(
                    0,
                    0,
                    spec_default_shade(),
                ),
    {
        let mut map: Vec<Vec<Tile>> = Vec::new();
        let mut i: i32 = 0;
        while i < width
            invariant
                0 <= i <= width,
                0 <= height,
                map@.len() == i,
                forall|x: int| 0 <= x < i ==> (#[trigger] map@[x])@.len() == height,
                forall|x: int, y: int|
                    0 <= x < i && 0 <= y < height ==> #[trigger] map@[x]@[y] == Tile::spec_wall(
                        0,
                        0,
                        spec_default_shade(),
                    ),
            decreases width - i,
        {
            map.push(vec![Tile::wall(0, 0, default_shade()); height as usize]);
            i = i + 1;
        }
        Grid { map: map, width: width, height: height }
    }

    /// Whether `object` stands on a tile that is visible.
    pub fn is_in_fov(&self, object: &Object) -> (seen: bool)
        requires
            self.wf(),
            self.contains(object.x as int, object.y as int),
        ensures
            seen == self@[object.x as int][object.y as int].visible,
    {
        proof {
            self.lemma_columns();
        }
        let (x, y) = object.get_pos();
        self.map[x as usize][y as usize].visible
    }

    /// The step from the origin to the cell at `row` and `col` of `octant`.
    pub fn transform_octant(&self, row: i32, col: i32, octant: i32) -> (delta: (i32, i32))
        requires
            row > i32::MIN,
            col > i32::MIN,
        ensures
            (delta.0 as int, delta.1 as int) == octant_delta(row as int, col as int, octant as int),
    {
        match octant {
            0 => (col, -row),
            1 => (row, -col),
            2 => (row, col),
            3 => (col, row),
            4 => (-col, row),
            5 => (-row, col),
            6 => (-row, -col),
            _ => (-col, -row),
        }
    }

    /// The part of the sweep that the cell at `row` and `col` takes up.
    pub fn project_tile(&self, row: i32, col: i32) -> (projection: Shadow)
        requires
            0 <= col <= row,
        ensures
            projection == spec_project_tile(row as int, col as int),
            projection.wf(),
    {
        proof {
            lemma_projection_wf(row as int, col as int);
        }
        let top_left = Fraction::new(col as u64, row as u64 + 2);
        let bottom_right = Fraction::new(col as u64 + 1, row as u64 + 1);
        Shadow::new(top_left, bottom_right)
    }

    /// The shade that `light_source` leaves on a cell that is `x` columns
    /// and `y` rows away from it.
    pub fn get_shade_factor(&self, x: i32, y: i32, light_source: &LightSource) -> (shade: Fraction)
        requires
            light_source.intensity > 0,
        ensures
            shade == spec_shade_factor(x as int, y as int, *light_source),
            shade.wf(),
            shade.spec_le(&spec_max_shade()),
    {
        let distance = distance(x, y);
        let intensity = light_source.calc_shade_percent(distance);
        if intensity.lt(&default_shade()) {
            intensity
        } else {
            default_shade()
        }
    }

    /// Scans one octant around `(x, y)`, row by row outward, and sets on
    /// every cell that the scan reaches whether it is visible, whether it
    /// has been explored, and its shade.
    pub fn refresh_octant(&mut self, x: i32, y: i32, octant: i32, light_source: &LightSource)
        requires
            old(self).wf(),
            old(self).contains(x as int, y as int),
            light_source.intensity > 0,
        ensures
            final(self).wf(),
            final(self).width == old(self).width,
            final(self).height == old(self).height,
            final(self)@ == (Sweep {
                width: old(self).width,
                height: old(self).height,
                x,
                y,
                octant,
                light: *light_source,
            }).scan_octant(old(self)@, Seq::empty(), 1),
            tiles_kept(old(self)@, final(self)@),
    {
        let ghost sweep = Sweep {
            width: self.width,
            height: self.height,
            x,
            y,
            octant,
            light: *light_source,
        };
        let ghost start = self@;
        let mut line = ShadowLine::new();
        let mut full_shadow = false;
        let mut row: i32 = 1;
        loop
            invariant
                self.wf(),
                self.width == sweep.width,
                self.height == sweep.height,
                sweep.x == x,
                sweep.y == y,
                sweep.octant == octant,
                sweep.light == *light_source,
                sweep.wf(),
                line.wf(),
                full_shadow == line_is_full(line.shadows@),
                1 <= row,
                tiles_kept(start, self@),
                sweep.scan_octant(start, Seq::empty(), 1) == sweep.scan_octant(
                    self@,
                    line.shadows@,
                    row as int,
                ),
            ensures
                self.wf(),
                self.width == sweep.width,
                self.height == sweep.height,
                tiles_kept(start, self@),
                self@ == sweep.scan_octant(start, Seq::empty(), 1),
            decreases sweep.row_limit() - row,
        {
            let (x_transform, y_transform) = self.transform_octant(row, 0, octant);
            let pos_x: i64 = x as i64 + x_transform as i64;
            let pos_y: i64 = y as i64 + y_transform as i64;
            if pos_x < 0 || pos_x >= self.width as i64 {
                break ;
            }
            if pos_y < 0 || pos_y >= self.height as i64 {
                break ;
            }
            assert(sweep.holds(row as int, 0));
            let ghost row_start = self@;
            let ghost line_start = line.shadows@;
            let mut col: i32 = 0;
            while col <= row
                invariant
                    self.wf(),
                    self.width == sweep.width,
                    self.height == sweep.height,
                    sweep.x == x,
                    sweep.y == y,
                    sweep.octant == octant,
                    sweep.light == *light_source,
                    sweep.wf(),
                    line.wf(),
                    full_shadow == line_is_full(line.shadows@),
                    1 <= row < i32::MAX,
                    0 <= col <= row + 1,
                    tiles_kept(start, self@),
                    sweep.scan_row(row_start, line_start, row as int, 0) == sweep.scan_row(
                        self@,
                        line.shadows@,
                        row as int,
                        col as int,
                    ),
                ensures
                    self.wf(),
                    self.width == sweep.width,
                    self.height == sweep.height,
                    line.wf(),
                    full_shadow == line_is_full(line.shadows@),
                    tiles_kept(start, self@),
                    (self@, line.shadows@) == sweep.scan_row(row_start, line_start, row as int, 0),
                decreases row - col + 1,
            {
                let (x_transform, y_transform) = self.transform_octant(row, col, octant);
                let pos_x: i64 = x as i64 + x_transform as i64;
                let pos_y: i64 = y as i64 + y_transform as i64;
                if pos_x < 0 || pos_x >= self.width as i64 {
                    break ;
                }
                if pos_y < 0 || pos_y >= self.height as i64 {
                    break ;
                }
                let px: usize = pos_x as usize;
                let py: usize = pos_y as usize;
                let ghost before = self@;
                let ghost line_before = line.shadows@;
                let ghost tile = before[px as int][py as int];
                let ghost projection = spec_project_tile(row as int, col as int);
                proof {
                    lemma_projection_wf(row as int, col as int);
                    assert(sweep.holds(row as int, col as int));
                    assert(sweep.pos(row as int, col as int) == (px as int, py as int));
                    assert(tile.wf());
                }
                if full_shadow {
                    proof {
                        lemma_full_line_covers(line_before, projection);
                    }
                    self.map[px][py].visible = false;
                    self.map[px][py].shade_factor = default_shade();
                } else {
                    let projection = self.project_tile(row, col);
                    let visible = !line.is_in_shadow(&projection);
                    if visible && self.map[px][py].block_sight {
                        line.add(projection);
                        full_shadow = line.is_full_shadow();
                    }
                    let dist = distance(row, col);
                    if visible && dist < light_source.max_dist {
                        let shade = self.get_shade_factor(row, col, light_source);
                        self.map[px][py].shade_factor = shade;
                        self.map[px][py].visible = true;
                        self.map[px][py].explored = true;
                    } else {
                        self.map[px][py].shade_factor = default_shade();
                        self.map[px][py].visible = false;
                    }
                }
                proof {
                    let seen = !line_covers(line_before, projection);
                    let after = lit_tile(tile, seen, row as int, col as int, *light_source);
                    assert(self@[px as int][py as int] == after);
                    let expected = before.update(
                        px as int,
                        before[px as int].update(py as int, after),
                    );
                    assert forall|i: int| 0 <= i < expected.len() implies #[trigger] self@[i]
                        =~= expected[i] by {
                        if i != px {
                            assert(self@[i] == before[i]);
                        }
                    }
                    assert(self@ =~= expected);
                    assert(after.wf());
                    assert(tile_kept(tile, after));
                    assert((self@, line.shadows@) == sweep.scan_cell(
                        before,
                        line_before,
                        row as int,
                        col as int,
                    ));
                }
                col = col + 1;
            }
            row = row + 1;
        }
    }

    /// Works out anew what a light at `(x, y)` shows: scans the eight
    /// octants around it in turn, each with a line of its own.
    ///
    /// Every tile stays well formed, so its shade lies between zero and the
    /// darkest shade. No tile loses that it was explored, and nothing else
    /// on a tile changes but whether it is visible and its shade.
    pub fn refresh_lights(&mut self, x: i32, y: i32, light_source: &LightSource)
        requires
            old(self).wf(),
            old(self).contains(x as int, y as int),
            light_source.intensity > 0,
        ensures
            final(self).wf(),
            final(self).width == old(self).width,
            final(self).height == old(self).height,
            final(self)@ == refresh_from(
                old(self)@,
                old(self).width,
                old(self).height,
                x,
                y,
                *light_source,
                0,
            ),
            tiles_kept(old(self)@, final(self)@),
    {
        let ghost start = self@;
        let ghost width = self.width;
        let ghost height = self.height;
        let mut octant: i32 = 0;
        while octant < 8
            invariant
                0 <= octant <= 8,
                self.wf(),
                self.width == width,
                self.height == height,
                self.contains(x as int, y as int),
                light_source.intensity > 0,
                tiles_kept(start, self@),
                refresh_from(start, self.width, self.height, x, y, *light_source, 0)
                    == refresh_from(
                    self@,
                    self.width,
                    self.height,
                    x,
                    y,
                    *light_source,
                    octant as int,
                ),
            decreases 8 - octant,
        {
            let ghost before = self@;
            self.refresh_octant(x, y, octant, light_source);
            proof {
                lemma_tiles_kept_trans(start, before, self@);
            }
            octant = octant + 1;
        }
    }
}

/// What is kept from a first grid to a second and from the second to a
/// third is kept from the first to the third.
pub proof fn lemma_tiles_kept_trans(
    first: Seq<Seq<Tile>>,
    second: Seq<Seq<Tile>>,
    third: Seq<Seq<Tile>>,
)
    requires
        tiles_kept(first, second),
        tiles_kept(second, third),
    ensures
        tiles_kept(first, third),
{
    assert forall|i: int| 0 <= i < first.len() implies (#[trigger] third[i]).len()
        == first[i].len() by {
        assert(second[i].len() == first[i].len());
    }
    assert forall|i: int, j: int| 0 <= i < first.len() && 0 <= j < first[i].len() implies tile_kept(
        first[i][j],
        #[trigger] third[i][j],
    ) by {
        assert(second[i].len() == first[i].len());
        assert(tile_kept(first[i][j], second[i][j]));
        assert(tile_kept(second[i][j], third[i][j]));
    }
}

/// What a scan leaves as it was on a tile: whether it is blocked or blocks
/// sight, its position and its colour. A tile that was explored stays so.
pub open spec fn tile_kept(before: Tile, after: Tile) -> bool {
    &&& after.blocked == before.blocked
    &&& after.block_sight == before.block_sight
    &&& after.x == before.x
    &&& after.y == before.y
    &&& after.color == before.color
    &&& before.explored ==> after.explored
}

/// The two grids have the same shape, and every tile of the second one
/// keeps what a scan leaves as it was on the tile in its place in the first.
pub open spec fn tiles_kept(before: Seq<Seq<Tile>>, after: Seq<Seq<Tile>>) -> bool {
    &&& after.len() == before.len()
    &&& forall|i: int| 0 <= i < before.len() ==> (#[trigger] after[i]).len() == before[i].len()
    &&& forall|i: int, j: int|
        0 <= i < before.len() && 0 <= j < before[i].len() ==> tile_kept(
            before[i][j],
            #[trigger] after[i][j],
        )
}

} // verus!
