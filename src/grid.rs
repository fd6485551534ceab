use vstd::prelude::*;
use vstd::arithmetic::div_mod::{lemma_fundamental_div_mod, lemma_fundamental_div_mod_converse};

use crate::texel::{
    decoded_inside, is_cell_list, lemma_texel_curves, lemma_texel_round_trip, texel_byte,
    texel_has_curve, write_vgrid_cell_to_buffer, MAX_CURVE_INDEX,
};

verus! {

/// One crossing of a curve with a grid line, in grid-cell units.
///
/// `line` is the index of the line (`x = line` when `vertical`, `y = line` otherwise,
/// counting the grid's outer edges as lines `0` and `width` or `height`), and `along`
/// is the floor of the crossing's other coordinate.
#[derive(Clone, Copy, Debug, PartialEq, Eq)]
pub struct LineHit {
    pub vertical: bool,
    pub line: i64,
    pub along: i64,
}

/// Every grid-line crossing of one curve, and the cell that holds its start point
/// (floored, in grid-cell units), which stands for the curve when it crosses no line.
#[derive(Debug)]
pub struct CurveCrossings {
    pub hits: Vec<LineHit>,
    pub start_x: i64,
    pub start_y: i64,
}

/// A cell coordinate forced into `0..n`.
pub open spec fn clamp_cell(v: int, n: int) -> int {
    if v < 0 {
        0
    } else if v >= n {
        n - 1
    } else {
        v
    }
}

/// Row-major index of the cell at `(x, y)`, each coordinate clamped into the grid.
pub open spec fn cell_index(x: int, y: int, w: int, h: int) -> int {
    clamp_cell(y, h) * w + clamp_cell(x, w)
}

/// The two cells on either side of the line that `hit` crosses.
pub open spec fn hit_cells(hit: LineHit, w: int, h: int) -> (int, int) {
    if hit.vertical {
        (cell_index(hit.line as int, hit.along as int, w, h),
        cell_index(hit.line - 1, hit.along as int, w, h))
    } else {
        (cell_index(hit.along as int, hit.line as int, w, h),
        cell_index(hit.along as int, hit.line - 1, w, h))
    }
}

/// Whether `cell` is one of the two cells beside the crossing `hit`.
pub open spec fn hit_marks(hit: LineHit, cell: int, w: int, h: int) -> bool {
    cell == hit_cells(hit, w, h).0 || cell == hit_cells(hit, w, h).1
}

/// Whether the curve with these crossings belongs to `cell`: the cells beside each of
/// its crossings, or the cell of its start point when it crosses no grid line.
pub open spec fn curve_in_cell(c: CurveCrossings, cell: int, w: int, h: int) -> bool {
    if c.hits@.len() == 0 {
        cell == cell_index(c.start_x as int, c.start_y as int, w, h)
    } else {
        exists|k: int| 0 <= k < c.hits@.len() && #[trigger] hit_marks(c.hits@[k], cell, w, h)
    }
}

/// The indices, below `n` and in ascending order, of the curves that belong to `cell`.
pub open spec fn curves_in_cell(curves: Seq<CurveCrossings>, n: nat, cell: int, w: int, h: int) -> Seq<
    usize,
>
    decreases n,
{
    if n == 0 {
        Seq::empty()
    } else {
        let before = curves_in_cell(curves, (n - 1) as nat, cell, w, h);
        if curve_in_cell(curves[n - 1], cell, w, h) {
            before.push((n - 1) as usize)
        } else {
            before
        }
    }
}

pub open spec fn strictly_ascending(s: Seq<usize>) -> bool {
    forall|a: int, b: int| 0 <= a < b < s.len() ==> s[a] < s[b]
}

/// A cell's curve list is strictly ascending, and holds exactly the curves that belong
/// to the cell.
pub proof fn lemma_curves_in_cell(curves: Seq<CurveCrossings>, n: nat, cell: int, w: int, h: int)
    requires
        n <= curves.len(),
        n <= usize::MAX,
    ensures
        strictly_ascending(curves_in_cell(curves, n, cell, w, h)),
        forall|i: usize|
            curves_in_cell(curves, n, cell, w, h).contains(i) <==> (i < n && curve_in_cell(
                curves[i as int],
                cell,
                w,
                h,
            )),
    decreases n,
{
    if n > 0 {
        lemma_curves_in_cell(curves, (n - 1) as nat, cell, w, h);
        let before = curves_in_cell(curves, (n - 1) as nat, cell, w, h);
        assert forall|a: int| 0 <= a < before.len() implies before[a] < n - 1 by {
            assert(before.contains(before[a]));
        }
        if curve_in_cell(curves[n - 1], cell, w, h) {
            let now = before.push((n - 1) as usize);
            assert forall|i: usize| now.contains(i) <==> (i < n && curve_in_cell(curves[i as int], cell, w, h)) by {
                if i == n - 1 {
                    assert(now[before.len() as int] == i);
                } else {
                    if now.contains(i) {
                        let a = choose|a: int| 0 <= a < now.len() && now[a] == i;
                        assert(a < before.len());
                        assert(before[a] == i);
                        assert(before.contains(i));
                    }
                    if i < n && curve_in_cell(curves[i as int], cell, w, h) {
                        assert(before.contains(i));
                        let a = choose|a: int| 0 <= a < before.len() && before[a] == i;
                        assert(now[a] == i);
                    }
                }
            }
        }
    }
}

/// A cell coordinate clamped into `0..n`, as an index.
fn clamp_to_grid(v: i64, n: u16) -> (r: usize)
    requires
        n > 0,
    ensures
        r == clamp_cell(v as int, n as int),
        r < n,
{
    if v < 0 {
        0
    } else if v >= n as i64 {
        (n - 1) as usize
    } else {
        v as usize
    }
}

/// Row-major index of cell `(x, y)` in a grid `w` cells wide.
pub fn xy2i(x: u16, y: u16, w: u16) -> (r: usize)
    ensures
        r == y as int * w as int + x as int,
{
    assert(y as int * w as int <= 65535 * 65535) by (nonlinear_arith)
        requires
            y <= 65535,
            w <= 65535,
    ;
    (y as usize) * (w as usize) + x as usize
}

/// The cell count of any grid fits in a `usize`.
proof fn lemma_grid_fits(w: u16, h: u16)
    ensures
        w as int * h as int <= usize::MAX,
{
    assert(w as int * h as int <= 65535 * 65535) by (nonlinear_arith)
        requires
            w <= 65535,
            h <= 65535,
    ;
}

/// Number of cells in a `w` by `h` grid.
pub fn grid_cells(w: u16, h: u16) -> (r: usize)
    ensures
        r == w as int * h as int,
{
    proof {
        lemma_grid_fits(w, h);
    }
    w as usize * h as usize
}

/// Index of the cell at `(x, y)` after clamping both into a `w` by `h` grid.
fn cell_at(x: i64, y: i64, w: u16, h: u16) -> (r: usize)
    requires
        w > 0,
        h > 0,
    ensures
        r == cell_index(x as int, y as int, w as int, h as int),
        r < w as int * h as int,
{
    let cx = clamp_to_grid(x, w);
    let cy = clamp_to_grid(y, h);
    assert(cy as int * w as int + cx < w as int * h as int) by (nonlinear_arith)
        requires
            cy < h,
            cx < w,
    ;
    proof {
        lemma_grid_fits(w, h);
    }
    cy * (w as usize) + cx
}

/// The cells of a `w` by `h` grid that the curve with these crossings belongs to.
fn curve_cells(c: &CurveCrossings, w: u16, h: u16) -> (marks: Vec<bool>)
    requires
        w > 0,
        h > 0,
    ensures
        marks@.len() == w as int * h as int,
        forall|cell: int|
            0 <= cell < marks@.len() ==> marks@[cell] == curve_in_cell(*c, cell, w as int, h as int),
{
    let n = grid_cells(w, h);
    let mut marks: Vec<bool> = Vec::new();
    while marks.len() < n
        invariant
            marks@.len() <= n,
            forall|cell: int| 0 <= cell < marks@.len() ==> !marks@[cell],
        decreases n - marks@.len(),
    {
        marks.push(false);
    }
    if c.hits.len() == 0 {
        let s = cell_at(c.start_x, c.start_y, w, h);
        marks.set(s, true);
    } else {
        let mut k: usize = 0;
        while k < c.hits.len()
            invariant
                0 <= k <= c.hits@.len(),
                w > 0,
                h > 0,
                n == w as int * h as int,
                marks@.len() == n,
                forall|cell: int|
                    0 <= cell < n ==> marks@[cell] == exists|j: int|
                        0 <= j < k && #[trigger] hit_marks(c.hits@[j], cell, w as int, h as int),
            decreases c.hits@.len() - k,
        {
            let hit = c.hits[k];
            // the line before the lowest one stays below the grid
            let before = if hit.line == i64::MIN {
                hit.line
            } else {
                hit.line - 1
            };
            let (a, b) = if hit.vertical {
                (cell_at(hit.line, hit.along, w, h), cell_at(before, hit.along, w, h))
            } else {
                (cell_at(hit.along, hit.line, w, h), cell_at(hit.along, before, w, h))
            };
            marks.set(a, true);
            marks.set(b, true);
            assert forall|cell: int| 0 <= cell < n implies marks@[cell] == exists|j: int|
                0 <= j < k + 1 && #[trigger] hit_marks(c.hits@[j], cell, w as int, h as int) by {
                if hit_marks(c.hits@[k as int], cell, w as int, h as int) {
                    assert(marks@[cell]);
                } else if marks@[cell] {
                    let j = choose|j: int|
                        0 <= j < k && #[trigger] hit_marks(c.hits@[j], cell, w as int, h as int);
                    assert(0 <= j < k + 1);
                }
            }
            k = k + 1;
        }
    }
    marks
}

/// For every cell of a `grid_width` by `grid_height` grid, the ascending list of the
/// curves that belong to it. A crossing marks the cells on both sides of its line; a
/// curve without crossings marks the cell of its start point.
pub fn find_cells_intersections(curves: &Vec<CurveCrossings>, grid_width: u16, grid_height: u16) -> (r:
    Vec<Vec<usize>>)
    requires
        grid_width > 0,
        grid_height > 0,
    ensures
        r@.len() == grid_width as int * grid_height as int,
        forall|cell: int|
            0 <= cell < r@.len() ==> #[trigger] r@[cell]@ == curves_in_cell(
                curves@,
                curves@.len(),
                cell,
                grid_width as int,
                grid_height as int,
            ),
        forall|cell: int| 0 <= cell < r@.len() ==> strictly_ascending(#[trigger] r@[cell]@),
        forall|cell: int, i: usize|
            0 <= cell < r@.len() ==> (#[trigger] r@[cell]@.contains(i) <==> (i < curves@.len()
                && curve_in_cell(curves@[i as int], cell, grid_width as int, grid_height as int))),
{
    let w = grid_width;
    let h = grid_height;
    let n = grid_cells(w, h);
    let mut marks: Vec<Vec<bool>> = Vec::new();
    let mut i: usize = 0;
    while i < curves.len()
        invariant
            0 <= i <= curves@.len(),
            w > 0,
            h > 0,
            n == w as int * h as int,
            marks@.len() == i,
            forall|j: int|
                0 <= j < i ==> (#[trigger] marks@[j])@.len() == n && forall|cell: int|
                    0 <= cell < n ==> marks@[j]@[cell] == curve_in_cell(
                        curves@[j],
                        cell,
                        w as int,
                        h as int,
                    ),
        decreases curves@.len() - i,
    {
        marks.push(curve_cells(&curves[i], w, h));
        i = i + 1;
    }

    let mut ret: Vec<Vec<usize>> = Vec::new();
    let mut cell: usize = 0;
    while cell < n
        invariant
            0 <= cell <= n,
            n == w as int * h as int,
            ret@.len() == cell,
            marks@.len() == curves@.len(),
            forall|j: int|
                0 <= j < curves@.len() ==> (#[trigger] marks@[j])@.len() == n && forall|c: int|
                    0 <= c < n ==> marks@[j]@[c] == curve_in_cell(curves@[j], c, w as int, h as int),
            forall|c: int|
                0 <= c < cell ==> #[trigger] ret@[c]@ == curves_in_cell(
                    curves@,
                    curves@.len(),
                    c,
                    w as int,
                    h as int,
                ),
        decreases n - cell,
    {
        let mut list: Vec<usize> = Vec::new();
        let mut j: usize = 0;
        while j < curves.len()
            invariant
                0 <= j <= curves@.len(),
                cell < n,
                marks@.len() == curves@.len(),
                forall|jj: int|
                    0 <= jj < curves@.len() ==> (#[trigger] marks@[jj])@.len() == n && forall|c: int|
                        0 <= c < n ==> marks@[jj]@[c] == curve_in_cell(
                            curves@[jj],
                            c,
                            w as int,
                            h as int,
                        ),
                list@ == curves_in_cell(curves@, j as nat, cell as int, w as int, h as int),
            decreases curves@.len() - j,
        {
            if marks[j][cell] {
                list.push(j);
            }
            j = j + 1;
        }
        ret.push(list);
        cell = cell + 1;
    }
    let count = curves.len();
    assert forall|c: int| 0 <= c < ret@.len() implies strictly_ascending(#[trigger] ret@[c]@)
        && forall|i: usize|
        #[trigger] ret@[c]@.contains(i) <==> (i < curves@.len() && curve_in_cell(
            curves@[i as int],
            c,
            w as int,
            h as int,
        )) by {
        lemma_curves_in_cell(curves@, count as nat, c, w as int, h as int);
    }
    ret
}

/// A crossing position of a row's midline, rounded to a cell boundary, forced into
/// `0..=w`.
pub open spec fn crossing_cell(v: int, w: int) -> int {
    if v < 0 {
        0
    } else if v > w {
        w
    } else {
        v
    }
}

/// Whether cell `x` of a row lies inside the glyph, given the row's midline crossings
/// in ascending order: crossings alternate between entering and leaving, and a cell
/// is inside when it lies from an entering crossing up to, not including, the next
/// leaving one. A trailing unpaired crossing encloses nothing.
pub open spec fn row_inside(row: Seq<i64>, x: int, w: int) -> bool {
    exists|j: int|
        0 <= j && 2 * j + 1 < row.len() && crossing_cell(#[trigger] row[2 * j] as int, w) <= x
            < crossing_cell(row[2 * j + 1] as int, w)
}

/// Index of the first cell of a row at `v` or to its right, clamped to `0..=w`.
fn crossing_to_cell(v: i64, w: u16) -> (r: usize)
    ensures
        r == crossing_cell(v as int, w as int),
{
    if v < 0 {
        0
    } else if v > w as i64 {
        w as usize
    } else {
        v as usize
    }
}

/// Whether cell `x` of a row with midline crossings `row` is inside the glyph.
fn cell_inside(row: &Vec<i64>, x: u16, w: u16) -> (r: bool)
    ensures
        r == row_inside(row@, x as int, w as int),
{
    let mut j: usize = 0;
    while j + 1 < row.len()
        invariant
            j % 2 == 0,
            j <= row@.len() + 1,
            forall|k: int|
                0 <= k && 2 * k + 1 < j ==> !(crossing_cell(#[trigger] row@[2 * k] as int, w as int) <= x
                    < crossing_cell(row@[2 * k + 1] as int, w as int)),
        decreases row@.len() - j,
    {
        let enter = crossing_to_cell(row[j], w);
        let leave = crossing_to_cell(row[j + 1], w);
        if enter <= x as usize && (x as usize) < leave {
            assert(row@[2 * (j as int / 2)] == row@[j as int]);
            return true;
        }
        j = j + 2;
    }
    proof {
        if row_inside(row@, x as int, w as int) {
            let k = choose|k: int|
                0 <= k && 2 * k + 1 < row@.len() && crossing_cell(#[trigger] row@[2 * k] as int, w as int) <= x
                    < crossing_cell(row@[2 * k + 1] as int, w as int);
            assert(2 * k + 1 < j);
        }
    }
    false
}

/// For every cell of a `grid_width` by `grid_height` grid, whether its center lies
/// inside the glyph. `rows[y]` holds the crossings of row `y`'s horizontal midline
/// with the outline, in ascending order, each rounded to the nearest cell boundary.
pub fn find_cells_mids_inside(rows: &Vec<Vec<i64>>, grid_width: u16, grid_height: u16) -> (r: Vec<bool>)
    requires
        rows@.len() == grid_height,
        grid_width > 0,
    ensures
        r@.len() == grid_width as int * grid_height as int,
        forall|cell: int|
            0 <= cell < r@.len() ==> #[trigger] r@[cell] == row_inside(
                rows@[cell / grid_width as int]@,
                cell % grid_width as int,
                grid_width as int,
            ),
{
    let w = grid_width;
    let mut r: Vec<bool> = Vec::new();
    let mut y: u16 = 0;
    while y < grid_height
        invariant
            0 <= y <= grid_height,
            w > 0,
            rows@.len() == grid_height,
            r@.len() == y as int * w as int,
            forall|cell: int|
                0 <= cell < r@.len() ==> #[trigger] r@[cell] == row_inside(
                    rows@[cell / w as int]@,
                    cell % w as int,
                    w as int,
                ),
        decreases grid_height - y,
    {
        let row = &rows[y as usize];
        let mut x: u16 = 0;
        while x < w
            invariant
                0 <= x <= w,
                w > 0,
                y < grid_height,
                rows@.len() == grid_height,
                *row == rows@[y as int],
                r@.len() == y as int * w as int + x,
                forall|cell: int|
                    0 <= cell < r@.len() ==> #[trigger] r@[cell] == row_inside(
                        rows@[cell / w as int]@,
                        cell % w as int,
                        w as int,
                    ),
            decreases w - x,
        {
            let inside = cell_inside(row, x, w);
            proof {
                lemma_fundamental_div_mod_converse(
                    y as int * w as int + x,
                    w as int,
                    y as int,
                    x as int,
                );
            }
            r.push(inside);
            x = x + 1;
        }
        assert(r@.len() == (y + 1) as int * w as int) by (nonlinear_arith)
            requires
                r@.len() == y as int * w as int + w,
        ;
        y = y + 1;
    }
    assert(y as int * w as int == w as int * grid_height as int) by (nonlinear_arith)
        requires
            y == grid_height,
    ;
    r
}

/// Side length of the square grid atlas, in texels.
pub const GRID_ATLAS_SIZE: u16 = 256;

/// Bytes per grid atlas texel (RGBA).
pub const ATLAS_CHANNELS: u8 = 4;

/// Side length of the square curve-data atlas, in texels.
pub const BEZIER_ATLAS_SIZE: u16 = 256;

/// Largest grid width and height used for one glyph.
pub const GRID_MAX_SIZE: u8 = 20;

/// Why a grid could not be written into an atlas.
#[derive(Clone, Copy, Debug, PartialEq, Eq)]
pub enum AtlasError {
    /// The grid placed at the requested position does not fit in the atlas.
    OutOfBounds,
    /// A cell holds more curves than a texel has bytes.
    TooManyCurves,
    /// A cell holds a curve whose index does not fit in a texel byte.
    CurveIndexTooLarge,
}

/// A glyph's acceleration grid: for each cell, in row-major order, the ascending
/// indices of the curves that pass through it, and whether its center is inside.
#[derive(Debug)]
pub struct VGrid {
    pub width: u16,
    pub height: u16,
    pub cell_beziers: Vec<Vec<usize>>,
    pub cell_mids: Vec<bool>,
}

impl VGrid {
    pub open spec fn cell_count(&self) -> int {
        self.width as int * self.height as int
    }

    /// Both tables have one entry per cell, and each cell's curve list is ascending.
    pub open spec fn wf(&self) -> bool {
        &&& self.width > 0
        &&& self.height > 0
        &&& self.cell_beziers@.len() == self.cell_count()
        &&& self.cell_mids@.len() == self.cell_count()
        &&& forall|c: int|
            0 <= c < self.cell_count() ==> strictly_ascending(#[trigger] self.cell_beziers@[c]@)
    }

    /// This grid is the one that `curves` and `rows` describe at this size.
    pub open spec fn built_from(
        &self,
        curves: Seq<CurveCrossings>,
        rows: Seq<Vec<i64>>,
        width: u16,
        height: u16,
    ) -> bool {
        &&& self.width == width
        &&& self.height == height
        &&& self.cell_beziers@.len() == self.cell_count()
        &&& self.cell_mids@.len() == self.cell_count()
        &&& forall|c: int|
            0 <= c < self.cell_count() ==> #[trigger] self.cell_beziers@[c]@ == curves_in_cell(
                curves,
                curves.len(),
                c,
                width as int,
                height as int,
            )
        &&& forall|c: int|
            0 <= c < self.cell_count() ==> #[trigger] self.cell_mids@[c] == row_inside(
                rows[c / width as int]@,
                c % width as int,
                width as int,
            )
    }

    /// Builds the grid of a glyph from the grid-line crossings of each of its curves
    /// (`curves[i]` for curve `i`) and the midline crossings of each row (`rows[y]`).
    pub fn from_crossings(
        curves: &Vec<CurveCrossings>,
        rows: &Vec<Vec<i64>>,
        width: u16,
        height: u16,
    ) -> (r: VGrid)
        requires
            width > 0,
            height > 0,
            rows@.len() == height,
        ensures
            r.wf(),
            r.built_from(curves@, rows@, width, height),
    {
        let cell_beziers = find_cells_intersections(curves, width, height);
        let cell_mids = find_cells_mids_inside(rows, width, height);
        let r = VGrid { width, height, cell_beziers, cell_mids };
        let count = curves.len();
        assert forall|c: int| 0 <= c < r.cell_count() implies strictly_ascending(
            #[trigger] r.cell_beziers@[c]@,
        ) by {
            lemma_curves_in_cell(curves@, count as nat, c, width as int, height as int);
        }
        r
    }
}

impl VGrid {
    /// The grid placed with its top-left cell at texel `(at_x, at_y)` lies inside a
    /// `width` by `height` atlas.
    pub open spec fn fits_at(&self, at_x: int, at_y: int, width: int, height: int) -> bool {
        at_x + self.width <= width && at_y + self.height <= height
    }

    /// Some cell holds more curves than a texel of `depth` bytes can.
    pub open spec fn overfull(&self, depth: int) -> bool {
        exists|c: int| 0 <= c < self.cell_count() && #[trigger] self.cell_beziers@[c]@.len() > depth
    }

    /// Some cell holds a curve whose index a texel byte cannot store.
    pub open spec fn index_too_large(&self) -> bool {
        exists|c: int, k: int|
            0 <= c < self.cell_count() && 0 <= k < self.cell_beziers@[c]@.len()
                && #[trigger] self.cell_beziers@[c]@[k] > MAX_CURVE_INDEX
    }

    /// Byte `p` of an atlas `width` texels wide with `depth` bytes per texel, which held
    /// `before`, once this grid's texels are written with its top-left cell at texel
    /// `(at_x, at_y)`.
    pub open spec fn atlas_byte(
        &self,
        before: Seq<u8>,
        at_x: int,
        at_y: int,
        width: int,
        depth: int,
        p: int,
    ) -> u8 {
        let texel = p / depth;
        let ax = texel % width;
        let ay = texel / width;
        if at_x <= ax < at_x + self.width && at_y <= ay < at_y + self.height {
            let c = (ay - at_y) * self.width + (ax - at_x);
            texel_byte(self.cell_beziers@[c]@, self.cell_mids@[c], p % depth)
        } else {
            before[p]
        }
    }
}

/// Byte `p` of the atlas lies in the texel of grid cell `(x, y)` exactly when the cell
/// that `atlas_byte` finds for it is that one.
proof fn lemma_texel_slot(p: int, depth: int, width: int, at_x: int, at_y: int, w: int, x: int, y: int)
    requires
        depth > 0,
        0 <= x < w,
        0 <= y,
        0 <= at_x,
        0 <= at_y,
        at_x + w <= width,
        0 <= p,
    ensures
        ({
            let a = (at_y + y) * width + at_x + x;
            let texel = p / depth;
            let ax = texel % width;
            let ay = texel / width;
            &&& (a * depth <= p < a * depth + depth) <==> (at_x <= ax < at_x + w && at_y <= ay
                && (ay - at_y) * w + (ax - at_x) == y * w + x)
            &&& a * depth <= p < a * depth + depth ==> p % depth == p - a * depth
        }),
{
    let a = (at_y + y) * width + at_x + x;
    let texel = p / depth;
    let ax = texel % width;
    let ay = texel / width;
    lemma_fundamental_div_mod(p, depth);
    lemma_fundamental_div_mod(texel, width);
    assert(0 <= p % depth < depth);
    assert(0 <= ax < width);
    if a * depth <= p < a * depth + depth {
        lemma_fundamental_div_mod_converse(p, depth, a, p - a * depth);
        lemma_fundamental_div_mod_converse(a, width, at_y + y, at_x + x);
    }
    if at_x <= ax < at_x + w && at_y <= ay && (ay - at_y) * w + (ax - at_x) == y * w + x {
        lemma_fundamental_div_mod_converse(y * w + x, w, ay - at_y, ax - at_x);
        lemma_fundamental_div_mod_converse(y * w + x, w, y, x);
        assert(texel == a) by (nonlinear_arith)
            requires
                texel == width * ay + ax,
                ay == at_y + y,
                ax == at_x + x,
                a == (at_y + y) * width + at_x + x,
        ;
        assert(a * depth <= p < a * depth + depth) by (nonlinear_arith)
            requires
                p == depth * texel + p % depth,
                0 <= p % depth < depth,
                texel == a,
        ;
    }
}

impl VGrid {
    /// Writes the texel of every cell of this grid into an atlas of `width` by `height`
    /// texels of `depth` bytes each, stored row-major in `data`, with the grid's
    /// top-left cell at texel `(at_x, at_y)`. Fails without writing anything when the
    /// grid does not fit there, when a cell holds more than `depth` curves, or when a
    /// cell holds a curve index too large for a texel byte, checked in that order.
    pub fn _write_vgrid_at(
        &self,
        at_x: u16,
        at_y: u16,
        data: &mut Vec<u8>,
        width: u16,
        height: u16,
        depth: u8,
    ) -> (r: Result<(), AtlasError>)
        requires
            self.wf(),
            2 <= depth,
            width as int * height as int * depth as int <= old(data)@.len(),
        ensures
            final(data)@.len() == old(data)@.len(),
            !self.fits_at(at_x as int, at_y as int, width as int, height as int) ==> r == Err::<
                (),
                AtlasError,
            >(AtlasError::OutOfBounds),
            self.fits_at(at_x as int, at_y as int, width as int, height as int) && self.overfull(
                depth as int,
            ) ==> r == Err::<(), AtlasError>(AtlasError::TooManyCurves),
            self.fits_at(at_x as int, at_y as int, width as int, height as int) && !self.overfull(
                depth as int,
            ) && self.index_too_large() ==> r == Err::<(), AtlasError>(
                AtlasError::CurveIndexTooLarge,
            ),
            self.fits_at(at_x as int, at_y as int, width as int, height as int) && !self.overfull(
                depth as int,
            ) && !self.index_too_large() ==> r == Ok::<(), AtlasError>(()),
            r.is_err() ==> final(data)@ == old(data)@,
            r.is_ok() ==> forall|p: int|
                0 <= p < final(data)@.len() ==> #[trigger] final(data)@[p] == self.atlas_byte(
                    old(data)@,
                    at_x as int,
                    at_y as int,
                    width as int,
                    depth as int,
                    p,
                ),
    {
        if at_x as u32 + self.width as u32 > width as u32 || at_y as u32 + self.height as u32
            > height as u32 {
            return Err(AtlasError::OutOfBounds);
        }
        let n = grid_cells(self.width, self.height);
        let d = depth as usize;
        let mut c: usize = 0;
        let mut index_ok = true;
        while c < n
            invariant
                0 <= c <= n,
                n == self.cell_count(),
                self.wf(),
                self.fits_at(at_x as int, at_y as int, width as int, height as int),
                d == depth,
                forall|cc: int| 0 <= cc < c ==> #[trigger] self.cell_beziers@[cc]@.len() <= d,
                index_ok <==> forall|cc: int, k: int|
                    0 <= cc < c && 0 <= k < self.cell_beziers@[cc]@.len()
                        ==> #[trigger] self.cell_beziers@[cc]@[k] <= MAX_CURVE_INDEX,
            decreases n - c,
        {
            let cell = &self.cell_beziers[c];
            if cell.len() > d {
                return Err(AtlasError::TooManyCurves);
            }
            if cell.len() > 0 && cell[cell.len() - 1] > MAX_CURVE_INDEX {
                index_ok = false;
            }
            proof {
                let s = self.cell_beziers@[c as int]@;
                assert(strictly_ascending(s));
                if s.len() > 0 && s[s.len() - 1] <= MAX_CURVE_INDEX {
                    assert forall|k: int| 0 <= k < s.len() implies s[k] <= MAX_CURVE_INDEX by {
                        if k < s.len() - 1 {
                            assert(s[k] < s[s.len() - 1]);
                        }
                    }
                }
            }
            c = c + 1;
        }
        if !index_ok {
            return Err(AtlasError::CurveIndexTooLarge);
        }
        assert(!self.overfull(depth as int));
        assert(!self.index_too_large());

        let ghost before = data@;
        let len = data.len();
        let w = self.width;
        let h = self.height;
        let mut y: u16 = 0;
        while y < h
            invariant
                0 <= y <= h,
                self.wf(),
                w == self.width,
                h == self.height,
                self.fits_at(at_x as int, at_y as int, width as int, height as int),
                !self.overfull(depth as int),
                !self.index_too_large(),
                2 <= depth,
                d == depth,
                len == data@.len(),
                len == before.len(),
                width as int * height as int * depth as int <= len,
                forall|p: int|
                    0 <= p < len ==> #[trigger] data@[p] == self.written_byte(
                        before,
                        at_x as int,
                        at_y as int,
                        width as int,
                        depth as int,
                        y as int * w as int,
                        p,
                    ),
            decreases h - y,
        {
            let mut x: u16 = 0;
            while x < w
                invariant
                    0 <= x <= w,
                    0 <= y < h,
                    self.wf(),
                    w == self.width,
                    h == self.height,
                    self.fits_at(at_x as int, at_y as int, width as int, height as int),
                    !self.overfull(depth as int),
                    !self.index_too_large(),
                    2 <= depth,
                    d == depth,
                    len == data@.len(),
                    len == before.len(),
                    width as int * height as int * depth as int <= len,
                    forall|p: int|
                        0 <= p < len ==> #[trigger] data@[p] == self.written_byte(
                            before,
                            at_x as int,
                            at_y as int,
                            width as int,
                            depth as int,
                            y as int * w as int + x,
                            p,
                        ),
                decreases w - x,
            {
                let cell_idx = xy2i(x, y, w);
                let ax = at_x + x;
                let ay = at_y + y;
                proof {
                    assert(cell_idx < self.cell_count()) by (nonlinear_arith)
                        requires
                            cell_idx == y * w + x,
                            x < w,
                            y < h,
                            self.cell_count() == w * h,
                    ;
                    assert((ay as int * width as int + ax) * depth + depth <= width as int
                        * height as int * depth as int) by (nonlinear_arith)
                        requires
                            ax < width,
                            ay < height,
                            depth > 0,
                    ;
                    let s = self.cell_beziers@[cell_idx as int]@;
                    assert(s.len() <= depth);
                    assert forall|k: int| 0 <= k < s.len() implies s[k] <= MAX_CURVE_INDEX by {
                        assert(self.cell_beziers@[cell_idx as int]@[k] <= MAX_CURVE_INDEX);
                    }
                    assert(is_cell_list(s));
                }
                let atlas_idx = xy2i(ax, ay, width) * d;
                let ghost mid = data@;
                write_vgrid_cell_to_buffer(
                    &self.cell_beziers,
                    &self.cell_mids,
                    cell_idx,
                    data,
                    atlas_idx,
                    d,
                );
                proof {
                    assert forall|p: int| 0 <= p < len implies #[trigger] data@[p]
                        == self.written_byte(
                        before,
                        at_x as int,
                        at_y as int,
                        width as int,
                        depth as int,
                        y as int * w as int + x + 1,
                        p,
                    ) by {
                        lemma_texel_slot(
                            p,
                            depth as int,
                            width as int,
                            at_x as int,
                            at_y as int,
                            w as int,
                            x as int,
                            y as int,
                        );
                        assert(mid[p] == self.written_byte(
                            before,
                            at_x as int,
                            at_y as int,
                            width as int,
                            depth as int,
                            y as int * w as int + x,
                            p,
                        ));
                    }
                }
                x = x + 1;
            }
            assert((y + 1) as int * w as int == y as int * w as int + w) by (nonlinear_arith);
            y = y + 1;
        }
        proof {
            assert forall|p: int| 0 <= p < len implies #[trigger] data@[p] == self.atlas_byte(
                before,
                at_x as int,
                at_y as int,
                width as int,
                depth as int,
                p,
            ) by {
                assert(data@[p] == self.written_byte(
                    before,
                    at_x as int,
                    at_y as int,
                    width as int,
                    depth as int,
                    h as int * w as int,
                    p,
                ));
                let texel = p / depth as int;
                let ax = texel % width as int;
                let ay = texel / width as int;
                if at_x <= ax < at_x + w && at_y <= ay < at_y + h {
                    assert((ay - at_y) * w + (ax - at_x) < h as int * w as int) by (nonlinear_arith)
                        requires
                            0 <= ax - at_x < w,
                            0 <= ay - at_y < h,
                    ;
                }
                if at_x <= ax < at_x + w && at_y <= ay && (ay - at_y) * w + (ax - at_x) < h as int
                    * w as int {
                    assert(ay - at_y < h) by (nonlinear_arith)
                        requires
                            0 <= ax - at_x,
                            0 <= ay - at_y,
                            (ay - at_y) * w + (ax - at_x) < h * w,
                    ;
                }
            }
        }
        Ok(())
    }

    /// Byte `p` of the atlas once the texels of the first `done` cells, in row-major
    /// order, have been written.
    spec fn written_byte(
        &self,
        before: Seq<u8>,
        at_x: int,
        at_y: int,
        width: int,
        depth: int,
        done: int,
        p: int,
    ) -> u8 {
        let texel = p / depth;
        let ax = texel % width;
        let ay = texel / width;
        if at_x <= ax < at_x + self.width && at_y <= ay && (ay - at_y) * self.width + (ax
            - at_x) < done {
            let c = (ay - at_y) * self.width + (ax - at_x);
            texel_byte(self.cell_beziers@[c]@, self.cell_mids@[c], p % depth)
        } else {
            before[p]
        }
    }

    /// Writes this grid into the shared grid atlas (`GRID_ATLAS_SIZE` texels square,
    /// `ATLAS_CHANNELS` bytes per texel) with its top-left cell at texel `(at_x, at_y)`.
    pub fn write_vgrid_at(&self, at_x: u16, at_y: u16, data: &mut Vec<u8>) -> (r: Result<
        (),
        AtlasError,
    >)
        requires
            self.wf(),
            GRID_ATLAS_SIZE as int * GRID_ATLAS_SIZE as int * ATLAS_CHANNELS as int <= old(
                data,
            )@.len(),
        ensures
            final(data)@.len() == old(data)@.len(),
            !self.fits_at(
                at_x as int,
                at_y as int,
                GRID_ATLAS_SIZE as int,
                GRID_ATLAS_SIZE as int,
            ) ==> r == Err::<(), AtlasError>(AtlasError::OutOfBounds),
            self.fits_at(at_x as int, at_y as int, GRID_ATLAS_SIZE as int, GRID_ATLAS_SIZE as int)
                && self.overfull(ATLAS_CHANNELS as int) ==> r == Err::<(), AtlasError>(
                AtlasError::TooManyCurves,
            ),
            self.fits_at(at_x as int, at_y as int, GRID_ATLAS_SIZE as int, GRID_ATLAS_SIZE as int)
                && !self.overfull(ATLAS_CHANNELS as int) && self.index_too_large() ==> r == Err::<
                (),
                AtlasError,
            >(AtlasError::CurveIndexTooLarge),
            self.fits_at(at_x as int, at_y as int, GRID_ATLAS_SIZE as int, GRID_ATLAS_SIZE as int)
                && !self.overfull(ATLAS_CHANNELS as int) && !self.index_too_large() ==> r == Ok::<
                (),
                AtlasError,
            >(()),
            r.is_err() ==> final(data)@ == old(data)@,
            r.is_ok() ==> forall|p: int|
                0 <= p < final(data)@.len() ==> #[trigger] final(data)@[p] == self.atlas_byte(
                    old(data)@,
                    at_x as int,
                    at_y as int,
                    GRID_ATLAS_SIZE as int,
                    ATLAS_CHANNELS as int,
                    p,
                ),
    {
        self._write_vgrid_at(at_x, at_y, data, GRID_ATLAS_SIZE, GRID_ATLAS_SIZE, ATLAS_CHANNELS)
    }
}

/// In an atlas that a grid was written into, the texel of cell `(x, y)` gives back that
/// cell's inside flag, by comparing its first two bytes, and its curves, as its bytes
/// from `BEZIER_INDEX_FIRST_REAL` up.
pub proof fn lemma_atlas_decodes(
    g: VGrid,
    before: Seq<u8>,
    at_x: int,
    at_y: int,
    width: int,
    depth: int,
    x: int,
    y: int,
)
    requires
        g.wf(),
        !g.overfull(depth),
        !g.index_too_large(),
        0 <= at_x,
        0 <= at_y,
        at_x + g.width <= width,
        2 <= depth,
        0 <= x < g.width,
        0 <= y < g.height,
    ensures
        ({
            let p = ((at_y + y) * width + at_x + x) * depth;
            let c = y * g.width + x;
            &&& forall|j: int|
                0 <= j < depth ==> #[trigger] g.atlas_byte(before, at_x, at_y, width, depth, p + j)
                    == texel_byte(g.cell_beziers@[c]@, g.cell_mids@[c], j)
            &&& decoded_inside(
                g.atlas_byte(before, at_x, at_y, width, depth, p),
                g.atlas_byte(before, at_x, at_y, width, depth, p + 1),
            ) == g.cell_mids@[c]
            &&& forall|i: int|
                0 <= i <= MAX_CURVE_INDEX ==> (#[trigger] texel_has_curve(
                    g.cell_beziers@[c]@,
                    g.cell_mids@[c],
                    depth,
                    i,
                ) <==> g.cell_beziers@[c]@.contains(i as usize))
        }),
{
    let w = g.width as int;
    let h = g.height as int;
    let a = (at_y + y) * width + at_x + x;
    let p = a * depth;
    let c = y * w + x;
    assert(0 <= c < w * h) by (nonlinear_arith)
        requires
            c == y * w + x,
            0 <= x < w,
            0 <= y < h,
    ;
    assert(0 <= a) by (nonlinear_arith)
        requires
            a == (at_y + y) * width + at_x + x,
            0 <= at_y + y,
            0 <= width,
            0 <= at_x + x,
    ;
    assert(0 <= p) by (nonlinear_arith)
        requires
            p == a * depth,
            0 <= a,
            0 <= depth,
    ;
    let s = g.cell_beziers@[c]@;
    assert(s.len() <= depth);
    assert forall|k: int| 0 <= k < s.len() implies s[k] <= MAX_CURVE_INDEX by {
        assert(g.cell_beziers@[c]@[k] <= MAX_CURVE_INDEX);
    }
    assert(is_cell_list(s));
    assert forall|j: int| 0 <= j < depth implies #[trigger] g.atlas_byte(
        before,
        at_x,
        at_y,
        width,
        depth,
        p + j,
    ) == texel_byte(s, g.cell_mids@[c], j) by {
        lemma_texel_slot(p + j, depth, width, at_x, at_y, w, x, y);
        let texel = (p + j) / depth;
        let ax = texel % width;
        let ay = texel / width;
        lemma_fundamental_div_mod_converse(y * w + x, w, ay - at_y, ax - at_x);
        lemma_fundamental_div_mod_converse(y * w + x, w, y, x);
    }
    assert(g.atlas_byte(before, at_x, at_y, width, depth, p + 0) == texel_byte(s, g.cell_mids@[c], 0));
    assert(p + 0 == p);
    lemma_texel_round_trip(s, g.cell_mids@[c], depth);
    lemma_texel_curves(s, g.cell_mids@[c], depth);
}

/// Building a grid twice from the same crossings gives the same grid, cell for cell,
/// and the two write the same bytes wherever they are placed in an atlas.
pub proof fn lemma_build_is_deterministic(
    a: VGrid,
    b: VGrid,
    curves: Seq<CurveCrossings>,
    rows: Seq<Vec<i64>>,
    width: u16,
    height: u16,
)
    requires
        a.built_from(curves, rows, width, height),
        b.built_from(curves, rows, width, height),
    ensures
        a.width == b.width,
        a.height == b.height,
        a.cell_mids@ == b.cell_mids@,
        a.cell_beziers@.len() == b.cell_beziers@.len(),
        forall|c: int| 0 <= c < a.cell_beziers@.len() ==> a.cell_beziers@[c]@ == b.cell_beziers@[c]@,
        forall|before: Seq<u8>, at_x: int, at_y: int, atlas_width: int, depth: int, p: int|
            #[trigger] a.atlas_byte(before, at_x, at_y, atlas_width, depth, p) == b.atlas_byte(
                before,
                at_x,
                at_y,
                atlas_width,
                depth,
                p,
            ),
{
    assert(a.cell_mids@ =~= b.cell_mids@);
    assert forall|before: Seq<u8>, at_x: int, at_y: int, atlas_width: int, depth: int, p: int|
        #[trigger] a.atlas_byte(before, at_x, at_y, atlas_width, depth, p) == b.atlas_byte(
            before,
            at_x,
            at_y,
            atlas_width,
            depth,
            p,
        ) by {
        let texel = p / depth;
        let ax = texel % atlas_width;
        let ay = texel / atlas_width;
        let w = a.width as int;
        let h = a.height as int;
        if at_x <= ax < at_x + w && at_y <= ay < at_y + h {
            let c = (ay - at_y) * w + (ax - at_x);
            assert(0 <= c < w * h) by (nonlinear_arith)
                requires
                    c == (ay - at_y) * w + (ax - at_x),
                    0 <= ax - at_x < w,
                    0 <= ay - at_y < h,
            ;
            assert(a.cell_beziers@[c]@ == b.cell_beziers@[c]@);
        }
    }
}

} // verus!
