use vstd::arithmetic::div_mod::{lemma_fundamental_div_mod_converse, lemma_mod_pos_bound};
use vstd::prelude::*;
use vstd::slice::slice_subrange;

use crate::cell::{cell_value, Cell};
use crate::rules::{
    interior_count, lemma_interior_matches_toroidal, live_at, neighbor_count, next_generation,
    next_state,
};

verus! {

/// Why a grid could not be built.
#[derive(Clone, Copy, Debug, PartialEq, Eq, Structural)]
pub enum GridError {
    /// The width or the height is zero.
    ZeroDimension,
    /// The grid would hold more than `u32::MAX` cells.
    TooLarge,
}

/// The abstract state of a grid: its dimensions and its cells in row-major order.
pub struct GridView {
    pub width: nat,
    pub height: nat,
    pub cells: Seq<Cell>,
}

/// Dimensions a grid may have: neither is zero and the cell count fits in a `u32`.
pub open spec fn valid_dims(w: int, h: int) -> bool {
    1 <= w && 1 <= h && w * h <= u32::MAX
}

/// `n` dead cells.
pub open spec fn all_dead(n: nat) -> Seq<Cell> {
    Seq::new(n, |_i: int| Cell::Dead)
}

/// `cells` after marking alive, in order, each `(row, col)` of `addrs` on a
/// grid `w` cells wide.
pub open spec fn seeded(cells: Seq<Cell>, w: int, addrs: Seq<(u32, u32)>) -> Seq<Cell>
    decreases addrs.len(),
{
    if addrs.len() == 0 {
        cells
    } else {
        let a = addrs.last();
        seeded(cells, w, addrs.drop_last()).update(a.0 * w + a.1, Cell::Alive)
    }
}

/// The glyph that stands for a cell in the text rendering.
pub open spec fn glyph(c: Cell) -> char {
    match c {
        Cell::Dead => '\u{25FB}',
        Cell::Alive => '\u{25FC}',
    }
}

/// Row `r` of the text rendering: one glyph per cell, then a newline.
pub open spec fn row_text(cells: Seq<Cell>, w: int, r: int) -> Seq<char> {
    Seq::new(w as nat, |k: int| glyph(cells[r * w + k])).push('\n')
}

/// The text rendering of the first `rows` rows.
pub open spec fn grid_text(cells: Seq<Cell>, w: int, rows: nat) -> Seq<char>
    decreases rows,
{
    if rows == 0 {
        Seq::empty()
    } else {
        grid_text(cells, w, (rows - 1) as nat) + row_text(cells, w, rows - 1)
    }
}

/// The `(row, col)` of each of the first `n` cells that is in state `state`,
/// in row-major order, on a grid `w` cells wide.
pub open spec fn addresses_in_state(cells: Seq<Cell>, w: int, state: Cell, n: nat) -> Seq<(u32, u32)>
    decreases n,
{
    if n == 0 {
        Seq::empty()
    } else {
        let i = n - 1;
        let before = addresses_in_state(cells, w, state, (n - 1) as nat);
        if cells[i] == state {
            before.push(((i / w) as u32, (i % w) as u32))
        } else {
            before
        }
    }
}

/// Seeding with no addresses changes nothing: a freshly built grid seeded
/// with an empty set is still all dead.
pub proof fn lemma_seed_empty_is_identity(cells: Seq<Cell>, w: int)
    ensures
        seeded(cells, w, Seq::empty()) == cells,
        seeded(all_dead(cells.len()), w, Seq::empty()) == all_dead(cells.len()),
{
}

/// A toroidal Game of Life grid with a scratch buffer of the same size that
/// receives each new generation before the two buffers are exchanged.
pub struct Universe {
    width: u32,
    height: u32,
    cells: Vec<Cell>,
    scratch: Vec<Cell>,
}

impl View for Universe {
    type V = GridView;

    closed spec fn view(&self) -> GridView {
        GridView { width: self.width as nat, height: self.height as nat, cells: self.cells@ }
    }
}

/// Proves that flat index `row * w + col` of a `h` by `w` grid lies inside
/// it and splits back into `row` and `col`.
proof fn lemma_index_split(w: int, h: int, row: int, col: int)
    requires
        0 <= row < h,
        0 <= col < w,
    ensures
        0 <= row * w + col < w * h,
        (row * w + col) / w == row,
        (row * w + col) % w == col,
{
    assert(0 <= row * w + col < w * h) by (nonlinear_arith)
        requires
            0 <= row < h,
            0 <= col < w,
    ;
    lemma_fundamental_div_mod_converse(row * w + col, w, row, col);
}

/// Proves that a flat index below `w * h` names a row below `h` and a column below `w`.
proof fn lemma_index_bounds(w: int, h: int, i: int)
    requires
        1 <= w,
        0 <= i < w * h,
    ensures
        0 <= i / w < h,
        0 <= i % w < w,
        i == (i / w) * w + i % w,
{
    lemma_mod_pos_bound(i, w);
    vstd::arithmetic::div_mod::lemma_fundamental_div_mod(i, w);
    vstd::arithmetic::mul::lemma_mul_is_commutative(w, i / w);
    assert(0 <= i / w < h) by (nonlinear_arith)
        requires
            1 <= w,
            0 <= i < w * h,
            i == w * (i / w) + i % w,
            0 <= i % w < w,
    ;
}

/// The flat index `i` lies in the outer ring of a `h` by `w` grid.
spec fn on_border(w: int, h: int, i: int) -> bool {
    i / w == 0 || i / w == h - 1 || i % w == 0 || i % w == w - 1
}

fn dead_cells(n: usize) -> (r: Vec<Cell>)
    ensures
        r@ == all_dead(n as nat),
{
    let mut v: Vec<Cell> = Vec::with_capacity(n);
    let mut i: usize = 0;
    while i < n
        invariant
            i <= n,
            v@ == all_dead(i as nat),
        decreases n - i,
    {
        v.push(Cell::Dead);
        i += 1;
        assert(v@ =~= all_dead(i as nat));
    }
    v
}

impl Universe {
    /// The dimensions are valid and the cell buffer holds one cell per position.
    pub open spec fn shaped(&self) -> bool {
        &&& valid_dims(self@.width as int, self@.height as int)
        &&& self@.cells.len() == self@.width * self@.height
    }

    /// The scratch buffer is as long as the cell buffer.
    pub closed spec fn scratch_ready(&self) -> bool {
        self.scratch@.len() == self.cells@.len()
    }

    /// Well-formedness, kept by every operation.
    pub open spec fn wf(&self) -> bool {
        self.shaped() && self.scratch_ready()
    }

    /// A grid of `width` by `height` dead cells; fails when a dimension is zero
    /// or when the grid would hold more than `u32::MAX` cells.
    pub fn new(width: u32, height: u32) -> (r: Result<Universe, GridError>)
        ensures
            r is Ok <==> valid_dims(width as int, height as int),
            r matches Ok(u) ==> u.wf() && u@ == (GridView {
                width: width as nat,
                height: height as nat,
                cells: all_dead((width * height) as nat),
            }),
            r matches Err(e) ==> e == (if width == 0 || height == 0 {
                GridError::ZeroDimension
            } else {
                GridError::TooLarge
            }),
    {
        if width == 0 || height == 0 {
            return Err(GridError::ZeroDimension);
        }
        proof {
            assert((width as int) * (height as int) <= u64::MAX) by (nonlinear_arith)
                requires
                    width <= u32::MAX,
                    height <= u32::MAX,
            ;
        }
        if (width as u64) * (height as u64) > u32::MAX as u64 {
            return Err(GridError::TooLarge);
        }
        let n = (width * height) as usize;
        let cells = dead_cells(n);
        let scratch = dead_cells(n);
        Ok(Universe { width, height, cells, scratch })
    }

    /// The number of columns.
    pub fn width(&self) -> (r: u32)
        ensures
            r == self@.width,
    {
        self.width
    }

    /// The number of rows.
    pub fn height(&self) -> (r: u32)
        ensures
            r == self@.height,
    {
        self.height
    }

    /// Row-major index of `(row, col)`; both must already lie inside the grid.
    pub fn get_index(&self, row: u32, col: u32) -> (r: usize)
        requires
            self.shaped(),
            row < self@.height,
            col < self@.width,
        ensures
            r == row * self@.width + col,
            r < self@.cells.len(),
    {
        proof {
            lemma_index_split(self.width as int, self.height as int, row as int, col as int);
        }
        (row * self.width + col) as usize
    }

    /// 1 when the neighbour `(row + drow, col + dcol)`, wrapped onto the grid, is alive.
    fn live_wrapped(&self, row: u32, drow: u32, col: u32, dcol: u32) -> (r: u8)
        requires
            self.shaped(),
            row < self@.height,
            col < self@.width,
            drow < self@.height || drow == 1,
            dcol < self@.width || dcol == 1,
        ensures
            r as int == live_at(
                self@.cells,
                self@.width as int,
                self@.height as int,
                row + drow,
                col + dcol,
            ),
    {
        let r = ((row as u64 + drow as u64) % self.height as u64) as u32;
        let c = ((col as u64 + dcol as u64) % self.width as u64) as u32;
        proof {
            lemma_mod_pos_bound(row + drow, self.height as int);
            lemma_mod_pos_bound(col + dcol, self.width as int);
        }
        let ix = self.get_index(r, c);
        self.cells[ix].value()
    }

    /// Toroidal neighbour count, with an explicit wrap for each of the eight
    /// neighbours; used on the outer ring of the grid.
    pub fn live_neighbour_count_edge(&self, row: u32, col: u32) -> (r: u8)
        requires
            self.shaped(),
            row < self@.height,
            col < self@.width,
        ensures
            r as int == neighbor_count(
                self@.cells,
                self@.width as int,
                self@.height as int,
                row as int,
                col as int,
            ),
    {
        let up = self.height - 1;
        let left = self.width - 1;
        self.live_wrapped(row, up, col, left) + self.live_wrapped(row, up, col, 0)
            + self.live_wrapped(row, up, col, 1) + self.live_wrapped(row, 0, col, left)
            + self.live_wrapped(row, 0, col, 1) + self.live_wrapped(row, 1, col, left)
            + self.live_wrapped(row, 1, col, 0) + self.live_wrapped(row, 1, col, 1)
    }

    /// The rows above, at and below the interior row `row`, each as a slice
    /// of `width` cells.
    pub fn live_neighbour_count_row_context(&self, row: u32) -> (r: (&[Cell], &[Cell], &[Cell]))
        requires
            self.shaped(),
            1 <= row,
            row + 1 < self@.height,
        ensures
            r.0@ == self@.cells.subrange((row - 1) * self@.width, row * self@.width),
            r.1@ == self@.cells.subrange(row * self@.width, (row + 1) * self@.width),
            r.2@ == self@.cells.subrange((row + 1) * self@.width, (row + 2) * self@.width),
    {
        let ghost w = self.width as int;
        let ghost h = self.height as int;
        let ghost ri = row as int;
        proof {
            assert((ri - 1) * w == ri * w - w && (ri + 1) * w == ri * w + w && (ri + 2) * w
                == ri * w + 2 * w && (ri + 2) * w <= w * h) by (nonlinear_arith)
                requires
                    1 <= ri,
                    ri + 1 < h,
                    1 <= w,
            ;
        }
        let width = self.width as usize;
        let s1 = row as usize * width;
        let s0 = s1 - width;
        let s2 = s1 + width;
        let all = self.cells.as_slice();
        (
            slice_subrange(all, s0, s0 + width),
            slice_subrange(all, s1, s1 + width),
            slice_subrange(all, s2, s2 + width),
        )
    }

    /// Neighbour count of column `col` of an interior row, read from the three
    /// row slices around it with no wrap-around.
    pub fn live_neighbour_count_centre(above: &[Cell], here: &[Cell], below: &[Cell], col: usize) -> (r:
        u8)
        requires
            1 <= col,
            col + 1 < above@.len(),
            col + 1 < here@.len(),
            col + 1 < below@.len(),
        ensures
            r as int == cell_value(above@[col - 1]) + cell_value(above@[col as int]) + cell_value(
                above@[col + 1],
            ) + cell_value(here@[col - 1]) + cell_value(here@[col + 1]) + cell_value(
                below@[col - 1],
            ) + cell_value(below@[col as int]) + cell_value(below@[col + 1]),
    {
        let top = above[col - 1].value() + above[col].value() + above[col + 1].value();
        let mid = here[col - 1].value() + here[col + 1].value();
        let bot = below[col - 1].value() + below[col].value() + below[col + 1].value();
        top + mid + bot
    }

    /// Advances the grid by one generation. The outer ring is computed with
    /// explicit wrap-around, the interior from row slices; every result goes
    /// to the scratch buffer, which then takes the place of the cell buffer.
    pub fn tick(&mut self)
        requires
            old(self).wf(),
        ensures
            final(self).wf(),
            final(self)@.width == old(self)@.width,
            final(self)@.height == old(self)@.height,
            final(self)@.cells == next_generation(
                old(self)@.cells,
                old(self)@.width as int,
                old(self)@.height as int,
            ),
    {
        let mut next: Vec<Cell> = Vec::new();
        std::mem::swap(&mut next, &mut self.scratch);
        let w = self.width;
        let h = self.height;
        let ghost cells = self.cells@;
        let ghost wi = w as int;
        let ghost hi = h as int;
        let ghost target = next_generation(cells, wi, hi);

        // top and bottom rows
        let rh = h - 1;
        let mut col: u32 = 0;
        while col < w
            invariant
                self.shaped(),
                self.cells@ == cells,
                self.width == w,
                self.height == h,
                wi == w,
                hi == h,
                rh == h - 1,
                target == next_generation(cells, wi, hi),
                next@.len() == cells.len(),
                col <= w,
                forall|i: int|
                    0 <= i < cells.len() && (i / wi == 0 || i / wi == hi - 1) && i % wi < col
                        ==> #[trigger] next@[i] == target[i],
            decreases w - col,
        {
            let ix0 = self.get_index(0, col);
            let ixh = self.get_index(rh, col);
            let l0 = self.live_neighbour_count_edge(0, col);
            let lh = self.live_neighbour_count_edge(rh, col);
            proof {
                lemma_index_split(wi, hi, 0, col as int);
                lemma_index_split(wi, hi, rh as int, col as int);
            }
            next.set(ix0, Self::next_cell(self.cells[ix0], l0));
            next.set(ixh, Self::next_cell(self.cells[ixh], lh));
            proof {
                assert forall|i: int|
                    0 <= i < cells.len() && (i / wi == 0 || i / wi == hi - 1) && i % wi < col
                        + 1 implies #[trigger] next@[i] == target[i] by {
                    lemma_index_bounds(wi, hi, i);
                }
            }
            col += 1;
        }

        // left and right columns, between the top and bottom rows
        let cw = w - 1;
        let mut row: u32 = 1;
        while row < rh
            invariant
                self.shaped(),
                self.cells@ == cells,
                self.width == w,
                self.height == h,
                wi == w,
                hi == h,
                rh == h - 1,
                cw == w - 1,
                target == next_generation(cells, wi, hi),
                next@.len() == cells.len(),
                1 <= row,
                row <= rh || row == 1,
                forall|i: int|
                    0 <= i < cells.len() && (i / wi == 0 || i / wi == hi - 1 || ((i % wi == 0 || i
                        % wi == wi - 1) && i / wi < row)) ==> #[trigger] next@[i] == target[i],
            decreases rh - row,
        {
            let ix0 = self.get_index(row, 0);
            let ixw = self.get_index(row, cw);
            let l0 = self.live_neighbour_count_edge(row, 0);
            let lw = self.live_neighbour_count_edge(row, cw);
            proof {
                lemma_index_split(wi, hi, row as int, 0);
                lemma_index_split(wi, hi, row as int, cw as int);
            }
            next.set(ix0, Self::next_cell(self.cells[ix0], l0));
            next.set(ixw, Self::next_cell(self.cells[ixw], lw));
            proof {
                assert forall|i: int|
                    0 <= i < cells.len() && (i / wi == 0 || i / wi == hi - 1 || ((i % wi == 0 || i
                        % wi == wi - 1) && i / wi < row + 1)) implies #[trigger] next@[i]
                    == target[i] by {
                    lemma_index_bounds(wi, hi, i);
                }
            }
            row += 1;
        }

        proof {
            assert forall|i: int|
                0 <= i < cells.len() && (on_border(wi, hi, i) || i / wi < 1) implies #[trigger] next@[i]
                == target[i] by {
                lemma_index_bounds(wi, hi, i);
            }
        }

        // interior, one row at a time
        let mut row: u32 = 1;
        while row < rh
            invariant
                self.shaped(),
                self.cells@ == cells,
                self.width == w,
                self.height == h,
                wi == w,
                hi == h,
                rh == h - 1,
                cw == w - 1,
                target == next_generation(cells, wi, hi),
                next@.len() == cells.len(),
                1 <= row,
                row <= rh || row == 1,
                forall|i: int|
                    0 <= i < cells.len() && (on_border(wi, hi, i) || i / wi < row)
                        ==> #[trigger] next@[i] == target[i],
            decreases rh - row,
        {
            let (above, here, below) = self.live_neighbour_count_row_context(row);
            proof {
                let ri = row as int;
                assert((ri - 1) * wi + wi == ri * wi && (ri + 1) * wi == ri * wi + wi && (ri + 2)
                    * wi == ri * wi + 2 * wi && (ri + 2) * wi <= wi * hi) by (nonlinear_arith)
                    requires
                        1 <= ri,
                        ri + 1 < hi,
                        1 <= wi,
                ;
            }
            let mut col: u32 = 1;
            while col < cw
                invariant
                    self.shaped(),
                    self.cells@ == cells,
                    self.width == w,
                    self.height == h,
                    wi == w,
                    hi == h,
                    rh == h - 1,
                    cw == w - 1,
                    target == next_generation(cells, wi, hi),
                    next@.len() == cells.len(),
                    1 <= row < rh,
                    1 <= col,
                    col <= cw || col == 1,
                    (row - 1) * wi + wi == row * wi,
                    (row + 1) * wi == row * wi + wi,
                    (row + 2) * wi == row * wi + 2 * wi,
                    (row + 2) * wi <= cells.len(),
                    above@.len() == wi,
                    here@.len() == wi,
                    below@.len() == wi,
                    above@ == cells.subrange((row - 1) * wi, row * wi),
                    here@ == cells.subrange(row * wi, (row + 1) * wi),
                    below@ == cells.subrange((row + 1) * wi, (row + 2) * wi),
                    forall|i: int|
                        0 <= i < cells.len() && (on_border(wi, hi, i) || i / wi < row || (i / wi
                            == row && i % wi < col)) ==> #[trigger] next@[i] == target[i],
                decreases cw - col,
            {
                let ix = self.get_index(row, col);
                let lc = Self::live_neighbour_count_centre(above, here, below, col as usize);
                proof {
                    lemma_index_split(wi, hi, row as int, col as int);
                    lemma_interior_matches_toroidal(cells, wi, hi, row as int, col as int);
                    let ri = row as int;
                    let ci = col as int;
                    assert(above@[ci - 1] == cells[(ri - 1) * wi + ci - 1]);
                    assert(above@[ci] == cells[(ri - 1) * wi + ci]);
                    assert(above@[ci + 1] == cells[(ri - 1) * wi + ci + 1]);
                    assert(here@[ci - 1] == cells[ri * wi + ci - 1]);
                    assert(here@[ci + 1] == cells[ri * wi + ci + 1]);
                    assert(below@[ci - 1] == cells[(ri + 1) * wi + ci - 1]);
                    assert(below@[ci] == cells[(ri + 1) * wi + ci]);
                    assert(below@[ci + 1] == cells[(ri + 1) * wi + ci + 1]);
                    assert(lc == interior_count(cells, wi, ri, ci));
                }
                next.set(ix, Self::next_cell(self.cells[ix], lc));
                proof {
                    assert forall|i: int|
                        0 <= i < cells.len() && (on_border(wi, hi, i) || i / wi < row || (i / wi
                            == row && i % wi < col + 1)) implies #[trigger] next@[i]
                        == target[i] by {
                        lemma_index_bounds(wi, hi, i);
                    }
                }
                col += 1;
            }
            row += 1;
        }

        proof {
            assert forall|i: int| 0 <= i < cells.len() implies #[trigger] next@[i] == target[i] by {
                lemma_index_bounds(wi, hi, i);
            }
            assert(next@ =~= target);
        }
        std::mem::swap(&mut self.cells, &mut next);
        self.scratch = next;
    }

    /// Sets the width and makes every cell dead; nothing of the old content is kept.
    pub fn set_width(&mut self, width: u32)
        requires
            old(self).wf(),
            valid_dims(width as int, old(self)@.height as int),
        ensures
            final(self).wf(),
            final(self)@ == (GridView {
                width: width as nat,
                height: old(self)@.height,
                cells: all_dead((width * old(self)@.height) as nat),
            }),
    {
        self.width = width;
        let n = (self.width * self.height) as usize;
        self.cells = dead_cells(n);
        self.scratch = dead_cells(n);
    }

    /// Sets the height and makes every cell dead; nothing of the old content is kept.
    pub fn set_height(&mut self, height: u32)
        requires
            old(self).wf(),
            valid_dims(old(self)@.width as int, height as int),
        ensures
            final(self).wf(),
            final(self)@ == (GridView {
                width: old(self)@.width,
                height: height as nat,
                cells: all_dead((old(self)@.width * height) as nat),
            }),
    {
        self.height = height;
        let n = (self.width * self.height) as usize;
        self.cells = dead_cells(n);
        self.scratch = dead_cells(n);
    }

    /// Makes every cell dead.
    pub fn reset_zero(&mut self)
        requires
            old(self).wf(),
        ensures
            final(self).wf(),
            final(self)@ == (GridView { cells: all_dead(old(self)@.cells.len()), ..old(self)@ }),
    {
        let n = self.cells.len();
        let mut i: usize = 0;
        while i < n
            invariant
                self.wf(),
                self.width == old(self).width,
                self.height == old(self).height,
                n == self.cells@.len(),
                i <= n,
                forall|j: int| 0 <= j < i ==> self.cells@[j] == Cell::Dead,
            decreases n - i,
        {
            self.cells.set(i, Cell::Dead);
            i += 1;
        }
        assert(self.cells@ =~= all_dead(n as nat));
    }

    /// Replaces every cell by the one at the same place in `states`, which
    /// holds one state per cell in row-major order.
    pub fn load_cells(&mut self, states: &[Cell])
        requires
            old(self).wf(),
            states@.len() == old(self)@.cells.len(),
        ensures
            final(self).wf(),
            final(self)@ == (GridView { cells: states@, ..old(self)@ }),
    {
        let n = self.cells.len();
        let mut i: usize = 0;
        while i < n
            invariant
                self.wf(),
                self.width == old(self).width,
                self.height == old(self).height,
                n == self.cells@.len(),
                states@.len() == n,
                i <= n,
                forall|j: int| 0 <= j < i ==> self.cells@[j] == states@[j],
            decreases n - i,
        {
            self.cells.set(i, states[i]);
            i += 1;
        }
        assert(self.cells@ =~= states@);
    }

    /// The cells in row-major order, without copying.
    pub fn cells(&self) -> (r: &[Cell])
        ensures
            r@ == self@.cells,
    {
        self.cells.as_slice()
    }

    /// Toggles the cell at `(row, col)`.
    pub fn flip_cell(&mut self, row: u32, col: u32)
        requires
            old(self).wf(),
            row < old(self)@.height,
            col < old(self)@.width,
        ensures
            final(self).wf(),
            final(self)@ == (GridView {
                cells: old(self)@.cells.update(
                    row * old(self)@.width + col,
                    match old(self)@.cells[row * old(self)@.width + col] {
                        Cell::Dead => Cell::Alive,
                        Cell::Alive => Cell::Dead,
                    },
                ),
                ..old(self)@
            }),
    {
        let idx = self.get_index(row, col);
        let mut c = self.cells[idx];
        c.flip();
        self.cells.set(idx, c);
    }

    /// Marks alive each `(row, col)` of `cell_addresses`; every other cell keeps its state.
    pub fn set_cells(&mut self, cell_addresses: &[(u32, u32)])
        requires
            old(self).wf(),
            forall|k: int|
                0 <= k < cell_addresses@.len() ==> (#[trigger] cell_addresses@[k]).0
                    < old(self)@.height && cell_addresses@[k].1 < old(self)@.width,
        ensures
            final(self).wf(),
            final(self)@ == (GridView {
                cells: seeded(old(self)@.cells, old(self)@.width as int, cell_addresses@),
                ..old(self)@
            }),
    {
        let mut k: usize = 0;
        while k < cell_addresses.len()
            invariant
                self.wf(),
                self.width == old(self).width,
                self.height == old(self).height,
                k <= cell_addresses@.len(),
                forall|j: int|
                    0 <= j < cell_addresses@.len() ==> (#[trigger] cell_addresses@[j]).0
                        < self@.height && cell_addresses@[j].1 < self@.width,
                self.cells@ == seeded(
                    old(self)@.cells,
                    self.width as int,
                    cell_addresses@.subrange(0, k as int),
                ),
            decreases cell_addresses@.len() - k,
        {
            let (r, c) = cell_addresses[k];
            let ix = self.get_index(r, c);
            self.cells.set(ix, Cell::Alive);
            proof {
                let done = cell_addresses@.subrange(0, k + 1);
                assert(done.drop_last() =~= cell_addresses@.subrange(0, k as int));
            }
            k += 1;
        }
        assert(cell_addresses@.subrange(0, k as int) =~= cell_addresses@);
    }

    /// Every `(row, col)` of the grid in row-major order.
    pub fn addresses_iter(&self) -> (r: Vec<(u32, u32)>)
        requires
            self.wf(),
        ensures
            r@.len() == self@.cells.len(),
            forall|i: int|
                0 <= i < r@.len() ==> #[trigger] r@[i] == ((i / self@.width as int) as u32, (i
                    % self@.width as int) as u32),
    {
        let mut out: Vec<(u32, u32)> = Vec::new();
        let ghost wi = self.width as int;
        let ghost hi = self.height as int;
        let mut r: u32 = 0;
        while r < self.height
            invariant
                self.wf(),
                wi == self.width,
                hi == self.height,
                r <= hi,
                out@.len() == r * wi,
                forall|i: int|
                    0 <= i < out@.len() ==> #[trigger] out@[i] == ((i / wi) as u32, (i
                        % wi) as u32),
            decreases hi - r,
        {
            let mut c: u32 = 0;
            while c < self.width
                invariant
                    self.wf(),
                    wi == self.width,
                    hi == self.height,
                    r < hi,
                    c <= wi,
                    out@.len() == r * wi + c,
                    forall|i: int|
                        0 <= i < out@.len() ==> #[trigger] out@[i] == ((i / wi) as u32, (i
                            % wi) as u32),
                decreases wi - c,
            {
                proof {
                    lemma_index_split(wi, hi, r as int, c as int);
                }
                out.push((r, c));
                c += 1;
            }
            proof {
                assert(r * wi + wi == (r + 1) * wi) by (nonlinear_arith);
            }
            r += 1;
        }
        proof {
            assert(hi * wi == wi * hi) by (nonlinear_arith);
        }
        out
    }

    /// The grid as text: one line per row, `◻` for a dead cell and `◼` for a
    /// live one, each line ended by a newline.
    pub fn render(&self) -> (r: String)
        requires
            self.wf(),
        ensures
            r@ == grid_text(self@.cells, self@.width as int, self@.height),
    {
        let ghost cells = self.cells@;
        let ghost wi = self.width as int;
        let ghost hi = self.height as int;
        let mut text = String::new();
        let mut r: u32 = 0;
        while r < self.height
            invariant
                self.wf(),
                cells == self.cells@,
                wi == self.width,
                hi == self.height,
                r <= hi,
                text@ == grid_text(cells, wi, r as nat),
            decreases hi - r,
        {
            let ghost before = text@;
            let mut c: u32 = 0;
            while c < self.width
                invariant
                    self.wf(),
                    cells == self.cells@,
                    wi == self.width,
                    hi == self.height,
                    r < hi,
                    c <= wi,
                    text@ == before + Seq::new(c as nat, |k: int| glyph(cells[r * wi + k])),
                decreases wi - c,
            {
                let ix = self.get_index(r, c);
                let g = match self.cells[ix] {
                    Cell::Dead => "\u{25FB}",
                    Cell::Alive => "\u{25FC}",
                };
                proof {
                    reveal_strlit("\u{25FB}");
                    reveal_strlit("\u{25FC}");
                }
                text.append(g);
                assert(text@ =~= before + Seq::new((c + 1) as nat, |k: int| glyph(cells[r * wi + k])));
                c += 1;
            }
            proof {
                reveal_strlit("\n");
            }
            text.append("\n");
            assert(text@ =~= grid_text(cells, wi, (r + 1) as nat));
            r += 1;
        }
        text
    }

    /// The `(row, col)` of every cell in state `state`, in row-major order.
    pub fn cell_addresses(&self, state: Cell) -> (r: Vec<(u32, u32)>)
        requires
            self.wf(),
        ensures
            r@ == addresses_in_state(self@.cells, self@.width as int, state, self@.cells.len()),
    {
        let ghost wi = self.width as int;
        let ghost hi = self.height as int;
        let n = self.cells.len();
        let mut out: Vec<(u32, u32)> = Vec::new();
        let mut i: usize = 0;
        while i < n
            invariant
                self.wf(),
                wi == self.width,
                hi == self.height,
                n == self.cells@.len(),
                i <= n,
                out@ == addresses_in_state(self@.cells, wi, state, i as nat),
            decreases n - i,
        {
            if self.cells[i] == state {
                proof {
                    lemma_index_bounds(wi, hi, i as int);
                }
                let row = (i / self.width as usize) as u32;
                let col = (i % self.width as usize) as u32;
                out.push((row, col));
            }
            i += 1;
        }
        out
    }

    /// Conway's rule for one cell with `live_neighbours` live neighbours.
    pub fn next_cell(this_cell: Cell, live_neighbours: u8) -> (r: Cell)
        ensures
            r == next_state(this_cell, live_neighbours as int),
    {
        match this_cell {
            Cell::Alive => {
                if live_neighbours == 2 || live_neighbours == 3 {
                    Cell::Alive
                } else {
                    Cell::Dead
                }
            },
            Cell::Dead => {
                if live_neighbours == 3 {
                    Cell::Alive
                } else {
                    Cell::Dead
                }
            },
        }
    }
}

} // verus!
