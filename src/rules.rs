use vstd::arithmetic::div_mod::{lemma_mod_add_multiples_vanish, lemma_small_mod};
use vstd::prelude::*;

use crate::cell::{cell_value, Cell};

verus! {

/// 1 when the cell at `(row mod h, col mod w)` of the row-major `cells` is alive, else 0.
pub open spec fn live_at(cells: Seq<Cell>, w: int, h: int, row: int, col: int) -> int {
    cell_value(cells[(row % h) * w + col % w])
}

/// The number of live cells among the eight Moore neighbours of `(row, col)`
/// on a `h` by `w` torus: a step back from row 0 lands on row `h - 1`, a step
/// past the last column lands on column 0.
pub open spec fn neighbor_count(cells: Seq<Cell>, w: int, h: int, row: int, col: int) -> int {
    live_at(cells, w, h, row + h - 1, col + w - 1) + live_at(cells, w, h, row + h - 1, col)
        + live_at(cells, w, h, row + h - 1, col + 1) + live_at(cells, w, h, row, col + w - 1)
        + live_at(cells, w, h, row, col + 1) + live_at(cells, w, h, row + 1, col + w - 1)
        + live_at(cells, w, h, row + 1, col) + live_at(cells, w, h, row + 1, col + 1)
}

/// The eight-neighbour sum of an interior cell taken straight from the three
/// rows around it, with no wrap-around.
pub open spec fn interior_count(cells: Seq<Cell>, w: int, row: int, col: int) -> int {
    cell_value(cells[(row - 1) * w + col - 1]) + cell_value(cells[(row - 1) * w + col])
        + cell_value(cells[(row - 1) * w + col + 1]) + cell_value(cells[row * w + col - 1])
        + cell_value(cells[row * w + col + 1]) + cell_value(cells[(row + 1) * w + col - 1])
        + cell_value(cells[(row + 1) * w + col]) + cell_value(cells[(row + 1) * w + col + 1])
}

/// Conway's rule: a live cell survives with two or three live neighbours and
/// dies otherwise; a dead cell comes alive with exactly three.
pub open spec fn next_state(c: Cell, n: int) -> Cell {
    match c {
        Cell::Alive => if n == 2 || n == 3 {
            Cell::Alive
        } else {
            Cell::Dead
        },
        Cell::Dead => if n == 3 {
            Cell::Alive
        } else {
            Cell::Dead
        },
    }
}

/// The generation that follows `cells` on a `h` by `w` torus.
pub open spec fn next_generation(cells: Seq<Cell>, w: int, h: int) -> Seq<Cell> {
    Seq::new(
        (w * h) as nat,
        |i: int| next_state(cells[i], neighbor_count(cells, w, h, i / w, i % w)),
    )
}

/// On an interior cell, summing the three surrounding rows without any
/// wrap-around gives exactly the toroidal neighbour count, so the fast
/// interior strategy and the modulo-based edge strategy agree wherever both
/// apply.
pub proof fn lemma_interior_matches_toroidal(cells: Seq<Cell>, w: int, h: int, row: int, col: int)
    requires
        1 <= row,
        row + 1 < h,
        1 <= col,
        col + 1 < w,
    ensures
        interior_count(cells, w, row, col) == neighbor_count(cells, w, h, row, col),
{
    lemma_mod_add_multiples_vanish(row - 1, h);
    lemma_small_mod((row - 1) as nat, h as nat);
    lemma_small_mod(row as nat, h as nat);
    lemma_small_mod((row + 1) as nat, h as nat);
    lemma_mod_add_multiples_vanish(col - 1, w);
    lemma_small_mod((col - 1) as nat, w as nat);
    lemma_small_mod(col as nat, w as nat);
    lemma_small_mod((col + 1) as nat, w as nat);
}

/// The grid wraps at its corners: the cell at `(h - 1, w - 1)` is a
/// neighbour of `(0, 0)`, so when it is alive the corner `(0, 0)` counts at
/// least one live neighbour.
pub proof fn lemma_corner_wraps_to_opposite_corner(cells: Seq<Cell>, w: int, h: int)
    requires
        w >= 1,
        h >= 1,
    ensures
        live_at(cells, w, h, h - 1, w - 1) == cell_value(cells[(h - 1) * w + (w - 1)]),
        neighbor_count(cells, w, h, 0, 0) >= live_at(cells, w, h, h - 1, w - 1),
        cells[(h - 1) * w + (w - 1)] == Cell::Alive ==> neighbor_count(cells, w, h, 0, 0) >= 1,
{
    lemma_small_mod((h - 1) as nat, h as nat);
    lemma_small_mod((w - 1) as nat, w as nat);
    assert(0 + h - 1 == h - 1);
    assert(0 + w - 1 == w - 1);
}

} // verus!
