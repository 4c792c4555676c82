//! The neighbourhood of a cell on the torus: eight cells, each of which
//! counts, whichever edge lies between.

use crate::grid::lemma_wrap_before;
use crate::grid::lemma_wrap_fixed;
use crate::grid::Grid;
use vstd::prelude::*;

verus! {

/// A cell never has more than eight live neighbours, and each of the eight
/// cells around it counts: the one at offset `dr`, `dc`, found by wrapping
/// around the edges of the board, is among its live neighbours when alive.
pub proof fn lemma_neighbor_counts(grid: Grid, row: int, col: int, dr: int, dc: int)
    requires
        grid.wf(),
        -1 <= dr <= 1,
        -1 <= dc <= 1,
        dr != 0 || dc != 0,
    ensures
        grid.population(row + dr, col + dc) <= grid.live_neighbors(row, col) <= 8,
{
}

/// Each of the eight cells around a cell counts for itself: bringing the one
/// at offset `dr`, `dc` to life, found by wrapping around the edges of the
/// board, raises the number of live neighbours.
pub proof fn lemma_neighbor_raises_count(grid: Grid, row: int, col: int, dr: int, dc: int)
    requires
        grid.wf(),
        -1 <= dr <= 1,
        -1 <= dc <= 1,
        dr != 0 || dc != 0,
        !grid.alive(row + dr, col + dc),
    ensures
        grid.with_live(row + dr, col + dc).wf(),
        grid.with_live(row + dr, col + dc).live_neighbors(row, col) > grid.live_neighbors(
            row,
            col,
        ),
{
    let lit = grid.with_live(row + dr, col + dc);
    grid.lemma_alive_wraps(row + dr, col + dc);
    grid.lemma_alive_wraps(row - 1, col - 1);
    grid.lemma_alive_wraps(row - 1, col);
    grid.lemma_alive_wraps(row - 1, col + 1);
    grid.lemma_alive_wraps(row, col - 1);
    grid.lemma_alive_wraps(row, col + 1);
    grid.lemma_alive_wraps(row + 1, col - 1);
    grid.lemma_alive_wraps(row + 1, col);
    grid.lemma_alive_wraps(row + 1, col + 1);
    assert(lit.population(row + dr, col + dc) == 1);
    assert(lit.population(row - 1, col - 1) >= grid.population(row - 1, col - 1));
    assert(lit.population(row - 1, col) >= grid.population(row - 1, col));
    assert(lit.population(row - 1, col + 1) >= grid.population(row - 1, col + 1));
    assert(lit.population(row, col - 1) >= grid.population(row, col - 1));
    assert(lit.population(row, col + 1) >= grid.population(row, col + 1));
    assert(lit.population(row + 1, col - 1) >= grid.population(row + 1, col - 1));
    assert(lit.population(row + 1, col) >= grid.population(row + 1, col));
    assert(lit.population(row + 1, col + 1) >= grid.population(row + 1, col + 1));
}

/// The board is a torus: the cell in the top left corner has the cell in the
/// bottom right corner as its neighbour, and the cells of the last row and
/// of the last column next to it.
pub proof fn lemma_corner_neighbors(grid: Grid)
    requires
        grid.wf(),
    ensures
        grid.index(-1, -1) == (grid.rows - 1) * grid.cols + (grid.cols - 1),
        grid.live_neighbors(0, 0) >= grid.population(grid.rows - 1, grid.cols - 1),
        grid.live_neighbors(0, 0) >= grid.population(grid.rows - 1, 0),
        grid.live_neighbors(0, 0) >= grid.population(0, grid.cols - 1),
{
    lemma_wrap_before(0, grid.rows);
    lemma_wrap_before(0, grid.cols);
    lemma_wrap_fixed(0, grid.rows);
    lemma_wrap_fixed(0, grid.cols);
    lemma_wrap_fixed(grid.rows - 1, grid.rows);
    lemma_wrap_fixed(grid.cols - 1, grid.cols);
}

/// The cell in the top left corner counts the cell in the bottom right
/// corner: bringing that one to life raises the number of live neighbours of
/// the first.
pub proof fn lemma_corner_counts_opposite_corner(grid: Grid)
    requires
        grid.wf(),
        !grid.alive(grid.rows - 1, grid.cols - 1),
    ensures
        grid.with_live(grid.rows - 1, grid.cols - 1).live_neighbors(0, 0) > grid.live_neighbors(
            0,
            0,
        ),
{
    lemma_corner_neighbors(grid);
    lemma_wrap_fixed(grid.rows - 1, grid.rows);
    lemma_wrap_fixed(grid.cols - 1, grid.cols);
    lemma_wrap_before(0, grid.rows);
    lemma_wrap_before(0, grid.cols);
    assert(grid.index(-1, -1) == grid.index(grid.rows - 1, grid.cols - 1));
    lemma_neighbor_raises_count(grid, 0, 0, -1, -1);
}

} // verus!
