//! Patterns that die out and patterns that stay: the empty board, the single
//! cell and the block of two by two.

use crate::grid::lemma_wrap_steps;
use crate::grid::lemma_wrap_twice;
use crate::grid::wrap;
use crate::grid::Grid;
use vstd::prelude::*;

verus! {

/// Every cell of the empty board is dead.
pub proof fn lemma_all_dead(rows: nat, cols: nat, row: int, col: int)
    requires
        rows > 0,
        cols > 0,
    ensures
        Grid::empty(rows, cols).wf(),
        !Grid::empty(rows, cols).alive(row, col),
{
    Grid::lemma_from_fn(rows, cols, |r: int, c: int| false, row, col);
}

/// Nothing is born on a board without a live cell.
pub proof fn lemma_empty_stays_empty(rows: nat, cols: nat)
    requires
        rows > 0,
        cols > 0,
    ensures
        Grid::empty(rows, cols).next() == Grid::empty(rows, cols),
{
    let grid = Grid::empty(rows, cols);
    lemma_all_dead(rows, cols, 0, 0);
    grid.lemma_next(0, 0);
    assert forall|r: int, c: int| 0 <= r < rows && 0 <= c < cols implies grid.next().alive(r, c)
        == grid.alive(r, c) by {
        grid.lemma_next(r, c);
        lemma_all_dead(rows, cols, r - 1, c - 1);
        lemma_all_dead(rows, cols, r - 1, c);
        lemma_all_dead(rows, cols, r - 1, c + 1);
        lemma_all_dead(rows, cols, r, c - 1);
        lemma_all_dead(rows, cols, r, c);
        lemma_all_dead(rows, cols, r, c + 1);
        lemma_all_dead(rows, cols, r + 1, c - 1);
        lemma_all_dead(rows, cols, r + 1, c);
        lemma_all_dead(rows, cols, r + 1, c + 1);
    }
    grid.next().lemma_same_cells(grid);
}

/// A live cell without a live neighbour is dead in the next generation.
pub proof fn lemma_lonely_cell_dies(grid: Grid, row: int, col: int)
    requires
        grid.wf(),
        grid.alive(row, col),
        grid.live_neighbors(row, col) == 0,
    ensures
        !grid.next().alive(row, col),
{
    grid.lemma_next(row, col);
}

/// The product of two small counts, without multiplication.
proof fn lemma_small_product(a: int, b: int)
    requires
        0 <= a <= 3,
    ensures
        a * b == if a == 0 {
            0int
        } else if a == 1 {
            b
        } else if a == 2 {
            b + b
        } else {
            b + b + b
        },
{
    assert(a * b == if a == 0 {
        0int
    } else if a == 1 {
        b
    } else if a == 2 {
        b + b
    } else {
        b + b + b
    }) by (nonlinear_arith)
        requires
            0 <= a <= 3,
    ;
}

/// The board of the given size on which the cell in `row`, `col` is alive and
/// nothing else.
pub open spec fn single(rows: nat, cols: nat, row: int, col: int) -> Grid {
    Grid::from_fn(
        rows,
        cols,
        |r: int, c: int| wrap(r, rows) == wrap(row, rows) && wrap(c, cols) == wrap(col, cols),
    )
}

/// How many of `x - 1`, `x`, `x + 1` fold onto the position of `at` on an
/// axis of length `n`.
pub open spec fn reach(n: nat, at: int, x: int) -> nat {
    (if wrap(x - 1, n) == wrap(at, n) {
        1nat
    } else {
        0nat
    }) + (if wrap(x, n) == wrap(at, n) {
        1nat
    } else {
        0nat
    }) + (if wrap(x + 1, n) == wrap(at, n) {
        1nat
    } else {
        0nat
    })
}

/// Which cells of a board with a single live cell are alive, from any
/// coordinates.
pub proof fn lemma_single_alive(rows: nat, cols: nat, row: int, col: int, r: int, c: int)
    requires
        rows > 0,
        cols > 0,
    ensures
        single(rows, cols, row, col).wf(),
        single(rows, cols, row, col).alive(r, c) == (wrap(r, rows) == wrap(row, rows) && wrap(
            c,
            cols,
        ) == wrap(col, cols)),
{
    Grid::lemma_from_fn(
        rows,
        cols,
        |r: int, c: int| wrap(r, rows) == wrap(row, rows) && wrap(c, cols) == wrap(col, cols),
        r,
        c,
    );
    lemma_wrap_twice(r, rows);
    lemma_wrap_twice(c, cols);
}

/// On an axis of two or more positions, at most two of three positions in a
/// row fold onto a given one, and only the middle one when it does. On an
/// axis of one position all three do.
pub proof fn lemma_reach(n: nat, at: int, x: int)
    requires
        n > 0,
    ensures
        n >= 2 ==> reach(n, at, x) <= 2,
        n >= 2 && wrap(x, n) == wrap(at, n) ==> reach(n, at, x) == 1,
        n < 2 ==> reach(n, at, x) == 3,
{
    lemma_wrap_steps(x, n);
    lemma_wrap_steps(at, n);
}

/// The live neighbours of a cell on a board with a single live cell: the
/// cells around it, and the cell itself, that fold onto the live cell's row
/// and column, less the cell itself.
pub proof fn lemma_single_neighbors(rows: nat, cols: nat, row: int, col: int, r: int, c: int)
    requires
        rows > 0,
        cols > 0,
    ensures
        single(rows, cols, row, col).live_neighbors(r, c) + single(
            rows,
            cols,
            row,
            col,
        ).population(r, c) == reach(rows, row, r) * reach(cols, col, c),
{
    lemma_single_alive(rows, cols, row, col, r - 1, c - 1);
    lemma_single_alive(rows, cols, row, col, r - 1, c);
    lemma_single_alive(rows, cols, row, col, r - 1, c + 1);
    lemma_single_alive(rows, cols, row, col, r, c - 1);
    lemma_single_alive(rows, cols, row, col, r, c);
    lemma_single_alive(rows, cols, row, col, r, c + 1);
    lemma_single_alive(rows, cols, row, col, r + 1, c - 1);
    lemma_single_alive(rows, cols, row, col, r + 1, c);
    lemma_single_alive(rows, cols, row, col, r + 1, c + 1);
    lemma_small_product(reach(rows, row, r) as int, reach(cols, col, c) as int);
}

/// A single live cell without a live neighbour leaves an empty board: the
/// cell dies and nothing is born around it.
pub proof fn lemma_single_cell_dies_out(rows: nat, cols: nat, row: int, col: int)
    requires
        rows > 0,
        cols > 0,
        single(rows, cols, row, col).live_neighbors(row, col) == 0,
    ensures
        single(rows, cols, row, col).next() == Grid::empty(rows, cols),
{
    let grid = single(rows, cols, row, col);
    let empty = Grid::empty(rows, cols);
    lemma_single_alive(rows, cols, row, col, row, col);
    lemma_all_dead(rows, cols, 0, 0);
    grid.lemma_next(0, 0);
    lemma_single_neighbors(rows, cols, row, col, row, col);
    lemma_reach(rows, row, row);
    lemma_reach(cols, col, col);
    let a = reach(rows, row, row) as int;
    let b = reach(cols, col, col) as int;
    assert(a == 1 && b == 1) by (nonlinear_arith)
        requires
            a * b == 1,
            a == 1 || a == 3,
            b == 1 || b == 3,
    ;
    assert(rows >= 2 && cols >= 2);
    assert forall|r: int, c: int| 0 <= r < rows && 0 <= c < cols implies grid.next().alive(r, c)
        == empty.alive(r, c) by {
        grid.lemma_next(r, c);
        lemma_all_dead(rows, cols, r, c);
        lemma_single_alive(rows, cols, row, col, r, c);
        lemma_single_neighbors(rows, cols, row, col, r, c);
        lemma_reach(rows, row, r);
        lemma_reach(cols, col, c);
        let p = reach(rows, row, r) as int;
        let q = reach(cols, col, c) as int;
        assert(p * q != 3 && (p == 1 && q == 1 ==> p * q == 1)) by (nonlinear_arith)
            requires
                0 <= p <= 2,
                0 <= q <= 2,
        ;
    }
    grid.next().lemma_same_cells(empty);
}

/// Whether `x` folds onto one of the two positions `first`, `first + 1` of an
/// axis of length `n`.
pub open spec fn in_pair(n: nat, first: int, x: int) -> bool {
    wrap(x, n) == wrap(first, n) || wrap(x, n) == wrap(first + 1, n)
}

/// Whether `row`, `col` is one of the four cells of the block of two by two
/// whose top left cell is `top`, `left`. The block wraps around the edges.
pub open spec fn block_cell(rows: nat, cols: nat, top: int, left: int, row: int, col: int) -> bool {
    in_pair(rows, top, row) && in_pair(cols, left, col)
}

/// The board of the given size on which the block at `top`, `left` is alive
/// and nothing else.
pub open spec fn block(rows: nat, cols: nat, top: int, left: int) -> Grid {
    Grid::from_fn(rows, cols, |r: int, c: int| block_cell(rows, cols, top, left, r, c))
}

/// How many of `x - 1`, `x`, `x + 1` fold into the pair at `first`.
pub open spec fn pair_reach(n: nat, first: int, x: int) -> nat {
    (if in_pair(n, first, x - 1) {
        1nat
    } else {
        0nat
    }) + (if in_pair(n, first, x) {
        1nat
    } else {
        0nat
    }) + (if in_pair(n, first, x + 1) {
        1nat
    } else {
        0nat
    })
}

/// Which cells of a block board are alive, from any coordinates.
pub proof fn lemma_block_alive(rows: nat, cols: nat, top: int, left: int, row: int, col: int)
    requires
        rows > 0,
        cols > 0,
    ensures
        block(rows, cols, top, left).wf(),
        block(rows, cols, top, left).alive(row, col) == block_cell(rows, cols, top, left, row, col),
{
    Grid::lemma_from_fn(
        rows,
        cols,
        |r: int, c: int| block_cell(rows, cols, top, left, r, c),
        row,
        col,
    );
    lemma_wrap_twice(row, rows);
    lemma_wrap_twice(col, cols);
}

/// On an axis of three or more positions, at most two of three positions in
/// a row fall into a pair, and exactly two when the middle one does. On a
/// shorter axis all three do.
pub proof fn lemma_pair_reach(n: nat, first: int, x: int)
    requires
        n > 0,
    ensures
        n >= 3 ==> pair_reach(n, first, x) <= 2,
        n >= 3 && in_pair(n, first, x) ==> pair_reach(n, first, x) == 2,
        n < 3 ==> pair_reach(n, first, x) == 3,
{
    lemma_wrap_steps(x, n);
    lemma_wrap_steps(first, n);
}

/// The live neighbours of a cell of a block board: the cells around it, and
/// the cell itself, that fall into the block's rows and columns, less the
/// cell itself.
pub proof fn lemma_block_neighbors(rows: nat, cols: nat, top: int, left: int, row: int, col: int)
    requires
        rows > 0,
        cols > 0,
    ensures
        block(rows, cols, top, left).live_neighbors(row, col) + block(
            rows,
            cols,
            top,
            left,
        ).population(row, col) == pair_reach(rows, top, row) * pair_reach(cols, left, col),
{
    lemma_block_alive(rows, cols, top, left, row - 1, col - 1);
    lemma_block_alive(rows, cols, top, left, row - 1, col);
    lemma_block_alive(rows, cols, top, left, row - 1, col + 1);
    lemma_block_alive(rows, cols, top, left, row, col - 1);
    lemma_block_alive(rows, cols, top, left, row, col);
    lemma_block_alive(rows, cols, top, left, row, col + 1);
    lemma_block_alive(rows, cols, top, left, row + 1, col - 1);
    lemma_block_alive(rows, cols, top, left, row + 1, col);
    lemma_block_alive(rows, cols, top, left, row + 1, col + 1);
    lemma_small_product(pair_reach(rows, top, row) as int, pair_reach(cols, left, col) as int);
}

/// A block of two by two is a still life. Where each of its four cells has
/// exactly three live neighbours, which are then the other three, the board
/// that holds the block and nothing else is the same after any number of
/// generations.
pub proof fn lemma_block_is_still(rows: nat, cols: nat, top: int, left: int, n: nat)
    requires
        rows > 0,
        cols > 0,
        block(rows, cols, top, left).live_neighbors(top, left) == 3,
        block(rows, cols, top, left).live_neighbors(top, left + 1) == 3,
        block(rows, cols, top, left).live_neighbors(top + 1, left) == 3,
        block(rows, cols, top, left).live_neighbors(top + 1, left + 1) == 3,
    ensures
        block(rows, cols, top, left).after(n) == block(rows, cols, top, left),
    decreases n,
{
    let grid = block(rows, cols, top, left);
    if n > 0 {
        lemma_block_alive(rows, cols, top, left, top, left);
        lemma_block_neighbors(rows, cols, top, left, top, left);
        lemma_pair_reach(rows, top, top);
        lemma_pair_reach(cols, left, left);
        let a = pair_reach(rows, top, top) as int;
        let b = pair_reach(cols, left, left) as int;
        assert(a == 2 && b == 2) by (nonlinear_arith)
            requires
                a * b == 4,
                a == 3 || a == 2,
                b == 3 || b == 2,
        ;
        assert(rows >= 3 && cols >= 3);
        grid.lemma_next(0, 0);
        assert forall|r: int, c: int| 0 <= r < rows && 0 <= c < cols implies grid.next().alive(r, c)
            == grid.alive(r, c) by {
            grid.lemma_next(r, c);
            lemma_block_alive(rows, cols, top, left, r, c);
            lemma_block_neighbors(rows, cols, top, left, r, c);
            lemma_pair_reach(rows, top, r);
            lemma_pair_reach(cols, left, c);
            let p = pair_reach(rows, top, r) as int;
            let q = pair_reach(cols, left, c) as int;
            assert(p * q != 3 && (p == 2 && q == 2 ==> p * q == 4)) by (nonlinear_arith)
                requires
                    0 <= p <= 2,
                    0 <= q <= 2,
            ;
        }
        grid.next().lemma_same_cells(grid);
        lemma_block_is_still(rows, cols, top, left, (n - 1) as nat);
    }
}

/// On a board of at least three rows and three columns each cell of a block
/// has exactly three live neighbours, so the block is a still life there.
pub proof fn lemma_block_on_wide_board(rows: nat, cols: nat, top: int, left: int, n: nat)
    requires
        rows >= 3,
        cols >= 3,
    ensures
        block(rows, cols, top, left).live_neighbors(top, left) == 3,
        block(rows, cols, top, left).live_neighbors(top, left + 1) == 3,
        block(rows, cols, top, left).live_neighbors(top + 1, left) == 3,
        block(rows, cols, top, left).live_neighbors(top + 1, left + 1) == 3,
        block(rows, cols, top, left).after(n) == block(rows, cols, top, left),
{
    lemma_block_alive(rows, cols, top, left, top, left);
    lemma_block_alive(rows, cols, top, left, top, left + 1);
    lemma_block_alive(rows, cols, top, left, top + 1, left);
    lemma_block_alive(rows, cols, top, left, top + 1, left + 1);
    lemma_block_neighbors(rows, cols, top, left, top, left);
    lemma_block_neighbors(rows, cols, top, left, top, left + 1);
    lemma_block_neighbors(rows, cols, top, left, top + 1, left);
    lemma_block_neighbors(rows, cols, top, left, top + 1, left + 1);
    lemma_pair_reach(rows, top, top);
    lemma_pair_reach(rows, top, top + 1);
    lemma_pair_reach(cols, left, left);
    lemma_pair_reach(cols, left, left + 1);
    assert(2 * 2 == 4);
    lemma_block_is_still(rows, cols, top, left, n);
}

} // verus!
