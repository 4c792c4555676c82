//! The glider: five cells that take four generations to move one row down
//! and one column to the right.

use crate::grid::glider_cell;
use crate::grid::lemma_wrap_shift;
use crate::grid::lemma_wrap_steps;
use crate::grid::lemma_wrap_twice;
use crate::grid::wrap;
use crate::grid::Grid;
use vstd::arithmetic::div_mod::lemma_mod_equivalence;
use vstd::arithmetic::div_mod::lemma_small_mod;
use vstd::prelude::*;

verus! {

/// The shape of the glider `phase` generations after the start, for the
/// phases from 0 to 4, in rows `a` and columns `b` counted from the corner
/// of the glider at the start:
///
/// ```text
/// . # . .    . . . .    . . . .    . . . .    . . . .
/// . . # .    # . # .    . . # .    . # . .    . . # .
/// # # # .    . # # .    # . # .    . . # #    . . . #
/// . . . .    . # . .    . # # .    . # # .    . # # #
/// ```
pub open spec fn glider_shape(phase: nat, a: int, b: int) -> bool {
    if phase == 0 {
        ||| a == 0 && b == 1
        ||| a == 1 && b == 2
        ||| a == 2 && (b == 0 || b == 1 || b == 2)
    } else if phase == 1 {
        ||| a == 1 && (b == 0 || b == 2)
        ||| a == 2 && (b == 1 || b == 2)
        ||| a == 3 && b == 1
    } else if phase == 2 {
        ||| a == 1 && b == 2
        ||| a == 2 && (b == 0 || b == 2)
        ||| a == 3 && (b == 1 || b == 2)
    } else if phase == 3 {
        ||| a == 1 && b == 1
        ||| a == 2 && (b == 2 || b == 3)
        ||| a == 3 && (b == 1 || b == 2)
    } else {
        ||| a == 1 && b == 2
        ||| a == 2 && b == 3
        ||| a == 3 && (b == 1 || b == 2 || b == 3)
    }
}

/// The board that holds, and holds nothing else, the glider that started
/// with its corner at `top`, `left`, in the given phase.
pub open spec fn glider_phase(rows: nat, cols: nat, top: int, left: int, phase: nat) -> Grid {
    Grid::from_fn(
        rows,
        cols,
        |r: int, c: int| glider_shape(phase, wrap(r - top, rows), wrap(c - left, cols)),
    )
}

/// Which cells of a glider board are alive, from any coordinates.
pub proof fn lemma_phase_alive(
    rows: nat,
    cols: nat,
    top: int,
    left: int,
    phase: nat,
    row: int,
    col: int,
)
    requires
        rows > 0,
        cols > 0,
    ensures
        glider_phase(rows, cols, top, left, phase).wf(),
        glider_phase(rows, cols, top, left, phase).alive(row, col) == glider_shape(
            phase,
            wrap(row - top, rows),
            wrap(col - left, cols),
        ),
{
    Grid::lemma_from_fn(
        rows,
        cols,
        |r: int, c: int| glider_shape(phase, wrap(r - top, rows), wrap(c - left, cols)),
        row,
        col,
    );
    lemma_wrap_shift(row, -top, rows);
    lemma_wrap_shift(col, -left, cols);
}

/// One generation takes a glider from each phase to the next.
pub proof fn lemma_glider_step(rows: nat, cols: nat, top: int, left: int, phase: nat)
    requires
        rows >= 5,
        cols >= 5,
        phase < 4,
    ensures
        glider_phase(rows, cols, top, left, phase).next() == glider_phase(
            rows,
            cols,
            top,
            left,
            phase + 1,
        ),
{
    let now = glider_phase(rows, cols, top, left, phase);
    let then = glider_phase(rows, cols, top, left, phase + 1);
    lemma_phase_alive(rows, cols, top, left, phase, 0, 0);
    lemma_phase_alive(rows, cols, top, left, phase + 1, 0, 0);
    now.lemma_next(0, 0);
    assert forall|r: int, c: int| 0 <= r < rows && 0 <= c < cols implies now.next().alive(r, c)
        == then.alive(r, c) by {
        now.lemma_next(r, c);
        lemma_phase_alive(rows, cols, top, left, phase + 1, r, c);
        lemma_phase_alive(rows, cols, top, left, phase, r - 1, c - 1);
        lemma_phase_alive(rows, cols, top, left, phase, r - 1, c);
        lemma_phase_alive(rows, cols, top, left, phase, r - 1, c + 1);
        lemma_phase_alive(rows, cols, top, left, phase, r, c - 1);
        lemma_phase_alive(rows, cols, top, left, phase, r, c);
        lemma_phase_alive(rows, cols, top, left, phase, r, c + 1);
        lemma_phase_alive(rows, cols, top, left, phase, r + 1, c - 1);
        lemma_phase_alive(rows, cols, top, left, phase, r + 1, c);
        lemma_phase_alive(rows, cols, top, left, phase, r + 1, c + 1);
        lemma_wrap_steps(r - top, rows);
        lemma_wrap_steps(c - left, cols);
        assert(r - 1 - top == r - top - 1 && r + 1 - top == r - top + 1);
        assert(c - 1 - left == c - left - 1 && c + 1 - left == c - left + 1);
    }
    now.next().lemma_same_cells(then);
}

/// The glider at the start is the first phase.
pub proof fn lemma_glider_start(rows: nat, cols: nat, top: int, left: int)
    requires
        rows >= 3,
        cols >= 3,
    ensures
        Grid::glider_at(rows, cols, top, left) == glider_phase(rows, cols, top, left, 0),
{
    let start = Grid::glider_at(rows, cols, top, left);
    let phase = glider_phase(rows, cols, top, left, 0);
    lemma_phase_alive(rows, cols, top, left, 0, 0, 0);
    Grid::lemma_from_fn(
        rows,
        cols,
        |r: int, c: int| glider_cell(rows, cols, top, left, r, c),
        0,
        0,
    );
    assert forall|r: int, c: int| 0 <= r < rows && 0 <= c < cols implies start.alive(r, c)
        == phase.alive(r, c) by {
        lemma_phase_alive(rows, cols, top, left, 0, r, c);
        Grid::lemma_from_fn(
            rows,
            cols,
            |r: int, c: int| glider_cell(rows, cols, top, left, r, c),
            r,
            c,
        );
        lemma_wrap_twice(r, rows);
        lemma_wrap_twice(c, cols);
        lemma_offset(r, top, 0, rows);
        lemma_offset(r, top, 1, rows);
        lemma_offset(r, top, 2, rows);
        lemma_offset(c, left, 0, cols);
        lemma_offset(c, left, 1, cols);
        lemma_offset(c, left, 2, cols);
    }
    start.lemma_same_cells(phase);
}

/// A coordinate folds onto the position `k` steps after `origin` exactly when
/// it lies `k` steps after `origin` around the axis.
pub proof fn lemma_offset(x: int, origin: int, k: int, n: nat)
    requires
        0 <= k < n,
    ensures
        wrap(x, n) == wrap(origin + k, n) <==> wrap(x - origin, n) == k,
{
    lemma_mod_equivalence(x, origin + k, n as int);
    lemma_mod_equivalence(x - origin, k, n as int);
    lemma_small_mod(k as nat, n);
}

/// The last phase of a glider is the first phase of the glider one row down
/// and one column to the right.
pub proof fn lemma_glider_arrives(rows: nat, cols: nat, top: int, left: int)
    requires
        rows >= 5,
        cols >= 5,
    ensures
        glider_phase(rows, cols, top, left, 4) == glider_phase(rows, cols, top + 1, left + 1, 0),
{
    let last = glider_phase(rows, cols, top, left, 4);
    let first = glider_phase(rows, cols, top + 1, left + 1, 0);
    lemma_phase_alive(rows, cols, top, left, 4, 0, 0);
    lemma_phase_alive(rows, cols, top + 1, left + 1, 0, 0, 0);
    assert forall|r: int, c: int| 0 <= r < rows && 0 <= c < cols implies last.alive(r, c)
        == first.alive(r, c) by {
        lemma_phase_alive(rows, cols, top, left, 4, r, c);
        lemma_phase_alive(rows, cols, top + 1, left + 1, 0, r, c);
        lemma_wrap_steps(r - top, rows);
        lemma_wrap_steps(c - left, cols);
        assert(r - (top + 1) == r - top - 1 && c - (left + 1) == c - left - 1);
    }
    last.lemma_same_cells(first);
}

/// A glider moves: on a board of at least five rows and five columns, four
/// generations take the glider with its corner at `top`, `left` to the
/// glider with its corner one row down and one column to the right, around
/// the edges where it meets them.
pub proof fn lemma_glider_moves(rows: nat, cols: nat, top: int, left: int)
    requires
        rows >= 5,
        cols >= 5,
    ensures
        Grid::glider_at(rows, cols, top, left).after(4) == Grid::glider_at(
            rows,
            cols,
            top + 1,
            left + 1,
        ),
{
    let start = Grid::glider_at(rows, cols, top, left);
    lemma_glider_start(rows, cols, top, left);
    lemma_glider_step(rows, cols, top, left, 0);
    lemma_glider_step(rows, cols, top, left, 1);
    lemma_glider_step(rows, cols, top, left, 2);
    lemma_glider_step(rows, cols, top, left, 3);
    lemma_glider_arrives(rows, cols, top, left);
    lemma_glider_start(rows, cols, top + 1, left + 1);
    let one = start.next();
    let two = one.next();
    let three = two.next();
    let four = three.next();
    assert(four.after(0) == four);
    assert(three.after(1) == four);
    assert(two.after(2) == four);
    assert(one.after(3) == four);
    assert(start.after(4) == four);
}

/// The glider in the middle of a board of 64 by 64 has its corner in row 33
/// and column 33 four generations later.
pub proof fn lemma_seed_glider_moves()
    ensures
        Grid::glider(64, 64).after(4) == Grid::glider_at(64, 64, 33, 33),
{
    lemma_glider_moves(64, 64, 32, 32);
}

} // verus!
