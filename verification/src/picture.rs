//! The picture of a board, character by character.

use crate::grid::glyph;
use crate::grid::Grid;
use crate::still_life::lemma_all_dead;
use vstd::arithmetic::div_mod::lemma_fundamental_div_mod_converse;
use vstd::prelude::*;

verus! {

/// The character at place `k` of a picture: a line break at the end of each
/// line, and elsewhere the glyph of the cell whose row is the line and whose
/// column is the place in the line.
pub open spec fn picture_char(grid: Grid, k: int) -> char {
    let width = (grid.cols + 1) as int;
    if k % width == grid.cols {
        '\n'
    } else {
        glyph(grid.alive(k / width, k % width))
    }
}

/// The line that pictures a row of `cols` dead cells.
pub open spec fn blank_line(cols: nat) -> Seq<char> {
    Seq::new(cols, |c: int| glyph(false)).push('\n')
}

/// The picture of the first `n` rows has a line of `cols` glyphs and a line
/// break for each row, and the character at each place pictures the cell of
/// that row and column.
pub proof fn lemma_lines(grid: Grid, n: nat, k: int)
    requires
        grid.wf(),
        n <= grid.rows,
    ensures
        grid.lines(n).len() == n * (grid.cols + 1),
        0 <= k < n * (grid.cols + 1) ==> grid.lines(n)[k] == picture_char(grid, k),
    decreases n,
{
    let width = (grid.cols + 1) as int;
    if n > 0 {
        let m = (n - 1) as nat;
        lemma_lines(grid, m, k);
        assert(n * width == m * width + width) by (nonlinear_arith)
            requires
                n == m + 1,
        ;
        assert(grid.line(m as int).len() == width);
        if m * width <= k < n * width {
            let c = k - m * width;
            assert(m * width == width * m) by (nonlinear_arith);
            lemma_fundamental_div_mod_converse(k, width, m as int, c);
            assert(grid.lines(n)[k] == grid.line(m as int)[c]);
        }
    } else {
        assert(0 * width == 0) by (nonlinear_arith);
    }
}

/// The picture of a board has as many lines as the board has rows, each of
/// them a glyph for every column and a line break, and each character
/// pictures the cell in its line and place.
pub proof fn lemma_picture(grid: Grid)
    requires
        grid.wf(),
    ensures
        grid.picture().len() == grid.rows * (grid.cols + 1),
        forall|k: int|
            0 <= k < grid.rows * (grid.cols + 1) ==> #[trigger] grid.picture()[k] == picture_char(
                grid,
                k,
            ),
{
    lemma_lines(grid, grid.rows, 0);
    assert forall|k: int| 0 <= k < grid.rows * (grid.cols + 1) implies #[trigger] grid.picture()[k]
        == picture_char(grid, k) by {
        lemma_lines(grid, grid.rows, k);
    }
}

/// The picture of a board without a live cell is one line for each row, each
/// of them as many hollow squares as there are columns and a line break.
pub proof fn lemma_blank_picture(rows: nat, cols: nat)
    requires
        rows > 0,
        cols > 0,
    ensures
        Grid::empty(rows, cols).picture().len() == rows * (cols + 1),
        forall|r: int|
            0 <= r < rows ==> #[trigger] Grid::empty(rows, cols).line(r) == blank_line(cols),
        forall|k: int|
            0 <= k < rows * (cols + 1) ==> #[trigger] Grid::empty(rows, cols).picture()[k] == (if k
                % ((cols + 1) as int) == cols {
                '\n'
            } else {
                glyph(false)
            }),
{
    let grid = Grid::empty(rows, cols);
    lemma_all_dead(rows, cols, 0, 0);
    lemma_lines(grid, rows, 0);
    assert forall|r: int| 0 <= r < rows implies #[trigger] grid.line(r) == blank_line(cols) by {
        assert forall|c: int| 0 <= c < cols implies !grid.alive(r, c) by {
            lemma_all_dead(rows, cols, r, c);
        }
        assert(grid.line(r) =~= blank_line(cols));
    }
    assert forall|k: int| 0 <= k < rows * (cols + 1) implies #[trigger] grid.picture()[k] == (if k
        % ((cols + 1) as int) == cols {
        '\n'
    } else {
        glyph(false)
    }) by {
        lemma_lines(grid, rows, k);
        lemma_all_dead(rows, cols, k / ((cols + 1) as int), k % ((cols + 1) as int));
    }
}

} // verus!
