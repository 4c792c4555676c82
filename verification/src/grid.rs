//! The mathematical model of a board: a torus of cells and the rule that
//! takes one generation to the next.

use vstd::arithmetic::div_mod::lemma_add_mod_noop_right;
use vstd::arithmetic::div_mod::lemma_fundamental_div_mod;
use vstd::arithmetic::div_mod::lemma_fundamental_div_mod_converse;
use vstd::arithmetic::div_mod::lemma_mod_bound;
use vstd::arithmetic::div_mod::lemma_mod_twice;
use vstd::arithmetic::div_mod::lemma_small_mod;
use vstd::prelude::*;

verus! {

/// A coordinate folded onto an axis of length `n`: the remainder in `0 .. n`,
/// so that `-1` is the last position and `n` is the first.
pub open spec fn wrap(x: int, n: nat) -> int {
    x % (n as int)
}

/// The fate of a cell that is `alive` now and has `neighbors` live neighbours:
/// a live cell survives with two or three, a dead cell is born with three.
pub open spec fn next_state(alive: bool, neighbors: nat) -> bool {
    if alive {
        neighbors == 2 || neighbors == 3
    } else {
        neighbors == 3
    }
}

/// Whether a sample is at least one half. A sample is a number in double
/// precision, given by its IEEE 754 bit pattern: the patterns from that of
/// one half up to that of positive infinity are the numbers from one half
/// up; above them lie the patterns that are no number, and every pattern
/// with the sign bit set is zero or less.
pub open spec fn at_least_half(sample: u64) -> bool {
    0x3FE0_0000_0000_0000 <= sample <= 0x7FF0_0000_0000_0000
}

/// Whether `row`, `col` is one of the five cells of the glider whose corner
/// is `top`, `left`. With the corner at the top left, the glider is
///
/// ```text
/// . # .
/// . . #
/// # # #
/// ```
///
/// All coordinates wrap around the edges of the board.
pub open spec fn glider_cell(
    rows: nat,
    cols: nat,
    top: int,
    left: int,
    row: int,
    col: int,
) -> bool {
    let r = wrap(row, rows);
    let c = wrap(col, cols);
    ||| r == wrap(top, rows) && c == wrap(left + 1, cols)
    ||| r == wrap(top + 1, rows) && c == wrap(left + 2, cols)
    ||| r == wrap(top + 2, rows) && c == wrap(left, cols)
    ||| r == wrap(top + 2, rows) && c == wrap(left + 1, cols)
    ||| r == wrap(top + 2, rows) && c == wrap(left + 2, cols)
}

/// The character that pictures a cell: a filled square for a live one, a
/// hollow square for a dead one.
pub open spec fn glyph(alive: bool) -> char {
    if alive {
        '\u{25FC}'
    } else {
        '\u{25FB}'
    }
}

/// A board of `rows` by `cols` cells on a torus, stored row by row.
pub struct Grid {
    pub rows: nat,
    pub cols: nat,
    pub cells: Seq<bool>,
}

impl Grid {
    /// Both dimensions are positive and there is one entry per cell.
    pub open spec fn wf(self) -> bool {
        &&& self.rows > 0
        &&& self.cols > 0
        &&& self.cells.len() == self.rows * self.cols
    }

    /// The board of the given size on which `alive_at` decides each cell.
    pub open spec fn from_fn(rows: nat, cols: nat, alive_at: spec_fn(int, int) -> bool) -> Grid {
        Grid {
            rows,
            cols,
            cells: Seq::new(rows * cols, |i: int| alive_at(i / (cols as int), i % (cols as int))),
        }
    }

    /// The board of the given size with every cell dead.
    pub open spec fn empty(rows: nat, cols: nat) -> Grid {
        Grid::from_fn(rows, cols, |r: int, c: int| false)
    }

    /// The board of the given size on which a cell is alive when its place in
    /// row-major order is even or a multiple of seven.
    pub open spec fn interesting(rows: nat, cols: nat) -> Grid {
        Grid { rows, cols, cells: Seq::new(rows * cols, |i: int| i % 2 == 0 || i % 7 == 0) }
    }

    /// The board of the given size that holds the glider whose corner is
    /// `top`, `left`, and nothing else.
    pub open spec fn glider_at(rows: nat, cols: nat, top: int, left: int) -> Grid {
        Grid::from_fn(rows, cols, |r: int, c: int| glider_cell(rows, cols, top, left, r, c))
    }

    /// The board of the given size that holds one glider, its corner in the
    /// middle of the board, and nothing else.
    pub open spec fn glider(rows: nat, cols: nat) -> Grid {
        Grid::glider_at(rows, cols, (rows / 2) as int, (cols / 2) as int)
    }

    /// The board of the given size on which each cell, in row-major order, is
    /// alive when the sample drawn for it is at least one half.
    pub open spec fn from_samples(rows: nat, cols: nat, samples: Seq<u64>) -> Grid {
        Grid { rows, cols, cells: Seq::new(rows * cols, |i: int| at_least_half(samples[i])) }
    }

    /// This board with the cell in `row`, `col` brought to life.
    pub open spec fn with_live(self, row: int, col: int) -> Grid {
        Grid {
            rows: self.rows,
            cols: self.cols,
            cells: self.cells.update(self.index(row, col), true),
        }
    }

    /// Where the cell in `row`, `col` is stored. Both coordinates wrap.
    pub open spec fn index(self, row: int, col: int) -> int {
        wrap(row, self.rows) * self.cols + wrap(col, self.cols)
    }

    /// Whether the cell in `row`, `col` is alive. Both coordinates wrap.
    pub open spec fn alive(self, row: int, col: int) -> bool {
        self.cells[self.index(row, col)]
    }

    /// One if the cell in `row`, `col` is alive, zero if it is dead.
    pub open spec fn population(self, row: int, col: int) -> nat {
        if self.alive(row, col) {
            1
        } else {
            0
        }
    }

    /// How many of the eight cells around `row`, `col` are alive.
    pub open spec fn live_neighbors(self, row: int, col: int) -> nat {
        self.population(row - 1, col - 1) + self.population(row - 1, col) + self.population(
            row - 1,
            col + 1,
        ) + self.population(row, col - 1) + self.population(row, col + 1) + self.population(
            row + 1,
            col - 1,
        ) + self.population(row + 1, col) + self.population(row + 1, col + 1)
    }

    /// The picture of one row: a glyph for each of its cells, then a line
    /// break.
    pub open spec fn line(self, row: int) -> Seq<char> {
        Seq::new(self.cols, |c: int| glyph(self.alive(row, c))).push('\n')
    }

    /// The picture of the first `n` rows, one line after the other.
    pub open spec fn lines(self, n: nat) -> Seq<char>
        decreases n,
    {
        if n == 0 {
            Seq::empty()
        } else {
            self.lines((n - 1) as nat) + self.line(n - 1)
        }
    }

    /// The picture of the whole board.
    pub open spec fn picture(self) -> Seq<char> {
        self.lines(self.rows)
    }

    /// The following generation: every cell decided at once from this board.
    pub open spec fn next(self) -> Grid {
        Grid::from_fn(
            self.rows,
            self.cols,
            |r: int, c: int| next_state(self.alive(r, c), self.live_neighbors(r, c)),
        )
    }

    /// The board `n` generations later.
    pub open spec fn after(self, n: nat) -> Grid
        decreases n,
    {
        if n == 0 {
            self
        } else {
            self.next().after((n - 1) as nat)
        }
    }
}

/// A wrapped coordinate lies on its axis.
pub proof fn lemma_wrap_range(x: int, n: nat)
    requires
        n > 0,
    ensures
        0 <= wrap(x, n) < n,
{
    lemma_mod_bound(x, n as int);
}

/// A coordinate that lies on its axis wraps to itself.
pub proof fn lemma_wrap_fixed(x: int, n: nat)
    requires
        0 <= x < n,
    ensures
        wrap(x, n) == x,
{
    lemma_small_mod(x as nat, n);
}

/// The position before `x` on an axis of length `n`: the last one when `x` is
/// the first.
pub proof fn lemma_wrap_before(x: int, n: nat)
    requires
        0 <= x < n,
    ensures
        wrap(x - 1, n) == if x == 0 {
            n - 1
        } else {
            x - 1
        },
{
    if x == 0 {
        lemma_fundamental_div_mod_converse(-1, n as int, -1, n - 1);
    } else {
        lemma_small_mod((x - 1) as nat, n);
    }
}

/// The position after `x` on an axis of length `n`: the first one when `x` is
/// the last.
pub proof fn lemma_wrap_after(x: int, n: nat)
    requires
        0 <= x < n,
    ensures
        wrap(x + 1, n) == if x == n - 1 {
            0
        } else {
            x + 1
        },
{
    if x == n - 1 {
        lemma_fundamental_div_mod_converse(n as int, n as int, 1, 0);
    } else {
        lemma_small_mod((x + 1) as nat, n);
    }
}

/// Folding a coordinate twice is folding it once: a cell is found the same
/// way from any of its coordinates off the board.
pub proof fn lemma_wrap_twice(x: int, n: nat)
    requires
        n > 0,
    ensures
        wrap(wrap(x, n), n) == wrap(x, n),
{
    lemma_mod_twice(x, n as int);
}

/// Moving by `d` from a coordinate and from its fold ends in the same place.
pub proof fn lemma_wrap_shift(x: int, d: int, n: nat)
    requires
        n > 0,
    ensures
        wrap(wrap(x, n) + d, n) == wrap(x + d, n),
{
    lemma_add_mod_noop_right(d, x, n as int);
}

/// One step forwards or backwards from a coordinate, in terms of its fold:
/// the fold moves by one and jumps between the two ends of the axis.
pub proof fn lemma_wrap_steps(x: int, n: nat)
    requires
        n > 0,
    ensures
        0 <= wrap(x, n) < n,
        wrap(x + 1, n) == if wrap(x, n) == n - 1 {
            0
        } else {
            wrap(x, n) + 1
        },
        wrap(x - 1, n) == if wrap(x, n) == 0 {
            n - 1
        } else {
            wrap(x, n) - 1
        },
{
    lemma_wrap_range(x, n);
    lemma_wrap_shift(x, 1, n);
    lemma_wrap_shift(x, -1, n);
    lemma_wrap_after(wrap(x, n), n);
    lemma_wrap_before(wrap(x, n), n);
}

/// A row and a column on the board name one of its `rows * cols` entries, and
/// the entry gives both back.
pub proof fn lemma_row_major(rows: nat, cols: nat, row: int, col: int)
    requires
        0 <= row < rows,
        0 <= col < cols,
    ensures
        0 <= row * cols + col < rows * cols,
        (row * cols + col) / (cols as int) == row,
        (row * cols + col) % (cols as int) == col,
{
    assert(0 <= row * cols && row * cols + cols <= rows * cols) by (nonlinear_arith)
        requires
            0 <= row < rows,
            cols > 0,
    ;
    assert(row * cols == cols * row) by (nonlinear_arith);
    lemma_fundamental_div_mod_converse(row * cols + col, cols as int, row, col);
}

/// An entry of the board names a row and a column on it.
pub proof fn lemma_entry_position(rows: nat, cols: nat, i: int)
    requires
        0 <= i < rows * cols,
    ensures
        0 <= i / (cols as int) < rows,
        0 <= i % (cols as int) < cols,
        (i / (cols as int)) * cols + i % (cols as int) == i,
{
    assert(cols > 0) by (nonlinear_arith)
        requires
            0 <= i < rows * cols,
    ;
    let q = i / (cols as int);
    let r = i % (cols as int);
    lemma_mod_bound(i, cols as int);
    lemma_fundamental_div_mod(i, cols as int);
    assert(0 <= q < rows) by (nonlinear_arith)
        requires
            i == cols * q + r,
            0 <= r < cols,
            0 <= i < rows * cols,
    ;
    assert(q * cols == cols * q) by (nonlinear_arith);
}

impl Grid {
    /// Every pair of coordinates names an entry of the board, the one that
    /// its folded coordinates name.
    pub proof fn lemma_alive_wraps(self, row: int, col: int)
        requires
            self.wf(),
        ensures
            0 <= self.index(row, col) < self.cells.len(),
            self.index(wrap(row, self.rows), wrap(col, self.cols)) == self.index(row, col),
            self.alive(wrap(row, self.rows), wrap(col, self.cols)) == self.alive(row, col),
            self.population(wrap(row, self.rows), wrap(col, self.cols)) == self.population(
                row,
                col,
            ),
    {
        lemma_wrap_range(row, self.rows);
        lemma_wrap_range(col, self.cols);
        lemma_wrap_twice(row, self.rows);
        lemma_wrap_twice(col, self.cols);
        lemma_row_major(self.rows, self.cols, wrap(row, self.rows), wrap(col, self.cols));
    }

    /// The cell at a row and a column on the board is the entry at their
    /// row-major index.
    pub proof fn lemma_alive_on_board(self, row: int, col: int)
        requires
            self.wf(),
            0 <= row < self.rows,
            0 <= col < self.cols,
        ensures
            self.index(row, col) == row * self.cols + col,
            self.alive(row, col) == self.cells[row * self.cols + col],
    {
        lemma_wrap_fixed(row, self.rows);
        lemma_wrap_fixed(col, self.cols);
    }

    /// A cell has the same neighbours from whichever of its coordinates they
    /// are counted.
    pub proof fn lemma_neighbors_wrap(self, row: int, col: int)
        requires
            self.wf(),
        ensures
            self.live_neighbors(wrap(row, self.rows), wrap(col, self.cols)) == self.live_neighbors(
                row,
                col,
            ),
    {
        let r = wrap(row, self.rows);
        let c = wrap(col, self.cols);
        lemma_wrap_shift(row, -1, self.rows);
        lemma_wrap_shift(row, 0, self.rows);
        lemma_wrap_shift(row, 1, self.rows);
        lemma_wrap_shift(col, -1, self.cols);
        lemma_wrap_shift(col, 0, self.cols);
        lemma_wrap_shift(col, 1, self.cols);
        assert(self.index(r - 1, c - 1) == self.index(row - 1, col - 1));
        assert(self.index(r - 1, c) == self.index(row - 1, col));
        assert(self.index(r - 1, c + 1) == self.index(row - 1, col + 1));
        assert(self.index(r, c - 1) == self.index(row, col - 1));
        assert(self.index(r, c + 1) == self.index(row, col + 1));
        assert(self.index(r + 1, c - 1) == self.index(row + 1, col - 1));
        assert(self.index(r + 1, c) == self.index(row + 1, col));
        assert(self.index(r + 1, c + 1) == self.index(row + 1, col + 1));
    }

    /// A board made by `from_fn` is well formed, and each of its cells is what
    /// the function says of the cell's folded coordinates.
    pub proof fn lemma_from_fn(
        rows: nat,
        cols: nat,
        alive_at: spec_fn(int, int) -> bool,
        row: int,
        col: int,
    )
        requires
            rows > 0,
            cols > 0,
        ensures
            Grid::from_fn(rows, cols, alive_at).wf(),
            Grid::from_fn(rows, cols, alive_at).alive(row, col) == alive_at(
                wrap(row, rows),
                wrap(col, cols),
            ),
    {
        let grid = Grid::from_fn(rows, cols, alive_at);
        grid.lemma_alive_wraps(row, col);
        lemma_wrap_range(row, rows);
        lemma_wrap_range(col, cols);
        lemma_row_major(rows, cols, wrap(row, rows), wrap(col, cols));
    }

    /// The next generation keeps the size of the board, and each of its cells
    /// follows the rule from the cell and its eight neighbours as they were.
    pub proof fn lemma_next(self, row: int, col: int)
        requires
            self.wf(),
        ensures
            self.next().wf(),
            self.next().rows == self.rows,
            self.next().cols == self.cols,
            self.next().alive(row, col) == next_state(
                self.alive(row, col),
                self.live_neighbors(row, col),
            ),
    {
        Grid::lemma_from_fn(
            self.rows,
            self.cols,
            |r: int, c: int| next_state(self.alive(r, c), self.live_neighbors(r, c)),
            row,
            col,
        );
        self.lemma_alive_wraps(row, col);
        self.lemma_neighbors_wrap(row, col);
    }

    /// Two well-formed boards of one size with the same cells are the same
    /// board.
    pub proof fn lemma_same_cells(self, other: Grid)
        requires
            self.wf(),
            other.wf(),
            self.rows == other.rows,
            self.cols == other.cols,
            forall|r: int, c: int|
                0 <= r < self.rows && 0 <= c < self.cols ==> self.alive(r, c) == other.alive(r, c),
        ensures
            self == other,
    {
        assert forall|i: int| 0 <= i < self.cells.len() implies self.cells[i] == other.cells[i] by {
            lemma_entry_position(self.rows, self.cols, i);
            let r = i / (self.cols as int);
            let c = i % (self.cols as int);
            self.lemma_alive_on_board(r, c);
            other.lemma_alive_on_board(r, c);
            assert(self.alive(r, c) == other.alive(r, c));
        }
        assert(self.cells =~= other.cells);
    }
}

} // verus!
