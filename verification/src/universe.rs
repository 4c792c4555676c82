//! The board itself: bit-packed cells, the seed patterns, one generation at a
//! time, and a textual picture.

use crate::bits::bit_offset;
use crate::packing::lemma_words_hold_cells;
use crate::packing::packs;
use crate::bits::Bits;
use crate::grid::at_least_half;
use crate::grid::glyph;
use crate::grid::lemma_entry_position;
use crate::grid::lemma_row_major;
use crate::grid::lemma_wrap_after;
use crate::grid::lemma_wrap_before;
use crate::grid::lemma_wrap_fixed;
use crate::grid::lemma_wrap_range;
use crate::grid::lemma_wrap_twice;
use crate::grid::next_state;
use crate::grid::wrap;
use crate::grid::Grid;
use vstd::prelude::*;
use vstd::string::StringExecFns;

verus! {

/// The number of rows of every board.
pub const ROWS: u32 = 64;

/// The number of columns of every board.
pub const COLS: u32 = 64;

/// The number of cells of every board, and of samples that seed a random one.
pub const CELLS: usize = 4096;

/// A Game of Life board on a torus, one bit per cell, row by row.
pub struct Universe {
    num_rows: u32,
    num_cols: u32,
    cells: Bits,
}

impl View for Universe {
    type V = Grid;

    closed spec fn view(&self) -> Grid {
        Grid { rows: self.num_rows as nat, cols: self.num_cols as nat, cells: self.cells@ }
    }
}

/// The position before `x` on an axis of length `n`, wrapping at the start.
fn wrap_before(x: u32, n: u32) -> (y: u32)
    requires
        x < n,
    ensures
        y < n,
        y == wrap(x - 1, n as nat),
{
    proof {
        lemma_wrap_before(x as int, n as nat);
    }
    if x == 0 {
        n - 1
    } else {
        x - 1
    }
}

/// The position after `x` on an axis of length `n`, wrapping at the end.
fn wrap_after(x: u32, n: u32) -> (y: u32)
    requires
        x < n,
    ensures
        y < n,
        y == wrap(x + 1, n as nat),
{
    proof {
        lemma_wrap_after(x as int, n as nat);
    }
    if x == n - 1 {
        0
    } else {
        x + 1
    }
}

/// The standard rule: survival on two or three live neighbours, birth on
/// three.
fn evolve(alive: bool, live_neighbors: u8) -> (next: bool)
    ensures
        next == next_state(alive, live_neighbors as nat),
{
    match (alive, live_neighbors) {
        (true, 2) | (true, 3) => true,
        (true, _) => false,
        (false, 3) => true,
        _ => alive,
    }
}

/// Whether a sample, a number in double precision given by its bit pattern,
/// is at least one half.
fn sample_is_live(sample: u64) -> (live: bool)
    ensures
        live == at_least_half(sample),
{
    0x3FE0_0000_0000_0000 <= sample && sample <= 0x7FF0_0000_0000_0000
}

/// The empty board of the fixed size has `CELLS` cells, all of them dead.
proof fn lemma_empty_cells()
    ensures
        Grid::empty(ROWS as nat, COLS as nat).cells.len() == CELLS,
        forall|i: int|
            0 <= i < CELLS ==> !(#[trigger] Grid::empty(ROWS as nat, COLS as nat).cells[i]),
{
    assert((ROWS as nat) * (COLS as nat) == CELLS) by (nonlinear_arith)
        requires
            ROWS == 64,
            COLS == 64,
            CELLS == 4096,
    ;
}

/// Where the five cells of a glider lie from its corner, as rows and columns.
spec fn glider_offsets() -> Seq<(u32, u32)> {
    seq![(0u32, 1u32), (1u32, 2u32), (2u32, 0u32), (2u32, 1u32), (2u32, 2u32)]
}

/// Where the cell with number `j` of the glider in the middle of the board
/// is stored.
spec fn glider_entry(j: int) -> int {
    let row = (ROWS / 2 + glider_offsets()[j].0) % (ROWS as int);
    let col = (COLS / 2 + glider_offsets()[j].1) % (COLS as int);
    row * COLS + col
}

/// Whether the entry `i` of the board is one of the first `k` cells of the
/// glider in the middle of the board.
spec fn placed(k: int, i: int) -> bool {
    ||| 0 < k && i == glider_entry(0)
    ||| 1 < k && i == glider_entry(1)
    ||| 2 < k && i == glider_entry(2)
    ||| 3 < k && i == glider_entry(3)
    ||| 4 < k && i == glider_entry(4)
}

impl Universe {
    /// The board has the fixed size, there is one bit per cell, and the bits
    /// start at the first position of the first word.
    #[verifier::type_invariant]
    spec fn inv(&self) -> bool {
        &&& self.num_rows == ROWS
        &&& self.num_cols == COLS
        &&& self@.wf()
        &&& bit_offset(self.cells) == 0
    }

    /// A board of 64 by 64 dead cells.
    pub fn new() -> (universe: Universe)
        ensures
            universe@ == Grid::empty(ROWS as nat, COLS as nat),
            universe@.wf(),
    {
        let num_rows: u32 = ROWS;
        let num_cols: u32 = COLS;
        let cells = Bits::repeat(false, (num_rows * num_cols) as usize);
        assert(cells@ =~= Grid::empty(ROWS as nat, COLS as nat).cells);
        assert((ROWS as nat) * (COLS as nat) == 4096) by (nonlinear_arith)
            requires
                ROWS == 64,
                COLS == 64,
        ;
        Universe { num_rows, num_cols, cells }
    }

    /// The 64 by 64 board on which a cell is alive when its place in row-major
    /// order is even or a multiple of seven.
    pub fn interesting() -> (universe: Universe)
        ensures
            universe@ == Grid::interesting(ROWS as nat, COLS as nat),
            universe@.wf(),
    {
        let mut this = Self::new();
        proof {
            lemma_empty_cells();
        }
        let ghost goal = Grid::interesting(ROWS as nat, COLS as nat);

        for r in 0..ROWS
            invariant
                this@.rows == ROWS,
                this@.cols == COLS,
                this@.cells.len() == CELLS,
                goal == Grid::interesting(ROWS as nat, COLS as nat),
                forall|i: int| 0 <= i < r * COLS ==> this@.cells[i] == goal.cells[i],
                forall|i: int| r * COLS <= i < CELLS ==> !this@.cells[i],
        {
            for c in 0..COLS
                invariant
                    r < ROWS,
                    this@.rows == ROWS,
                    this@.cols == COLS,
                    this@.cells.len() == CELLS,
                    goal == Grid::interesting(ROWS as nat, COLS as nat),
                    forall|i: int| 0 <= i < r * COLS + c ==> this@.cells[i] == goal.cells[i],
                    forall|i: int| r * COLS + c <= i < CELLS ==> !this@.cells[i],
            {
                let idx = this.get_index(r, c);
                proof {
                    use_type_invariant(&this);
                }
                if idx % 2 == 0 || idx % 7 == 0 {
                    this.cells.set(idx, true);
                }
            }
        }

        assert(this@.cells =~= goal.cells);
        proof {
            use_type_invariant(&this);
        }
        this
    }

    /// The 64 by 64 board that holds one glider, its corner in the middle of
    /// the board, and nothing else.
    pub fn with_glider() -> (universe: Universe)
        ensures
            universe@ == Grid::glider(ROWS as nat, COLS as nat),
            universe@.wf(),
    {
        let mut this = Self::new();
        proof {
            lemma_empty_cells();
        }

        let (r, c) = (this.num_rows / 2, this.num_cols / 2);
        let glider: [(u32, u32); 5] = [(0, 1), (1, 2), (2, 0), (2, 1), (2, 2)];
        for k in 0..5usize
            invariant
                r == ROWS / 2,
                c == COLS / 2,
                glider@ == glider_offsets(),
                this@.rows == ROWS,
                this@.cols == COLS,
                this@.cells.len() == CELLS,
                forall|i: int| 0 <= i < CELLS ==> #[trigger] this@.cells[i] == placed(k as int, i),
        {
            let (dr, dc) = glider[k];
            let idx = this.get_index((r + dr) % ROWS, (c + dc) % COLS);
            proof {
                use_type_invariant(&this);
            }
            this.cells.set(idx, true);
        }

        proof {
            let goal = Grid::glider(ROWS as nat, COLS as nat);
            assert forall|i: int| 0 <= i < CELLS implies this@.cells[i] == goal.cells[i] by {
                lemma_entry_position(ROWS as nat, COLS as nat, i);
                assert(this@.cells[i] == placed(5, i));
                assert(glider_entry(0) == 32 * 64 + 33);
                assert(glider_entry(1) == 33 * 64 + 34);
                assert(glider_entry(2) == 34 * 64 + 32);
                assert(glider_entry(3) == 34 * 64 + 33);
                assert(glider_entry(4) == 34 * 64 + 34);
            }
            assert(this@.cells =~= goal.cells);
            use_type_invariant(&this);
        }
        this
    }

    /// The 64 by 64 board seeded from `samples`, one for each cell in
    /// row-major order: a cell is alive when its sample is at least one half.
    /// A sample is a number in double precision, given by its bit pattern.
    pub fn random(samples: &[u64; CELLS]) -> (universe: Universe)
        ensures
            universe@ == Grid::from_samples(ROWS as nat, COLS as nat, samples@),
            universe@.wf(),
    {
        let mut this = Self::new();
        proof {
            lemma_empty_cells();
        }
        let ghost goal = Grid::from_samples(ROWS as nat, COLS as nat, samples@);

        for r in 0..ROWS
            invariant
                this@.rows == ROWS,
                this@.cols == COLS,
                this@.cells.len() == CELLS,
                goal == Grid::from_samples(ROWS as nat, COLS as nat, samples@),
                forall|i: int| 0 <= i < r * COLS ==> this@.cells[i] == goal.cells[i],
                forall|i: int| r * COLS <= i < CELLS ==> !this@.cells[i],
        {
            for c in 0..COLS
                invariant
                    r < ROWS,
                    this@.rows == ROWS,
                    this@.cols == COLS,
                    this@.cells.len() == CELLS,
                    goal == Grid::from_samples(ROWS as nat, COLS as nat, samples@),
                    forall|i: int| 0 <= i < r * COLS + c ==> this@.cells[i] == goal.cells[i],
                    forall|i: int| r * COLS + c <= i < CELLS ==> !this@.cells[i],
            {
                let idx = this.get_index(r, c);
                proof {
                    use_type_invariant(&this);
                }
                if sample_is_live(samples[idx]) {
                    this.cells.set(idx, true);
                }
            }
        }

        assert(this@.cells =~= goal.cells);
        proof {
            use_type_invariant(&this);
        }
        this
    }

    /// Where the cell in `row`, `col` is stored.
    fn get_index(&self, row: u32, col: u32) -> (index: usize)
        requires
            row < self@.rows,
            col < self@.cols,
        ensures
            index == self@.index(row as int, col as int),
            index == row * self@.cols + col,
            index < self@.cells.len(),
    {
        proof {
            use_type_invariant(self);
            lemma_row_major(self@.rows, self@.cols, row as int, col as int);
            lemma_wrap_fixed(row as int, self@.rows);
            lemma_wrap_fixed(col as int, self@.cols);
        }
        row as usize * self.num_cols as usize + col as usize
    }

    /// One if the cell in `row`, `col` is alive, zero if it is dead.
    fn population(&self, row: u32, col: u32) -> (count: u8)
        requires
            row < self@.rows,
            col < self@.cols,
        ensures
            count == self@.population(row as int, col as int),
    {
        let index = self.get_index(row, col);
        if self.cells.get(index) {
            1
        } else {
            0
        }
    }

    /// How many of the eight cells around `row`, `col` are alive. The board
    /// is a torus: coordinates wrap, and the neighbours of a cell on an edge
    /// lie on the opposite edge.
    pub fn live_neighbor_count(&self, row: u32, col: u32) -> (count: u8)
        ensures
            count == self@.live_neighbors(row as int, col as int),
            count <= 8,
    {
        proof {
            use_type_invariant(self);
            self@.lemma_neighbors_wrap(row as int, col as int);
        }
        let row = row % self.num_rows;
        let col = col % self.num_cols;
        let north = wrap_before(row, self.num_rows);
        let south = wrap_after(row, self.num_rows);
        let west = wrap_before(col, self.num_cols);
        let east = wrap_after(col, self.num_cols);
        proof {
            lemma_wrap_range(row as int, self@.rows);
            lemma_wrap_range(col as int, self@.cols);
            lemma_wrap_fixed(row as int, self@.rows);
            lemma_wrap_fixed(col as int, self@.cols);
            lemma_wrap_twice(row - 1, self@.rows);
            lemma_wrap_twice(row + 1, self@.rows);
            lemma_wrap_twice(col - 1, self@.cols);
            lemma_wrap_twice(col + 1, self@.cols);
        }
        let mut count: u8 = 0;
        count += self.population(north, west);
        count += self.population(north, col);
        count += self.population(north, east);
        count += self.population(row, west);
        count += self.population(row, east);
        count += self.population(south, west);
        count += self.population(south, col);
        count += self.population(south, east);
        count
    }

    /// The number of rows, which is 64.
    pub fn num_rows(&self) -> (rows: u32)
        ensures
            rows == self@.rows,
            rows == ROWS,
    {
        proof {
            use_type_invariant(self);
        }
        self.num_rows
    }

    /// The number of columns, which is 64.
    pub fn num_cols(&self) -> (cols: u32)
        ensures
            cols == self@.cols,
            cols == COLS,
    {
        proof {
            use_type_invariant(self);
        }
        self.num_cols
    }

    /// The words that store the cells, for reading many cells at once. There
    /// is one bit per cell, in row-major order, and each word fills from its
    /// least significant bit. The words are borrowed from the board: they
    /// show it as it is until the next generation is computed.
    pub fn cells(&self) -> (words: &[usize])
        ensures
            packs(words@, 0, self@.cells),
            self@.cells.len() == self@.rows * self@.cols,
            words@.len() * usize::BITS == self@.rows * self@.cols,
    {
        let words = self.cells.as_raw_slice();
        proof {
            use_type_invariant(self);
            assert(self@.rows * self@.cols == CELLS) by (nonlinear_arith)
                requires
                    self@.rows == 64,
                    self@.cols == 64,
                    CELLS == 4096,
            ;
            lemma_words_hold_cells(words@, self@.cells);
        }
        words
    }

    /// The picture of the board: one line for each row, a filled square for
    /// each live cell and a hollow square for each dead one.
    pub fn render(&self) -> (text: String)
        ensures
            text@ == self@.picture(),
    {
        proof {
            use_type_invariant(self);
        }
        let ghost grid = self@;
        let mut text = String::new();
        for r in 0..self.num_rows
            invariant
                grid == self@,
                grid.wf(),
                text@ == grid.lines(r as nat),
        {
            let ghost done = text@;
            for c in 0..self.num_cols
                invariant
                    grid == self@,
                    grid.wf(),
                    r < grid.rows,
                    text@ == done + Seq::new(c as nat, |k: int| glyph(grid.alive(r as int, k))),
            {
                proof {
                    reveal_strlit("\u{25FC}");
                    reveal_strlit("\u{25FB}");
                }
                let idx = self.get_index(r, c);
                if self.cells.get(idx) {
                    text.append("\u{25FC}");
                } else {
                    text.append("\u{25FB}");
                }
                assert(text@ =~= done + Seq::new(
                    (c + 1) as nat,
                    |k: int| glyph(grid.alive(r as int, k)),
                ));
            }
            proof {
                reveal_strlit("\n");
            }
            text.append("\n");
            assert(text@ =~= done + grid.line(r as int));
        }
        text
    }

    /// Advances the board by one generation. Every cell is decided from the
    /// board as it was before the call.
    pub fn tick(&mut self)
        ensures
            final(self)@ == old(self)@.next(),
            final(self)@.wf(),
    {
        proof {
            use_type_invariant(&*self);
        }
        let mut new_cells = self.cells.duplicate();
        let ghost now = self@;
        let ghost then = self@.next();
        assert(0 * now.cols == 0) by (nonlinear_arith);

        for r in 0..self.num_rows
            invariant
                *self == *old(self),
                now == self@,
                then == now.next(),
                now.wf(),
                new_cells@.len() == now.cells.len(),
                bit_offset(new_cells) == 0,
                forall|i: int| 0 <= i < r * now.cols ==> new_cells@[i] == then.cells[i],
        {
            for c in 0..self.num_cols
                invariant
                    *self == *old(self),
                    now == self@,
                    then == now.next(),
                    now.wf(),
                    r < now.rows,
                    new_cells@.len() == now.cells.len(),
                    bit_offset(new_cells) == 0,
                    forall|i: int| 0 <= i < r * now.cols + c ==> new_cells@[i] == then.cells[i],
            {
                let idx = self.get_index(r, c);
                let alive = self.cells.get(idx);
                let live_nbrs = self.live_neighbor_count(r, c);
                let next_alive = evolve(alive, live_nbrs);
                proof {
                    lemma_row_major(now.rows, now.cols, r as int, c as int);
                }
                new_cells.set(idx, next_alive);
            }
            assert((r + 1) * now.cols == r * now.cols + now.cols) by (nonlinear_arith);
        }

        assert(new_cells@ =~= then.cells);
        self.cells = new_cells;
    }
}

} // verus!
