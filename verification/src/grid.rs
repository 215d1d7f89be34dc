//! The mathematical model of a toroidal grid and of one generation step.

use vstd::arithmetic::div_mod::lemma_fundamental_div_mod;
use vstd::arithmetic::div_mod::lemma_fundamental_div_mod_converse_div;
use vstd::arithmetic::div_mod::lemma_fundamental_div_mod_converse_mod;
use vstd::arithmetic::div_mod::lemma_mod_bound;
use vstd::prelude::*;

verus! {

/// A grid of `height` rows and `width` columns. `cells` holds one `bool` per
/// cell in row-major order, `true` for a live cell.
pub struct Grid {
    pub width: int,
    pub height: int,
    pub cells: Seq<bool>,
}

/// The linear index of the cell at `(row, col)` in a grid `width` cells wide.
pub open spec fn cell_index(width: int, row: int, col: int) -> int {
    row * width + col
}

/// Whether `i` is the index of some cell of a grid of the given dimensions.
pub open spec fn index_has_cell(width: int, height: int, i: int) -> bool {
    exists|row: int, col: int|
        0 <= row < height && 0 <= col < width && #[trigger] cell_index(width, row, col) == i
}

/// The seed rule: cell `i` starts alive when `i` is a multiple of 2 or of 7.
pub open spec fn seed(i: int) -> bool {
    i % 2 == 0 || i % 7 == 0
}

/// The transition rule: a live cell survives with two or three live
/// neighbours, a dead cell comes alive with exactly three.
pub open spec fn rule(alive: bool, neighbors: int) -> bool {
    if alive {
        neighbors == 2 || neighbors == 3
    } else {
        neighbors == 3
    }
}

/// One for a live cell, zero for a dead one.
pub open spec fn population(alive: bool) -> int {
    if alive {
        1
    } else {
        0
    }
}

impl Grid {
    /// Both dimensions are positive and there is one entry per cell.
    pub open spec fn wf(self) -> bool {
        &&& self.width >= 1
        &&& self.height >= 1
        &&& self.cells.len() == self.width * self.height
    }

    /// Whether `(row, col)` names a cell of the grid.
    pub open spec fn in_range(self, row: int, col: int) -> bool {
        0 <= row < self.height && 0 <= col < self.width
    }

    /// The state of the cell at `(row, col)`, for any integers: coordinates
    /// wrap around modulo the height and the width.
    pub open spec fn alive(self, row: int, col: int) -> bool {
        self.cells[cell_index(self.width, row % self.height, col % self.width)]
    }

    /// The state of the cell at `(row, col)`, for coordinates in range.
    pub open spec fn at(self, row: int, col: int) -> bool {
        self.cells[cell_index(self.width, row, col)]
    }

    /// The number of live cells among the eight toroidal neighbours of
    /// `(row, col)`. Each of the eight directions counts once, also where
    /// the grid is so small that two directions reach the same cell.
    #[verifier::opaque]
    pub open spec fn neighbors(self, row: int, col: int) -> int {
        population(self.alive(row - 1, col - 1)) + population(self.alive(row - 1, col))
            + population(self.alive(row - 1, col + 1)) + population(self.alive(row, col - 1))
            + population(self.alive(row, col + 1)) + population(self.alive(row + 1, col - 1))
            + population(self.alive(row + 1, col)) + population(self.alive(row + 1, col + 1))
    }

    /// The state of the cell with linear index `i` in the next generation.
    pub open spec fn next_cell(self, i: int) -> bool {
        rule(self.cells[i], self.neighbors(i / self.width, i % self.width))
    }

    /// The next generation: every cell is decided from this grid alone.
    pub open spec fn step(self) -> Grid {
        Grid {
            width: self.width,
            height: self.height,
            cells: Seq::new((self.width * self.height) as nat, |i: int| self.next_cell(i)),
        }
    }

    /// The grid after `n` generations.
    pub open spec fn generations(self, n: nat) -> Grid
        decreases n,
    {
        if n == 0 {
            self
        } else {
            self.step().generations((n - 1) as nat)
        }
    }

    /// The grid with the cell at `(row, col)` flipped.
    pub open spec fn toggled(self, row: int, col: int) -> Grid {
        let i = cell_index(self.width, row, col);
        Grid { width: self.width, height: self.height, cells: self.cells.update(i, !self.cells[i]) }
    }

    /// Whether one of the pairs in `coords` names the cell with linear index `i`.
    pub open spec fn listed(self, coords: Seq<(u32, u32)>, i: int) -> bool {
        exists|k: int|
            0 <= k < coords.len() && #[trigger] cell_index(
                self.width,
                coords[k].0 as int,
                coords[k].1 as int,
            ) == i
    }

    /// The grid with every cell named in `coords` alive and the others as
    /// they were.
    pub open spec fn with_alive(self, coords: Seq<(u32, u32)>) -> Grid {
        Grid {
            width: self.width,
            height: self.height,
            cells: Seq::new(self.cells.len(), |i: int| self.cells[i] || self.listed(coords, i)),
        }
    }

    /// The same pattern moved down by `rows` and right by `cols`, wrapping
    /// around the edges.
    pub open spec fn shifted(self, rows: int, cols: int) -> Grid {
        Grid {
            width: self.width,
            height: self.height,
            cells: Seq::new(
                (self.width * self.height) as nat,
                |i: int| self.alive(i / self.width - rows, i % self.width - cols),
            ),
        }
    }
}

/// The grid that construction produces: the given dimensions and the seed
/// rule applied to every index.
pub open spec fn seeded(width: int, height: int) -> Grid {
    Grid { width, height, cells: Seq::new((width * height) as nat, |i: int| seed(i)) }
}

/// Wrapping a coordinate that is in range, its predecessor or its successor
/// modulo `n` gives the coordinate itself, the one before it (`n - 1` before
/// zero) and the one after it (zero after `n - 1`).
pub proof fn lemma_wrap(x: int, n: int)
    requires
        0 <= x < n,
    ensures
        x % n == x,
        (x - 1) % n == (if x == 0 {
            n - 1
        } else {
            x - 1
        }),
        (x + 1) % n == (if x == n - 1 {
            0
        } else {
            x + 1
        }),
{
    lemma_fundamental_div_mod_converse_mod(x, n, 0, x);
    if x == 0 {
        lemma_fundamental_div_mod_converse_mod(-1, n, -1, n - 1);
    } else {
        lemma_fundamental_div_mod_converse_mod(x - 1, n, 0, x - 1);
    }
    if x == n - 1 {
        lemma_fundamental_div_mod_converse_mod(n, n, 1, 0);
    } else {
        lemma_fundamental_div_mod_converse_mod(x + 1, n, 0, x + 1);
    }
}

/// The coordinate before `x` on a ring of `n`: `n - 1` comes before zero.
pub open spec fn wrap_prev(x: int, n: int) -> int {
    if x == 0 {
        n - 1
    } else {
        x - 1
    }
}

/// The coordinate after `x` on a ring of `n`: zero comes after `n - 1`.
pub open spec fn wrap_next(x: int, n: int) -> int {
    if x == n - 1 {
        0
    } else {
        x + 1
    }
}

/// For a cell of the grid, the neighbour count is the sum over the eight
/// cells found by stepping one row and one column back or forth with
/// wrap-around, and it lies between zero and eight.
pub proof fn lemma_neighbors_of_cell(g: Grid, row: int, col: int)
    requires
        g.wf(),
        g.in_range(row, col),
    ensures
        g.neighbors(row, col) == population(
            g.at(wrap_prev(row, g.height), wrap_prev(col, g.width)),
        ) + population(g.at(wrap_prev(row, g.height), col)) + population(
            g.at(wrap_prev(row, g.height), wrap_next(col, g.width)),
        ) + population(g.at(row, wrap_prev(col, g.width))) + population(
            g.at(row, wrap_next(col, g.width)),
        ) + population(g.at(wrap_next(row, g.height), wrap_prev(col, g.width))) + population(
            g.at(wrap_next(row, g.height), col),
        ) + population(g.at(wrap_next(row, g.height), wrap_next(col, g.width))),
        0 <= g.neighbors(row, col) <= 8,
{
    reveal(Grid::neighbors);
    lemma_wrap(row, g.height);
    lemma_wrap(col, g.width);
}

/// Listing one more pair adds exactly the cell that the pair names.
pub proof fn lemma_listed_extend(g: Grid, coords: Seq<(u32, u32)>, k: int, i: int)
    requires
        0 <= k < coords.len(),
    ensures
        g.listed(coords.take(k + 1), i) == (g.listed(coords.take(k), i) || cell_index(
            g.width,
            coords[k].0 as int,
            coords[k].1 as int,
        ) == i),
{
    let shorter = coords.take(k);
    let longer = coords.take(k + 1);
    if g.listed(longer, i) {
        let j = choose|j: int|
            0 <= j < longer.len() && #[trigger] cell_index(
                g.width,
                longer[j].0 as int,
                longer[j].1 as int,
            ) == i;
        if j < k {
            assert(cell_index(g.width, shorter[j].0 as int, shorter[j].1 as int) == i);
        }
    }
    if g.listed(shorter, i) {
        let j = choose|j: int|
            0 <= j < shorter.len() && #[trigger] cell_index(
                g.width,
                shorter[j].0 as int,
                shorter[j].1 as int,
            ) == i;
        assert(cell_index(g.width, longer[j].0 as int, longer[j].1 as int) == i);
    }
    if cell_index(g.width, coords[k].0 as int, coords[k].1 as int) == i {
        assert(cell_index(g.width, longer[k].0 as int, longer[k].1 as int) == i);
    }
}

/// A cell's index lies inside the grid, and its row and column are the
/// quotient and remainder of the index by the width.
pub proof fn lemma_index_of_cell(width: int, height: int, row: int, col: int)
    requires
        0 <= row < height,
        0 <= col < width,
    ensures
        0 <= cell_index(width, row, col) < width * height,
        cell_index(width, row, col) / width == row,
        cell_index(width, row, col) % width == col,
{
    assert(row * width + width <= height * width) by (nonlinear_arith)
        requires
            row + 1 <= height,
            width > 0,
    ;
    assert(0 <= row * width) by (nonlinear_arith)
        requires
            0 <= row,
            width > 0,
    ;
    assert(height * width == width * height) by (nonlinear_arith);
    lemma_fundamental_div_mod_converse_div(row * width + col, width, row, col);
    lemma_fundamental_div_mod_converse_mod(row * width + col, width, row, col);
}

/// Every index inside the grid is the index of the cell whose row and column
/// are its quotient and remainder by the width.
pub proof fn lemma_cell_of_index(width: int, height: int, i: int)
    requires
        width >= 1,
        height >= 1,
        0 <= i < width * height,
    ensures
        0 <= i / width < height,
        0 <= i % width < width,
        cell_index(width, i / width, i % width) == i,
{
    lemma_fundamental_div_mod(i, width);
    lemma_mod_bound(i, width);
    let q = i / width;
    assert(width * q == q * width) by (nonlinear_arith);
    assert(q >= 0) by (nonlinear_arith)
        requires
            q * width + i % width >= 0,
            i % width < width,
            width > 0,
    ;
    assert(q < height) by (nonlinear_arith)
        requires
            q * width + i % width < width * height,
            0 <= i % width,
            width > 0,
    ;
}

} // verus!
