//! Properties of the grid model that hold for every grid.

use crate::grid::cell_index;
use crate::grid::index_has_cell;
use crate::grid::lemma_cell_of_index;
use crate::grid::lemma_index_of_cell;
use crate::grid::rule;
use crate::grid::seeded;
use crate::grid::Grid;
use crate::universe::Universe;
use vstd::arithmetic::div_mod::lemma_add_mod_noop;
use vstd::arithmetic::div_mod::lemma_add_mod_noop_right;
use vstd::arithmetic::div_mod::lemma_mod_bound;
use vstd::arithmetic::div_mod::lemma_sub_mod_noop;
use vstd::arithmetic::div_mod::lemma_sub_mod_noop_right;
use vstd::prelude::*;

verus! {

/// Indexing is a bijection between the cells of a grid and the indices below
/// `width * height`: every cell's index is in that range, two different
/// cells have different indices, and every index in the range belongs to a
/// cell.
pub proof fn lemma_index_bijection(width: int, height: int)
    requires
        width >= 1,
        height >= 1,
    ensures
        forall|row: int, col: int|
            0 <= row < height && 0 <= col < width ==> 0 <= #[trigger] cell_index(width, row, col)
                < width * height,
        forall|r1: int, c1: int, r2: int, c2: int|
            0 <= r1 < height && 0 <= c1 < width && 0 <= r2 < height && 0 <= c2 < width
                && #[trigger] cell_index(width, r1, c1) == #[trigger] cell_index(width, r2, c2)
                ==> r1 == r2 && c1 == c2,
        forall|i: int| 0 <= i < width * height ==> #[trigger] index_has_cell(width, height, i),
{
    assert forall|row: int, col: int| 0 <= row < height && 0 <= col < width implies 0
        <= #[trigger] cell_index(width, row, col) < width * height by {
        lemma_index_of_cell(width, height, row, col);
    }
    assert forall|r1: int, c1: int, r2: int, c2: int|
        0 <= r1 < height && 0 <= c1 < width && 0 <= r2 < height && 0 <= c2 < width
            && #[trigger] cell_index(width, r1, c1) == #[trigger] cell_index(
            width,
            r2,
            c2,
        ) implies r1 == r2 && c1 == c2 by {
        lemma_index_of_cell(width, height, r1, c1);
        lemma_index_of_cell(width, height, r2, c2);
    }
    assert forall|i: int| 0 <= i < width * height implies #[trigger] index_has_cell(
        width,
        height,
        i,
    ) by {
        lemma_cell_of_index(width, height, i);
    }
}

/// The neighbour count of any cell lies between zero and eight.
pub proof fn lemma_neighbors_bounded(g: Grid, row: int, col: int)
    ensures
        0 <= g.neighbors(row, col) <= 8,
{
    reveal(Grid::neighbors);
}

/// The transition rule, case by case: a live cell with fewer than two live
/// neighbours dies, one with two or three lives on, one with more than three
/// dies; a dead cell with exactly three comes alive, and with any other
/// count stays dead.
pub proof fn lemma_rule_table(neighbors: int)
    ensures
        neighbors < 2 ==> !rule(true, neighbors),
        neighbors == 2 || neighbors == 3 ==> rule(true, neighbors),
        neighbors > 3 ==> !rule(true, neighbors),
        neighbors == 3 ==> rule(false, neighbors),
        neighbors != 3 ==> !rule(false, neighbors),
{
}

/// A step keeps the dimensions and yields a well-formed grid.
pub proof fn lemma_step_wf(g: Grid)
    requires
        g.wf(),
    ensures
        g.step().wf(),
        g.step().width == g.width,
        g.step().height == g.height,
{
}

/// Two universes built with the same dimensions and not changed since hold
/// the same grid, and they still hold the same grid after any equal number
/// of generations.
pub proof fn lemma_deterministic(a: Universe, b: Universe, width: int, height: int, n: nat)
    requires
        a@ == seeded(width, height),
        b@ == seeded(width, height),
    ensures
        a@ == b@,
        a@.generations(n) == b@.generations(n),
{
}

/// Toggling a cell twice gives the grid back as it was.
pub proof fn lemma_toggle_twice(g: Grid, row: int, col: int)
    requires
        g.wf(),
        g.in_range(row, col),
    ensures
        g.toggled(row, col).toggled(row, col) == g,
{
    lemma_index_of_cell(g.width, g.height, row, col);
    assert(g.toggled(row, col).toggled(row, col).cells =~= g.cells);
}

/// Listing the same cells once more changes nothing: making cells alive is
/// idempotent.
pub proof fn lemma_with_alive_twice(g: Grid, coords: Seq<(u32, u32)>)
    ensures
        g.with_alive(coords).with_alive(coords) == g.with_alive(coords),
{
    assert(g.with_alive(coords).with_alive(coords).cells =~= g.with_alive(coords).cells);
}

/// Reducing a coordinate modulo `m` before adding or subtracting an offset
/// does not change the sum or difference modulo `m`.
proof fn lemma_mod_offset(x: int, y: int, m: int)
    requires
        m > 0,
    ensures
        (x % m + y) % m == (x + y) % m,
        (x % m - y) % m == (x - y) % m,
{
    lemma_add_mod_noop(x, y, m);
    lemma_add_mod_noop_right(x % m, y, m);
    lemma_sub_mod_noop(x, y, m);
    lemma_sub_mod_noop_right(x % m, y, m);
}

/// In a shifted grid the cell at `(row, col)` is the one that stood `rows`
/// rows up and `cols` columns to the left, for any integer coordinates.
pub proof fn lemma_shifted_alive(g: Grid, rows: int, cols: int, row: int, col: int)
    requires
        g.wf(),
    ensures
        g.shifted(rows, cols).alive(row, col) == g.alive(row - rows, col - cols),
{
    let r = row % g.height;
    let c = col % g.width;
    lemma_mod_bound(row, g.height);
    lemma_mod_bound(col, g.width);
    lemma_index_of_cell(g.width, g.height, r, c);
    lemma_mod_offset(row, rows, g.height);
    lemma_mod_offset(col, cols, g.width);
}

/// Coordinates that differ by whole turns around the torus see the same
/// number of live neighbours.
pub proof fn lemma_neighbors_periodic(g: Grid, row: int, col: int)
    requires
        g.wf(),
    ensures
        g.neighbors(row % g.height, col % g.width) == g.neighbors(row, col),
{
    reveal(Grid::neighbors);
    lemma_mod_offset(row, 1, g.height);
    lemma_mod_offset(row, 0, g.height);
    lemma_mod_offset(col, 1, g.width);
    lemma_mod_offset(col, 0, g.width);
}

/// A cell of a shifted grid has as many live neighbours as the cell it came
/// from had in the grid before the shift.
pub proof fn lemma_shifted_neighbors(g: Grid, rows: int, cols: int, row: int, col: int)
    requires
        g.wf(),
    ensures
        g.shifted(rows, cols).neighbors(row, col) == g.neighbors(row - rows, col - cols),
{
    reveal(Grid::neighbors);
    lemma_shifted_alive(g, rows, cols, row - 1, col - 1);
    lemma_shifted_alive(g, rows, cols, row - 1, col);
    lemma_shifted_alive(g, rows, cols, row - 1, col + 1);
    lemma_shifted_alive(g, rows, cols, row, col - 1);
    lemma_shifted_alive(g, rows, cols, row, col + 1);
    lemma_shifted_alive(g, rows, cols, row + 1, col - 1);
    lemma_shifted_alive(g, rows, cols, row + 1, col);
    lemma_shifted_alive(g, rows, cols, row + 1, col + 1);
}

/// Toroidal symmetry: moving a pattern by any number of rows and columns and
/// then advancing one generation gives the same grid as advancing first and
/// moving afterwards.
pub proof fn lemma_step_of_shifted(g: Grid, rows: int, cols: int)
    requires
        g.wf(),
    ensures
        g.shifted(rows, cols).step() == g.step().shifted(rows, cols),
{
    let left = g.shifted(rows, cols).step();
    let right = g.step().shifted(rows, cols);
    assert forall|i: int| 0 <= i < g.width * g.height implies left.cells[i] == right.cells[i] by {
        let row = i / g.width;
        let col = i % g.width;
        lemma_cell_of_index(g.width, g.height, i);
        lemma_mod_bound(row - rows, g.height);
        lemma_mod_bound(col - cols, g.width);
        lemma_index_of_cell(
            g.width,
            g.height,
            (row - rows) % g.height,
            (col - cols) % g.width,
        );
        lemma_shifted_neighbors(g, rows, cols, row, col);
        lemma_neighbors_periodic(g, row - rows, col - cols);
    }
    assert(left.cells =~= right.cells);
}

/// The same over any number of generations: a moved pattern evolves as the
/// pattern itself does, moved by the same offset.
pub proof fn lemma_generations_of_shifted(g: Grid, rows: int, cols: int, n: nat)
    requires
        g.wf(),
    ensures
        g.shifted(rows, cols).generations(n) == g.generations(n).shifted(rows, cols),
    decreases n,
{
    if n > 0 {
        lemma_step_of_shifted(g, rows, cols);
        lemma_step_wf(g);
        lemma_generations_of_shifted(g.step(), rows, cols, (n - 1) as nat);
    }
}

} // verus!
