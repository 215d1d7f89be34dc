//! The universe: a grid held in a packed bit set, and the operations on it.

use crate::bitset::bits;
use crate::grid::cell_index;
use crate::grid::lemma_index_of_cell;
use crate::grid::lemma_listed_extend;
use crate::grid::lemma_neighbors_of_cell;
use crate::grid::population;
use crate::grid::rule;
use crate::grid::seed;
use crate::grid::seeded;
use crate::grid::Grid;
use fixedbitset::FixedBitSet;
use vstd::prelude::*;

verus! {

/// Why an operation on a [`Universe`] was refused.
#[derive(Clone, Copy, Debug, PartialEq, Eq)]
pub enum UniverseError {
    /// A width or a height of zero was asked for.
    InvalidDimension,
    /// A coordinate lies outside the grid.
    OutOfRange,
}

/// A toroidal grid of cells, one bit each, stored row by row.
pub struct Universe {
    width: u32,
    height: u32,
    cells: FixedBitSet,
}

impl View for Universe {
    type V = Grid;

    closed spec fn view(&self) -> Grid {
        Grid { width: self.width as int, height: self.height as int, cells: bits(self.cells) }
    }
}

/// The state of a cell in the next generation, given its state now and the
/// number of its live neighbours.
pub fn next_state(cell: bool, live_neighbors: u8) -> (alive: bool)
    ensures
        alive == rule(cell, live_neighbors as int),
        cell && live_neighbors < 2 ==> !alive,
        cell && (live_neighbors == 2 || live_neighbors == 3) ==> alive,
        cell && live_neighbors > 3 ==> !alive,
        !cell && live_neighbors == 3 ==> alive,
        !cell && live_neighbors != 3 ==> !alive,
{
    match (cell, live_neighbors) {
        (true, x) if x < 2 => false,
        (true, 2) | (true, 3) => true,
        (true, x) if x > 3 => false,
        (false, 3) => true,
        (otherwise, _) => otherwise,
    }
}

impl Universe {
    /// The invariant of a universe: its grid is well formed and the number
    /// of its cells fits the machine's index type.
    pub open spec fn wf(&self) -> bool {
        self@.wf() && self@.cells.len() <= usize::MAX
    }

    /// A universe of the given positive dimensions, filled by the seed rule.
    fn seeded_universe(width: u32, height: u32) -> (universe: Universe)
        requires
            width >= 1,
            height >= 1,
            width as int * height as int <= usize::MAX,
        ensures
            universe.wf(),
            universe@ == seeded(width as int, height as int),
    {
        let size: usize = width as usize * height as usize;
        let mut cells = FixedBitSet::with_capacity(size);

        for i in 0..size
            invariant
                bits(cells).len() == size,
                forall|j: int| 0 <= j < i ==> #[trigger] bits(cells)[j] == seed(j),
        {
            cells.set(i, i % 2 == 0 || i % 7 == 0)
        }

        let universe = Universe { width, height, cells };
        assert(universe@.cells =~= seeded(width as int, height as int).cells);
        universe
    }

    /// The linear index of the cell at `(row, col)`: `row * width + col`.
    pub fn get_index(&self, row: u32, col: u32) -> (index: usize)
        requires
            self.wf(),
            self@.in_range(row as int, col as int),
        ensures
            index == cell_index(self@.width, row as int, col as int),
            index < self@.cells.len(),
    {
        proof {
            lemma_index_of_cell(self@.width, self@.height, row as int, col as int);
        }
        row as usize * self.width as usize + col as usize
    }

    /// One if the cell at `(row, col)` is alive, zero if it is dead.
    fn population_at(&self, row: u32, col: u32) -> (value: u8)
        requires
            self.wf(),
            self@.in_range(row as int, col as int),
        ensures
            value == population(self@.at(row as int, col as int)),
    {
        let index = self.get_index(row, col);
        if self.cells.contains(index) {
            1
        } else {
            0
        }
    }

    /// The number of live cells among the eight neighbours of `(row, column)`
    /// on the torus.
    pub fn live_neighbor_count(&self, row: u32, column: u32) -> (count: u8)
        requires
            self.wf(),
            self@.in_range(row as int, column as int),
        ensures
            count == self@.neighbors(row as int, column as int),
            count <= 8,
    {
        let north = if row == 0 {
            self.height - 1
        } else {
            row - 1
        };

        let south = if row == self.height - 1 {
            0
        } else {
            row + 1
        };

        let west = if column == 0 {
            self.width - 1
        } else {
            column - 1
        };

        let east = if column == self.width - 1 {
            0
        } else {
            column + 1
        };

        proof {
            lemma_neighbors_of_cell(self@, row as int, column as int);
        }

        let mut count: u8 = 0;
        count += self.population_at(north, west);
        count += self.population_at(north, column);
        count += self.population_at(north, east);
        count += self.population_at(row, west);
        count += self.population_at(row, east);
        count += self.population_at(south, west);
        count += self.population_at(south, column);
        count += self.population_at(south, east);

        count
    }

    /// The dead and alive values of the entire universe, row by row.
    pub fn get_cells(&self) -> (cells: &FixedBitSet)
        ensures
            bits(*cells) == self@.cells,
    {
        &self.cells
    }

    /// Makes every cell named in `cells` alive and leaves the others as they
    /// are. Where one of the pairs lies outside the grid nothing is changed.
    pub fn set_cells(&mut self, cells: &[(u32, u32)]) -> (result: Result<(), UniverseError>)
        requires
            old(self).wf(),
        ensures
            final(self).wf(),
            result is Ok <==> (forall|k: int|
                0 <= k < cells@.len() ==> old(self)@.in_range(
                    (#[trigger] cells@[k]).0 as int,
                    cells@[k].1 as int,
                )),
            result is Ok ==> final(self)@ == old(self)@.with_alive(cells@),
            result matches Err(e) ==> e == UniverseError::OutOfRange && final(self)@ == old(
                self,
            )@,
    {
        let ghost before = self@;
        let mut k: usize = 0;
        while k < cells.len()
            invariant
                k <= cells@.len(),
                self.wf(),
                self@ == before,
                forall|j: int|
                    0 <= j < k ==> before.in_range((#[trigger] cells@[j]).0 as int, cells@[j].1 as int),
            decreases cells@.len() - k,
        {
            let (row, col) = cells[k];
            if row >= self.height || col >= self.width {
                return Err(UniverseError::OutOfRange);
            }
            k += 1;
        }

        let mut k: usize = 0;
        while k < cells.len()
            invariant
                k <= cells@.len(),
                self.wf(),
                before.wf(),
                self@.width == before.width,
                self@.height == before.height,
                forall|j: int|
                    0 <= j < cells@.len() ==> before.in_range(
                        (#[trigger] cells@[j]).0 as int,
                        cells@[j].1 as int,
                    ),
                forall|i: int|
                    0 <= i < before.cells.len() ==> #[trigger] self@.cells[i] == (before.cells[i]
                        || before.listed(cells@.take(k as int), i)),
            decreases cells@.len() - k,
        {
            let (row, col) = cells[k];
            let index = self.get_index(row, col);
            proof {
                assert forall|i: int| 0 <= i < before.cells.len() implies before.listed(
                    cells@.take(k + 1),
                    i,
                ) == (before.listed(cells@.take(k as int), i) || index == i) by {
                    lemma_listed_extend(before, cells@, k as int, i);
                }
            }
            self.cells.put(index);
            k += 1;
        }
        assert(cells@.take(k as int) =~= cells@);
        assert(self@.cells =~= before.with_alive(cells@).cells);
        Ok(())
    }

    /// The default universe: 64 rows of 64 cells, filled by the seed rule.
    pub fn new() -> (universe: Universe)
        ensures
            universe.wf(),
            universe@ == seeded(64, 64),
    {
        Self::seeded_universe(64, 64)
    }

    /// A universe of `height` rows and `width` columns in which cell `i` is
    /// alive when `i` is a multiple of 2 or of 7. A width or a height of
    /// zero is refused.
    pub fn with_dimension(width: u32, height: u32) -> (result: Result<Universe, UniverseError>)
        requires
            width as int * height as int <= usize::MAX,
        ensures
            result is Err <==> (width == 0 || height == 0),
            result matches Err(e) ==> e == UniverseError::InvalidDimension,
            result matches Ok(universe) ==> universe.wf() && universe@ == seeded(
                width as int,
                height as int,
            ),
    {
        if width == 0 || height == 0 {
            return Err(UniverseError::InvalidDimension);
        }
        Ok(Self::seeded_universe(width, height))
    }

    /// The number of columns.
    pub fn width(&self) -> (width: u32)
        ensures
            width == self@.width,
    {
        self.width
    }

    /// The number of rows.
    pub fn height(&self) -> (height: u32)
        ensures
            height == self@.height,
    {
        self.height
    }

    /// Advances the universe by one generation. Every cell of the new
    /// generation is decided from the old one alone.
    pub fn tick(&mut self)
        requires
            old(self).wf(),
        ensures
            final(self).wf(),
            final(self)@ == old(self)@.step(),
    {
        let ghost before = self@;
        let mut next = self.cells.clone();
        assert(0 * before.width == 0) by (nonlinear_arith);

        for row in 0..self.height
            invariant
                self.wf(),
                self@ == before,
                bits(next).len() == before.cells.len(),
                forall|i: int|
                    0 <= i < row * before.width ==> #[trigger] bits(next)[i] == before.next_cell(i),
        {
            for col in 0..self.width
                invariant
                    self.wf(),
                    self@ == before,
                    row < before.height,
                    bits(next).len() == before.cells.len(),
                    forall|i: int|
                        0 <= i < row * before.width + col ==> #[trigger] bits(next)[i]
                            == before.next_cell(i),
            {
                let index = self.get_index(row, col);
                let cell = self.cells.contains(index);
                let live_neighbors = self.live_neighbor_count(row, col);
                proof {
                    lemma_index_of_cell(before.width, before.height, row as int, col as int);
                }
                next.set(index, next_state(cell, live_neighbors));
            }
            assert((row + 1) * before.width == row * before.width + before.width)
                by (nonlinear_arith);
        }

        self.cells = next;
        assert(before.height * before.width == before.width * before.height)
            by (nonlinear_arith);
        assert(self@.cells =~= before.step().cells);
    }

    /// Flips the cell at `(row, col)`. A coordinate outside the grid is
    /// refused and nothing is changed.
    pub fn toggle_cell(&mut self, row: u32, col: u32) -> (result: Result<(), UniverseError>)
        requires
            old(self).wf(),
        ensures
            final(self).wf(),
            result is Ok <==> old(self)@.in_range(row as int, col as int),
            result is Ok ==> final(self)@ == old(self)@.toggled(row as int, col as int),
            result matches Err(e) ==> e == UniverseError::OutOfRange && final(self)@ == old(
                self,
            )@,
    {
        if row >= self.height || col >= self.width {
            return Err(UniverseError::OutOfRange);
        }
        let index = self.get_index(row, col);
        let bit = self.cells.contains(index);
        self.cells.set(index, !bit);
        Ok(())
    }
}

} // verus!
