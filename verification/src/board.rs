//! The board: a rule and a square grid of cell states.

use crate::config::Config;
use crate::error::EngineError;
use crate::generator::{draw_at, seeded_words, words_after, Generator};
use crate::neighbourhood::Neighbourhood;
use crate::rule::{
    alive, chunk_size, distance, is_below, is_partition, is_seeded_fill, is_square,
    lemma_alive_push, lemma_chunk_ends, lemma_in_row_outside, lemma_in_rows_outside,
    lemma_split_joins, lowered, neighbour_count, next_cell, next_grid, raised, same_shape, set_at,
    split, Window,
};
use std::ops::Range;
use vstd::arithmetic::div_mod::lemma_fundamental_div_mod;
use vstd::prelude::*;

verus! {

/// The state of one cell: zero is dead, one is alive, two and more decay.
pub type Cell = u8;

/// The rows of a board.
pub type Cells = Vec<Vec<Cell>>;

/// A rule and the grid it governs.
#[derive(Debug, Clone, PartialEq)]
pub struct Board {
    /// The rule.
    pub config: Config,
    /// The rows of the grid, each as long as there are rows.
    pub cells: Cells,
}

impl Board {
    /// The grid as a sequence of rows of states: the model that the contracts
    /// speak of.
    pub open spec fn grid(&self) -> Seq<Seq<u8>> {
        Seq::new(self.cells@.len(), |i: int| self.cells@[i]@)
    }

    /// The number of rows.
    pub open spec fn size(&self) -> nat {
        self.grid().len()
    }

    /// Whether the grid is square.
    pub open spec fn square(&self) -> bool {
        is_square(self.grid())
    }

    /// Whether the board is well formed: the grid is square and every cell
    /// holds a state of the rule.
    pub open spec fn wf(&self) -> bool {
        &&& is_square(self.grid())
        &&& is_below(self.grid(), self.config.spec_states() as int)
    }

    /// Whether the grid has a cell at `(x, y)`.  On a square grid these are
    /// the coordinates below its size.
    pub open spec fn has_cell(&self, x: int, y: int) -> bool {
        0 <= x < self.grid().len() && 0 <= y < self.grid()[x].len()
    }

    /// The grid as it is after the cell at `(x, y)` is set to `value`.
    pub open spec fn with_cell(&self, x: int, y: int, value: u8) -> Seq<Seq<u8>> {
        set_at(self.grid(), x, y, value)
    }

    /// Whether every cell holds the draw of its place in the run of draws
    /// that `seed` fixes: what `randomize` leaves on a square board.
    pub open spec fn filled_from(&self, seed: u64) -> bool {
        is_seeded_fill(self.grid(), seeded_words(seed), self.config.spec_states())
    }

    /// The window of the cell at `(x, y)` under a topology.
    pub open spec fn window(&self, topology: Neighbourhood, x: int, y: int) -> Window {
        Window::of(self.config, topology, x, y)
    }
}

impl Board {
    /// A board of `size` rows and columns in which every cell is dead.
    pub fn new(size: u64, config: Config) -> (board: Board)
        requires
            size <= usize::MAX,
        ensures
            board.config == config,
            board.size() == size,
            board.grid() == Seq::new(size as nat, |x: int| Seq::new(size as nat, |y: int| 0u8)),
            board.wf(),
    {
        let board = Board { config, cells: vec![vec![0; size as usize]; size as usize] };
        assert(board.grid() =~~= Seq::new(
            size as nat,
            |x: int| Seq::new(size as nat, |y: int| 0u8),
        ));
        board
    }

    /// Sets every cell to zero.
    pub fn reset(&mut self)
        ensures
            final(self).config == old(self).config,
            final(self).grid() == Seq::new(
                old(self).grid().len(),
                |x: int| Seq::new(old(self).grid()[x].len(), |y: int| 0u8),
            ),
    {
        let mut x: usize = 0;
        while x < self.cells.len()
            invariant
                self.config == old(self).config,
                self.cells.len() == old(self).cells.len(),
                x <= self.cells.len(),
                forall|i: int|
                    0 <= i < self.cells.len() ==> (#[trigger] self.cells@[i]).len()
                        == old(self).cells@[i].len(),
                forall|i: int, j: int|
                    0 <= i < x && 0 <= j < self.cells@[i].len() ==> (#[trigger] self.cells@[i]@[j])
                        == 0,
            decreases self.cells.len() - x,
        {
            let mut y: usize = 0;
            while y < self.cells[x].len()
                invariant
                    self.config == old(self).config,
                    self.cells.len() == old(self).cells.len(),
                    x < self.cells.len(),
                    y <= self.cells@[x as int].len(),
                    forall|i: int|
                        0 <= i < self.cells.len() ==> (#[trigger] self.cells@[i]).len()
                            == old(self).cells@[i].len(),
                    forall|i: int, j: int|
                        0 <= i < x && 0 <= j < self.cells@[i].len() ==> (
                        #[trigger] self.cells@[i]@[j]) == 0,
                    forall|j: int| 0 <= j < y ==> (#[trigger] self.cells@[x as int]@[j]) == 0,
                decreases self.cells@[x as int].len() - y,
            {
                self.cells[x][y] = 0;
                y += 1;
            }
            x += 1;
        }
        assert(self.grid() =~~= Seq::new(
            old(self).grid().len(),
            |x: int| Seq::new(old(self).grid()[x].len(), |y: int| 0u8),
        ));
    }

    /// The state of the cell at `(x, y)`; `OutOfBounds` where the board has
    /// no such cell.
    pub fn get_cell(&self, x: usize, y: usize) -> (cell: Result<Cell, EngineError>)
        ensures
            match cell {
                Ok(state) => {
                    &&& self.has_cell(x as int, y as int)
                    &&& state == self.grid()[x as int][y as int]
                },
                Err(e) => e == EngineError::OutOfBounds && !self.has_cell(x as int, y as int),
            },
    {
        if x < self.cells.len() && y < self.cells[x].len() {
            Ok(self.cells[x][y])
        } else {
            Err(EngineError::OutOfBounds)
        }
    }

    /// Sets the cell at `(x, y)` to `value`.  A value that is no state of the
    /// rule is rejected as `InvalidCellValue`; then coordinates outside the
    /// board as `OutOfBounds`.  A rejected call changes nothing.
    pub fn set_cell(&mut self, x: usize, y: usize, value: Cell) -> (done: Result<(), EngineError>)
        ensures
            final(self).config == old(self).config,
            match done {
                Ok(_) => {
                    &&& value < old(self).config.spec_states()
                    &&& old(self).has_cell(x as int, y as int)
                    &&& final(self).grid() == old(self).with_cell(x as int, y as int, value)
                },
                Err(e) => {
                    &&& *final(self) == *old(self)
                    &&& e == if value >= old(self).config.spec_states() {
                        EngineError::InvalidCellValue
                    } else {
                        EngineError::OutOfBounds
                    }
                    &&& (value >= old(self).config.spec_states() || !old(self).has_cell(
                        x as int,
                        y as int,
                    ))
                },
            },
            old(self).wf() ==> final(self).wf(),
    {
        if value >= self.config.states() {
            return Err(EngineError::InvalidCellValue);
        }
        if x >= self.cells.len() || y >= self.cells[x].len() {
            return Err(EngineError::OutOfBounds);
        }
        self.cells[x][y] = value;
        assert(self.grid() =~~= old(self).with_cell(x as int, y as int, value));
        Ok(())
    }

    /// Moves the cell at `(x, y)` one state up, and from the last state back
    /// to zero.  Coordinates outside the board are rejected as `OutOfBounds`,
    /// and nothing changes.
    pub fn cell_up(&mut self, x: usize, y: usize) -> (done: Result<(), EngineError>)
        ensures
            final(self).config == old(self).config,
            match done {
                Ok(_) => {
                    &&& old(self).has_cell(x as int, y as int)
                    &&& final(self).grid() == old(self).with_cell(
                        x as int,
                        y as int,
                        raised(
                            old(self).grid()[x as int][y as int],
                            old(self).config.spec_states(),
                        ),
                    )
                },
                Err(e) => {
                    &&& e == EngineError::OutOfBounds
                    &&& !old(self).has_cell(x as int, y as int)
                    &&& *final(self) == *old(self)
                },
            },
            old(self).wf() ==> final(self).wf(),
    {
        match self.get_cell(x, y) {
            Err(e) => Err(e),
            Ok(state) => {
                let states: u16 = self.config.states() as u16;
                let value: u8 = ((state as u16 + 1) % states) as u8;
                self.set_cell(x, y, value)
            },
        }
    }

    /// Moves the cell at `(x, y)` one state down; a cell at zero stays at
    /// zero.  Coordinates outside the board are rejected as `OutOfBounds`,
    /// and nothing changes.
    pub fn cell_down(&mut self, x: usize, y: usize) -> (done: Result<(), EngineError>)
        ensures
            final(self).config == old(self).config,
            match done {
                Ok(_) => {
                    &&& old(self).has_cell(x as int, y as int)
                    &&& final(self).grid() == old(self).with_cell(
                        x as int,
                        y as int,
                        lowered(
                            old(self).grid()[x as int][y as int],
                            old(self).config.spec_states(),
                        ),
                    )
                    &&& old(self).grid()[x as int][y as int] == 0 ==> *final(self) == *old(self)
                },
                Err(e) => {
                    &&& e == EngineError::OutOfBounds
                    &&& !old(self).has_cell(x as int, y as int)
                    &&& *final(self) == *old(self)
                },
            },
            old(self).wf() ==> final(self).wf(),
    {
        match self.get_cell(x, y) {
            Err(e) => Err(e),
            Ok(state) => {
                if state == 0 {
                    assert(self.grid() =~~= self.with_cell(x as int, y as int, 0));
                    return Ok(());
                }
                let value: u8 = (state - 1) % self.config.states();
                self.set_cell(x, y, value)
            },
        }
    }

    /// Whether the board is well formed.
    pub fn is_valid(&self) -> (valid: bool)
        ensures
            valid == self.wf(),
    {
        let size = self.cells.len();
        let states = self.config.states();
        let mut x: usize = 0;
        while x < size
            invariant
                size == self.size(),
                states == self.config.spec_states(),
                x <= size,
                forall|i: int| 0 <= i < x ==> (#[trigger] self.grid()[i]).len() == size,
                forall|i: int, j: int|
                    0 <= i < x && 0 <= j < size ==> (#[trigger] self.grid()[i][j]) < states,
            decreases size - x,
        {
            if self.cells[x].len() != size {
                assert(self.grid()[x as int].len() != size);
                return false;
            }
            let mut y: usize = 0;
            while y < size
                invariant
                    size == self.size(),
                    states == self.config.spec_states(),
                    x < size,
                    y <= size,
                    self.grid()[x as int].len() == size,
                    forall|j: int| 0 <= j < y ==> (#[trigger] self.grid()[x as int][j]) < states,
                decreases size - y,
            {
                if self.cells[x][y] >= states {
                    return false;
                }
                y += 1;
            }
            x += 1;
        }
        true
    }

    /// Fills the board with states drawn one by one, row by row: from a
    /// generator made of the seed where one is given, else from the entropy
    /// of the machine.  On a square board one seed always gives one grid.
    pub fn randomize(&mut self, seed: Option<u64>)
        ensures
            final(self).config == old(self).config,
            same_shape(final(self).grid(), old(self).grid()),
            is_below(final(self).grid(), old(self).config.spec_states() as int),
            seed matches Some(s) ==> old(self).square() ==> final(self).filled_from(s),
    {
        let mut rng = Generator::new(seed);
        self._randomize(&mut rng);
    }

    /// Fills the board with states drawn one by one, row by row, from `rng`.
    pub fn _randomize(&mut self, rng: &mut Generator)
        ensures
            final(self).config == old(self).config,
            same_shape(final(self).grid(), old(self).grid()),
            is_below(final(self).grid(), old(self).config.spec_states() as int),
            match old(rng).words() {
                Some(w) => old(self).square() ==> {
                    &&& is_seeded_fill(final(self).grid(), w, old(self).config.spec_states())
                    &&& final(rng).words() == Some(
                        words_after(
                            w,
                            (old(self).config.spec_states() - 1) as u8,
                            old(self).size() * old(self).size(),
                        ),
                    )
                },
                None => final(rng).words() is None,
            },
    {
        let size = self.cells.len();
        let high: u8 = self.config.states() - 1;
        let ghost drawn: nat = 0;
        let mut x: usize = 0;
        while x < size
            invariant
                self.config == old(self).config,
                same_shape(self.grid(), old(self).grid()),
                size == self.size(),
                high == self.config.spec_states() - 1,
                x <= size,
                old(self).square() ==> drawn == x * size,
                forall|i: int, j: int|
                    0 <= i < x && 0 <= j < self.grid()[i].len() ==> (#[trigger] self.grid()[i][j])
                        <= high,
                match old(rng).words() {
                    Some(w) => old(self).square() ==> {
                        &&& rng.words() == Some(words_after(w, high, drawn))
                        &&& forall|i: int, j: int|
                            0 <= i < x && 0 <= j < size ==> (#[trigger] self.grid()[i][j])
                                == draw_at(w, high, (i * size + j) as nat)
                    },
                    None => rng.words() is None,
                },
            decreases size - x,
        {
            let width = self.cells[x].len();
            let mut y: usize = 0;
            while y < width
                invariant
                    self.config == old(self).config,
                    same_shape(self.grid(), old(self).grid()),
                    size == self.size(),
                    high == self.config.spec_states() - 1,
                    x < size,
                    width == self.grid()[x as int].len(),
                    y <= width,
                    old(self).square() ==> drawn == x * size + y,
                    forall|i: int, j: int|
                        0 <= i < x && 0 <= j < self.grid()[i].len() ==> (
                        #[trigger] self.grid()[i][j]) <= high,
                    forall|j: int| 0 <= j < y ==> (#[trigger] self.grid()[x as int][j]) <= high,
                    match old(rng).words() {
                        Some(w) => old(self).square() ==> {
                            &&& rng.words() == Some(words_after(w, high, drawn))
                            &&& forall|i: int, j: int|
                                0 <= i < x && 0 <= j < size ==> (#[trigger] self.grid()[i][j])
                                    == draw_at(w, high, (i * size + j) as nat)
                            &&& forall|j: int|
                                0 <= j < y ==> (#[trigger] self.grid()[x as int][j]) == draw_at(
                                    w,
                                    high,
                                    (x * size + j) as nat,
                                )
                        },
                        None => rng.words() is None,
                    },
                decreases width - y,
            {
                let ghost before = self.grid();
                let state = rng.draw_u8(0, high);
                self.cells[x][y] = state;
                proof {
                    assert(self.grid() =~~= set_at(before, x as int, y as int, state));
                    drawn = drawn + 1;
                }
                y += 1;
            }
            proof {
                assert((x + 1) * size == x * size + size) by (nonlinear_arith);
            }
            x += 1;
        }
    }
}

impl Board {
    /// The state of the cell at `(x_i, y_i)` if it belongs to the window of
    /// the cell at `(x, y)`.
    fn pick(
        &self,
        topology: Neighbourhood,
        x: usize,
        y: usize,
        x_i: usize,
        y_i: usize,
    ) -> (picked: Option<u8>)
        requires
            self.square(),
            x_i < self.size(),
            y_i < self.size(),
            distance(x_i as int, x as int) <= self.config.rr,
            distance(y_i as int, y as int) <= self.config.rr,
        ensures
            picked == if self.window(topology, x as int, y as int).holds(x_i as int, y_i as int) {
                Some(self.grid()[x_i as int][y_i as int])
            } else {
                None
            },
    {
        if self.config.mm == 0 && x_i == x && y_i == y {
            return None;
        }
        assert(self.grid()[x_i as int].len() == self.size());
        match topology {
            Neighbourhood::Moore => Some(self.cells[x_i][y_i]),
            Neighbourhood::Neumann => {
                let dx: usize = if x_i <= x {
                    x - x_i
                } else {
                    x_i - x
                };
                let dy: usize = if y_i <= y {
                    y - y_i
                } else {
                    y_i - y
                };
                if dx + dy <= self.config.rr as usize {
                    Some(self.cells[x_i][y_i])
                } else {
                    None
                }
            },
        }
    }

    /// The states of the cells in the window of the cell at `(x, y)`, row by
    /// row and from left to right.  Only the part of the window that lies on
    /// the board is scanned.
    pub fn get_neighbourhood(
        &self,
        x: usize,
        y: usize,
        topology: Neighbourhood,
    ) -> (states: Vec<u8>)
        requires
            self.square(),
            x < self.size(),
            y < self.size(),
        ensures
            states@ == self.window(topology, x as int, y as int).states(self.grid()),
    {
        let r: usize = self.config.rr as usize;
        let max_bound: usize = self.cells.len() - 1;
        let x_min: usize = if r > x {
            0
        } else {
            x - r
        };
        let y_min: usize = if r > y {
            0
        } else {
            y - r
        };
        let x_max: usize = if r > max_bound - x {
            max_bound
        } else {
            x + r
        };
        let y_max: usize = if r > max_bound - y {
            max_bound
        } else {
            y + r
        };
        let ghost w = self.window(topology, x as int, y as int);
        let ghost grid = self.grid();
        let mut neighbourhood: Vec<u8> = Vec::new();
        let mut x_i: usize = x_min;
        proof {
            lemma_in_rows_outside(w, grid, 0, x_min as int);
        }
        while x_i <= x_max
            invariant
                self.square(),
                w == self.window(topology, x as int, y as int),
                grid == self.grid(),
                x < self.size(),
                y < self.size(),
                r == self.config.rr,
                max_bound == self.size() - 1,
                max_bound < usize::MAX,
                x_min == if r > x { 0 } else { x - r },
                y_min == if r > y { 0 } else { y - r },
                x_max == if r > max_bound - x { max_bound as int } else { x + r },
                y_max == if r > max_bound - y { max_bound as int } else { y + r },
                x_min <= x_i <= x_max + 1,
                neighbourhood@ == w.in_rows(grid, x_i as int),
            decreases x_max + 1 - x_i,
        {
            let mut y_i: usize = y_min;
            proof {
                lemma_in_row_outside(w, grid[x_i as int], x_i as int, 0, y_min as int);
            }
            while y_i <= y_max
                invariant
                    self.square(),
                    w == self.window(topology, x as int, y as int),
                    grid == self.grid(),
                    x < self.size(),
                    y < self.size(),
                    r == self.config.rr,
                    max_bound == self.size() - 1,
                    max_bound < usize::MAX,
                max_bound < usize::MAX,
                    x_min == if r > x { 0 } else { x - r },
                    y_min == if r > y { 0 } else { y - r },
                    x_max == if r > max_bound - x { max_bound as int } else { x + r },
                    y_max == if r > max_bound - y { max_bound as int } else { y + r },
                    x_min <= x_i <= x_max,
                    y_min <= y_i <= y_max + 1,
                    neighbourhood@ == w.in_rows(grid, x_i as int) + w.in_row(
                        grid[x_i as int],
                        x_i as int,
                        y_i as int,
                    ),
                decreases y_max + 1 - y_i,
            {
                if let Some(s) = self.pick(topology, x, y, x_i, y_i) {
                    neighbourhood.push(s);
                }
                y_i += 1;
            }
            proof {
                lemma_in_row_outside(
                    w,
                    grid[x_i as int],
                    x_i as int,
                    y_i as int,
                    grid[x_i as int].len() as int,
                );
            }
            x_i += 1;
        }
        proof {
            lemma_in_rows_outside(w, grid, x_i as int, grid.len() as int);
        }
        neighbourhood
    }

    /// The states of the cells in the `Neumann` window of the cell at
    /// `(x, y)`.
    pub fn get_neighbourhood_neumann(&self, x: usize, y: usize) -> (states: Vec<u8>)
        requires
            self.square(),
            x < self.size(),
            y < self.size(),
        ensures
            states@ == self.window(Neighbourhood::Neumann, x as int, y as int).states(self.grid()),
    {
        self.get_neighbourhood(x, y, Neighbourhood::Neumann)
    }

    /// The states of the cells in the `Moore` window of the cell at `(x, y)`.
    pub fn get_neighbourhood_moore(&self, x: usize, y: usize) -> (states: Vec<u8>)
        requires
            self.square(),
            x < self.size(),
            y < self.size(),
        ensures
            states@ == self.window(Neighbourhood::Moore, x as int, y as int).states(self.grid()),
    {
        self.get_neighbourhood(x, y, Neighbourhood::Moore)
    }

    /// The number of live cells in the window that the rule gives the cell at
    /// `(x, y)`.
    pub fn get_neighbourhood_count(&self, x: usize, y: usize) -> (count: usize)
        requires
            self.square(),
            x < self.size(),
            y < self.size(),
        ensures
            count == neighbour_count(self.grid(), self.config, x as int, y as int),
    {
        let neighbourhood = match self.config.nn {
            Neighbourhood::Neumann => self.get_neighbourhood_neumann(x, y),
            Neighbourhood::Moore => self.get_neighbourhood_moore(x, y),
        };
        let mut count: usize = 0;
        let mut k: usize = 0;
        proof {
            lemma_alive_push(Seq::empty(), 0);
        }
        while k < neighbourhood.len()
            invariant
                k <= neighbourhood.len(),
                count <= k,
                count == alive(neighbourhood@.take(k as int)),
            decreases neighbourhood.len() - k,
        {
            proof {
                lemma_alive_push(neighbourhood@.take(k as int), neighbourhood@[k as int]);
                assert(neighbourhood@.take(k + 1) =~= neighbourhood@.take(k as int).push(
                    neighbourhood@[k as int],
                ));
            }
            if neighbourhood[k] > 0 {
                count += 1;
            }
            k += 1;
        }
        assert(neighbourhood@.take(neighbourhood.len() as int) =~= neighbourhood@);
        count
    }
}

impl Board {
    /// Whether a dead cell with `neighbourhood_count` live neighbours comes
    /// to life.
    #[inline]
    pub fn check_birth(&self, neighbourhood_count: usize) -> (born: bool)
        ensures
            born == (self.config.bb.0 <= neighbourhood_count <= self.config.bb.1),
    {
        self.config.bb.0 as usize <= neighbourhood_count && neighbourhood_count
            <= self.config.bb.1 as usize
    }

    /// Whether a live cell with `neighbourhood_count` live neighbours stays
    /// alive.
    #[inline]
    pub fn check_survival(&self, neighbourhood_count: usize) -> (survives: bool)
        ensures
            survives == (self.config.ss.0 <= neighbourhood_count <= self.config.ss.1),
    {
        self.config.ss.0 as usize <= neighbourhood_count && neighbourhood_count
            <= self.config.ss.1 as usize
    }

    /// The state of the cell at `(x, y)` in the next generation.
    pub fn update_cell(&self, x: usize, y: usize) -> (next: Cell)
        requires
            self.wf(),
            x < self.size(),
            y < self.size(),
        ensures
            next == next_cell(self.grid(), self.config, x as int, y as int),
            next < self.config.spec_states(),
    {
        let neighbourhood_count = self.get_neighbourhood_count(x, y);
        assert(self.grid()[x as int].len() == self.size());
        let state = self.cells[x][y];
        if state == 0 {
            if self.check_birth(neighbourhood_count) {
                1
            } else {
                0
            }
        } else if state == 1 {
            if self.check_survival(neighbourhood_count) {
                1
            } else if self.config.cc > 2 {
                2
            } else {
                0
            }
        } else {
            (state + 1) % self.config.cc
        }
    }

    /// The rows of the next generation that a range of rows turns into.
    /// Only the grid as it is is read, so ranges can be worked on side by
    /// side.
    pub fn update_rows(&self, chunk: &Range<usize>) -> (rows: Cells)
        requires
            self.wf(),
            chunk.start <= chunk.end <= self.size(),
        ensures
            rows_of(rows) == next_grid(self.grid(), self.config).subrange(
                chunk.start as int,
                chunk.end as int,
            ),
    {
        let size = self.cells.len();
        let ghost next = next_grid(self.grid(), self.config);
        let mut rows: Cells = Vec::new();
        let mut x: usize = chunk.start;
        while x < chunk.end
            invariant
                self.wf(),
                size == self.size(),
                next == next_grid(self.grid(), self.config),
                chunk.start <= x <= chunk.end <= size,
                rows.len() == x - chunk.start,
                forall|i: int|
                    0 <= i < rows.len() ==> (#[trigger] rows@[i])@ == next[chunk.start + i],
            decreases chunk.end - x,
        {
            let mut row: Vec<Cell> = Vec::new();
            let mut y: usize = 0;
            while y < size
                invariant
                    self.wf(),
                    size == self.size(),
                    x < size,
                    y <= size,
                    row.len() == y,
                    forall|j: int|
                        0 <= j < y ==> (#[trigger] row@[j]) == next_cell(
                            self.grid(),
                            self.config,
                            x as int,
                            j,
                        ),
                decreases size - y,
            {
                row.push(self.update_cell(x, y));
                y += 1;
            }
            rows.push(row);
            x += 1;
        }
        rows
    }

    /// Splits the rows among `workers`: every range but the last holds the
    /// rows divided by the workers, rounded up, and the last holds what is
    /// left.  No range is empty unless the board is.
    pub fn get_chunks(&self, workers: usize) -> (chunks: Vec<Range<usize>>)
        requires
            workers > 0,
        ensures
            is_partition(chunks@, self.size() as int),
            forall|k: int|
                0 <= k < chunks.len() - 1 ==> (#[trigger] chunks@[k]).end - chunks@[k].start
                    == chunk_size(self.size() as int, workers as int),
            self.size() - chunks@.last().start <= chunk_size(self.size() as int, workers as int),
            self.size() > 0 ==> chunks@.last().start < self.size(),
            self.size() == 0 ==> chunks.len() == 1,
            chunks.len() <= workers,
    {
        let board_length = self.cells.len();
        let ghost whole = board_length as int / workers as int;
        let ghost rest = board_length as int % workers as int;
        proof {
            lemma_fundamental_div_mod(board_length as int, workers as int);
            assert(rest != 0 ==> whole < board_length) by (nonlinear_arith)
                requires
                    board_length == workers * whole + rest,
                    0 <= rest < workers,
                    0 <= whole,
            ;
        }
        let size = if board_length % workers == 0 {
            board_length / workers
        } else {
            board_length / workers + 1
        };
        proof {
            assert(board_length <= workers * size && (size == 0 ==> board_length == 0)) by (
                nonlinear_arith)
                requires
                    board_length == workers * whole + rest,
                    0 <= rest < workers,
                    size == whole + 1 || (rest == 0 && size == whole),
            ;
        }
        let mut chunks: Vec<Range<usize>> = Vec::new();
        let mut start: usize = 0;
        assert(start == chunks.len() * size) by (nonlinear_arith)
            requires
                start == 0,
                chunks.len() == 0,
        ;
        while board_length - start > size
            invariant
                start <= board_length,
                board_length == self.size(),
                workers > 0,
                size == chunk_size(board_length as int, workers as int),
                board_length <= workers * size,
                size == 0 ==> board_length == 0,
                start == chunks.len() * size,
                chunks.len() == 0 ==> start == 0,
                chunks.len() > 0 ==> start < board_length,
                chunks.len() > 0 ==> chunks@[0].start == 0,
                chunks.len() > 0 ==> chunks@.last().end == start,
                forall|k: int|
                    0 <= k < chunks.len() ==> (#[trigger] chunks@[k]).end - chunks@[k].start
                        == size,
                forall|k: int|
                    0 <= k < chunks.len() - 1 ==> (#[trigger] chunks@[k]).end == chunks@[k
                        + 1].start,
            decreases board_length - start,
        {
            let end = start + size;
            assert((chunks.len() + 1) * size == end) by (nonlinear_arith)
                requires
                    start == chunks.len() * size,
                    end == start + size,
            ;
            chunks.push(start..end);
            start = end;
        }
        proof {
            if chunks.len() > 0 {
                assert(chunks.len() < workers) by (nonlinear_arith)
                    requires
                        chunks.len() * size < board_length,
                        board_length <= workers * size,
                ;
            }
        }
        chunks.push(start..board_length);
        chunks
    }

    /// The next generation, worked out range by range for `workers` workers
    /// and put together.  Whatever the number of workers, it is the same
    /// grid.
    pub fn _update(&self, workers: usize) -> (cells: Cells)
        requires
            self.wf(),
            workers > 0,
        ensures
            rows_of(cells) == next_grid(self.grid(), self.config),
    {
        let chunks = self.get_chunks(workers);
        let ghost next = next_grid(self.grid(), self.config);
        let mut results: Vec<Cells> = Vec::new();
        let mut k: usize = 0;
        while k < chunks.len()
            invariant
                self.wf(),
                k <= chunks.len(),
                results.len() == k,
                is_partition(chunks@, self.size() as int),
                next == next_grid(self.grid(), self.config),
                forall|m: int|
                    0 <= m < k ==> rows_of(#[trigger] results@[m]) == next.subrange(
                        chunks@[m].start as int,
                        chunks@[m].end as int,
                    ),
            decreases chunks.len() - k,
        {
            proof {
                lemma_chunk_ends(chunks@, self.size() as int, k as int);
            }
            let rows = self.update_rows(&chunks[k]);
            results.push(rows);
            k += 1;
        }
        let cells = join_rows(results);
        proof {
            assert(parts_of(results) =~= split(next, chunks@));
            lemma_split_joins(next, chunks@);
        }
        cells
    }

    /// Moves the board on by one generation.  The whole grid is renewed at
    /// once: every cell follows from the grid as it was.
    pub fn update(&mut self)
        requires
            old(self).wf(),
        ensures
            final(self).config == old(self).config,
            final(self).grid() == next_grid(old(self).grid(), old(self).config),
            final(self).wf(),
    {
        self.cells = self._update(1);
        proof {
        }
    }
}

/// The rows of a grid as sequences of states.
pub open spec fn rows_of(cells: Cells) -> Seq<Seq<u8>> {
    Seq::new(cells@.len(), |i: int| cells@[i]@)
}

/// The rows of several grids, grid by grid.
pub open spec fn parts_of(parts: Vec<Cells>) -> Seq<Seq<Seq<u8>>> {
    Seq::new(parts@.len(), |k: int| rows_of(parts@[k]))
}

/// Puts grids together, one below the other, in their order.
pub fn join_rows(parts: Vec<Cells>) -> (cells: Cells)
    ensures
        rows_of(cells) == parts_of(parts).flatten(),
{
    let mut parts = parts;
    let ghost given = parts_of(parts);
    let mut cells: Cells = Vec::new();
    let mut k: usize = 0;
    assert(given.take(0).flatten() =~= rows_of(cells));
    while k < parts.len()
        invariant
            k <= parts.len(),
            parts.len() == given.len(),
            forall|m: int| k <= m < parts.len() ==> rows_of(#[trigger] parts@[m]) == given[m],
            rows_of(cells) == given.take(k as int).flatten(),
        decreases parts.len() - k,
    {
        let part: &mut Cells = &mut parts[k];
        cells.append(part);
        proof {
            given.take(k as int).lemma_flatten_push(given[k as int]);
            assert(given.take(k + 1) =~= given.take(k as int).push(given[k as int]));
        }
        k += 1;
    }
    assert(given.take(given.len() as int) =~= given);
    cells
}

/// Two boards of one size and one rule that were filled from the same seed
/// hold the same grid.
pub proof fn lemma_same_seed_same_grid(a: Board, b: Board, seed: u64)
    requires
        a.square(),
        b.square(),
        a.size() == b.size(),
        a.config == b.config,
        a.filled_from(seed),
        b.filled_from(seed),
    ensures
        a.grid() == b.grid(),
{
    // cell by cell, both grids hold the same draw of the same run
    assert forall|x: int| 0 <= x < a.grid().len() implies a.grid()[x] =~= b.grid()[x] by {
        assert(a.grid()[x].len() == a.grid().len());
        assert(b.grid()[x].len() == b.grid().len());
    }
    assert(a.grid() =~= b.grid());
}

} // verus!
