//! The rule of evolution, stated over the mathematical model of a board: a
//! sequence of rows, each a sequence of cell states.

use crate::config::Config;
use crate::generator::draw_at;
use crate::neighbourhood::Neighbourhood;
use std::ops::Range;
use vstd::arithmetic::div_mod::{lemma_add_mod_noop, lemma_mod_self_0, lemma_small_mod};
use vstd::prelude::*;

verus! {

/// The window of one cell: which cells count as its neighbours.
pub struct Window {
    /// The topology of the window.
    pub topology: Neighbourhood,
    /// The half-width of the window.
    pub radius: int,
    /// Whether the centre belongs to the window.
    pub centre: bool,
    /// The row of the centre.
    pub x: int,
    /// The column of the centre.
    pub y: int,
}

impl Window {
    /// The window that a rule gives the cell at `(x, y)`, under a topology.
    pub open spec fn of(config: Config, topology: Neighbourhood, x: int, y: int) -> Window {
        Window { topology, radius: config.rr as int, centre: config.mm != 0, x, y }
    }

    /// Whether the position `(i, j)` belongs to the window: it lies in the
    /// square of half-width `radius` around the centre; it is not the centre
    /// unless the centre is included; and under `Neumann` its Manhattan
    /// distance to the centre is at most `radius`.
    pub open spec fn holds(self, i: int, j: int) -> bool {
        &&& self.x - self.radius <= i <= self.x + self.radius
        &&& self.y - self.radius <= j <= self.y + self.radius
        &&& (self.centre || i != self.x || j != self.y)
        &&& (self.topology is Neumann ==> distance(i, self.x) + distance(j, self.y)
            <= self.radius)
    }

    /// The states of the first `upto` cells of row `i` that belong to the
    /// window, from left to right.
    pub open spec fn in_row(self, row: Seq<u8>, i: int, upto: int) -> Seq<u8>
        decreases upto,
    {
        if upto <= 0 {
            Seq::empty()
        } else {
            let before = self.in_row(row, i, upto - 1);
            if self.holds(i, upto - 1) {
                before.push(row[upto - 1])
            } else {
                before
            }
        }
    }

    /// The states of the cells of the first `upto` rows that belong to the
    /// window, row by row.
    pub open spec fn in_rows(self, grid: Seq<Seq<u8>>, upto: int) -> Seq<u8>
        decreases upto,
    {
        if upto <= 0 {
            Seq::empty()
        } else {
            self.in_rows(grid, upto - 1) + self.in_row(
                grid[upto - 1],
                upto - 1,
                grid[upto - 1].len() as int,
            )
        }
    }

    /// The states of all cells of the grid that belong to the window, row by
    /// row and from left to right.  A position outside the grid is no cell:
    /// the window is clipped, it does not wrap around.
    pub open spec fn states(self, grid: Seq<Seq<u8>>) -> Seq<u8> {
        self.in_rows(grid, grid.len() as int)
    }
}

/// The distance between two coordinates.
pub open spec fn distance(a: int, b: int) -> int {
    if a <= b {
        b - a
    } else {
        a - b
    }
}

/// Whether a grid has as many columns in every row as it has rows.
pub open spec fn is_square(grid: Seq<Seq<u8>>) -> bool {
    forall|i: int| 0 <= i < grid.len() ==> (#[trigger] grid[i]).len() == grid.len()
}

/// Whether two grids have as many rows, and row by row as many columns.
pub open spec fn same_shape(a: Seq<Seq<u8>>, b: Seq<Seq<u8>>) -> bool {
    &&& a.len() == b.len()
    &&& forall|i: int| 0 <= i < a.len() ==> (#[trigger] a[i]).len() == b[i].len()
}

/// Whether every cell of a grid holds a state below `states`.
pub open spec fn is_below(grid: Seq<Seq<u8>>, states: int) -> bool {
    forall|i: int, j: int|
        0 <= i < grid.len() && 0 <= j < grid[i].len() ==> (#[trigger] grid[i][j]) < states
}

/// The grid after the cell at `(x, y)` is set to `value`.
pub open spec fn set_at(grid: Seq<Seq<u8>>, x: int, y: int, value: u8) -> Seq<Seq<u8>> {
    grid.update(x, grid[x].update(y, value))
}

/// Setting a cell changes that cell and no other: the cell then holds the
/// value, and every other cell holds what it held.
pub proof fn lemma_set_then_get(grid: Seq<Seq<u8>>, x: int, y: int, value: u8)
    requires
        0 <= x < grid.len(),
        0 <= y < grid[x].len(),
    ensures
        set_at(grid, x, y, value)[x][y] == value,
        set_at(grid, x, y, value).len() == grid.len(),
        forall|i: int|
            0 <= i < grid.len() ==> (#[trigger] set_at(grid, x, y, value)[i]).len()
                == grid[i].len(),
        forall|i: int, j: int|
            0 <= i < grid.len() && 0 <= j < grid[i].len() && (i != x || j != y) ==> (
            #[trigger] set_at(grid, x, y, value)[i][j]) == grid[i][j],
{
}

/// The state after `state` on the way up: one more, and past the last state
/// back to zero.
pub open spec fn raised(state: u8, states: u8) -> u8 {
    ((state + 1) % (states as int)) as u8
}

/// The state after `state` on the way down: one less, but zero stays zero.
/// (A state that is no state of the rule is taken modulo the number of
/// states after the step.)
pub open spec fn lowered(state: u8, states: u8) -> u8 {
    if state == 0 {
        0
    } else {
        ((state - 1) % (states as int)) as u8
    }
}

/// The state that `times` steps up lead to from `state`.
pub open spec fn raised_times(state: u8, states: u8, times: nat) -> u8
    decreases times,
{
    if times == 0 {
        state
    } else {
        raised(raised_times(state, states, (times - 1) as nat), states)
    }
}

/// Steps up add up: `times` steps from a state of the rule lead to the state
/// `times` further on, counted modulo the number of states.
pub proof fn lemma_raise_adds(state: u8, states: u8, times: nat)
    requires
        states >= 2,
        state < states,
    ensures
        raised_times(state, states, times) == (state + times) % (states as int),
    decreases times,
{
    if times == 0 {
        lemma_small_mod(state as nat, states as nat);
    } else {
        lemma_raise_adds(state, states, (times - 1) as nat);
        lemma_add_mod_noop(state + times - 1, 1, states as int);
        lemma_small_mod(1, states as nat);
    }
}

/// Steps up go round in a cycle: from zero they pass through every state of
/// the rule in turn, and as many steps as there are states lead back to
/// zero.
pub proof fn lemma_raise_cycles(states: u8, times: nat)
    requires
        states >= 2,
    ensures
        times < states ==> raised_times(0, states, times) == times,
        raised_times(0, states, states as nat) == 0,
{
    lemma_raise_adds(0, states, times);
    lemma_raise_adds(0, states, states as nat);
    if times < states {
        lemma_small_mod(times, states as nat);
    }
    lemma_mod_self_0(states as int);
}

/// A step down leaves zero where it is, and takes every other state of the
/// rule to the state before it: steps down never wrap around.
pub proof fn lemma_lower_stops(state: u8, states: u8)
    requires
        states >= 2,
        state < states,
    ensures
        lowered(state, states) == if state == 0 {
            0
        } else {
            state - 1
        },
{
    if state > 0 {
        lemma_small_mod((state - 1) as nat, states as nat);
    }
}

/// Whether every cell of a square grid holds the draw of its place, row by
/// row, in a run of draws from the states by a seeded generator that held
/// `words` before the first.
pub open spec fn is_seeded_fill(grid: Seq<Seq<u8>>, words: Seq<u64>, states: u8) -> bool {
    forall|x: int, y: int|
        0 <= x < grid.len() && 0 <= y < grid.len() ==> (#[trigger] grid[x][y]) == draw_at(
            words,
            (states - 1) as u8,
            (x * grid.len() + y) as nat,
        )
}

/// The number of states in a sequence that are not zero: every state but
/// zero counts as alive.
pub open spec fn alive(states: Seq<u8>) -> nat {
    states.filter(|s: u8| s != 0).len()
}

/// Counting one more state: it adds one where it is not zero.
pub proof fn lemma_alive_push(states: Seq<u8>, state: u8)
    ensures
        alive(states.push(state)) == alive(states) + if state != 0 {
            1nat
        } else {
            0nat
        },
        alive(Seq::<u8>::empty()) == 0,
{
    reveal(Seq::filter);
    assert(states.push(state).drop_last() =~= states);
}

/// Columns that lie outside the window add nothing to a row.
pub proof fn lemma_in_row_outside(w: Window, row: Seq<u8>, i: int, from: int, upto: int)
    requires
        from <= upto,
        forall|j: int| from <= j < upto ==> !w.holds(i, j),
    ensures
        w.in_row(row, i, upto) == w.in_row(row, i, from),
    decreases upto - from,
{
    if from < upto {
        lemma_in_row_outside(w, row, i, from, upto - 1);
    }
}

/// Rows that lie outside the window add nothing to the scan.
pub proof fn lemma_in_rows_outside(w: Window, grid: Seq<Seq<u8>>, from: int, upto: int)
    requires
        0 <= from <= upto,
        forall|i: int, j: int| from <= i < upto ==> !w.holds(i, j),
    ensures
        w.in_rows(grid, upto) == w.in_rows(grid, from),
    decreases upto - from,
{
    if from < upto {
        lemma_in_rows_outside(w, grid, from, upto - 1);
        lemma_in_row_outside(w, grid[upto - 1], upto - 1, 0, grid[upto - 1].len() as int);
    }
}

/// The number of live neighbours of the cell at `(x, y)`.
pub open spec fn neighbour_count(grid: Seq<Seq<u8>>, config: Config, x: int, y: int) -> nat {
    alive(Window::of(config, config.nn, x, y).states(grid))
}

/// The state that follows `state` under a rule, given the number of live
/// neighbours: a dead cell is born inside the birth range; a live cell stays
/// alive inside the survival range, else starts to decay (or dies at once
/// where the rule has only two states); a decaying cell moves on to the next
/// state whatever its neighbours, and past the last state back to zero.
pub open spec fn next_state(config: Config, state: u8, count: nat) -> u8 {
    if state == 0 {
        if config.bb.0 <= count <= config.bb.1 {
            1
        } else {
            0
        }
    } else if state == 1 {
        if config.ss.0 <= count <= config.ss.1 {
            1
        } else if config.spec_states() > 2 {
            2
        } else {
            0
        }
    } else {
        raised(state, config.spec_states())
    }
}

/// The state of the cell at `(x, y)` in the next generation.
pub open spec fn next_cell(grid: Seq<Seq<u8>>, config: Config, x: int, y: int) -> u8 {
    next_state(config, grid[x][y], neighbour_count(grid, config, x, y))
}

/// The next generation of a grid: every cell follows from the grid as it
/// was, none from a cell already renewed.
pub open spec fn next_grid(grid: Seq<Seq<u8>>, config: Config) -> Seq<Seq<u8>> {
    Seq::new(grid.len(), |x: int| Seq::new(grid[x].len(), |y: int| next_cell(grid, config, x, y)))
}

/// The number of rows that each worker but the last is given: the rows
/// divided by the workers, rounded up.
pub open spec fn chunk_size(rows: int, workers: int) -> int {
    if rows % workers == 0 {
        rows / workers
    } else {
        rows / workers + 1
    }
}

/// Whether ranges of rows split the rows `0..rows` among them: the first
/// starts at zero, each starts where the one before it ends, and the last
/// ends at `rows`.
pub open spec fn is_partition(chunks: Seq<Range<usize>>, rows: int) -> bool {
    &&& chunks.len() >= 1
    &&& chunks[0].start == 0
    &&& chunks.last().end == rows
    &&& forall|k: int| 0 <= k < chunks.len() ==> (#[trigger] chunks[k]).start <= chunks[k].end
    &&& forall|k: int|
        0 <= k < chunks.len() - 1 ==> (#[trigger] chunks[k]).end == chunks[k + 1].start
}

/// No part of a split ends past the last row.
pub proof fn lemma_chunk_ends(chunks: Seq<Range<usize>>, rows: int, k: int)
    requires
        is_partition(chunks, rows),
        0 <= k < chunks.len(),
    ensures
        chunks[k].end <= rows,
    decreases chunks.len() - k,
{
    if k < chunks.len() - 1 {
        lemma_chunk_ends(chunks, rows, k + 1);
    }
}

/// The rows that a split gives its parts, part by part.
pub open spec fn split(grid: Seq<Seq<u8>>, chunks: Seq<Range<usize>>) -> Seq<Seq<Seq<u8>>> {
    Seq::new(chunks.len(), |k: int| grid.subrange(chunks[k].start as int, chunks[k].end as int))
}

/// The parts of a split, put together in their order, are the grid again:
/// how many parts there are does not matter.
pub proof fn lemma_split_joins(grid: Seq<Seq<u8>>, chunks: Seq<Range<usize>>)
    requires
        is_partition(chunks, grid.len() as int),
    ensures
        split(grid, chunks).flatten() == grid,
{
    lemma_split_prefix(grid, chunks, chunks.len() as int);
    assert(split(grid, chunks).take(chunks.len() as int) =~= split(grid, chunks));
}

/// The first `n` parts of a split, put together, are the rows before the
/// end of the last of them.
proof fn lemma_split_prefix(grid: Seq<Seq<u8>>, chunks: Seq<Range<usize>>, n: int)
    requires
        is_partition(chunks, grid.len() as int),
        1 <= n <= chunks.len(),
    ensures
        chunks[n - 1].end <= grid.len(),
        split(grid, chunks).take(n).flatten() == grid.subrange(0, chunks[n - 1].end as int),
    decreases n,
{
    let parts = split(grid, chunks);
    lemma_chunk_ends(chunks, grid.len() as int, n - 1);
    if n == 1 {
        assert(parts.take(1) =~= Seq::<Seq<Seq<u8>>>::empty().push(parts[0]));
        Seq::<Seq<Seq<u8>>>::empty().lemma_flatten_push(parts[0]);
    } else {
        lemma_split_prefix(grid, chunks, n - 1);
        assert(parts.take(n) =~= parts.take(n - 1).push(parts[n - 1]));
        parts.take(n - 1).lemma_flatten_push(parts[n - 1]);
    }
}

} // verus!
