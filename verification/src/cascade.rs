//! How explosions spread across the grid, as a mathematical object.
//!
//! A cascade is a queue of cells waiting to explode, served first in, first
//! out. Exploding a cell empties it and gives each neighbour one unit of charge
//! and the exploding cell's owner; a neighbour that is then at capacity joins
//! the back of the queue. Nothing removes a cell from the queue but its own
//! explosion, so a cell charged again while it waits explodes once for each
//! time it was queued, the later times from whatever it holds by then.

use vstd::prelude::*;
use crate::cell::{Cell, CAPACITY};
use crate::grid::{adjacent, neighbors, playable};

verus! {

/// A cell waiting to explode. `wave` counts how many explosions led to this
/// one: 0 for a cell found at capacity when the cascade starts, and one more
/// than the wave of the explosion that brought the cell to capacity otherwise.
#[derive(Clone, Copy, Debug, PartialEq, Eq, Structural)]
pub struct Burst {
    pub row: usize,
    pub col: usize,
    pub wave: usize,
}

/// What a cascade did, for whoever draws it. The simulation never reads these.
#[derive(Clone, Copy, Debug, PartialEq, Eq, Structural)]
pub enum Effect {
    /// The cell at (`row`, `col`) exploded in wave `wave`.
    Explosion { row: usize, col: usize, wave: usize },
    /// The cell at (`row`, `col`) changed owner when the cell at
    /// (`from_row`, `from_col`) exploded in wave `wave`.
    Capture { row: usize, col: usize, from_row: usize, from_col: usize, wave: usize },
}

/// The grid after the cell at (`row`, `col`) has exploded: that cell is empty,
/// each cell sharing an edge with it is charged and handed to the owner the
/// exploding cell had, and every other cell is as before.
pub open spec fn exploded(grid: Seq<Seq<Cell>>, row: usize, col: usize) -> Seq<Seq<Cell>> {
    let owner = grid[row as int][col as int].owner;
    Seq::new(
        grid.len(),
        |r: int|
            Seq::new(
                grid[r].len(),
                |c: int|
                    if r == row && c == col {
                        Cell::empty()
                    } else if adjacent(r, c, row as int, col as int) {
                        grid[r][c].charged(owner)
                    } else {
                        grid[r][c]
                    },
            ),
    )
}

/// Those of the positions `around` that one more unit of charge brings to
/// capacity, in the order given, queued for wave `wave`.
pub open spec fn triggered(grid: Seq<Seq<Cell>>, around: Seq<(usize, usize)>, wave: usize) -> Seq<
    Burst,
>
    decreases around.len(),
{
    if around.len() == 0 {
        Seq::empty()
    } else {
        let earlier = triggered(grid, around.drop_last(), wave);
        let at = around.last();
        if grid[at.0 as int][at.1 as int].power + 1 >= CAPACITY {
            earlier.push(Burst { row: at.0, col: at.1, wave })
        } else {
            earlier
        }
    }
}

/// The captures that the explosion `from` makes among the positions `around`:
/// one for each whose owner is not the exploding cell's, in the order given.
pub open spec fn captured(grid: Seq<Seq<Cell>>, around: Seq<(usize, usize)>, from: Burst) -> Seq<
    Effect,
>
    decreases around.len(),
{
    if around.len() == 0 {
        Seq::empty()
    } else {
        let earlier = captured(grid, around.drop_last(), from);
        let at = around.last();
        if grid[at.0 as int][at.1 as int].owner != grid[from.row as int][from.col as int].owner {
            earlier.push(
                Effect::Capture {
                    row: at.0,
                    col: at.1,
                    from_row: from.row,
                    from_col: from.col,
                    wave: from.wave,
                },
            )
        } else {
            earlier
        }
    }
}

/// The cells of one row that are at capacity among its first `cols` cells,
/// from left to right, queued for wave 0.
pub open spec fn critical_in_row(cells: Seq<Cell>, row: usize, cols: nat) -> Seq<Burst>
    decreases cols,
{
    if cols == 0 {
        Seq::empty()
    } else {
        let before = critical_in_row(cells, row, (cols - 1) as nat);
        if cells[cols - 1].critical() {
            before.push(Burst { row, col: (cols - 1) as usize, wave: 0 })
        } else {
            before
        }
    }
}

/// The cells at capacity in the first `rows` rows, row by row from the top and
/// from left to right within a row, queued for wave 0.
pub open spec fn critical_cells(grid: Seq<Seq<Cell>>, rows: nat) -> Seq<Burst>
    decreases rows,
{
    if rows == 0 {
        Seq::empty()
    } else {
        critical_cells(grid, (rows - 1) as nat) + critical_in_row(
            grid[rows - 1],
            (rows - 1) as usize,
            grid[rows - 1].len(),
        )
    }
}

/// A cascade at some moment: the grid, the cells waiting to explode, and the
/// effects recorded so far.
pub struct Cascade {
    pub grid: Seq<Seq<Cell>>,
    pub queue: Seq<Burst>,
    pub effects: Seq<Effect>,
}

impl Cascade {
    /// The cascade that starts on `grid`: every cell at capacity is queued.
    pub open spec fn ignite(grid: Seq<Seq<Cell>>, effects: Seq<Effect>) -> Cascade {
        Cascade { grid, queue: critical_cells(grid, grid.len()), effects }
    }

    /// The number of rows of the grid.
    pub open spec fn rows(self) -> usize {
        self.grid.len() as usize
    }

    /// The number of columns of the grid.
    pub open spec fn cols(self) -> usize {
        self.grid[0].len() as usize
    }

    /// The grid can be played on, and every queued cell lies on it.
    pub open spec fn wf(self) -> bool {
        &&& playable(self.grid)
        &&& forall|i: int|
            0 <= i < self.queue.len() ==> (#[trigger] self.queue[i]).row < self.grid.len()
                && self.queue[i].col < self.grid[0].len()
    }

    /// No queued cell has a wave beyond the number of effects recorded. Every
    /// cascade keeps this: an explosion records itself before it queues
    /// anything for the next wave.
    pub open spec fn paced(self) -> bool {
        forall|i: int|
            0 <= i < self.queue.len() ==> (#[trigger] self.queue[i]).wave <= self.effects.len()
    }

    /// The cell at the position `at`.
    pub open spec fn at(self, at: (usize, usize)) -> Cell {
        self.grid[at.0 as int][at.1 as int]
    }

    /// The cell at the front of the queue, as it is on the grid.
    pub open spec fn front(self) -> Cell {
        self.grid[self.queue[0].row as int][self.queue[0].col as int]
    }

    /// The neighbours of the cell at the front of the queue.
    pub open spec fn around(self) -> Seq<(usize, usize)> {
        neighbors(self.rows(), self.cols(), self.queue[0].row, self.queue[0].col)
    }

    /// A cell is waiting, and each of its neighbours can take one more unit of
    /// charge without leaving the range of a cell's power.
    pub open spec fn can_explode(self) -> bool {
        &&& self.queue.len() > 0
        &&& forall|i: int|
            0 <= i < self.around().len() ==> self.at(#[trigger] self.around()[i]).power < u8::MAX
    }

    /// The cascade after the cell at the front of the queue has exploded.
    pub open spec fn step(self) -> Cascade {
        let front = self.queue[0];
        Cascade {
            grid: exploded(self.grid, front.row, front.col),
            queue: self.queue.drop_first() + triggered(
                self.grid,
                self.around(),
                (front.wave + 1) as usize,
            ),
            effects: self.effects.push(
                Effect::Explosion { row: front.row, col: front.col, wave: front.wave },
            ) + captured(self.grid, self.around(), front),
        }
    }

    /// The cascade after `n` explosions, or after as many as it takes to
    /// empty the queue if that is fewer.
    pub open spec fn run(self, n: nat) -> Cascade
        decreases n,
    {
        if n == 0 || self.queue.len() == 0 {
            self
        } else {
            self.step().run((n - 1) as nat)
        }
    }

    /// At most `n` explosions empty the queue, and none of them charges a
    /// cell beyond the range of its power.
    pub open spec fn settles_in(self, n: nat) -> bool
        decreases n,
    {
        self.queue.len() == 0 || (n > 0 && self.can_explode() && self.step().settles_in(
            (n - 1) as nat,
        ))
    }

    /// The cascade comes to rest.
    pub open spec fn settles(self) -> bool {
        exists|n: nat| self.settles_in(n)
    }

    /// The cascade at rest. This says something only of a cascade that settles.
    pub open spec fn settled(self) -> Cascade {
        self.run(choose|n: nat| self.settles_in(n))
    }

    /// No cell is at capacity without waiting in the queue.
    pub open spec fn covered(self) -> bool {
        forall|r: int, c: int|
            0 <= r < self.grid.len() && 0 <= c < self.grid[r].len() && (
            #[trigger] self.grid[r][c]).critical() ==> exists|i: int|
                0 <= i < self.queue.len() && (#[trigger] self.queue[i]).row == r
                    && self.queue[i].col == c
    }

    /// Every cell that explodes within the next `n` explosions has an owner
    /// when it does. A cell queued twice breaks this: its second explosion
    /// finds it empty.
    pub open spec fn loaded(self, n: nat) -> bool
        decreases n,
    {
        n == 0 || self.queue.len() == 0 || (self.front().owner is Some && self.step().loaded(
            (n - 1) as nat,
        ))
    }
}

/// Every cell that an explosion queues is one of the positions around it.
pub proof fn lemma_triggered_among(grid: Seq<Seq<Cell>>, around: Seq<(usize, usize)>, wave: usize)
    ensures
        triggered(grid, around, wave).len() <= around.len(),
        forall|i: int|
            0 <= i < triggered(grid, around, wave).len() ==> {
                let b = #[trigger] triggered(grid, around, wave)[i];
                &&& b.wave == wave
                &&& around.contains((b.row, b.col))
                &&& grid[b.row as int][b.col as int].power + 1 >= CAPACITY
            },
    decreases around.len(),
{
    if around.len() > 0 {
        let shorter = around.drop_last();
        lemma_triggered_among(grid, shorter, wave);
    }
}

/// An explosion queues every neighbour that it brings to capacity.
pub proof fn lemma_triggered_complete(
    grid: Seq<Seq<Cell>>,
    around: Seq<(usize, usize)>,
    wave: usize,
    at: int,
)
    requires
        0 <= at < around.len(),
        grid[around[at].0 as int][around[at].1 as int].power + 1 >= CAPACITY,
    ensures
        exists|k: int|
            0 <= k < triggered(grid, around, wave).len() && (#[trigger] triggered(
                grid,
                around,
                wave,
            )[k]) == (Burst { row: around[at].0, col: around[at].1, wave }),
    decreases around.len(),
{
    let all = triggered(grid, around, wave);
    let earlier = triggered(grid, around.drop_last(), wave);
    if at == around.len() - 1 {
        assert(all[all.len() - 1] == (Burst { row: around[at].0, col: around[at].1, wave }));
    } else {
        lemma_triggered_complete(grid, around.drop_last(), wave, at);
        let k = choose|k: int|
            0 <= k < earlier.len() && (#[trigger] earlier[k]) == (Burst {
                row: around[at].0,
                col: around[at].1,
                wave,
            });
        assert(all[k] == earlier[k]);
    }
}

/// An explosion keeps the shape of the grid, and queues only cells on it.
pub proof fn lemma_step_wf(c: Cascade)
    requires
        c.wf(),
        c.queue.len() > 0,
    ensures
        c.step().wf(),
        c.step().grid.len() == c.grid.len(),
        c.step().grid[0].len() == c.grid[0].len(),
{
    let front = c.queue[0];
    let wave = (front.wave + 1) as usize;
    lemma_triggered_among(c.grid, c.around(), wave);
}

/// The cells that a scan of the first `cols` cells of a row queues are the
/// cells at capacity there.
pub proof fn lemma_critical_in_row(cells: Seq<Cell>, row: usize, cols: nat)
    requires
        cols <= cells.len() <= usize::MAX,
    ensures
        forall|i: int|
            0 <= i < critical_in_row(cells, row, cols).len() ==> {
                let b = #[trigger] critical_in_row(cells, row, cols)[i];
                &&& b.row == row
                &&& b.col < cols
                &&& b.wave == 0
                &&& cells[b.col as int].critical()
            },
        forall|c: int|
            0 <= c < cols && (#[trigger] cells[c]).critical() ==> exists|i: int|
                0 <= i < critical_in_row(cells, row, cols).len() && (#[trigger] critical_in_row(
                    cells,
                    row,
                    cols,
                )[i]).col == c,
    decreases cols,
{
    if cols > 0 {
        let before = critical_in_row(cells, row, (cols - 1) as nat);
        let all = critical_in_row(cells, row, cols);
        lemma_critical_in_row(cells, row, (cols - 1) as nat);
        assert forall|c: int| 0 <= c < cols && (#[trigger] cells[c]).critical() implies exists|
            i: int,
        |
            0 <= i < all.len() && (#[trigger] all[i]).col == c by {
            if c < cols - 1 {
                let i = choose|i: int| 0 <= i < before.len() && (#[trigger] before[i]).col == c;
                assert(all[i] == before[i]);
            } else {
                assert(all[all.len() - 1].col == c);
            }
        }
    }
}

/// The cells that a scan of the first `rows` rows queues are the cells at
/// capacity there: each is on the board, at capacity and in wave 0, and no
/// cell at capacity is missing.
pub proof fn lemma_critical_cells(grid: Seq<Seq<Cell>>, rows: nat)
    requires
        rows <= grid.len() <= usize::MAX,
        forall|r: int| 0 <= r < grid.len() ==> (#[trigger] grid[r]).len() <= usize::MAX,
    ensures
        forall|i: int|
            0 <= i < critical_cells(grid, rows).len() ==> {
                let b = #[trigger] critical_cells(grid, rows)[i];
                &&& b.row < rows
                &&& b.col < grid[b.row as int].len()
                &&& b.wave == 0
                &&& grid[b.row as int][b.col as int].critical()
            },
        forall|r: int, c: int|
            0 <= r < rows && 0 <= c < grid[r].len() && (#[trigger] grid[r][c]).critical()
                ==> exists|i: int|
                0 <= i < critical_cells(grid, rows).len() && (#[trigger] critical_cells(
                    grid,
                    rows,
                )[i]).row == r && critical_cells(grid, rows)[i].col == c,
    decreases rows,
{
    if rows > 0 {
        let above = critical_cells(grid, (rows - 1) as nat);
        let last = critical_in_row(grid[rows - 1], (rows - 1) as usize, grid[rows - 1].len());
        let all = critical_cells(grid, rows);
        lemma_critical_cells(grid, (rows - 1) as nat);
        lemma_critical_in_row(grid[rows - 1], (rows - 1) as usize, grid[rows - 1].len());
        assert forall|r: int, c: int|
            0 <= r < rows && 0 <= c < grid[r].len() && (
            #[trigger] grid[r][c]).critical() implies exists|i: int|
            0 <= i < all.len() && (#[trigger] all[i]).row == r && all[i].col == c by {
            if r < rows - 1 {
                let i = choose|i: int|
                    0 <= i < above.len() && (#[trigger] above[i]).row == r && above[i].col == c;
                assert(all[i] == above[i]);
            } else {
                let i = choose|i: int|
                    0 <= i < last.len() && (#[trigger] last[i]).col == c;
                assert(all[above.len() + i] == last[i]);
            }
        }
    }
}

/// A scan of a row queues its cells from left to right, each once.
pub proof fn lemma_critical_in_row_ordered(cells: Seq<Cell>, row: usize, cols: nat)
    requires
        cols <= cells.len() <= usize::MAX,
    ensures
        forall|i: int, j: int|
            0 <= i < j < critical_in_row(cells, row, cols).len() ==> (#[trigger] critical_in_row(
                cells,
                row,
                cols,
            )[i]).col < (#[trigger] critical_in_row(cells, row, cols)[j]).col,
    decreases cols,
{
    if cols > 0 {
        let before = critical_in_row(cells, row, (cols - 1) as nat);
        lemma_critical_in_row_ordered(cells, row, (cols - 1) as nat);
        lemma_critical_in_row(cells, row, (cols - 1) as nat);
    }
}

/// A scan of the board queues its cells from the top row down and from left
/// to right within a row, each once.
pub proof fn lemma_critical_cells_ordered(grid: Seq<Seq<Cell>>, rows: nat)
    requires
        rows <= grid.len() <= usize::MAX,
        forall|r: int| 0 <= r < grid.len() ==> (#[trigger] grid[r]).len() <= usize::MAX,
    ensures
        forall|i: int, j: int|
            0 <= i < j < critical_cells(grid, rows).len() ==> {
                let a = #[trigger] critical_cells(grid, rows)[i];
                let b = #[trigger] critical_cells(grid, rows)[j];
                a.row < b.row || (a.row == b.row && a.col < b.col)
            },
    decreases rows,
{
    if rows > 0 {
        let above = critical_cells(grid, (rows - 1) as nat);
        lemma_critical_cells_ordered(grid, (rows - 1) as nat);
        lemma_critical_cells(grid, (rows - 1) as nat);
        lemma_critical_in_row(grid[rows - 1], (rows - 1) as usize, grid[rows - 1].len());
        lemma_critical_in_row_ordered(grid[rows - 1], (rows - 1) as usize, grid[rows - 1].len());
    }
}

/// The cascade that starts on a playable grid is well formed and paced, and
/// queues every cell at capacity.
pub proof fn lemma_ignite(grid: Seq<Seq<Cell>>, effects: Seq<Effect>)
    requires
        playable(grid),
    ensures
        Cascade::ignite(grid, effects).wf(),
        Cascade::ignite(grid, effects).paced(),
        Cascade::ignite(grid, effects).covered(),
{
    lemma_critical_cells(grid, grid.len());
    let start = Cascade::ignite(grid, effects);
    assert forall|i: int| 0 <= i < start.queue.len() implies (#[trigger] start.queue[i]).row
        < start.grid.len() && start.queue[i].col < start.grid[0].len() by {}
}

/// Running a cascade for as many explosions as it takes to settle empties
/// the queue and keeps the shape of the grid.
pub proof fn lemma_run(c: Cascade, n: nat)
    requires
        c.wf(),
        c.settles_in(n),
    ensures
        c.run(n).wf(),
        c.run(n).queue.len() == 0,
        c.run(n).grid.len() == c.grid.len(),
        c.run(n).grid[0].len() == c.grid[0].len(),
    decreases n,
{
    if c.queue.len() > 0 {
        lemma_step_wf(c);
        lemma_run(c.step(), (n - 1) as nat);
    }
}

/// A cascade that settles ends with an empty queue on a grid of the same
/// shape.
pub proof fn lemma_settled(c: Cascade)
    requires
        c.wf(),
        c.settles(),
    ensures
        c.settled().wf(),
        c.settled().queue.len() == 0,
        c.settled().grid.len() == c.grid.len(),
        c.settled().grid[0].len() == c.grid[0].len(),
{
    let n = choose|n: nat| c.settles_in(n);
    lemma_run(c, n);
}

/// When a chain reaction comes to rest does not depend on how long one is
/// prepared to wait: every bound that is long enough leads to the same end.
pub proof fn lemma_run_agrees(c: Cascade, n: nat, m: nat)
    requires
        c.settles_in(n),
        c.settles_in(m),
    ensures
        c.run(n) == c.run(m),
    decreases n,
{
    if c.queue.len() > 0 {
        lemma_run_agrees(c.step(), (n - 1) as nat, (m - 1) as nat);
    }
}

/// A chain reaction that settles within `n` explosions ends as `run(n)` says.
pub proof fn lemma_settled_is_run(c: Cascade, n: nat)
    requires
        c.settles_in(n),
    ensures
        c.settles(),
        c.settled() == c.run(n),
{
    lemma_run_agrees(c, choose|k: nat| c.settles_in(k), n);
}

/// What has been recorded does not steer a cascade: two cascades with the
/// same grid and queue settle alike and go through the same grids.
pub proof fn lemma_effects_apart(a: Cascade, b: Cascade, n: nat)
    requires
        a.grid == b.grid,
        a.queue == b.queue,
    ensures
        a.settles_in(n) == b.settles_in(n),
        a.run(n).grid == b.run(n).grid,
        a.run(n).queue == b.run(n).queue,
    decreases n,
{
    if n > 0 && a.queue.len() > 0 {
        lemma_effects_apart(a.step(), b.step(), (n - 1) as nat);
    }
}

} // verus!
