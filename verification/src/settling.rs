//! What holds of every chain reaction: where it comes to rest, what it leaves
//! behind, and in which order it goes.

use vstd::prelude::*;
use crate::cascade::{
    exploded,
    lemma_critical_cells,
    lemma_critical_cells_ordered,
    lemma_ignite,
    lemma_settled_is_run,
    lemma_step_wf,
    lemma_triggered_among,
    lemma_triggered_complete,
    triggered,
    Burst,
    Cascade,
    Effect,
};
use crate::cell::{Cell, CAPACITY};
use crate::grid::{
    adjacent,
    at_rest,
    lemma_neighbors,
    owned_cells_charged,
    playable,
    tidy,
};

verus! {

/// If every cell at capacity is queued before an explosion, every cell at
/// capacity is queued after it.
pub proof fn lemma_step_covered(c: Cascade)
    requires
        c.wf(),
        c.covered(),
        c.can_explode(),
    ensures
        c.step().covered(),
{
    let front = c.queue[0];
    let next = c.step();
    let around = c.around();
    let wave = (front.wave + 1) as usize;
    let fresh = triggered(c.grid, around, wave);
    lemma_neighbors(c.rows(), c.cols(), front.row, front.col);
    assert forall|row: int, col: int|
        0 <= row < next.grid.len() && 0 <= col < next.grid[row].len() && (
        #[trigger] next.grid[row][col]).critical() implies exists|i: int|
        0 <= i < next.queue.len() && (#[trigger] next.queue[i]).row == row && next.queue[i].col
            == col by {
        if row == front.row && col == front.col {
            // the cell that exploded is empty
        } else if adjacent(row, col, front.row as int, front.col as int) {
            let at = choose|at: int|
                0 <= at < around.len() && around[at] == (row as usize, col as usize);
            lemma_triggered_complete(c.grid, around, wave, at);
            let k = choose|k: int|
                0 <= k < fresh.len() && (#[trigger] fresh[k]) == (Burst {
                    row: around[at].0,
                    col: around[at].1,
                    wave,
                });
            assert(next.queue[c.queue.len() - 1 + k] == fresh[k]);
        } else {
            let i = choose|i: int|
                0 <= i < c.queue.len() && (#[trigger] c.queue[i]).row == row && c.queue[i].col
                    == col;
            assert(next.queue[i - 1] == c.queue[i]);
        }
    }
}

/// A chain reaction that comes to rest leaves no cell at capacity, provided
/// every cell at capacity was queued when it started.
pub proof fn lemma_run_rests(c: Cascade, n: nat)
    requires
        c.wf(),
        c.covered(),
        c.settles_in(n),
    ensures
        at_rest(c.run(n).grid),
    decreases n,
{
    if c.queue.len() > 0 {
        lemma_step_wf(c);
        lemma_step_covered(c);
        lemma_run_rests(c.step(), (n - 1) as nat);
    }
}

/// On a playable grid, the chain reaction from any start that settles leaves
/// the board at rest.
pub proof fn lemma_settled_rests(grid: Seq<Seq<Cell>>, effects: Seq<Effect>)
    requires
        playable(grid),
        Cascade::ignite(grid, effects).settles(),
    ensures
        at_rest(Cascade::ignite(grid, effects).settled().grid),
{
    let start = Cascade::ignite(grid, effects);
    lemma_ignite(grid, effects);
    lemma_run_rests(start, choose|n: nat| start.settles_in(n));
}

/// On a board at rest nothing is queued, so the chain reaction is over
/// before it starts and changes nothing.
pub proof fn lemma_rest_settles(grid: Seq<Seq<Cell>>, effects: Seq<Effect>)
    requires
        playable(grid),
        at_rest(grid),
    ensures
        Cascade::ignite(grid, effects).queue.len() == 0,
        Cascade::ignite(grid, effects).settles_in(0),
        Cascade::ignite(grid, effects).settles(),
        Cascade::ignite(grid, effects).settled() == Cascade::ignite(grid, effects),
{
    let start = Cascade::ignite(grid, effects);
    lemma_critical_cells(grid, grid.len());
    if start.queue.len() > 0 {
        let b = start.queue[0];
        assert(grid[b.row as int][b.col as int].critical());
    }
}

/// Where one cell alone is at capacity and none of its neighbours is one
/// unit short of it, the chain reaction is that one explosion: the cell is
/// emptied, each neighbour gets one unit of charge and the cell's owner, and
/// nothing else happens.
pub proof fn lemma_lone_explosion(
    grid: Seq<Seq<Cell>>,
    effects: Seq<Effect>,
    row: usize,
    col: usize,
)
    requires
        playable(grid),
        row < grid.len(),
        col < grid[0].len(),
        grid[row as int][col as int].critical(),
        forall|r: int, c: int|
            0 <= r < grid.len() && 0 <= c < grid[r].len() && (#[trigger] grid[r][c]).critical()
                ==> r == row && c == col,
        forall|r: int, c: int|
            0 <= r < grid.len() && 0 <= c < grid[r].len() && adjacent(r, c, row as int, col as int)
                ==> (#[trigger] grid[r][c]).power + 1 < CAPACITY,
    ensures
        Cascade::ignite(grid, effects).queue == seq![Burst { row, col, wave: 0 }],
        Cascade::ignite(grid, effects).settles_in(1),
        Cascade::ignite(grid, effects).settled() == Cascade::ignite(grid, effects).step(),
        Cascade::ignite(grid, effects).settled().grid == exploded(grid, row, col),
        Cascade::ignite(grid, effects).settled().queue.len() == 0,
{
    let start = Cascade::ignite(grid, effects);
    lemma_critical_cells(grid, grid.len());
    lemma_critical_cells_ordered(grid, grid.len());
    assert(start.queue.len() == 1) by {
        if start.queue.len() > 1 {
            let a = start.queue[0];
            let b = start.queue[1];
            assert(a.row == row && a.col == col && b.row == row && b.col == col);
        }
    }
    let around = start.around();
    let fresh = triggered(grid, around, 1);
    lemma_triggered_among(grid, around, 1);
    if fresh.len() > 0 {
        let b = fresh[0];
        assert(around.contains((b.row, b.col)));
    }
    assert(start.step().settles_in(0));
    lemma_settled_is_run(start, 1);
    assert(start.run(1) == start.step().run(0));
}

/// An explosion leaves no owned cell without charge, if there was none.
pub proof fn lemma_step_owned_charged(c: Cascade)
    requires
        c.wf(),
        c.can_explode(),
        owned_cells_charged(c.grid),
    ensures
        owned_cells_charged(c.step().grid),
{
    let front = c.queue[0];
    lemma_neighbors(c.rows(), c.cols(), front.row, front.col);
}

/// A chain reaction that comes to rest leaves no owned cell without charge,
/// if there was none when it started.
pub proof fn lemma_run_owned_charged(c: Cascade, n: nat)
    requires
        c.wf(),
        c.settles_in(n),
        owned_cells_charged(c.grid),
    ensures
        owned_cells_charged(c.run(n).grid),
    decreases n,
{
    if c.queue.len() > 0 {
        lemma_step_wf(c);
        lemma_step_owned_charged(c);
        lemma_run_owned_charged(c.step(), (n - 1) as nat);
    }
}

/// An explosion of a cell that has an owner keeps the board tidy.
pub proof fn lemma_step_tidy(c: Cascade)
    requires
        c.wf(),
        c.can_explode(),
        tidy(c.grid),
        c.grid[c.queue[0].row as int][c.queue[0].col as int].owner is Some,
    ensures
        tidy(c.step().grid),
{
    let front = c.queue[0];
    lemma_neighbors(c.rows(), c.cols(), front.row, front.col);
}

/// A chain reaction in which no empty cell explodes leaves a tidy board
/// tidy.
pub proof fn lemma_run_tidy(c: Cascade, n: nat)
    requires
        c.wf(),
        c.settles_in(n),
        c.loaded(n),
        tidy(c.grid),
    ensures
        tidy(c.run(n).grid),
    decreases n,
{
    if c.queue.len() > 0 {
        lemma_step_wf(c);
        lemma_step_tidy(c);
        lemma_run_tidy(c.step(), (n - 1) as nat);
    }
}


impl Cascade {
    /// The cells wait in the order of their waves, and the last to join is at
    /// most one wave behind the first in line: the queue is served wave by
    /// wave.
    pub open spec fn layered(self) -> bool {
        &&& forall|i: int, j: int|
            0 <= i <= j < self.queue.len() ==> (#[trigger] self.queue[i]).wave <= (
            #[trigger] self.queue[j]).wave
        &&& forall|i: int|
            0 <= i < self.queue.len() ==> (#[trigger] self.queue[i]).wave <= self.queue[0].wave + 1
    }

    /// Every cell that waits in a wave after the first was brought to
    /// capacity by the explosion of a neighbour in the wave before, and that
    /// explosion is on record.
    pub open spec fn traced(self) -> bool {
        forall|i: int|
            0 <= i < self.queue.len() && (#[trigger] self.queue[i]).wave > 0 ==> exists|k: int|
                0 <= k < self.effects.len() && self.caused(
                    #[trigger] self.effects[k],
                    self.queue[i],
                )
    }

    /// `effect` is the explosion, one wave earlier, of a neighbour of the
    /// cell `burst`.
    pub open spec fn caused(self, effect: Effect, burst: Burst) -> bool {
        match effect {
            Effect::Explosion { row, col, wave } => wave + 1 == burst.wave && adjacent(
                burst.row as int,
                burst.col as int,
                row as int,
                col as int,
            ),
            Effect::Capture { .. } => false,
        }
    }
}

/// An explosion keeps what is on record and adds to it.
pub proof fn lemma_step_records(c: Cascade)
    requires
        c.queue.len() > 0,
    ensures
        c.effects.len() < c.step().effects.len(),
        c.step().effects.take(c.effects.len() as int) == c.effects,
        c.step().effects[c.effects.len() as int] == (Effect::Explosion {
            row: c.queue[0].row,
            col: c.queue[0].col,
            wave: c.queue[0].wave,
        }),
{
}

/// A chain reaction keeps what was on record when it started and adds to it.
pub proof fn lemma_run_records(c: Cascade, n: nat)
    ensures
        c.effects.len() <= c.run(n).effects.len(),
        c.run(n).effects.take(c.effects.len() as int) == c.effects,
    decreases n,
{
    if n > 0 && c.queue.len() > 0 {
        lemma_run_records(c.step(), (n - 1) as nat);
    }
}

/// An explosion keeps the queue in the order of the waves.
pub proof fn lemma_step_layered(c: Cascade)
    requires
        c.wf(),
        c.paced(),
        c.layered(),
        c.queue.len() > 0,
        c.effects.len() < usize::MAX,
    ensures
        c.step().layered(),
        c.step().paced(),
{
    let front = c.queue[0];
    let wave = (front.wave + 1) as usize;
    lemma_triggered_among(c.grid, c.around(), wave);
}

/// An explosion keeps the queue traceable to the explosions on record.
pub proof fn lemma_step_traced(c: Cascade)
    requires
        c.wf(),
        c.traced(),
        c.queue.len() > 0,
        c.queue[0].wave < usize::MAX,
    ensures
        c.step().traced(),
{
    let front = c.queue[0];
    let wave = (front.wave + 1) as usize;
    lemma_triggered_among(c.grid, c.around(), wave);
    lemma_step_records(c);
}

/// A chain reaction is served wave by wave from start to end, and every
/// cell that explodes in a later wave was set off by a neighbour's explosion
/// in the wave before.
pub proof fn lemma_run_layered(c: Cascade, n: nat)
    requires
        c.wf(),
        c.paced(),
        c.layered(),
        c.traced(),
        c.run(n).effects.len() <= usize::MAX,
    ensures
        c.run(n).layered(),
        c.run(n).traced(),
        c.run(n).paced(),
    decreases n,
{
    if n > 0 && c.queue.len() > 0 {
        lemma_step_wf(c);
        lemma_run_records(c.step(), (n - 1) as nat);
        lemma_step_layered(c);
        lemma_step_traced(c);
        lemma_run_layered(c.step(), (n - 1) as nat);
    }
}

/// When a chain reaction starts, every cell waits in the first wave.
pub proof fn lemma_ignite_layered(grid: Seq<Seq<Cell>>, effects: Seq<Effect>)
    requires
        playable(grid),
    ensures
        Cascade::ignite(grid, effects).layered(),
        Cascade::ignite(grid, effects).traced(),
{
    lemma_critical_cells(grid, grid.len());
}

/// Whatever board a chain reaction starts on and however long it has run,
/// its queue is in the order of the waves, and every cell waiting in a later
/// wave was set off by the explosion of a neighbour in the wave before.
pub proof fn lemma_cascade_goes_wave_by_wave(grid: Seq<Seq<Cell>>, effects: Seq<Effect>, n: nat)
    requires
        playable(grid),
        Cascade::ignite(grid, effects).run(n).effects.len() <= usize::MAX,
    ensures
        Cascade::ignite(grid, effects).run(n).layered(),
        Cascade::ignite(grid, effects).run(n).traced(),
{
    lemma_ignite(grid, effects);
    lemma_ignite_layered(grid, effects);
    lemma_run_layered(Cascade::ignite(grid, effects), n);
}

} // verus!
