//! Why a chain reaction in which every explosion is that of a cell at
//! capacity comes to rest: charge moves towards the edge of the board and
//! falls off it.
//!
//! Each position has a weight, large in the middle of the board and small
//! at its edge, chosen so that the weights of the up to four neighbours of a
//! position add up to less than four times its own. An explosion of a cell at
//! capacity takes at least four units of charge from the cell and gives one
//! to each neighbour, so the charge on the board, each unit counted with the
//! weight of its position, goes down with every such explosion.

use vstd::prelude::*;
use crate::cascade::{
    exploded,
    lemma_critical_cells,
    lemma_critical_cells_ordered,
    lemma_settled_is_run,
    lemma_step_wf,
    lemma_triggered_among,
    triggered,
    Cascade,
    Effect,
};
use crate::cell::Cell;
use crate::grid::{adjacent, lemma_neighbors, playable, tidy};
use crate::settling::{lemma_run_tidy, lemma_step_tidy};

verus! {

/// The weight of the position (`r`, `c`) on a board of `rows` by `cols`
/// cells.
pub open spec fn weight(rows: int, cols: int, r: int, c: int) -> int {
    (r + 1) * (rows - r) + (c + 1) * (cols - c)
}

/// The charge on the first `upto` cells of the row `r`, each unit counted
/// `w(r, c)` times for the column `c` it is in.
pub open spec fn row_sum(cells: Seq<Cell>, w: spec_fn(int, int) -> int, r: int, upto: nat) -> int
    decreases upto,
{
    if upto == 0 {
        0
    } else {
        row_sum(cells, w, r, (upto - 1) as nat) + w(r, upto - 1) * cells[upto - 1].power
    }
}

/// The charge on the first `upto` rows of the grid, each unit counted
/// `w(r, c)` times for the position (`r`, `c`) it is at.
pub open spec fn grid_sum(grid: Seq<Seq<Cell>>, w: spec_fn(int, int) -> int, upto: nat) -> int
    decreases upto,
{
    if upto == 0 {
        0
    } else {
        grid_sum(grid, w, (upto - 1) as nat) + row_sum(
            grid[upto - 1],
            w,
            upto - 1,
            grid[upto - 1].len(),
        )
    }
}

/// The charge on the board, each unit counted with the weight of its
/// position.
pub open spec fn potential(grid: Seq<Seq<Cell>>) -> int {
    grid_sum(
        grid,
        |r: int, c: int| weight(grid.len() as int, grid[0].len() as int, r, c),
        grid.len(),
    )
}

/// The charge on the board.
pub open spec fn total_power(grid: Seq<Seq<Cell>>) -> int {
    grid_sum(grid, |r: int, c: int| 1int, grid.len())
}

/// The grid with `cell` at (`row`, `col`).
pub open spec fn with_cell(grid: Seq<Seq<Cell>>, row: int, col: int, cell: Cell) -> Seq<Seq<Cell>> {
    grid.update(row, grid[row].update(col, cell))
}

/// Counting with weights that are nowhere negative gives a sum that is not
/// negative.
pub proof fn lemma_row_sum_nonnegative(
    cells: Seq<Cell>,
    w: spec_fn(int, int) -> int,
    r: int,
    upto: nat,
)
    requires
        upto <= cells.len(),
        forall|c: int| 0 <= c < cells.len() ==> #[trigger] w(r, c) >= 0,
    ensures
        row_sum(cells, w, r, upto) >= 0,
    decreases upto,
{
    if upto > 0 {
        lemma_row_sum_nonnegative(cells, w, r, (upto - 1) as nat);
    }
}

/// Counting with weights that are nowhere negative gives a sum that is not
/// negative.
pub proof fn lemma_grid_sum_nonnegative(
    grid: Seq<Seq<Cell>>,
    w: spec_fn(int, int) -> int,
    upto: nat,
)
    requires
        upto <= grid.len(),
        forall|r: int, c: int|
            0 <= r < grid.len() && 0 <= c < grid[r].len() ==> #[trigger] w(r, c) >= 0,
    ensures
        grid_sum(grid, w, upto) >= 0,
    decreases upto,
{
    if upto > 0 {
        lemma_grid_sum_nonnegative(grid, w, (upto - 1) as nat);
        lemma_row_sum_nonnegative(grid[upto - 1], w, upto - 1, grid[upto - 1].len());
    }
}

/// Replacing one cell of a row changes the sum by the change of that cell's
/// charge, counted with its weight.
pub proof fn lemma_row_sum_update(
    cells: Seq<Cell>,
    w: spec_fn(int, int) -> int,
    r: int,
    upto: nat,
    col: int,
    cell: Cell,
)
    requires
        upto <= cells.len(),
        0 <= col < cells.len(),
    ensures
        row_sum(cells.update(col, cell), w, r, upto) == row_sum(cells, w, r, upto) + if col < upto {
            w(r, col) * cell.power - w(r, col) * cells[col].power
        } else {
            0
        },
    decreases upto,
{
    if upto > 0 {
        lemma_row_sum_update(cells, w, r, (upto - 1) as nat, col, cell);
    }
}

/// Replacing one cell of the grid changes the sum by the change of that
/// cell's charge, counted with its weight.
pub proof fn lemma_grid_sum_update(
    grid: Seq<Seq<Cell>>,
    w: spec_fn(int, int) -> int,
    upto: nat,
    row: int,
    col: int,
    cell: Cell,
)
    requires
        upto <= grid.len(),
        0 <= row < grid.len(),
        0 <= col < grid[row].len(),
    ensures
        grid_sum(with_cell(grid, row, col, cell), w, upto) == grid_sum(grid, w, upto) + if row
            < upto {
            w(row, col) * cell.power - w(row, col) * grid[row][col].power
        } else {
            0
        },
    decreases upto,
{
    if upto > 0 {
        lemma_grid_sum_update(grid, w, (upto - 1) as nat, row, col, cell);
        if row == upto - 1 {
            lemma_row_sum_update(grid[row], w, row, grid[row].len(), col, cell);
        }
    }
}

/// What the neighbours of (`r`, `c`) on a board of `rows` by `cols` cells
/// weigh together.
pub open spec fn spread(w: spec_fn(int, int) -> int, rows: int, cols: int, r: int, c: int) -> int {
    (if r > 0 {
        w(r - 1, c)
    } else {
        0
    }) + (if r < rows - 1 {
        w(r + 1, c)
    } else {
        0
    }) + (if c > 0 {
        w(r, c - 1)
    } else {
        0
    }) + (if c < cols - 1 {
        w(r, c + 1)
    } else {
        0
    })
}

/// The grid with the cell at (`row`, `col`) charged for `owner`, if `there`
/// is true, and the grid as it is otherwise.
pub open spec fn charged_at(
    grid: Seq<Seq<Cell>>,
    there: bool,
    row: int,
    col: int,
    owner: Option<usize>,
) -> Seq<Seq<Cell>> {
    if there {
        with_cell(grid, row, col, grid[row][col].charged(owner))
    } else {
        grid
    }
}

/// Charging a cell that has room for it adds its weight to the sum.
pub proof fn lemma_charged_at(
    grid: Seq<Seq<Cell>>,
    w: spec_fn(int, int) -> int,
    there: bool,
    row: int,
    col: int,
    owner: Option<usize>,
)
    requires
        there ==> 0 <= row < grid.len() && 0 <= col < grid[row].len() && grid[row][col].power
            < u8::MAX,
    ensures
        grid_sum(charged_at(grid, there, row, col, owner), w, grid.len()) == grid_sum(
            grid,
            w,
            grid.len(),
        ) + if there {
            w(row, col)
        } else {
            0
        },
        charged_at(grid, there, row, col, owner).len() == grid.len(),
{
    if there {
        let cell = grid[row][col].charged(owner);
        lemma_grid_sum_update(grid, w, grid.len(), row, col, cell);
        assert(w(row, col) * cell.power - w(row, col) * grid[row][col].power == w(row, col))
            by (nonlinear_arith)
            requires
                cell.power == grid[row][col].power + 1,
        ;
    }
}

/// An explosion takes the charge of the exploding cell out of the sum and
/// adds the weights of its neighbours.
pub proof fn lemma_explosion_sum(
    grid: Seq<Seq<Cell>>,
    w: spec_fn(int, int) -> int,
    row: usize,
    col: usize,
)
    requires
        playable(grid),
        row < grid.len(),
        col < grid[0].len(),
        forall|r: int, c: int|
            0 <= r < grid.len() && 0 <= c < grid[0].len() && adjacent(r, c, row as int, col as int)
                ==> (#[trigger] grid[r][c]).power < u8::MAX,
    ensures
        grid_sum(exploded(grid, row, col), w, grid.len()) == grid_sum(grid, w, grid.len()) - w(
            row as int,
            col as int,
        ) * grid[row as int][col as int].power + spread(
            w,
            grid.len() as int,
            grid[0].len() as int,
            row as int,
            col as int,
        ),
{
    let rows = grid.len() as int;
    let cols = grid[0].len() as int;
    let r = row as int;
    let c = col as int;
    let owner = grid[r][c].owner;
    let emptied = with_cell(grid, r, c, Cell::empty());
    lemma_grid_sum_update(grid, w, grid.len(), r, c, Cell::empty());
    assert(w(r, c) * Cell::empty().power == 0) by (nonlinear_arith)
        requires
            Cell::empty().power == 0,
    ;
    let above = charged_at(emptied, r > 0, r - 1, c, owner);
    lemma_charged_at(emptied, w, r > 0, r - 1, c, owner);
    let below = charged_at(above, r < rows - 1, r + 1, c, owner);
    lemma_charged_at(above, w, r < rows - 1, r + 1, c, owner);
    let left = charged_at(below, c > 0, r, c - 1, owner);
    lemma_charged_at(below, w, c > 0, r, c - 1, owner);
    let right = charged_at(left, c < cols - 1, r, c + 1, owner);
    lemma_charged_at(left, w, c < cols - 1, r, c + 1, owner);
    let after = exploded(grid, row, col);
    assert(right =~= after) by {
        assert forall|i: int| 0 <= i < rows implies #[trigger] right[i] =~= after[i] by {}
    }
}

/// On the board, the weight of a position is at least two, and the weights
/// of its neighbours add up to at most four times its own less four.
pub proof fn lemma_weight(rows: int, cols: int, r: int, c: int)
    requires
        0 <= r < rows,
        0 <= c < cols,
    ensures
        weight(rows, cols, r, c) >= 2,
        spread(|i: int, j: int| weight(rows, cols, i, j), rows, cols, r, c) <= 4 * weight(
            rows,
            cols,
            r,
            c,
        ) - 4,
{
    assert(r * (rows - r + 1) + (r + 2) * (rows - r - 1) == 2 * ((r + 1) * (rows - r)) - 2)
        by (nonlinear_arith);
    assert(c * (cols - c + 1) + (c + 2) * (cols - c - 1) == 2 * ((c + 1) * (cols - c)) - 2)
        by (nonlinear_arith);
}

/// The weighted charge on a playable board is not negative.
pub proof fn lemma_potential_nonnegative(grid: Seq<Seq<Cell>>)
    requires
        playable(grid),
    ensures
        potential(grid) >= 0,
{
    let rows = grid.len() as int;
    let cols = grid[0].len() as int;
    let w = |r: int, c: int| weight(rows, cols, r, c);
    lemma_grid_sum_nonnegative(grid, w, grid.len());
}

impl Cascade {
    /// Each of the next `n` explosions is that of a cell at capacity.
    pub open spec fn proper(self, n: nat) -> bool
        decreases n,
    {
        n == 0 || self.queue.len() == 0 || (self.front().critical() && self.step().proper(
            (n - 1) as nat,
        ))
    }

    /// None of the next `n` explosions charges a cell beyond the range of
    /// its power.
    pub open spec fn roomy(self, n: nat) -> bool
        decreases n,
    {
        n == 0 || self.queue.len() == 0 || (self.can_explode() && self.step().roomy(
            (n - 1) as nat,
        ))
    }

    /// The board holds so little charge that two cells cannot be at capacity
    /// together: at most seven units. Then at most one cell waits, and it is
    /// at capacity.
    pub open spec fn sparse(self) -> bool {
        &&& self.wf()
        &&& total_power(self.grid) <= 7
        &&& self.queue.len() <= 1
        &&& self.queue.len() == 1 ==> self.front().critical()
    }
}

/// The explosion of a cell at capacity takes at least four from the
/// weighted charge on the board.
pub proof fn lemma_step_lowers_potential(c: Cascade)
    requires
        c.wf(),
        c.can_explode(),
        c.front().critical(),
    ensures
        potential(c.step().grid) <= potential(c.grid) - 4,
{
    let front = c.queue[0];
    let rows = c.grid.len() as int;
    let cols = c.grid[0].len() as int;
    let w = |r: int, c: int| weight(rows, cols, r, c);
    lemma_neighbors(c.rows(), c.cols(), front.row, front.col);
    lemma_explosion_sum(c.grid, w, front.row, front.col);
    lemma_weight(rows, cols, front.row as int, front.col as int);
    let held = c.front().power as int;
    let here = weight(rows, cols, front.row as int, front.col as int);
    assert(here * held >= 4 * here) by (nonlinear_arith)
        requires
            here >= 0,
            held >= 4,
    ;
}

/// A chain reaction in which every explosion is that of a cell at capacity,
/// and none charges a cell beyond the range of its power, comes to rest
/// after at most a quarter as many explosions as the board holds weighted
/// charge.
pub proof fn lemma_proper_cascade_settles(c: Cascade, n: nat)
    requires
        c.wf(),
        c.proper(n),
        c.roomy(n),
        potential(c.grid) < 4 * n,
    ensures
        c.settles_in(n),
    decreases n,
{
    lemma_potential_nonnegative(c.grid);
    if c.queue.len() > 0 {
        lemma_step_wf(c);
        lemma_step_lowers_potential(c);
        lemma_proper_cascade_settles(c.step(), (n - 1) as nat);
    }
}

/// Two cells of the board hold no more charge between them than the whole
/// board.
pub proof fn lemma_two_cells(grid: Seq<Seq<Cell>>, r1: int, c1: int, r2: int, c2: int)
    requires
        playable(grid),
        0 <= r1 < grid.len(),
        0 <= c1 < grid[0].len(),
        0 <= r2 < grid.len(),
        0 <= c2 < grid[0].len(),
        r1 != r2 || c1 != c2,
    ensures
        grid[r1][c1].power + grid[r2][c2].power <= total_power(grid),
        grid[r1][c1].power <= total_power(grid),
{
    let w = |r: int, c: int| 1int;
    let one = with_cell(grid, r1, c1, Cell::empty());
    lemma_grid_sum_update(grid, w, grid.len(), r1, c1, Cell::empty());
    let two = with_cell(one, r2, c2, Cell::empty());
    lemma_grid_sum_update(one, w, one.len(), r2, c2, Cell::empty());
    lemma_grid_sum_nonnegative(two, w, two.len());
}

/// The cells that an explosion queues are at different positions.
pub proof fn lemma_triggered_distinct(
    grid: Seq<Seq<Cell>>,
    around: Seq<(usize, usize)>,
    wave: usize,
)
    requires
        around.no_duplicates(),
    ensures
        forall|i: int, j: int|
            0 <= i < j < triggered(grid, around, wave).len() ==> {
                let a = #[trigger] triggered(grid, around, wave)[i];
                let b = #[trigger] triggered(grid, around, wave)[j];
                a.row != b.row || a.col != b.col
            },
    decreases around.len(),
{
    if around.len() > 0 {
        let shorter = around.drop_last();
        lemma_triggered_distinct(grid, shorter, wave);
        lemma_triggered_among(grid, shorter, wave);
    }
}

/// On a sparse board an explosion has room, and leaves the board sparse.
pub proof fn lemma_step_sparse(c: Cascade)
    requires
        c.sparse(),
        c.queue.len() > 0,
    ensures
        c.can_explode(),
        c.step().sparse(),
{
    let front = c.queue[0];
    let rows = c.grid.len() as int;
    let cols = c.grid[0].len() as int;
    let r = front.row as int;
    let col = front.col as int;
    let next = c.step();
    let around = c.around();
    let wave = (front.wave + 1) as usize;
    let fresh = triggered(c.grid, around, wave);
    let w = |i: int, j: int| 1int;
    lemma_neighbors(c.rows(), c.cols(), front.row, front.col);
    assert forall|i: int| 0 <= i < around.len() implies c.at(#[trigger] around[i]).power
        < u8::MAX by {
        lemma_two_cells(c.grid, r, col, around[i].0 as int, around[i].1 as int);
    }
    lemma_explosion_sum(c.grid, w, front.row, front.col);
    assert(w(r, col) * c.grid[r][col].power == c.grid[r][col].power) by (nonlinear_arith)
        requires
            w(r, col) == 1,
    ;
    lemma_triggered_among(c.grid, around, wave);
    lemma_triggered_distinct(c.grid, around, wave);
    if fresh.len() >= 1 {
        let a = fresh[0];
        if fresh.len() >= 2 {
            let b = fresh[1];
            lemma_two_cells(next.grid, a.row as int, a.col as int, b.row as int, b.col as int);
        }
    }
}

/// On a sparse board every explosion is that of a cell at capacity and has
/// room.
pub proof fn lemma_sparse_is_proper(c: Cascade, n: nat)
    requires
        c.sparse(),
    ensures
        c.proper(n),
        c.roomy(n),
    decreases n,
{
    if n > 0 && c.queue.len() > 0 {
        lemma_step_sparse(c);
        lemma_sparse_is_proper(c.step(), (n - 1) as nat);
    }
}

/// On a board that holds at most seven units of charge, every chain
/// reaction comes to rest.
pub proof fn lemma_sparse_board_settles(grid: Seq<Seq<Cell>>, effects: Seq<Effect>)
    requires
        playable(grid),
        total_power(grid) <= 7,
    ensures
        Cascade::ignite(grid, effects).settles(),
        Cascade::ignite(grid, effects).settles_in((potential(grid) / 4 + 1) as nat),
{
    let start = Cascade::ignite(grid, effects);
    lemma_critical_cells(grid, grid.len());
    lemma_critical_cells_ordered(grid, grid.len());
    if start.queue.len() >= 2 {
        let a = start.queue[0];
        let b = start.queue[1];
        lemma_two_cells(grid, a.row as int, a.col as int, b.row as int, b.col as int);
    }
    let n = (potential(grid) / 4 + 1) as nat;
    lemma_sparse_is_proper(start, n);
    lemma_proper_cascade_settles(start, n);
}

/// On a tidy board, a chain reaction in which every explosion is that of a
/// cell at capacity never explodes an empty cell.
pub proof fn lemma_proper_is_loaded(c: Cascade, n: nat)
    requires
        c.wf(),
        tidy(c.grid),
        c.proper(n),
        c.roomy(n),
    ensures
        c.loaded(n),
    decreases n,
{
    if n > 0 && c.queue.len() > 0 {
        lemma_step_wf(c);
        lemma_step_tidy(c);
        lemma_proper_is_loaded(c.step(), (n - 1) as nat);
    }
}

/// On a tidy board that holds at most seven units of charge, the chain
/// reaction comes to rest on a tidy board.
pub proof fn lemma_sparse_board_stays_tidy(grid: Seq<Seq<Cell>>, effects: Seq<Effect>)
    requires
        playable(grid),
        total_power(grid) <= 7,
        tidy(grid),
    ensures
        Cascade::ignite(grid, effects).settles(),
        tidy(Cascade::ignite(grid, effects).settled().grid),
{
    let start = Cascade::ignite(grid, effects);
    let n = (potential(grid) / 4 + 1) as nat;
    lemma_sparse_board_settles(grid, effects);
    lemma_critical_cells(grid, grid.len());
    lemma_critical_cells_ordered(grid, grid.len());
    if start.queue.len() >= 2 {
        let a = start.queue[0];
        let b = start.queue[1];
        lemma_two_cells(grid, a.row as int, a.col as int, b.row as int, b.col as int);
    }
    lemma_sparse_is_proper(start, n);
    lemma_proper_is_loaded(start, n);
    lemma_run_tidy(start, n);
    lemma_settled_is_run(start, n);
}

} // verus!
