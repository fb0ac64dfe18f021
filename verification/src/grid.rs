//! The grid of cells and its four-neighbour adjacency.

use vstd::prelude::*;
use crate::cell::Cell;

verus! {

/// The grid that a vector of rows stands for.
pub open spec fn grid_view(cells: &Vec<Vec<Cell>>) -> Seq<Seq<Cell>> {
    Seq::new(cells@.len(), |r: int| cells@[r]@)
}

/// Every one of the `rows` rows has `cols` cells.
pub open spec fn rectangular(grid: Seq<Seq<Cell>>, rows: nat, cols: nat) -> bool {
    &&& grid.len() == rows
    &&& forall|r: int| 0 <= r < rows ==> (#[trigger] grid[r]).len() == cols
}

/// A grid that a game can be played on: a rectangle with at least one cell,
/// of a size a machine can index.
pub open spec fn playable(grid: Seq<Seq<Cell>>) -> bool {
    &&& 1 <= grid.len() <= usize::MAX
    &&& 1 <= grid[0].len() <= usize::MAX
    &&& rectangular(grid, grid.len(), grid[0].len())
}

/// No cell is at capacity: nothing is about to explode.
pub open spec fn at_rest(grid: Seq<Seq<Cell>>) -> bool {
    forall|r: int, c: int|
        0 <= r < grid.len() && 0 <= c < grid[r].len() ==> !(#[trigger] grid[r][c]).critical()
}

/// Every cell that has an owner holds some charge.
pub open spec fn owned_cells_charged(grid: Seq<Seq<Cell>>) -> bool {
    forall|r: int, c: int|
        0 <= r < grid.len() && 0 <= c < grid[r].len() && (#[trigger] grid[r][c]).owner is Some
            ==> grid[r][c].power > 0
}

/// A cell has an owner exactly if it holds some charge.
pub open spec fn tidy(grid: Seq<Seq<Cell>>) -> bool {
    forall|r: int, c: int|
        0 <= r < grid.len() && 0 <= c < grid[r].len() ==> ((#[trigger] grid[r][c]).owner is None
            <==> grid[r][c].power == 0)
}

/// Two positions share an edge.
pub open spec fn adjacent(r1: int, c1: int, r2: int, c2: int) -> bool {
    ||| c1 == c2 && (r1 == r2 + 1 || r2 == r1 + 1)
    ||| r1 == r2 && (c1 == c2 + 1 || c2 == c1 + 1)
}

/// The neighbours of a position in the order in which an explosion visits
/// them: above, below, left, right, each only if it lies on the board.
pub open spec fn neighbors(rows: usize, cols: usize, row: usize, col: usize) -> Seq<
    (usize, usize),
> {
    let above: Seq<(usize, usize)> = if row > 0 {
        seq![((row - 1) as usize, col)]
    } else {
        seq![]
    };
    let below: Seq<(usize, usize)> = if row < rows - 1 {
        seq![((row + 1) as usize, col)]
    } else {
        seq![]
    };
    let left: Seq<(usize, usize)> = if col > 0 {
        seq![(row, (col - 1) as usize)]
    } else {
        seq![]
    };
    let right: Seq<(usize, usize)> = if col < cols - 1 {
        seq![(row, (col + 1) as usize)]
    } else {
        seq![]
    };
    above + below + left + right
}

/// The neighbours of a position on the board are exactly the positions on the
/// board that share an edge with it, each listed once.
pub proof fn lemma_neighbors(rows: usize, cols: usize, row: usize, col: usize)
    requires
        row < rows,
        col < cols,
    ensures
        neighbors(rows, cols, row, col).len() <= 4,
        neighbors(rows, cols, row, col).no_duplicates(),
        forall|r: usize, c: usize|
            neighbors(rows, cols, row, col).contains((r, c)) <==> r < rows && c < cols && adjacent(
                r as int,
                c as int,
                row as int,
                col as int,
            ),
{
    let ns = neighbors(rows, cols, row, col);
    let above: Seq<(usize, usize)> = if row > 0 {
        seq![((row - 1) as usize, col)]
    } else {
        seq![]
    };
    let below: Seq<(usize, usize)> = if row < rows - 1 {
        seq![((row + 1) as usize, col)]
    } else {
        seq![]
    };
    let left: Seq<(usize, usize)> = if col > 0 {
        seq![(row, (col - 1) as usize)]
    } else {
        seq![]
    };
    assert forall|r: usize, c: usize|
        ns.contains((r, c)) <==> r < rows && c < cols && adjacent(
            r as int,
            c as int,
            row as int,
            col as int,
        ) by {
        if r < rows && c < cols && adjacent(r as int, c as int, row as int, col as int) {
            if c == col && r + 1 == row {
                assert(ns[0] == (r, c));
            } else if c == col && r == row + 1 {
                assert(ns[above.len() as int] == (r, c));
            } else if r == row && c + 1 == col {
                assert(ns[(above.len() + below.len()) as int] == (r, c));
            } else {
                assert(ns[(above.len() + below.len() + left.len()) as int] == (r, c));
            }
        }
    }
}

/// Lists the neighbours of a position: above, below, left, right, leaving out
/// those that would fall off the board.
pub fn get_neighbors(rows: usize, cols: usize, row: usize, col: usize) -> (found: Vec<
    (usize, usize),
>)
    ensures
        found@ == neighbors(rows, cols, row, col),
{
    let mut found: Vec<(usize, usize)> = Vec::new();
    if row > 0 {
        found.push((row - 1, col));
    }
    if rows > 0 && row < rows - 1 {
        found.push((row + 1, col));
    }
    if col > 0 {
        found.push((row, col - 1));
    }
    if cols > 0 && col < cols - 1 {
        found.push((row, col + 1));
    }
    found
}

/// A board of `rows` rows of `cols` empty cells.
pub fn blank_grid(rows: usize, cols: usize) -> (grid: Vec<Vec<Cell>>)
    ensures
        grid_view(&grid) == Seq::new(
            rows as nat,
            |r: int| Seq::new(cols as nat, |c: int| Cell::empty()),
        ),
{
    let mut grid: Vec<Vec<Cell>> = Vec::new();
    for r in 0..rows
        invariant
            grid@.len() == r,
            forall|k: int| 0 <= k < r ==> (#[trigger] grid@[k])@ == Seq::new(
                cols as nat,
                |c: int| Cell::empty(),
            ),
    {
        let mut row: Vec<Cell> = Vec::new();
        for c in 0..cols
            invariant
                row@ == Seq::new(c as nat, |k: int| Cell::empty()),
        {
            row.push(Cell::new());
        }
        grid.push(row);
    }
    grid
}

/// A copy of the board.
pub fn copy_grid(grid: &Vec<Vec<Cell>>) -> (copy: Vec<Vec<Cell>>)
    ensures
        grid_view(&copy) == grid_view(grid),
{
    let mut copy: Vec<Vec<Cell>> = Vec::new();
    for r in 0..grid.len()
        invariant
            copy@.len() == r,
            forall|k: int| 0 <= k < r ==> (#[trigger] copy@[k])@ == grid@[k]@,
    {
        let mut row: Vec<Cell> = Vec::new();
        let cols = grid[r].len();
        for c in 0..cols
            invariant
                r < grid.len(),
                cols == grid@[r as int]@.len(),
                row@ == grid@[r as int]@.take(c as int),
        {
            row.push(grid[r][c]);
        }
        copy.push(row);
    }
    copy
}

} // verus!
