//! One position of the board.

use vstd::prelude::*;

verus! {

/// The power at which a cell explodes. It is the same for every cell,
/// whatever the number of its neighbours.
pub const CAPACITY: u8 = 4;

/// The power a player's first tile starts with.
pub const STARTING_POWER: u8 = 3;

/// A board position: who holds it, and how much charge it has accumulated.
#[derive(Clone, Copy, Debug, PartialEq, Eq, Structural)]
pub struct Cell {
    pub owner: Option<usize>,
    pub power: u8,
}

impl Cell {
    /// The cell nobody holds, with no charge.
    pub open spec fn empty() -> Cell {
        Cell { owner: None, power: 0 }
    }

    /// This cell after an explosion next to it: one more unit of charge, and
    /// the owner of the cell that exploded, whoever held it before.
    pub open spec fn charged(self, owner: Option<usize>) -> Cell {
        Cell { owner, power: (self.power + 1) as u8 }
    }

    /// Whether the cell has reached the power at which it explodes.
    pub open spec fn critical(self) -> bool {
        self.power >= CAPACITY
    }

    /// Creates a cell with no owner and no charge.
    pub fn new() -> (cell: Cell)
        ensures
            cell == Cell::empty(),
    {
        Cell { owner: None, power: 0 }
    }
}

/// The power at which the cell at (`_row`, `_col`) explodes: the same for
/// every cell.
pub fn max_capacity(_row: usize, _col: usize) -> (capacity: u8)
    ensures
        capacity == CAPACITY,
{
    CAPACITY
}

} // verus!
