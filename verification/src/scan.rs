//! Walks over the board and over the flags kept for each player.

use vstd::prelude::*;
use crate::cell::Cell;
use crate::game::{count_set, is_first_set, owns_any};
use crate::grid::grid_view;

verus! {

/// A vector of `len` flags, all equal to `value`.
pub(crate) fn filled(len: usize, value: bool) -> (flags: Vec<bool>)
    ensures
        flags@ == Seq::new(len as nat, |i: int| value),
{
    let mut flags: Vec<bool> = Vec::new();
    for i in 0..len
        invariant
            flags@ == Seq::new(i as nat, |k: int| value),
    {
        flags.push(value);
    }
    flags
}

/// A vector of `len` flags, none of them set.
pub(crate) fn cleared(len: usize) -> (flags: Vec<bool>)
    ensures
        flags@ == Seq::new(len as nat, |i: int| false),
{
    filled(len, false)
}

/// Whether some flag is not set.
pub(crate) fn any_unset(flags: &Vec<bool>) -> (found: bool)
    ensures
        found == exists|i: int| 0 <= i < flags@.len() && !#[trigger] flags@[i],
{
    for i in 0..flags.len()
        invariant
            forall|k: int| 0 <= k < i ==> flags@[k],
    {
        if !flags[i] {
            return true;
        }
    }
    false
}

/// How many flags are set.
pub(crate) fn count_flags(flags: &Vec<bool>) -> (count: usize)
    ensures
        count == count_set(flags@),
{
    let mut count: usize = 0;
    for i in 0..flags.len()
        invariant
            count == count_set(flags@.take(i as int)),
            count <= i,
    {
        proof {
            assert(flags@.take(i + 1).drop_last() =~= flags@.take(i as int));
        }
        if flags[i] {
            count += 1;
        }
    }
    assert(flags@.take(flags@.len() as int) =~= flags@);
    count
}

/// The position of the first flag that is set.
pub(crate) fn first_flag(flags: &Vec<bool>) -> (found: Option<usize>)
    ensures
        match found {
            Some(at) => is_first_set(flags@, at as int),
            None => forall|i: int| 0 <= i < flags@.len() ==> !flags@[i],
        },
{
    for i in 0..flags.len()
        invariant
            forall|k: int| 0 <= k < i ==> !flags@[k],
    {
        if flags[i] {
            return Some(i);
        }
    }
    None
}

/// Whether the player holds a cell of the grid.
pub(crate) fn holds_any(grid: &Vec<Vec<Cell>>, player: usize) -> (found: bool)
    ensures
        found == owns_any(grid_view(grid), player),
{
    let ghost cells = grid_view(grid);
    for row in 0..grid.len()
        invariant
            cells == grid_view(grid),
            forall|r: int, c: int|
                0 <= r < row && 0 <= c < cells[r].len() ==> (#[trigger] cells[r][c]).owner != Some(
                    player,
                ),
    {
        let cols = grid[row].len();
        for col in 0..cols
            invariant
                row < grid.len(),
                cols == cells[row as int].len(),
                cells == grid_view(grid),
                forall|r: int, c: int|
                    0 <= r < row && 0 <= c < cells[r].len() ==> (#[trigger] cells[r][c]).owner
                        != Some(player),
                forall|c: int|
                    0 <= c < col ==> (#[trigger] cells[row as int][c]).owner != Some(player),
        {
            if grid[row][col].owner == Some(player) {
                return true;
            }
        }
    }
    false
}

} // verus!
