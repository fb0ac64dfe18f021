//! The game as a mathematical object: the board, whose turn it is, who has
//! entered, who is still in, and how one placement changes all of that.

use vstd::prelude::*;
use crate::cascade::{Cascade, Effect};
use crate::cell::{Cell, STARTING_POWER};
use crate::error::ConfigError;
use crate::grid::playable;

verus! {

/// Every player from 0 up to the number of entries occurs in `order`, once.
pub open spec fn is_turn_order(order: Seq<usize>) -> bool {
    &&& forall|i: int| 0 <= i < order.len() ==> (#[trigger] order[i]) < order.len()
    &&& forall|i: int, j: int| 0 <= i < j < order.len() ==> order[i] != order[j]
    &&& forall|p: usize| p < order.len() ==> #[trigger] order.contains(p)
}

/// The player holds at least one cell of the grid.
pub open spec fn owns_any(grid: Seq<Seq<Cell>>, player: usize) -> bool {
    exists|r: int, c: int|
        0 <= r < grid.len() && 0 <= c < grid[r].len() && (#[trigger] grid[r][c]).owner == Some(
            player,
        )
}

/// How many of the flags are set.
pub open spec fn count_set(flags: Seq<bool>) -> nat
    decreases flags.len(),
{
    if flags.len() == 0 {
        0
    } else {
        count_set(flags.drop_last()) + if flags.last() {
            1nat
        } else {
            0nat
        }
    }
}

/// `at` is the position of the first flag that is set.
pub open spec fn is_first_set(flags: Seq<bool>, at: int) -> bool {
    &&& 0 <= at < flags.len()
    &&& flags[at]
    &&& forall|i: int| 0 <= i < at ==> !flags[i]
}

/// The position of the first flag that is set, if any is.
pub open spec fn first_set(flags: Seq<bool>) -> int {
    choose|at: int| is_first_set(flags, at)
}

/// What is wrong with a board of `rows` by `cols` cells for `players`
/// players, if anything is: a board without cells, nobody to play, or more
/// players than cells. Where several things are wrong, the first of them in
/// this order is named.
pub open spec fn size_fault(rows: nat, cols: nat, players: nat) -> Option<ConfigError> {
    if rows == 0 || cols == 0 {
        Some(ConfigError::EmptyBoard)
    } else if players == 0 {
        Some(ConfigError::NoPlayers)
    } else if players > rows * cols {
        Some(ConfigError::TooManyPlayers)
    } else {
        None
    }
}

/// What is wrong with a board of `rows` by `cols` cells for the players that
/// `order` lists, if anything is: what is wrong with the sizes, or else an
/// order that is no turn order.
pub open spec fn config_fault(rows: nat, cols: nat, order: Seq<usize>) -> Option<ConfigError> {
    if size_fault(rows, cols, order.len()) is Some {
        size_fault(rows, cols, order.len())
    } else if !is_turn_order(order) {
        Some(ConfigError::InvalidOrder)
    } else {
        None
    }
}

/// What became of an attempt to place a tile.
#[derive(Clone, Copy, Debug, PartialEq, Eq, Structural)]
pub enum Placement {
    /// The position is not on the board. Nothing changed.
    OffBoard,
    /// The placement does not count: the game is over, or the cell is not
    /// one the player may use. Nothing changed.
    Ignored,
    /// The placement counts, but the chain reaction it sets off does not come
    /// to rest within the budget, or charges a cell beyond the range of its
    /// power. Nothing changed.
    Unsettled,
    /// The tile was placed and the turn was played out.
    Played,
}

/// The state of a game between two placements.
pub struct Game {
    /// The board, row by row.
    pub grid: Seq<Seq<Cell>>,
    /// The players in the order in which they move, fixed when the game starts.
    pub order: Seq<usize>,
    /// The position in `order` of the player to move.
    pub turn: usize,
    /// For each player, whether the player has made the first placement.
    pub first_move_done: Seq<bool>,
    /// For each player, whether the player is still in the game. This is
    /// looked at only once every player has entered.
    pub alive: Seq<bool>,
    /// The game has ended.
    pub over: bool,
    /// The player who won, once one has.
    pub winner: Option<usize>,
    /// What the cascades did that nobody has collected yet.
    pub effects: Seq<Effect>,
}

impl Game {
    /// A game about to start: an empty board, nobody has entered, everybody
    /// is in, and the first player of `order` moves.
    pub open spec fn initial(rows: nat, cols: nat, order: Seq<usize>) -> Game {
        Game {
            grid: Seq::new(rows, |r: int| Seq::new(cols, |c: int| Cell::empty())),
            order,
            turn: 0,
            first_move_done: Seq::new(order.len(), |p: int| false),
            alive: Seq::new(order.len(), |p: int| true),
            over: false,
            winner: None,
            effects: Seq::empty(),
        }
    }

    /// The number of rows of the board.
    pub open spec fn rows(self) -> nat {
        self.grid.len()
    }

    /// The number of columns of the board.
    pub open spec fn cols(self) -> nat {
        self.grid[0].len()
    }

    /// The number of players the game started with.
    pub open spec fn players(self) -> nat {
        self.order.len()
    }

    /// The player to move.
    pub open spec fn current_player(self) -> usize {
        self.order[self.turn as int]
    }

    /// Some player has yet to make a first placement.
    pub open spec fn entering(self) -> bool {
        exists|p: int| 0 <= p < self.first_move_done.len() && !#[trigger] self.first_move_done[p]
    }

    /// The parts of the state fit together: a playable board, a turn order
    /// over all the players, a turn within it, one flag of each kind for each
    /// player, and nobody out of the game while somebody has yet to enter.
    pub open spec fn wf(self) -> bool {
        &&& playable(self.grid)
        &&& 1 <= self.order.len() <= usize::MAX
        &&& is_turn_order(self.order)
        &&& self.turn < self.order.len()
        &&& self.first_move_done.len() == self.order.len()
        &&& self.alive.len() == self.order.len()
        &&& self.entering() ==> forall|p: int|
            0 <= p < self.alive.len() ==> #[trigger] self.alive[p]
    }

    /// The placement counts. The game is still on, the cell is on the board,
    /// and it is free if the player to move has yet to enter, the player's own
    /// otherwise.
    pub open spec fn legal(self, row: usize, col: usize) -> bool {
        &&& !self.over
        &&& row < self.rows()
        &&& col < self.cols()
        &&& if self.first_move_done[self.current_player() as int] {
            self.grid[row as int][col as int].owner == Some(self.current_player())
        } else {
            self.grid[row as int][col as int].owner is None
        }
    }

    /// The cell that a placement leaves at (`row`, `col`): the starting
    /// charge for a first placement, one more unit of charge otherwise, and
    /// in both cases the mover as owner.
    pub open spec fn tile(self, row: usize, col: usize) -> Cell {
        Cell {
            owner: Some(self.current_player()),
            power: if self.first_move_done[self.current_player() as int] {
                (self.grid[row as int][col as int].power + 1) as u8
            } else {
                STARTING_POWER
            },
        }
    }

    /// The game once the tile is down and the mover counts as entered, before
    /// anything explodes.
    pub open spec fn placed(self, row: usize, col: usize) -> Game {
        Game {
            grid: self.grid.update(
                row as int,
                self.grid[row as int].update(col as int, self.tile(row, col)),
            ),
            first_move_done: self.first_move_done.update(self.current_player() as int, true),
            ..self
        }
    }

    /// The chain reaction that the board is about to go through.
    pub open spec fn cascade(self) -> Cascade {
        Cascade::ignite(self.grid, self.effects)
    }

    /// The game once the chain reaction has come to rest.
    pub open spec fn exploded(self) -> Game {
        Game {
            grid: self.cascade().settled().grid,
            effects: self.cascade().settled().effects,
            ..self
        }
    }

    /// For each player, whether the player holds a cell.
    pub open spec fn holders(self) -> Seq<bool> {
        Seq::new(self.players(), |p: int| owns_any(self.grid, p as usize))
    }

    /// The game after the check for eliminated players. While somebody has
    /// yet to enter, nothing changes. After that a player is in exactly if the
    /// player holds a cell; one player left in wins and ends the game; nobody
    /// left in ends it without a winner.
    pub open spec fn judged(self) -> Game {
        if self.entering() {
            self
        } else if count_set(self.holders()) == 1 {
            Game {
                alive: self.holders(),
                over: true,
                winner: Some(first_set(self.holders()) as usize),
                ..self
            }
        } else if count_set(self.holders()) == 0 {
            Game { alive: self.holders(), over: true, ..self }
        } else {
            Game { alive: self.holders(), ..self }
        }
    }

    /// The turn after `turn`, going round.
    pub open spec fn successor(self, turn: usize) -> usize {
        ((turn + 1) % self.players() as int) as usize
    }

    /// The first turn from `turn` on, going round, whose player is in; `turn`
    /// itself once `tries` turns have been passed over.
    pub open spec fn seek(self, turn: usize, tries: nat) -> usize
        decreases tries,
    {
        if tries == 0 || self.alive[self.order[turn as int] as int] {
            turn
        } else {
            self.seek(self.successor(turn), (tries - 1) as nat)
        }
    }

    /// The game handed to the next player who is in. A game that has ended
    /// stays with the player who moved last.
    pub open spec fn advanced(self) -> Game {
        if self.over {
            self
        } else {
            Game { turn: self.seek(self.successor(self.turn), self.players()), ..self }
        }
    }

    /// The game after the player to move has tried (`row`, `col`): unchanged
    /// if the placement does not count; otherwise the tile is placed, the
    /// chain reaction runs to rest, eliminated players are found, and the turn
    /// passes on unless the game has just ended.
    pub open spec fn place_tile(self, row: usize, col: usize) -> Game {
        if self.legal(row, col) {
            self.placed(row, col).exploded().judged().advanced()
        } else {
            self
        }
    }

    /// The placement can be carried out: the cell is on the board, and if the
    /// placement counts, the cell can take the charge and the chain reaction
    /// that follows comes to rest.
    pub open spec fn admits(self, row: usize, col: usize) -> bool {
        &&& row < self.rows()
        &&& col < self.cols()
        &&& self.legal(row, col) ==> {
            &&& self.first_move_done[self.current_player() as int]
                ==> self.grid[row as int][col as int].power < u8::MAX
            &&& self.placed(row, col).cascade().settles()
        }
    }

    /// The same, with the chain reaction at rest within `budget` explosions.
    pub open spec fn admits_within(self, row: usize, col: usize, budget: nat) -> bool {
        &&& row < self.rows()
        &&& col < self.cols()
        &&& self.legal(row, col) ==> {
            &&& self.first_move_done[self.current_player() as int]
                ==> self.grid[row as int][col as int].power < u8::MAX
            &&& self.placed(row, col).cascade().settles_in(budget)
        }
    }

    /// What an attempt at (`row`, `col`) with room for `budget` explosions
    /// comes to.
    pub open spec fn outcome(self, row: usize, col: usize, budget: nat) -> Placement {
        if !(row < self.rows() && col < self.cols()) {
            Placement::OffBoard
        } else if !self.legal(row, col) {
            Placement::Ignored
        } else if self.admits_within(row, col, budget) {
            Placement::Played
        } else {
            Placement::Unsettled
        }
    }
}

/// How many turns it takes to get from the turn `from` to the turn `to`,
/// going round a turn order of `lap` turns.
pub open spec fn distance(from: int, to: int, lap: int) -> int {
    if to >= from {
        to - from
    } else {
        to + lap - from
    }
}

/// The turn after `turn` is the next one, or the first one after the last.
pub proof fn lemma_successor(turn: usize, players: usize)
    requires
        turn < players,
    ensures
        (turn + 1) % (players as int) == if turn + 1 < players {
            turn + 1
        } else {
            0
        },
{
    if turn + 1 < players {
        vstd::arithmetic::div_mod::lemma_small_mod((turn + 1) as nat, players as nat);
    } else {
        vstd::arithmetic::div_mod::lemma_mod_self_0(players as int);
    }
}

/// The first flag that is set is at one position only.
pub proof fn lemma_first_set(flags: Seq<bool>, at: int)
    requires
        is_first_set(flags, at),
    ensures
        first_set(flags) == at,
{
}

/// The count is zero exactly if no flag is set.
pub proof fn lemma_count_set_zero(flags: Seq<bool>)
    ensures
        count_set(flags) == 0 <==> forall|i: int| 0 <= i < flags.len() ==> !flags[i],
    decreases flags.len(),
{
    if flags.len() > 0 {
        let shorter = flags.drop_last();
        lemma_count_set_zero(shorter);
        if count_set(flags) == 0 {
            assert forall|i: int| 0 <= i < flags.len() implies !flags[i] by {
                if i < shorter.len() {
                    assert(shorter[i] == flags[i]);
                }
            }
        }
    }
}

/// `at` is the position of the one flag that is set.
pub open spec fn is_only_set(flags: Seq<bool>, at: int) -> bool {
    &&& 0 <= at < flags.len()
    &&& flags[at]
    &&& forall|i: int| 0 <= i < flags.len() && i != at ==> !flags[i]
}

/// Where one flag is set and no other, the count is one.
pub proof fn lemma_only_set_counts_one(flags: Seq<bool>, at: int)
    requires
        is_only_set(flags, at),
    ensures
        count_set(flags) == 1,
    decreases flags.len(),
{
    let shorter = flags.drop_last();
    if at == flags.len() - 1 {
        lemma_count_set_zero(shorter);
    } else {
        lemma_only_set_counts_one(shorter, at);
    }
}

/// Where the count is one, one flag is set and no other.
pub proof fn lemma_count_one_only_set(flags: Seq<bool>) -> (at: int)
    requires
        count_set(flags) == 1,
    ensures
        is_only_set(flags, at),
    decreases flags.len(),
{
    let shorter = flags.drop_last();
    let end = flags.len() - 1;
    if flags.last() {
        lemma_count_set_zero(shorter);
        assert forall|i: int| 0 <= i < flags.len() && i != end implies !flags[i] by {
            assert(shorter[i] == flags[i]);
        }
        end
    } else {
        let at = lemma_count_one_only_set(shorter);
        assert forall|i: int| 0 <= i < flags.len() && i != at implies !flags[i] by {
            if i < end {
                assert(shorter[i] == flags[i]);
            }
        }
        at
    }
}

} // verus!
