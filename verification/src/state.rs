//! The running game: the state that a program holds and the moves it makes on
//! it, each tied to what the model of the game says.

use vstd::prelude::*;
use crate::cascade::{lemma_effects_apart, Cascade, Effect};
use crate::cell::{Cell, CAPACITY, STARTING_POWER};
use crate::error::ConfigError;
use crate::game::{
    config_fault,
    distance,
    is_turn_order,
    lemma_count_set_zero,
    lemma_successor,
    size_fault,
    Game,
    Placement,
};
use crate::grid::{at_rest, blank_grid, copy_grid, grid_view, neighbors};
use crate::invariants::{lemma_initial_sound, lemma_place_tile_sound};
use crate::order::{is_valid_order, random_order};
use crate::propagate::{settle, settles_within};
use crate::scan::{any_unset, cleared, count_flags, filled, first_flag, holds_any};

verus! {

/// Whether there are more than `rows` times `cols` players.
fn outnumbers(players: usize, rows: usize, cols: usize) -> (more: bool)
    ensures
        more == (players > rows * cols),
{
    match rows.checked_mul(cols) {
        Some(cells) => players > cells,
        None => false,
    }
}

/// A game in progress.
pub struct GameState {
    grid: Vec<Vec<Cell>>,
    players: usize,
    current_player: usize,
    player_order: Vec<usize>,
    turn_number: usize,
    first_move_done: Vec<bool>,
    players_alive: Vec<bool>,
    game_over: bool,
    winner: Option<usize>,
    effects: Vec<Effect>,
}

impl View for GameState {
    type V = Game;

    closed spec fn view(&self) -> Game {
        Game {
            grid: grid_view(&self.grid),
            order: self.player_order@,
            turn: self.turn_number,
            first_move_done: self.first_move_done@,
            alive: self.players_alive@,
            over: self.game_over,
            winner: self.winner,
            effects: self.effects@,
        }
    }
}

impl GameState {
    /// The state stands for a well-formed game, and what it keeps beside the
    /// game (the number of players, the player to move) agrees with it.
    pub closed spec fn wf(&self) -> bool {
        &&& self@.wf()
        &&& self.players == self@.players()
        &&& self.current_player == self@.current_player()
    }

    /// Sets up a game on an empty board of `rows` by `cols` cells, for as many
    /// players as `order` lists, who move in that order.
    pub fn with_order(rows: usize, cols: usize, order: Vec<usize>) -> (made: Result<
        GameState,
        ConfigError,
    >)
        ensures
            match made {
                Ok(state) => {
                    &&& config_fault(rows as nat, cols as nat, order@) is None
                    &&& state.wf()
                    &&& state@ == Game::initial(rows as nat, cols as nat, order@)
                    &&& state@.sound()
                },
                Err(fault) => config_fault(rows as nat, cols as nat, order@) == Some(fault),
            },
    {
        if rows == 0 || cols == 0 {
            return Err(ConfigError::EmptyBoard);
        }
        let players = order.len();
        if players == 0 {
            return Err(ConfigError::NoPlayers);
        }
        if outnumbers(players, rows, cols) {
            return Err(ConfigError::TooManyPlayers);
        }
        if !is_valid_order(&order) {
            return Err(ConfigError::InvalidOrder);
        }
        let first = order[0];
        let state = GameState {
            grid: blank_grid(rows, cols),
            players,
            current_player: first,
            player_order: order,
            turn_number: 0,
            first_move_done: cleared(players),
            players_alive: filled(players, true),
            game_over: false,
            winner: None,
            effects: Vec::new(),
        };
        proof {
            lemma_initial_sound(rows as nat, cols as nat, order@);
        }
        Ok(state)
    }

    /// Sets up a game on an empty board of `rows` by `cols` cells for
    /// `players` players, who move in an order drawn at random.
    pub fn new(rows: usize, cols: usize, players: usize) -> (made: Result<GameState, ConfigError>)
        ensures
            match made {
                Ok(state) => {
                    &&& size_fault(rows as nat, cols as nat, players as nat) is None
                    &&& state.wf()
                    &&& state@.players() == players
                    &&& is_turn_order(state@.order)
                    &&& state@ == Game::initial(rows as nat, cols as nat, state@.order)
                    &&& state@.sound()
                },
                Err(fault) => size_fault(rows as nat, cols as nat, players as nat) == Some(fault),
            },
    {
        if rows == 0 || cols == 0 {
            return Err(ConfigError::EmptyBoard);
        }
        if players == 0 {
            return Err(ConfigError::NoPlayers);
        }
        if outnumbers(players, rows, cols) {
            return Err(ConfigError::TooManyPlayers);
        }
        let order = random_order(players);
        GameState::with_order(rows, cols, order)
    }

    /// The number of rows of the board.
    pub fn rows(&self) -> (rows: usize)
        requires
            self.wf(),
        ensures
            rows == self@.rows(),
    {
        self.grid.len()
    }

    /// The number of columns of the board.
    pub fn cols(&self) -> (cols: usize)
        requires
            self.wf(),
        ensures
            cols == self@.cols(),
    {
        self.grid[0].len()
    }

    /// The number of players the game started with.
    pub fn players(&self) -> (players: usize)
        requires
            self.wf(),
        ensures
            players == self@.players(),
    {
        self.players
    }

    /// The cell at (`row`, `col`).
    pub fn cell(&self, row: usize, col: usize) -> (cell: Cell)
        requires
            self.wf(),
            row < self@.rows(),
            col < self@.cols(),
        ensures
            cell == self@.grid[row as int][col as int],
    {
        self.grid[row][col]
    }

    /// The player to move.
    pub fn current_player(&self) -> (player: usize)
        requires
            self.wf(),
        ensures
            player == self@.current_player(),
            player < self@.players(),
    {
        self.current_player
    }

    /// Whether the game has ended.
    pub fn is_game_over(&self) -> (over: bool)
        ensures
            over == self@.over,
    {
        self.game_over
    }

    /// The player who won, if the game has ended with a winner.
    pub fn winner(&self) -> (winner: Option<usize>)
        ensures
            winner == self@.winner,
    {
        self.winner
    }

    /// Whether `player` has made a first placement.
    pub fn has_entered(&self, player: usize) -> (entered: bool)
        requires
            self.wf(),
            player < self@.players(),
        ensures
            entered == self@.first_move_done[player as int],
    {
        self.first_move_done[player]
    }

    /// The players in the order in which they move.
    pub fn player_order(&self) -> (order: &Vec<usize>)
        ensures
            order@ == self@.order,
    {
        &self.player_order
    }

    /// Whether `player` is still in the game.
    pub fn is_alive(&self, player: usize) -> (alive: bool)
        requires
            self.wf(),
            player < self@.players(),
        ensures
            alive == self@.alive[player as int],
    {
        self.players_alive[player]
    }

    /// Lists the neighbours of (`row`, `col`) on the board: above, below,
    /// left, right.
    pub fn get_neighbors(&self, row: usize, col: usize) -> (found: Vec<(usize, usize)>)
        requires
            self.wf(),
        ensures
            found@ == neighbors(self@.rows() as usize, self@.cols() as usize, row, col),
    {
        crate::grid::get_neighbors(self.grid.len(), self.grid[0].len(), row, col)
    }

    /// The power at which the cell at (`row`, `col`) explodes.
    pub fn max_capacity(&self, row: usize, col: usize) -> (capacity: u8)
        ensures
            capacity == CAPACITY,
    {
        crate::cell::max_capacity(row, col)
    }

    /// Whether a placement at (`row`, `col`) by the player to move counts.
    pub fn is_legal(&self, row: usize, col: usize) -> (legal: bool)
        requires
            self.wf(),
        ensures
            legal == self@.legal(row, col),
    {
        if self.game_over || row >= self.grid.len() || col >= self.grid[0].len() {
            return false;
        }
        assert(self@.grid[row as int].len() == self@.cols());
        let owner = self.grid[row][col].owner;
        if self.first_move_done[self.current_player] {
            owner == Some(self.current_player)
        } else {
            owner.is_none()
        }
    }

    /// Puts `cell` at (`row`, `col`), whatever was there. This is for setting
    /// up a position; it is no move of the game.
    pub fn set_cell(&mut self, row: usize, col: usize, cell: Cell)
        requires
            old(self).wf(),
            row < old(self)@.rows(),
            col < old(self)@.cols(),
        ensures
            final(self).wf(),
            final(self)@ == (Game {
                grid: old(self)@.grid.update(
                    row as int,
                    old(self)@.grid[row as int].update(col as int, cell),
                ),
                ..old(self)@
            }),
    {
        self.grid[row][col] = cell;
        proof {
            let after = old(self)@.grid.update(
                row as int,
                old(self)@.grid[row as int].update(col as int, cell),
            );
            assert(self@.grid =~= after);
        }
    }

    /// Hands over the effects recorded since they were last taken, oldest
    /// first, and starts a new record.
    pub fn take_effects(&mut self) -> (taken: Vec<Effect>)
        requires
            old(self).wf(),
        ensures
            final(self).wf(),
            taken@ == old(self)@.effects,
            final(self)@ == (Game { effects: Seq::empty(), ..old(self)@ }),
    {
        let mut taken: Vec<Effect> = Vec::new();
        std::mem::swap(&mut taken, &mut self.effects);
        taken
    }

    /// Lets every cell at capacity explode, and every cell that this brings
    /// to capacity, until the board is at rest.
    pub fn check_explosions(&mut self)
        requires
            old(self).wf(),
            old(self)@.cascade().settles(),
        ensures
            final(self).wf(),
            final(self)@ == old(self)@.exploded(),
            at_rest(final(self)@.grid),
    {
        settle(&mut self.grid, &mut self.effects);
    }

    /// Finds out who is still in the game, once everybody has entered: the
    /// players who hold a cell. One player left in wins and ends the game.
    /// Nobody left in ends the game too, without a winner: a draw.
    pub fn check_elimination(&mut self)
        requires
            old(self).wf(),
        ensures
            final(self).wf(),
            final(self)@ == old(self)@.judged(),
            old(self)@.entering() ==> final(self)@ == old(self)@,
    {
        if any_unset(&self.first_move_done) {
            return ;
        }
        let ghost holders = self@.holders();
        let players = self.players;
        for player in 0..players
            invariant
                self.wf(),
                players == self@.players(),
                self@ == (Game { alive: self@.alive, ..old(self)@ }),
                !self@.entering(),
                holders == old(self)@.holders(),
                forall|p: int| 0 <= p < player ==> self@.alive[p] == #[trigger] holders[p],
        {
            let player_has_tiles = holds_any(&self.grid, player);
            self.players_alive[player] = player_has_tiles;
        }
        assert(self@.alive =~= holders);
        let alive_count = count_flags(&self.players_alive);
        if alive_count == 1 {
            self.winner = first_flag(&self.players_alive);
            self.game_over = true;
            proof {
                lemma_count_set_zero(holders);
            }
        } else if alive_count == 0 {
            self.game_over = true;
        }
    }

    /// Hands the game to the next player who is in.
    fn advance_turn(&mut self)
        requires
            old(self).wf(),
            !old(self)@.over,
            exists|p: int| 0 <= p < old(self)@.alive.len() && old(self)@.alive[p],
        ensures
            final(self).wf(),
            final(self)@ == old(self)@.advanced(),
    {
        let ghost game = self@;
        let ghost holder = choose|p: int| 0 <= p < game.alive.len() && game.alive[p];
        proof {
            assert(game.order.contains(holder as usize));
        }
        let ghost target = choose|i: int| 0 <= i < game.order.len() && game.order[i] == holder;
        let ghost mut tries: nat = game.players();
        self.turn_number = (self.turn_number + 1) % self.players;
        self.current_player = self.player_order[self.turn_number];
        while !self.players_alive[self.current_player]
            invariant
                self.wf(),
                game.wf(),
                !game.over,
                self@ == (Game { turn: self@.turn, ..game }),
                0 <= target < game.order.len(),
                game.alive[game.order[target] as int],
                distance(self@.turn as int, target, game.players() as int) < tries,
                game.seek(self@.turn, tries) == game.seek(
                    game.successor(game.turn),
                    game.players(),
                ),
            decreases tries,
        {
            proof {
                lemma_successor(self.turn_number, self.players);
                tries = (tries - 1) as nat;
            }
            self.turn_number = (self.turn_number + 1) % self.players;
            self.current_player = self.player_order[self.turn_number];
        }
    }

    /// Places a tile for the player to move at (`row`, `col`).
    ///
    /// A player's first tile goes on a free cell and starts with a charge of
    /// 3; every later one goes on a cell of the player's own and adds one
    /// unit of charge. Any other placement is ignored, and so is every
    /// placement once the game is over. After a placement that counts, the
    /// chain reaction runs, eliminated players are found, and the turn passes
    /// to the next player who is in, unless the game has just ended.
    pub fn place_tile(&mut self, row: usize, col: usize)
        requires
            old(self).wf(),
            old(self)@.admits(row, col),
        ensures
            final(self).wf(),
            final(self)@ == old(self)@.place_tile(row, col),
            !old(self)@.legal(row, col) ==> final(self)@ == old(self)@,
            old(self)@.legal(row, col) ==> at_rest(final(self)@.grid),
            old(self)@.sound() ==> final(self)@.sound(),
    {
        proof {
            if old(self)@.sound() {
                lemma_place_tile_sound(old(self)@, row, col);
            }
        }
        if self.game_over {
            return ;
        }
        let is_first_move = !self.first_move_done[self.current_player];
        let owner = self.grid[row][col].owner;
        if (is_first_move && owner.is_none()) || (!is_first_move && owner == Some(
            self.current_player,
        )) {
            self.grid[row][col].owner = Some(self.current_player);
            if is_first_move {
                self.grid[row][col].power = STARTING_POWER;
                self.first_move_done[self.current_player] = true;
            } else {
                self.grid[row][col].power += 1;
            }
            proof {
                let placed = old(self)@.placed(row, col);
                assert forall|r: int| 0 <= r < placed.grid.len() implies #[trigger] self@.grid[r]
                    == placed.grid[r] by {}
                assert(self@.grid =~= placed.grid);
                assert(self@.first_move_done =~= placed.first_move_done);
            }
            self.check_explosions();
            self.check_elimination();
            if !self.game_over {
                proof {
                    if !self@.entering() {
                        lemma_count_set_zero(self@.alive);
                    }
                }
                self.advance_turn();
            }
        }
    }

    /// The cell that a placement by the player to move would leave at
    /// (`row`, `col`).
    fn tile(&self, row: usize, col: usize) -> (tile: Cell)
        requires
            self.wf(),
            row < self@.rows(),
            col < self@.cols(),
            self@.first_move_done[self@.current_player() as int]
                ==> self@.grid[row as int][col as int].power < u8::MAX,
        ensures
            tile == self@.tile(row, col),
    {
        Cell {
            owner: Some(self.current_player),
            power: if self.first_move_done[self.current_player] {
                self.grid[row][col].power + 1
            } else {
                STARTING_POWER
            },
        }
    }

    /// Places a tile as `place_tile` does, after making sure that the chain
    /// reaction it sets off comes to rest within `budget` explosions. Where
    /// it does not, or the position is off the board, the game is left as it
    /// was and the outcome says why.
    pub fn try_place_tile(&mut self, row: usize, col: usize, budget: usize) -> (outcome: Placement)
        requires
            old(self).wf(),
        ensures
            final(self).wf(),
            outcome == old(self)@.outcome(row, col, budget as nat),
            outcome is Played ==> final(self)@ == old(self)@.place_tile(row, col),
            !(outcome is Played) ==> final(self)@ == old(self)@,
            outcome is Played ==> at_rest(final(self)@.grid),
            old(self)@.sound() ==> final(self)@.sound(),
    {
        if row >= self.grid.len() || col >= self.grid[0].len() {
            return Placement::OffBoard;
        }
        if !self.is_legal(row, col) {
            return Placement::Ignored;
        }
        if self.first_move_done[self.current_player] && self.grid[row][col].power == u8::MAX {
            return Placement::Unsettled;
        }
        let mut scratch = copy_grid(&self.grid);
        scratch[row][col] = self.tile(row, col);
        proof {
            let placed = self@.placed(row, col);
            assert(grid_view(&scratch) =~= placed.grid);
            lemma_effects_apart(
                Cascade::ignite(placed.grid, Seq::empty()),
                placed.cascade(),
                budget as nat,
            );
        }
        if !settles_within(scratch, budget) {
            return Placement::Unsettled;
        }
        self.place_tile(row, col);
        Placement::Played
    }
}

} // verus!
