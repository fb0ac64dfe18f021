//! What holds of every game played by the rules.

use vstd::prelude::*;
use crate::cascade::{exploded, lemma_ignite, lemma_settled, lemma_settled_is_run};
use crate::cell::{Cell, CAPACITY, STARTING_POWER};
use crate::game::{
    count_set,
    distance,
    is_turn_order,
    lemma_count_one_only_set,
    lemma_count_set_zero,
    lemma_only_set_counts_one,
    lemma_first_set,
    lemma_successor,
    owns_any,
    Game,
};
use crate::grid::{adjacent, at_rest, owned_cells_charged, tidy};
use crate::potential::{lemma_sparse_board_settles, lemma_sparse_board_stays_tidy, total_power};
use crate::settling::{
    lemma_lone_explosion,
    lemma_rest_settles,
    lemma_run_owned_charged,
    lemma_run_tidy,
    lemma_settled_rests,
};

verus! {

impl Game {
    /// What holds of a game from the moment it is set up, whatever is
    /// played: the board is at rest; a cell that has an owner holds charge;
    /// the game does not end before everybody has entered; while it is on,
    /// nobody has won and the player to move is in; once everybody has
    /// entered, the players who are in are those who hold a cell; and when it
    /// has ended, the winner is the one player still in, or nobody is in and
    /// nobody has won.
    pub open spec fn sound(self) -> bool {
        &&& self.wf()
        &&& at_rest(self.grid)
        &&& owned_cells_charged(self.grid)
        &&& !self.entering() ==> self.alive =~= self.holders()
        &&& self.over ==> !self.entering()
        &&& !self.over ==> self.winner is None && self.alive[self.current_player() as int]
        &&& self.over ==> match self.winner {
            Some(winner) => {
                &&& winner < self.players()
                &&& self.alive[winner as int]
                &&& forall|p: int| 0 <= p < self.players() && p != winner ==> !self.alive[p]
            },
            None => forall|p: int| 0 <= p < self.players() ==> !self.alive[p],
        }
    }

    /// The game after the placements `moves`, tried one after the other.
    pub open spec fn play(self, moves: Seq<(usize, usize)>) -> Game
        decreases moves.len(),
    {
        if moves.len() == 0 {
            self
        } else {
            self.play(moves.drop_last()).place_tile(moves.last().0, moves.last().1)
        }
    }

    /// Each of the placements `moves` can be carried out when its turn comes.
    pub open spec fn admits_all(self, moves: Seq<(usize, usize)>) -> bool
        decreases moves.len(),
    {
        moves.len() == 0 || (self.admits_all(moves.drop_last()) && self.play(
            moves.drop_last(),
        ).admits(moves.last().0, moves.last().1))
    }
}

/// Looking for the next player who is in finds one, the nearest going round,
/// if any player is in and the search may pass over enough turns.
pub proof fn lemma_seek(game: Game, turn: usize, tries: nat, target: int)
    requires
        game.wf(),
        turn < game.players(),
        0 <= target < game.players(),
        game.alive[game.order[target] as int],
        distance(turn as int, target, game.players() as int) < tries,
    ensures
        game.seek(turn, tries) < game.players(),
        game.alive[game.order[game.seek(turn, tries) as int] as int],
        distance(turn as int, game.seek(turn, tries) as int, game.players() as int) <= distance(
            turn as int,
            target,
            game.players() as int,
        ),
        forall|t: int|
            0 <= t < game.players() && distance(turn as int, t, game.players() as int) < distance(
                turn as int,
                game.seek(turn, tries) as int,
                game.players() as int,
            ) ==> !game.alive[#[trigger] game.order[t] as int],
    decreases tries,
{
    if !game.alive[game.order[turn as int] as int] {
        lemma_successor(turn, game.players() as usize);
        lemma_seek(game, game.successor(turn), (tries - 1) as nat, target);
    }
}

/// A chain reaction that settles leaves the game well formed and the board
/// at rest, with no owned cell without charge if there was none.
pub proof fn lemma_exploded(game: Game)
    requires
        game.wf(),
        game.cascade().settles(),
    ensures
        game.exploded().wf(),
        at_rest(game.exploded().grid),
        owned_cells_charged(game.grid) ==> owned_cells_charged(game.exploded().grid),
{
    let start = game.cascade();
    lemma_ignite(game.grid, game.effects);
    lemma_settled(start);
    lemma_settled_rests(game.grid, game.effects);
    if owned_cells_charged(game.grid) {
        lemma_run_owned_charged(start, choose|n: nat| start.settles_in(n));
    }
}

/// Passing the turn on keeps the game well formed and hands it to a player
/// who is in, if any player is.
pub proof fn lemma_advanced(game: Game)
    requires
        game.wf(),
        !game.over,
        exists|p: int| 0 <= p < game.alive.len() && game.alive[p],
    ensures
        game.advanced().wf(),
        game.advanced().alive[game.advanced().current_player() as int],
{
    let holder = choose|p: int| 0 <= p < game.alive.len() && game.alive[p];
    assert(game.order.contains(holder as usize));
    let target = choose|i: int| 0 <= i < game.order.len() && game.order[i] == holder;
    lemma_seek(game, game.successor(game.turn), game.players(), target);
}

/// A game that has just been set up is sound.
pub proof fn lemma_initial_sound(rows: nat, cols: nat, order: Seq<usize>)
    requires
        1 <= rows <= usize::MAX,
        1 <= cols <= usize::MAX,
        1 <= order.len() <= usize::MAX,
        is_turn_order(order),
    ensures
        Game::initial(rows, cols, order).sound(),
{
    let game = Game::initial(rows, cols, order);
    assert(!game.first_move_done[0]);
}

/// A placement leaves a sound game sound, whether it counts or not.
pub proof fn lemma_place_tile_sound(game: Game, row: usize, col: usize)
    requires
        game.sound(),
        game.admits(row, col),
    ensures
        game.place_tile(row, col).sound(),
{
    if game.legal(row, col) {
        let placed = game.placed(row, col);
        let burnt = placed.exploded();
        lemma_exploded(placed);
        let judged = burnt.judged();
        if !burnt.entering() {
            lemma_count_set_zero(burnt.holders());
            if count_set(burnt.holders()) == 1 {
                let at = lemma_count_one_only_set(burnt.holders());
                lemma_first_set(burnt.holders(), at);
            } else if count_set(burnt.holders()) >= 2 {
                lemma_advanced(judged);
            }
        }
    }
}

/// Whatever is played in a sound game, the game stays sound.
pub proof fn lemma_play_sound(game: Game, moves: Seq<(usize, usize)>)
    requires
        game.sound(),
        game.admits_all(moves),
    ensures
        game.play(moves).sound(),
    decreases moves.len(),
{
    if moves.len() > 0 {
        lemma_play_sound(game, moves.drop_last());
        lemma_place_tile_sound(game.play(moves.drop_last()), moves.last().0, moves.last().1);
    }
}

/// A player who has yet to enter can place on a free cell and nowhere else:
/// on a cell that has an owner the placement changes nothing. On a free cell
/// the tile starts with the starting charge and the player counts as
/// entered; on a board at rest nothing explodes, so that is all that happens
/// to the board.
pub proof fn lemma_first_placement(game: Game, row: usize, col: usize)
    requires
        game.wf(),
        !game.over,
        row < game.rows(),
        col < game.cols(),
        !game.first_move_done[game.current_player() as int],
    ensures
        game.legal(row, col) <==> game.grid[row as int][col as int].owner is None,
        !game.legal(row, col) ==> game.place_tile(row, col) == game,
        game.legal(row, col) ==> game.placed(row, col).grid[row as int][col as int] == (Cell {
            owner: Some(game.current_player()),
            power: STARTING_POWER,
        }),
        game.legal(row, col) && at_rest(game.grid) ==> {
            &&& game.admits(row, col)
            &&& game.place_tile(row, col).grid == game.placed(row, col).grid
            &&& game.place_tile(row, col).first_move_done[game.current_player() as int]
        },
{
    if game.legal(row, col) {
        if at_rest(game.grid) {
            let placed = game.placed(row, col);
            lemma_rest_settles(placed.grid, placed.effects);
        }
    }
}

/// A placement that brings no cell to capacity can be carried out, and
/// changes the board by that one tile.
pub proof fn lemma_quiet_placement(game: Game, row: usize, col: usize)
    requires
        game.wf(),
        game.legal(row, col),
        at_rest(game.grid),
        game.tile(row, col).power < CAPACITY,
    ensures
        game.admits(row, col),
        game.place_tile(row, col).grid == game.placed(row, col).grid,
        game.place_tile(row, col).effects == game.effects,
{
    let placed = game.placed(row, col);
    lemma_rest_settles(placed.grid, placed.effects);
}

/// A placement that brings a cell to capacity, on a board where none of the
/// cell's neighbours is one unit short of it, can be carried out: the cell
/// explodes into its neighbours and the board is at rest again.
pub proof fn lemma_single_burst_placement(game: Game, row: usize, col: usize)
    requires
        game.wf(),
        game.legal(row, col),
        at_rest(game.grid),
        game.tile(row, col).power == CAPACITY,
        forall|r: int, c: int|
            0 <= r < game.grid.len() && 0 <= c < game.grid[r].len() && adjacent(
                r,
                c,
                row as int,
                col as int,
            ) ==> (#[trigger] game.grid[r][c]).power + 1 < CAPACITY,
    ensures
        game.admits(row, col),
        game.place_tile(row, col).grid == exploded(game.placed(row, col).grid, row, col),
{
    let placed = game.placed(row, col);
    lemma_lone_explosion(placed.grid, placed.effects, row, col);
}

/// A placement keeps the board tidy, each cell with an owner exactly if it
/// holds charge, as long as no cell explodes while it is empty. Where a cell
/// is queued twice the second explosion finds it empty, and the charge it
/// hands out then has no owner.
pub proof fn lemma_place_tile_tidy(game: Game, row: usize, col: usize, n: nat)
    requires
        game.wf(),
        game.admits_within(row, col, n),
        tidy(game.grid),
        game.legal(row, col) ==> game.placed(row, col).cascade().loaded(n),
    ensures
        tidy(game.place_tile(row, col).grid),
{
    if game.legal(row, col) {
        let placed = game.placed(row, col);
        lemma_ignite(placed.grid, placed.effects);
        lemma_settled_is_run(placed.cascade(), n);
        lemma_run_tidy(placed.cascade(), n);
    }
}

/// While the board holds at most seven units of charge once the tile is
/// down, every placement can be carried out: whatever it sets off comes to
/// rest. If the board was tidy, it is tidy afterwards.
pub proof fn lemma_sparse_placement(game: Game, row: usize, col: usize)
    requires
        game.wf(),
        row < game.rows(),
        col < game.cols(),
        game.legal(row, col) ==> total_power(game.placed(row, col).grid) <= 7,
        game.legal(row, col) && game.first_move_done[game.current_player() as int]
            ==> game.grid[row as int][col as int].power < u8::MAX,
    ensures
        game.admits(row, col),
        tidy(game.grid) ==> tidy(game.place_tile(row, col).grid),
{
    if game.legal(row, col) {
        let placed = game.placed(row, col);
        lemma_sparse_board_settles(placed.grid, placed.effects);
        if tidy(game.grid) {
            lemma_sparse_board_stays_tidy(placed.grid, placed.effects);
        }
    }
}

/// A player who has entered can place on the player's own cells and nowhere
/// else: on any other cell the placement changes nothing, and the turn stays
/// with the player.
pub proof fn lemma_foreign_cell_ignored(game: Game, row: usize, col: usize)
    requires
        game.first_move_done[game.current_player() as int],
        game.grid[row as int][col as int].owner != Some(game.current_player()),
    ensures
        !game.legal(row, col),
        game.place_tile(row, col) == game,
{
}

/// While somebody has yet to enter, the check for eliminated players changes
/// nothing; so a placement that leaves somebody yet to enter ends no game,
/// names no winner and puts nobody out, whoever holds cells by then.
pub proof fn lemma_no_verdict_while_entering(game: Game, row: usize, col: usize)
    requires
        game.legal(row, col),
        game.placed(row, col).entering(),
    ensures
        game.placed(row, col).exploded().judged() == game.placed(row, col).exploded(),
        !game.place_tile(row, col).over,
        game.place_tile(row, col).winner == game.winner,
        game.place_tile(row, col).alive == game.alive,
{
}

/// Once everybody has entered, the turn never goes to a player who holds no
/// cell while the game is on.
pub proof fn lemma_turn_goes_to_a_holder(game: Game, row: usize, col: usize)
    requires
        game.sound(),
        game.admits(row, col),
        !game.place_tile(row, col).entering(),
        !game.place_tile(row, col).over,
    ensures
        owns_any(game.place_tile(row, col).grid, game.place_tile(row, col).current_player()),
{
    lemma_place_tile_sound(game, row, col);
}

/// When the turn passes on, it goes to the nearest player going round who is
/// in: everybody passed over is out.
pub proof fn lemma_turn_skips_only_the_eliminated(game: Game, passed: int)
    requires
        game.wf(),
        !game.over,
        exists|p: int| 0 <= p < game.alive.len() && game.alive[p],
        0 <= passed < game.players(),
        distance(game.successor(game.turn) as int, passed, game.players() as int) < distance(
            game.successor(game.turn) as int,
            game.advanced().turn as int,
            game.players() as int,
        ),
    ensures
        !game.alive[game.order[passed] as int],
{
    let holder = choose|p: int| 0 <= p < game.alive.len() && game.alive[p];
    assert(game.order.contains(holder as usize));
    let target = choose|i: int| 0 <= i < game.order.len() && game.order[i] == holder;
    lemma_seek(game, game.successor(game.turn), game.players(), target);
}

/// Once everybody has entered, a player who alone holds cells wins: the
/// check for eliminated players ends the game and names that player.
pub proof fn lemma_sole_holder_wins(game: Game, player: usize)
    requires
        game.wf(),
        !game.entering(),
        player < game.players(),
        owns_any(game.grid, player),
        forall|p: usize| p < game.players() && p != player ==> !owns_any(game.grid, p),
    ensures
        game.judged().over,
        game.judged().winner == Some(player),
{
    let holders = game.holders();
    lemma_only_set_counts_one(holders, player as int);
    lemma_first_set(holders, player as int);
}

/// The check for eliminated players names a winner only if that player
/// alone holds cells.
pub proof fn lemma_winner_is_sole_holder(game: Game)
    requires
        game.wf(),
        !game.entering(),
        count_set(game.holders()) == 1,
    ensures
        game.judged().over,
        game.judged().winner is Some,
        game.judged().winner->0 < game.players(),
        owns_any(game.grid, game.judged().winner->0),
        forall|p: usize|
            p < game.players() && p != game.judged().winner->0 ==> !owns_any(game.grid, p),
{
    let holders = game.holders();
    let at = lemma_count_one_only_set(holders);
    lemma_first_set(holders, at);
    assert forall|p: usize| p < game.players() && p != game.judged().winner->0 implies !owns_any(
        game.grid,
        p,
    ) by {
        assert(!holders[p as int]);
    }
}

/// A game that has ended stays as it is, whatever is tried afterwards: it
/// remains over, with the same winner.
pub proof fn lemma_over_is_final(game: Game, moves: Seq<(usize, usize)>)
    requires
        game.over,
    ensures
        game.play(moves) == game,
    decreases moves.len(),
{
    if moves.len() > 0 {
        lemma_over_is_final(game, moves.drop_last());
    }
}

} // verus!
