//! How the players are called and coloured, and what the status line says.

use vstd::prelude::*;
use vstd::string::StringExecFns;
use crate::state::GameState;

verus! {

/// The name of a player: the first four have one.
pub open spec fn player_name(player: usize) -> Seq<char> {
    if player == 0 {
        "Red"@
    } else if player == 1 {
        "Green"@
    } else if player == 2 {
        "Blue"@
    } else if player == 3 {
        "Yellow"@
    } else {
        "Unknown"@
    }
}

/// The colour of a player as red, green and blue: the colour the player is
/// named after, white for a player without a name.
pub open spec fn player_rgb(player: usize) -> (u8, u8, u8) {
    if player == 0 {
        (255, 0, 0)
    } else if player == 1 {
        (0, 255, 0)
    } else if player == 2 {
        (0, 0, 255)
    } else if player == 3 {
        (255, 255, 0)
    } else {
        (255, 255, 255)
    }
}

/// What the status line says when it is `player`'s turn.
pub open spec fn turn_text(player: usize) -> Seq<char> {
    player_name(player) + " player's turn - Place your tile!"@
}

/// What the status line says when `player` has won.
pub open spec fn win_text(player: usize) -> Seq<char> {
    player_name(player) + " player wins!"@
}

impl GameState {
    /// The colour of `player` as red, green and blue.
    pub fn get_player_color(&self, player: usize) -> (rgb: (u8, u8, u8))
        ensures
            rgb == player_rgb(player),
    {
        match player {
            0 => (255, 0, 0),
            1 => (0, 255, 0),
            2 => (0, 0, 255),
            3 => (255, 255, 0),
            _ => (255, 255, 255),
        }
    }

    /// The name of `player`.
    pub fn get_player_name(&self, player: usize) -> (name: String)
        ensures
            name@ == player_name(player),
    {
        match player {
            0 => "Red".to_string(),
            1 => "Green".to_string(),
            2 => "Blue".to_string(),
            3 => "Yellow".to_string(),
            _ => "Unknown".to_string(),
        }
    }

    /// The player the status line is about: the winner once there is one,
    /// the player to move otherwise.
    pub fn status_player(&self) -> (player: usize)
        requires
            self.wf(),
        ensures
            player == if self@.over && self@.winner is Some {
                self@.winner->0
            } else {
                self@.current_player()
            },
    {
        if self.is_game_over() {
            if let Some(winner) = self.winner() {
                return winner;
            }
        }
        self.current_player()
    }

    /// The status line: who has won, or whose turn it is.
    pub fn status_message(&self) -> (text: String)
        requires
            self.wf(),
        ensures
            text@ == if self@.over && self@.winner is Some {
                win_text(self@.winner->0)
            } else {
                turn_text(self@.current_player())
            },
    {
        if self.is_game_over() {
            if let Some(winner) = self.winner() {
                return self.get_player_name(winner).concat(" player wins!");
            }
        }
        self.get_player_name(self.current_player()).concat(" player's turn - Place your tile!")
    }
}

} // verus!
