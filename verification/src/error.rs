//! What can be wrong with the settings of a new game.

use vstd::prelude::*;

verus! {

/// Why a game could not be set up.
#[derive(Clone, Copy, Debug, PartialEq, Eq, Structural)]
pub enum ConfigError {
    /// The board has no rows or no columns.
    EmptyBoard,
    /// There is no player.
    NoPlayers,
    /// There are more players than cells, so not everybody could enter.
    TooManyPlayers,
    /// The turn order is not made of every player, each once.
    InvalidOrder,
}

impl ConfigError {
    /// The error in words.
    pub fn message(&self) -> (text: String)
        ensures
            text@ == match *self {
                ConfigError::EmptyBoard => "the board needs at least one row and one column"@,
                ConfigError::NoPlayers => "the game needs at least one player"@,
                ConfigError::TooManyPlayers => "the board has fewer cells than there are players"@,
                ConfigError::InvalidOrder => "the turn order must name every player exactly once"@,
            },
    {
        match self {
            ConfigError::EmptyBoard => {
                "the board needs at least one row and one column".to_string()
            },
            ConfigError::NoPlayers => "the game needs at least one player".to_string(),
            ConfigError::TooManyPlayers => {
                "the board has fewer cells than there are players".to_string()
            },
            ConfigError::InvalidOrder => {
                "the turn order must name every player exactly once".to_string()
            },
        }
    }
}

} // verus!
