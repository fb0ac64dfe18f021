//! A turn-based territorial board game: players charge cells of a grid, a cell
//! that reaches its capacity explodes into its neighbours, and explosions
//! cascade. This crate is the simulation engine: the board, the placement
//! rules, the propagation of explosions, elimination and turn order.
//!
//! The game is described twice. `cascade` and `game` say what a chain
//! reaction and a game are, as mathematical objects; `settling`, `potential`
//! and `invariants` prove what holds of them. `propagate` and `state` are the
//! code that runs, each function tied to that description by its contract.
//! A program holds a [`state::GameState`], makes moves with
//! [`state::GameState::try_place_tile`] and reads the board back.

pub mod cascade;
pub mod cell;
pub mod error;
pub mod game;
pub mod grid;
pub mod invariants;
pub mod order;
pub mod palette;
pub mod potential;
pub mod propagate;
mod scan;
pub mod settling;
pub mod state;
