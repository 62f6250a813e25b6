//! Core engine for a turn-based social deduction ("Mafia") game.
//!
//! The crate owns the game progression logic only: role assignment, the
//! Night / Voting / Trial / Ending phase state machine, vote tallying with
//! tie-break and stalemate rules, and the win condition.  Everything that
//! talks to a messaging transport lives outside the library and exchanges
//! plain values with it.

pub mod game;
pub mod game_manager;
pub mod lobby_manager;
mod rng;
