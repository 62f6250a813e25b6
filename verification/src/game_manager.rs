//! Running games, keyed by game id, with a reverse map from each player to
//! the game they are in.

pub mod local_game_manager;
