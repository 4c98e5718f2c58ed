pub mod action;
pub mod board;
pub mod game_result;
pub mod game_state;
pub mod player;
mod random;
