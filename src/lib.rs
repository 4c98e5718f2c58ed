pub mod ai;
pub mod game;
pub mod gui;
