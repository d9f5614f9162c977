pub mod board;
pub mod game;
pub mod parse;
pub mod render;
mod rng;
