pub mod common;
pub mod engine;
pub mod world;
pub mod game;
pub mod player;
