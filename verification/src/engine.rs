pub mod application;
pub mod inputs;
pub mod render;
