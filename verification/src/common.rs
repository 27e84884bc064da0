pub mod geometry;
pub mod utils;
