pub mod block;
pub mod chunk;
pub mod generation;
