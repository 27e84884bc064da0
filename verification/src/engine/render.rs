pub mod geometry;
pub mod raycast;
pub mod mesh;
