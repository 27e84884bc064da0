pub mod direction;
