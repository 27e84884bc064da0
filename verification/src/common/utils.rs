pub mod updatable;
