pub mod biome;
pub mod chunk;
