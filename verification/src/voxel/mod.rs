pub mod cell;
pub mod chunk;
pub mod world;
