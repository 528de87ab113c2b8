pub mod grid;
pub mod particles;
pub mod laws;
pub mod rng;
