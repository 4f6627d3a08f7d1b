pub mod behaviour;
pub mod building;
pub mod geometry;
pub mod resources;
pub mod world;
