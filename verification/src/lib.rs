//! World, terrain and gameplay rules of a top-down action game, verified.

pub mod biome;
pub mod chunk;
pub mod collider;
pub mod combat;
pub mod contacts;
pub mod coords;
pub mod debug;
pub mod enemy;
pub mod grid;
pub mod layers;
pub mod mesh;
pub mod settings;
pub mod terrain;
pub mod tiles;
