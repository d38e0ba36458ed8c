//! A tile-based dungeon: procedural level generation, the play grid derived
//! from it, and the world that actors move in.

pub mod chance;
pub mod generator;
pub mod levelgenerator;
pub mod motor;
pub mod render;
pub mod world;
