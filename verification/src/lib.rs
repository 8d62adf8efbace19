//! Cellular world simulation: bit-packed terrain cells, a toroidal active grid,
//! and the cellular automata that move liquids, granular matter and life across it.

pub mod cache;
pub mod cell;
pub mod chunk;
pub mod deform;
pub mod dirs;
pub mod flags;
pub mod materials;
pub mod observer;
pub mod overworld;
pub mod persistence;
pub mod physics;
pub mod pixel;
pub mod rng;
pub mod sim;
pub mod spatial;
pub mod stream;
pub mod terrain_gen;
pub mod window;
pub mod geom;
pub mod grid;
pub mod hash;
pub mod input;

