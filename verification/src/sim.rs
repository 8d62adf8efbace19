//! The cellular automata rules run on every awake cell of the active grid.

pub mod balance;
pub mod biology;
pub mod biology_hydrated;
pub mod common;
pub mod creep;
pub mod fire;
pub mod granular;
pub mod liquid;
pub mod world;
