//! Simulation core of a tile-grid game: a grid map, a component store keyed by
//! entity, the per-frame systems that move and select entities, the scheduler
//! that orders those systems, and the stack of scenes that drives them.
//!
//! All lengths are whole pixels and all velocities whole cells per step.

pub mod types;
pub mod vision;
pub mod map;
pub mod storage;
pub mod components;
pub mod store;
pub mod input;
pub mod resources;
pub mod network;
pub mod world;
pub mod systems;
pub mod dispatcher;
pub mod scenes;
