//! Turn-based simulation core for a tile-grid roguelike: procedural
//! generation of a connected playable region, a phase-gated turn scheduler,
//! and deterministic movement / attack / line-of-sight resolution on a
//! sparse grid.

pub mod assets;
pub mod assoc;
pub mod cell_map;
pub mod components;
pub mod events;
pub mod map_gen;
pub mod movement;
pub mod profile;
pub mod projectile;
pub mod reach;
pub mod rng;
pub mod tiles;
pub mod turn;
