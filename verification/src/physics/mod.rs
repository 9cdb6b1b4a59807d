//! Client-side physics: colliders, debris, fracture and the walking character.
//! What is decided here is derived from the world and never flows back into it.

pub mod character;
pub mod collider_gen;
pub mod config;
pub mod debris;
pub mod debris_stream;
pub mod defaults;
pub mod fracture;
pub mod plugin;
pub mod registry;
