//! Verified core of the voxel-world client.

pub mod accel;
pub mod brick_gen;
pub mod cli;
pub mod coord;
pub mod harness;
pub mod host_backend;
pub mod hud;
pub mod input;
pub mod key_map;
pub mod measure;
pub mod modes;
pub mod order;
pub mod perf;
pub mod physics;
pub mod picture;
pub mod render;
pub mod survey;
pub mod text;
pub mod ticket;
pub mod view_mode;
pub mod voxel;
pub mod world_stream;
pub mod xwd;
