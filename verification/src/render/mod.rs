//! Rendering decisions: strategies, caches and off-screen capture.

pub mod config;
pub mod dag_cache;
pub mod defaults;
pub mod horizon_shell;
pub mod names;
pub mod offscreen;
pub mod raymarch;
pub mod registry;
pub mod skybox;
pub mod strategy;
pub mod sun;
