//! The view modes.

pub mod blit;
pub mod edit;
pub mod edit_workers;
pub mod fp;
pub mod overview;
pub mod raster_async;
pub mod rts;
pub mod slice;
