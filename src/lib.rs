//! Isometric sprite rendering of voxel regions: pixel rasters, texture
//! transforms, per-face compositing, and the canvas compositor.

pub mod compositor;
pub mod raster;
pub mod texture;
