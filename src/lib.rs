//! A small ray-casting renderer: named scene registry, nearest-hit
//! selection, and a pixel canvas with a Y-up addressing convention.
pub mod geometry;
pub mod graphics;
pub mod raster;
pub mod scene;
