//! A tile world and the camera that pans and zooms over it.
//!
//! `world` generates the two-band terrain grid and decides which tiles are in
//! view; `camera` holds the view origin, the zoom and the held keys, and moves
//! the origin one tick at a time.

pub mod world;
pub mod camera;
