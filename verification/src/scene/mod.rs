//! The scene: the terrain around the viewpoint.
pub mod terrain;
