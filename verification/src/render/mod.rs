//! What the renderer is handed: materials, vertices and meshes.
pub mod atlas;
pub mod mesh;
pub mod vertex;
