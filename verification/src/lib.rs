//! The discrete core of a tank simulation on the Monte Cassino battlefield.
//!
//! * `noise` — the lattice hash behind the procedural noise textures;
//! * `layers` — collision-layer filtering;
//! * `texture` — RGBA8 texture buffers;
//! * `topology`, `mesh_layout` — index buffers of the procedural meshes;
//! * `mesh_ops` — edges, boundaries, winding and re-indexing of meshes;
//! * `terrain` — terrain classes and heightmap addressing;
//! * `controls` — decisions on input and ground contact.

pub mod noise;
pub mod layers;
pub mod texture;
pub mod topology;
pub mod mesh_layout;
pub mod mesh_ops;
pub mod terrain;
pub mod controls;
