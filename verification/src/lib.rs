//! Core logic of a tank-artillery game on an adaptively tessellated planet:
//! a terrain quadtree of triangular patches driven by probe distances, a
//! closed-form ballistic solver for tank aiming, a deterministic height
//! field shared by both, and an octree for spatial queries.
//!
//! All geometry is carried in fixed-point integers (thousandths of a world
//! unit), which keeps every threshold comparison exact.

pub mod math;
pub mod terrain;
pub mod triangle;
pub mod piramida;
pub mod bullet_physics;
pub mod utils;
pub mod oct_tree;
