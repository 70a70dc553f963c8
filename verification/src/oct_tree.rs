//! A dynamic octree over integer positions: the spatial index behind
//! nearest-probe and radius queries for gameplay.

pub mod bounding_box;
pub mod data_point;
pub mod octree_node;
pub mod octree;
