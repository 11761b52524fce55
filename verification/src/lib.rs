//! Client-side logic of a voxel game: sky-sphere index generation, packed block
//! vertices, buffer memory states, draw ordering, input and surface state
//! machines, and the bookkeeping of chunk meshes.
pub mod sphere;
pub mod bits;
pub mod block_vertex;
pub mod ordering;
pub mod controller;
mod fx;
pub mod world;
pub mod inventory;
pub mod surface;
pub mod clouds;
pub mod culling;
pub mod memory_state;
pub mod post_processor;
pub mod stopwatch;
pub mod chunk_pool;
pub mod sky;
