//! A grid-based raycasting engine core: an occupancy grid shared by a
//! breadth-first path finder, a Bresenham line-of-sight oracle, a DDA wall
//! ray caster and a greedy enemy steering controller, with a character
//! frame buffer for the composed view.
//!
//! Continuous positions are carried as 16.16 fixed-point integers so that
//! every geometric step is exact integer arithmetic.

pub mod bfs;
pub mod fp;
pub mod graph;
pub mod los;
pub mod map;
pub mod ray;
pub mod render;
pub mod screen;
pub mod session;
pub mod steer;
pub mod util;

pub use graph::Graph;
pub use graph::create_graph;
pub use map::GridMap;
