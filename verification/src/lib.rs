//! The discrete core of a Monte-Carlo path tracer.
//!
//! Everything here works on integers and booleans. A real quantity along a
//! ray (a distance, a coordinate) enters as its *rank*: a signed 64-bit
//! integer such that ranks compare exactly as the quantities they stand for
//! do. The least and the greatest rank stand for the two infinities, and
//! rank 0 for zero. `rank` assigns ranks to doubles and proves that they
//! run in the order of the doubles' values.
//!
//! Every decision the tracer takes on such quantities depends on their
//! order alone, so it is taken, and proved, on ranks: whether a range holds
//! a distance (`interval`), which root of a sphere counts (`sphere`), where a
//! ray enters a box (`cube`), which object of a scene is hit first
//! (`hittable`, `hittable_list`), and when a path of bounces ends
//! (`camera`). `rand` is the generator that the tracer draws from.

pub mod camera;
pub mod cube;
pub mod hittable;
pub mod hittable_list;
pub mod interval;
pub mod rand;
pub mod rank;
pub mod sphere;
