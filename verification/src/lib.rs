//! A flocking-simulation support library built around one capability:
//! answering "which agents are within a given radius of this point?".
//!
//! Agent positions are snapshots of (handle, position) pairs held by a
//! spatial partition that is rebuilt in full every simulation tick and
//! then queried once per agent. Four interchangeable partition schemes
//! are provided: a uniform cell hash, a k-d tree, an R-tree and a
//! brute-force list. All four answer exactly the same query: every
//! stored handle whose position lies within Euclidean distance `radius`
//! of the query origin, boundary included.

pub mod point;
pub mod spatial;
