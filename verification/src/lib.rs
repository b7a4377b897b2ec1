//! Nodes of a cover tree over a metric space: how a node is built and kept
//! consistent, how a pool of points is divided between covered and uncovered
//! members, and what a node offers to a nearest-neighbour query.
//!
//! The library measures nothing itself. Whoever drives it asks the point
//! store for distances and hands them in; the library decides what follows
//! from them. Distances are single-precision floating point values held as
//! their bit patterns, and [`distance`] gives them their order.
//!
//! - [`node`]: the node, its inserts, its record and its part in a query.
//! - [`data_caches`]: the pools of covered and uncovered points.
//! - [`query_tools`]: the state of a query.
//! - [`tree_file_format`]: the record a node is stored in.
//! - [`storage`]: the small collections of a node.
//! - [`errors`]: what an insert can be refused for.

use vstd::prelude::*;

pub mod data_caches;
pub mod distance;
pub mod errors;
pub mod node;
pub mod query_tools;
pub mod storage;
pub mod tree_file_format;

verus! {

/// Identifies a point of the point store.
pub type PointIndex = u64;

/// Identifies a node: its scale index and the index of its center.
pub type NodeAddress = (i32, PointIndex);

} // verus!
