//! A growing collection of points of the plane that answers "which point
//! is near here?" while points are added and moved one at a time.
//!
//! Coordinates are whole numbers of grid units, a thousand to the metre.
//! Every point keeps the stable index that it was added under. For each
//! axis the cloud keeps the rank of every point along it, as a permutation
//! and its inverse; an insertion or a move splices the two arrays in place,
//! and a hit test walks only the ranks around the place that is asked for.
//!
//! - `point2d`: points, axes, exact squared distances
//! - `order`: the mathematics of one axis order, and what is proved of it
//! - `axis_index`: the order index of one axis
//! - `cloud_view`: what a cloud is and does, as mathematics
//! - `pointcloud2d`: the cloud
//! - `error`: the failures that a caller can recover from
//! - `toolbox`: which of a box of tools an event goes to

pub mod axis_index;
pub mod cloud_view;
pub mod error;
pub mod order;
pub mod point2d;
pub mod pointcloud2d;
pub mod toolbox;
