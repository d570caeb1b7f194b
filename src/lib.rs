//! A spatial index over moving point entities, backed by an R*-tree.
//!
//! Coordinates are fixed-point integers: a host picks a unit (a millimetre, a
//! tile, a fraction of a world unit) and hands the index whole numbers within
//! `point::COORD_LIMIT` of the origin. Every distance is compared squared.
//!
//! - `point`: positions, entities and squared distance.
//! - `index`: one category's index and its queries and updates.
//! - `policy`: the per-frame choice between point-level patches and a rebuild.
//! - `laws`: properties that hold across several operations.

pub mod index;
pub mod laws;
pub mod point;
pub mod policy;
mod tree;

pub use index::RTreeAccess3D;
pub use point::{Coord, EntityId, COORD_LIMIT};
pub use policy::{plan_frame, FramePlan, Movement};
