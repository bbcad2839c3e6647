//! A routable, renderable road-network model built from raw geographic
//! survey data.
//!
//! The heart of the crate is the map construction pipeline: it projects
//! geographic coordinates onto a local plane, assigns stable identifiers to
//! intersections, expands ways into per-lane offset polylines, carves
//! intersection polygons in two passes, trims lanes at intersection
//! boundaries, and enumerates legal turns. Every stage carries a contract,
//! and the structural invariants of the finished map (no self-loop roads,
//! no orphaned intersections, deduplicated turns) are proved rather than
//! asserted at run time.

pub mod colors;
pub mod geometry;
pub mod half_map;
pub mod hider;
pub mod intersections;
pub mod lanes;
pub mod model;
pub mod raw;
pub mod trim_lines;
pub mod turns;
pub mod types;

pub use geometry::Pt2D;
