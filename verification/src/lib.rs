//! Topology layer of a boundary-representation CAD kernel: edges, contours,
//! faces and the combinatorial algorithms that cut and re-assemble them.
//!
//! Points, curves and surfaces are carried as identities: the topology only
//! ever asks whether two of them are the same and flips their orientation.
//! Every geometric predicate (is a point on a curve, does it lie between two
//! others) is computed by the geometry layer and handed in as a plain value.
pub mod contains;
pub mod contour;
pub mod curve;
pub mod edge;
pub mod error;
pub mod face;
pub mod point;
pub mod regularize;
pub mod remesh;
pub mod split;
pub mod split_parts;
pub mod vertex;
pub mod volume;
