//! A compressed in-memory representation of closed paths: contours encoded as
//! flat point/flag arrays, outlines as ordered collections of contours, with
//! cached axis-aligned bounds kept exact under every mutation.

pub mod contour;
pub mod decimal;
pub mod geom;
pub mod outline;
pub mod point_index;
pub mod segment;
