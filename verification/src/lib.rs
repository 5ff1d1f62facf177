//! Floor-plan analysis on an integer drawing plane: drawn objects are split
//! into wall segments, turned into drawing orders for an occupancy grid, and
//! the polygons traced from that grid become rooms with the exits that lie on
//! their boundary.

pub mod primitives;
pub mod vector;
pub mod geometry;
pub mod wall;
pub mod raster;
pub mod room;
