//! Layout of scatter-pie charts: pies placed on a plane at data
//! coordinates, with colors, extents, pixel positions and slice geometry.
pub mod error;
pub mod palette;
pub mod table;
pub mod reshape;
pub mod extent;
pub mod layout;
pub mod slices;
pub mod chart;
