//! Point-cloud level-of-detail partitioning, view-dependent resolution
//! selection and two-frame interpolation, on integer grid coordinates.
//!
//! Every coordinate is a signed 32-bit count of grid units; what a unit
//! measures is the caller's choice. All counts, cells and choices the library
//! makes are stated as contracts over sequences and integers.

pub mod color;
pub mod coordinate;
pub mod counts;
pub mod error;
pub mod formats;
pub mod lodify;
pub mod materials;
pub mod midpoint;
pub mod numeric;
pub mod pipeline;
pub mod ply;
pub mod render;
pub mod subsample;
pub mod utils;

pub use error::Error;
