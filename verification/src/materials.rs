//! Frames of points with the attributes that interpolation reads and sets.

pub mod interpolate;
pub mod order;
pub mod passes;
pub mod points;
pub mod recovery;
pub mod spatial;
pub mod transform;
