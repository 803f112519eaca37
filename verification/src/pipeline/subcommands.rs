//! The stages of a pipeline.

pub mod lodify;
pub mod midpoint;
