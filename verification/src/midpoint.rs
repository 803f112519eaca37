//! The centre of a cloud.

pub mod generate;
