//! The data the library works on: points, clouds, bounds and metadata.

pub mod bounds;
pub mod metadata;
pub mod pointcloud;
pub mod pointxyzrgba;

pub use bounds::Bounds;
pub use metadata::MetaData;
pub use pointcloud::{PointCloud, PointCloudSegment};
pub use pointxyzrgba::PointXyzRgba;
