//! Remote storage: path values, the operation algebra, rclone command planning
//! and the repository that runs them.

pub mod error;
pub mod op;
pub mod path;
pub mod rclone;
pub mod repository;
