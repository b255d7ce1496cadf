//! X / Twitter: status references and file naming.

pub mod media;
pub mod naming;
pub mod rclone;
pub mod url;
