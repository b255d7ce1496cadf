//! WNACG public photo-slide works: URLs, page parsing, naming, retry
//! policy, pixel budget and PDF layout.

pub mod fetch;
pub mod images;
pub mod item;
pub mod naming;
pub mod pdf;
pub mod pixels;
pub mod url;
pub mod work;
