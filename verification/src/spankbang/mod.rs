//! SpankBang: video page URLs, output names and the media URL on a page.

pub mod command;
pub mod page;
pub mod url;
