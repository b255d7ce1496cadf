//! pornavhd.com: post URLs, the embed player and its packed HLS links.

pub mod command;
pub mod packer;
pub mod page;
pub mod unpack;
pub mod url;
