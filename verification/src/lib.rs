//! Verified core of a small downloader toolkit: URL grammars, page scraping
//! rules, naming policies and the storage-operation algebra.

pub mod text;
pub mod spankbang;
pub mod storage;
pub mod weburl;
pub mod wnacg;
pub mod pattern;
pub mod pornavhd;
pub mod json;
pub mod naming;
pub mod order;
pub mod x;
pub mod youtube;
pub mod ytdlp;
