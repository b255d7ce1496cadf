//! The SpankBang command's settings.

use vstd::prelude::*;

verus! {

/// The settings of the SpankBang command.
#[derive(Debug)]
pub struct Args {
    /// Video page URL.
    pub url: String,
    /// Destination remote path.
    pub remote: String,
    /// Output basename (default: `<video-id>.mp4`).
    pub name: Option<String>,
    /// Resolve the media URL only.
    pub dry_run: bool,
    pub keep_temp: bool,
    pub rclone: String,
    pub yt_dlp: String,
    /// yt-dlp `-f` format.
    pub format: String,
    /// yt-dlp `--concurrent-fragments`.
    pub concurrent_fragments: u32,
    pub workdir: Option<std::path::PathBuf>,
}

/// How yt-dlp is run for direct media downloads.
#[derive(Debug)]
pub struct YtDlp {
    pub bin: String,
    pub format: String,
    pub concurrent_fragments: u32,
}

} // verus!
