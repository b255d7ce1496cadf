//! The argument lists handed to yt-dlp.

use crate::storage::rclone::string_views;
use crate::text::{dec_digits, dec_string, string_of};
use vstd::prelude::*;

verus! {

/// Downloading one media URL (an HLS playlist or a direct file) to an MP4
/// at `output`, with `referer` sent and fragments fetched in parallel.
pub open spec fn spec_media_download_args(
    format: Seq<char>,
    concurrent_fragments: u32,
    output: Seq<char>,
    referer: Seq<char>,
    media_url: Seq<char>,
) -> Seq<Seq<char>> {
    seq![
        "--no-playlist"@,
        "-f"@,
        format,
        "-o"@,
        output,
        "--no-overwrites"@,
        "--newline"@,
        "--concurrent-fragments"@,
        dec_digits(concurrent_fragments as nat),
        "--retries"@,
        "10"@,
        "--fragment-retries"@,
        "10"@,
        "--referer"@,
        referer,
        "--merge-output-format"@,
        "mp4"@,
        media_url,
    ]
}

pub fn media_download_args(
    format: &str,
    concurrent_fragments: u32,
    output: &str,
    referer: &str,
    media_url: &str,
) -> (r: Vec<String>)
    ensures
        string_views(r@) == spec_media_download_args(
            format@,
            concurrent_fragments,
            output@,
            referer@,
            media_url@,
        ),
{
    let mut v: Vec<String> = Vec::new();
    v.push("--no-playlist".to_owned());
    v.push("-f".to_owned());
    v.push(format.to_owned());
    v.push("-o".to_owned());
    v.push(output.to_owned());
    v.push("--no-overwrites".to_owned());
    v.push("--newline".to_owned());
    v.push("--concurrent-fragments".to_owned());
    let n = dec_string(concurrent_fragments as u64);
    v.push(string_of(n.as_slice()));
    v.push("--retries".to_owned());
    v.push("10".to_owned());
    v.push("--fragment-retries".to_owned());
    v.push("10".to_owned());
    v.push("--referer".to_owned());
    v.push(referer.to_owned());
    v.push("--merge-output-format".to_owned());
    v.push("mp4".to_owned());
    v.push(media_url.to_owned());
    assert(string_views(v@) =~= spec_media_download_args(
        format@,
        concurrent_fragments,
        output@,
        referer@,
        media_url@,
    ));
    v
}

/// Printing a YouTube video's title, id and duration without downloading.
pub open spec fn spec_youtube_inspect_args(js_runtime: Seq<char>, video_url: Seq<char>) -> Seq<
    Seq<char>,
> {
    seq![
        "--no-playlist"@,
        "--js-runtimes"@,
        js_runtime,
        "--extractor-args"@,
        "youtube:player_client=mweb"@,
        "--skip-download"@,
        "--print"@,
        "title=%(title)s id=%(id)s duration_s=%(duration)s"@,
        video_url,
    ]
}

pub fn youtube_inspect_args(js_runtime: &str, video_url: &str) -> (r: Vec<String>)
    ensures
        string_views(r@) == spec_youtube_inspect_args(js_runtime@, video_url@),
{
    let mut v: Vec<String> = Vec::new();
    v.push("--no-playlist".to_owned());
    v.push("--js-runtimes".to_owned());
    v.push(js_runtime.to_owned());
    v.push("--extractor-args".to_owned());
    v.push("youtube:player_client=mweb".to_owned());
    v.push("--skip-download".to_owned());
    v.push("--print".to_owned());
    v.push("title=%(title)s id=%(id)s duration_s=%(duration)s".to_owned());
    v.push(video_url.to_owned());
    assert(string_views(v@) =~= spec_youtube_inspect_args(js_runtime@, video_url@));
    v
}

/// Extracting a YouTube video's audio as best-quality MP3 to the output
/// template.
pub open spec fn spec_youtube_mp3_args(
    js_runtime: Seq<char>,
    format: Seq<char>,
    output_template: Seq<char>,
    video_url: Seq<char>,
) -> Seq<Seq<char>> {
    seq![
        "--no-playlist"@,
        "--js-runtimes"@,
        js_runtime,
        "--extractor-args"@,
        "youtube:player_client=mweb"@,
        "-f"@,
        format,
        "-x"@,
        "--audio-format"@,
        "mp3"@,
        "--audio-quality"@,
        "0"@,
        "--no-overwrites"@,
        "--newline"@,
        "-o"@,
        output_template,
        video_url,
    ]
}

pub fn youtube_mp3_args(js_runtime: &str, format: &str, output_template: &str, video_url: &str) -> (r:
    Vec<String>)
    ensures
        string_views(r@) == spec_youtube_mp3_args(
            js_runtime@,
            format@,
            output_template@,
            video_url@,
        ),
{
    let mut v: Vec<String> = Vec::new();
    v.push("--no-playlist".to_owned());
    v.push("--js-runtimes".to_owned());
    v.push(js_runtime.to_owned());
    v.push("--extractor-args".to_owned());
    v.push("youtube:player_client=mweb".to_owned());
    v.push("-f".to_owned());
    v.push(format.to_owned());
    v.push("-x".to_owned());
    v.push("--audio-format".to_owned());
    v.push("mp3".to_owned());
    v.push("--audio-quality".to_owned());
    v.push("0".to_owned());
    v.push("--no-overwrites".to_owned());
    v.push("--newline".to_owned());
    v.push("-o".to_owned());
    v.push(output_template.to_owned());
    v.push(video_url.to_owned());
    assert(string_views(v@) =~= spec_youtube_mp3_args(
        js_runtime@,
        format@,
        output_template@,
        video_url@,
    ));
    v
}

} // verus!
