use mega_save::ytdlp::{media_download_args, youtube_inspect_args, youtube_mp3_args};

#[test]
fn media_download_runs_with_retries_and_referer() {
    let args = media_download_args("bv*+ba/b", 8, "/tmp/a.mp4", "https://ref.example/", "https://cdn.example/x.m3u8");
    assert_eq!(
        args,
        vec![
            "--no-playlist", "-f", "bv*+ba/b", "-o", "/tmp/a.mp4", "--no-overwrites", "--newline",
            "--concurrent-fragments", "8", "--retries", "10", "--fragment-retries", "10",
            "--referer", "https://ref.example/", "--merge-output-format", "mp4",
            "https://cdn.example/x.m3u8",
        ]
    );
}

#[test]
fn youtube_inspection_prints_metadata_only() {
    let args = youtube_inspect_args("node", "https://youtu.be/PmkN1iH4Ci4");
    assert_eq!(
        args,
        vec![
            "--no-playlist", "--js-runtimes", "node", "--extractor-args",
            "youtube:player_client=mweb", "--skip-download", "--print",
            "title=%(title)s id=%(id)s duration_s=%(duration)s", "https://youtu.be/PmkN1iH4Ci4",
        ]
    );
}

#[test]
fn youtube_audio_is_extracted_as_mp3() {
    let args = youtube_mp3_args("node", "18", "/tmp/t.mp3", "https://youtu.be/PmkN1iH4Ci4");
    assert_eq!(
        args,
        vec![
            "--no-playlist", "--js-runtimes", "node", "--extractor-args",
            "youtube:player_client=mweb", "-f", "18", "-x", "--audio-format", "mp3",
            "--audio-quality", "0", "--no-overwrites", "--newline", "-o", "/tmp/t.mp3",
            "https://youtu.be/PmkN1iH4Ci4",
        ]
    );
}
