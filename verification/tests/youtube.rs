use mega_save::youtube::{ensure_mp3, is_youtube_url};

#[test]
fn adds_mp3_suffix_and_rejects_paths() {
    assert_eq!(ensure_mp3("track").unwrap(), "track.mp3");
    assert_eq!(ensure_mp3("track.MP3").unwrap(), "track.MP3");
    assert!(ensure_mp3("../track.mp3").is_err());
    assert!(ensure_mp3("nested/track.mp3").is_err());
}

#[test]
fn accepts_supported_youtube_hosts_only() {
    assert!(is_youtube_url("https://www.youtube.com/watch?v=PmkN1iH4Ci4"));
    assert!(is_youtube_url("https://youtu.be/PmkN1iH4Ci4"));
    assert!(!is_youtube_url("https://example.com/watch?v=PmkN1iH4Ci4"));
}
