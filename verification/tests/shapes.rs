use mega_save::storage::error::StorageError;
use mega_save::spankbang::url::parse_video_url;
use mega_save::storage::op::{ensure_and_mkdir, upload_into, Op};
use mega_save::spankbang::page::find_media;
use std::path::PathBuf;
use mega_save::storage::path::RemotePath;
use mega_save::x::media::parse_fxtwitter;
use mega_save::x::url::parse_status_input;

#[test]
fn fxtwitter_takes_the_last_format_on_a_bitrate_tie() {
    let doc = r#"{"media":{"all":[{"type":"video","formats":[
        {"url":"https://v/a.mp4","bitrate":100},
        {"url":"https://v/b.mp4","bitrate":300},
        {"url":"https://v/c.mp4","bitrate":300},
        {"url":"https://v/d.mp4","bitrate":200}]}]}}"#;
    let v = parse_fxtwitter(doc);
    assert_eq!(v.len(), 1);
    assert_eq!(v[0].mp4_url, "https://v/c.mp4");
    assert_eq!(v[0].bitrate, 300);
}

#[test]
fn a_parsed_directory_names_its_remote_root() {
    let dir = RemotePath::parse("  mega  :video/r18/0/").unwrap();
    assert_eq!(dir.remote(), "mega");
    assert_eq!(dir.path(), "video/r18/0");
    let ops = ensure_and_mkdir(dir).into_ops();
    match &ops[0] {
        Op::EnsureReachable { remote_root } => assert_eq!(remote_root.as_rclone(), "mega:"),
        other => panic!("unexpected {other:?}"),
    }
}

#[test]
fn stored_paths_have_no_empty_or_dot_segments() {
    let p = RemotePath::new("mega", " //a//./b/ ").unwrap();
    assert_eq!(p.path(), "a/b");
    let root = RemotePath::new("mega", "/./").unwrap();
    assert_eq!(root.path(), "");
}

#[test]
fn status_path_words_are_not_users() {
    let r = parse_status_input("https://x.com/i/status/123").unwrap();
    assert_eq!(r.id, "123");
    assert_eq!(r.user, None);
    let r = parse_status_input("https://twitter.com/Some_User/statuses/456?s=20").unwrap();
    assert_eq!(r.id, "456");
    assert_eq!(r.user.as_deref(), Some("Some_User"));
}

#[test]
fn video_ids_are_lower_case() {
    let v = parse_video_url("https://spankbang.com/AbC12/video/title/").unwrap();
    assert_eq!(v.id, "abc12");
    assert!(!v.url.ends_with('/'));
}

#[test]
fn rclone_form_parses_back_to_the_same_path() {
    for s in ["mega:video/r18/0", "  remote :/a//./b/", "books/manga", "mega:"] {
        let p = RemotePath::parse(s).unwrap();
        assert_eq!(RemotePath::parse(&p.as_rclone()).unwrap(), p);
    }
}

#[test]
fn parse_fails_only_on_empty_input_or_a_blank_remote() {
    let msg = |r: Result<RemotePath, StorageError>| match r {
        Err(StorageError::InvalidPath(m)) => m,
        other => panic!("unexpected {other:?}"),
    };
    assert_eq!(msg(RemotePath::parse("  / ")), "empty path");
    assert_eq!(msg(RemotePath::parse(" :a/b")), "empty remote before ':'");
    assert_eq!(msg(RemotePath::parse_with_default("a/b", " : ")), "empty remote name");
    let p = RemotePath::parse_with_default("a/b", " drive: ").unwrap();
    assert_eq!(p.remote(), "drive");
    assert_eq!(p.path(), "a/b");
}

#[test]
fn media_is_the_first_allowlisted_match() {
    let document = "https://evil.example/a.mp4 https://vdownload.sb-cd.com/b.mp4 https://VDOWNLOAD-3.sb-cd.com/c.mp4";
    let media = find_media(document).unwrap();
    assert_eq!(media.url, "https://vdownload.sb-cd.com/b.mp4");
    assert_eq!(media.host, "vdownload.sb-cd.com");
    let media = find_media("https://x.example/a.mp4 https://VDOWNLOAD-3.sb-cd.com/c.mp4").unwrap();
    assert_eq!(media.host, "vdownload-3.sb-cd.com");
}

#[test]
fn fxtwitter_skips_items_without_a_video() {
    let doc = r#"{"tweet":{"media":{"all":[
        {"type":"photo","url":"https://p/1.jpg"},
        {"type":"video","formats":[{"url":"https://v/x.m3u8","container":"hls"}]},
        {"type":"gif","url":"https://v/g.mp4"}]}}}"#;
    let v = parse_fxtwitter(doc);
    assert_eq!(v.len(), 1);
    assert_eq!(v[0].media_index, 2);
    assert_eq!(v[0].mp4_url, "https://v/g.mp4");
    assert_eq!(v[0].bitrate, 0);
}

#[test]
fn upload_program_is_the_mkdir_program_then_the_upload() {
    let dir = RemotePath::parse("mega:books/manga").unwrap();
    let local = PathBuf::from("/tmp/a.pdf");
    let mut expected = ensure_and_mkdir(RemotePath::parse("mega:books/manga").unwrap()).into_ops();
    expected.push(Op::UploadFile { local: local.clone(), dest_dir: RemotePath::parse("mega:books/manga").unwrap() });
    assert_eq!(upload_into(dir, local).into_ops(), expected);
    match &expected[0] {
        Op::EnsureReachable { remote_root } => {
            assert_eq!(remote_root, &RemotePath::new("mega", "").unwrap())
        }
        other => panic!("unexpected {other:?}"),
    }
}
