use mega_save::storage::path::RemotePath;
use mega_save::storage::op::{Op, Outcome};
use mega_save::storage::rclone::{finish_capture, parse_lsl};

#[test]
fn parse_full_and_default() {
    let a = RemotePath::parse("mega:video/r18/0").unwrap();
    assert_eq!(a.remote(), "mega");
    assert_eq!(a.path(), "video/r18/0");
    assert_eq!(a.as_rclone(), "mega:video/r18/0");

    let b = RemotePath::parse("video/r18/0").unwrap();
    assert_eq!(b.as_rclone(), "mega:video/r18/0");
}

#[test]
fn join_and_parent() {
    let d = RemotePath::parse("mega:video/r18/0").unwrap();
    let f = d.join("a.mp4").unwrap();
    assert_eq!(f.as_rclone(), "mega:video/r18/0/a.mp4");
    assert_eq!(f.parent().unwrap().as_rclone(), "mega:video/r18/0");
    assert_eq!(f.name(), Some("a.mp4"));
}

#[test]
fn reject_join_traversal() {
    let d = RemotePath::parse("mega:video").unwrap();
    assert!(d.join("../x").is_err());
    assert!(d.join("a/b").is_err());
}

#[test]
fn parse_lsl_line() {
    let t = "  1183987444 2026-08-11 17:17:22.000000000 mega-save-x-e2e-cli.mp4\n";
    let v = parse_lsl(t);
    assert_eq!(v.len(), 1);
    assert_eq!(v[0].name, "mega-save-x-e2e-cli.mp4");
    assert_eq!(v[0].size, 1183987444);
}

#[test]
fn lsl_names_keep_their_spaces() {
    let v = parse_lsl("5 2026-08-11 17:17:22.000000000 my  clip.mp4\n");
    assert_eq!(v.len(), 1);
    assert_eq!(v[0].name, "my  clip.mp4");
    assert_eq!(v[0].size, 5);
}

#[test]
fn lsl_lines_without_a_name_or_size_are_skipped() {
    let v = parse_lsl("12 2026-08-11 17:17:22.000000000\nx 2026-08-11 17:17:22.0 a.mp4\n\n  7 2026-08-11 17:17:22.0 b c.mp4  \r\n");
    assert_eq!(v.len(), 1);
    assert_eq!(v[0].name, "b c.mp4");
    assert_eq!(v[0].size, 7);
}

#[test]
fn file_size_finds_a_name_with_spaces() {
    let dir = RemotePath::parse("mega:video").unwrap();
    let op = Op::FileSize { dir, name: "my  clip.mp4".to_string() };
    let out = finish_capture(&op, 0, "5 2026-08-11 17:17:22.000000000 my  clip.mp4\n", "").unwrap();
    assert!(matches!(out, Outcome::Size(Some(5))));
}
