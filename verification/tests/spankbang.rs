use mega_save::spankbang::page::{find_media, reader_url};
use mega_save::spankbang::url::{default_filename, ensure_mp4, output_filename, parse_video_url};

#[test]
fn extracts_allowlisted_media_from_reader_markdown() {
    let document = r#"
            [Preview](https://tbv.sb-cd.com/synthetic-preview.mp4)
            [Video 1](https://vdownload-12.sb-cd.com/synthetic/video.mp4?token=example&amp;expires=1)
        "#;

    let media = find_media(document).unwrap();
    assert_eq!(media.host, "vdownload-12.sb-cd.com");
    assert!(media.url.ends_with("token=example&expires=1"));
}

#[test]
fn extracts_allowlisted_media_from_site_html() {
    let document = r#"
            <script>stream_url_1080p = 'https:\/\/vdownload-7.sb-cd.com\/synthetic\/video.mp4?token=example';</script>
        "#;

    let media = find_media(document).unwrap();
    assert_eq!(media.host, "vdownload-7.sb-cd.com");
}

#[test]
fn rejects_untrusted_mp4_hosts() {
    let document = "[Video 1](https://example.com/synthetic/video.mp4?token=example)";
    assert!(find_media(document).is_err());
}

#[test]
fn builds_reader_url_from_validated_page() {
    assert_eq!(
        reader_url("https://jp.spankbang.com/abc12/video/synthetic-example").unwrap(),
        "https://r.jina.ai/https://jp.spankbang.com/abc12/video/synthetic-example"
    );
}

#[test]
fn parses_supported_video_url_and_strips_tracking() {
    let page =
        parse_video_url("https://jp.spankbang.com/abc12/video/synthetic-example?ref=test#player")
            .unwrap();

    assert_eq!(page.id, "abc12");
    assert_eq!(page.url, "https://jp.spankbang.com/abc12/video/synthetic-example");
}

#[test]
fn rejects_non_spankbang_hosts() {
    assert!(parse_video_url("https://example.com/abc12/video/synthetic-example").is_err());
}

#[test]
fn rejects_listing_pages() {
    assert!(parse_video_url("https://spankbang.com/category/synthetic").is_err());
}

#[test]
fn creates_safe_default_filename() {
    assert_eq!(default_filename("abc12"), "abc12.mp4");
    assert_eq!(ensure_mp4("synthetic-name"), "synthetic-name.mp4");
    assert_eq!(ensure_mp4("synthetic-name.MP4"), "synthetic-name.MP4");
}

#[test]
fn rejects_names_that_are_not_basenames() {
    assert!(output_filename(Some("../synthetic"), "abc12").is_err());
    assert!(output_filename(Some("nested/synthetic"), "abc12").is_err());
    assert_eq!(output_filename(Some("synthetic"), "abc12").unwrap(), "synthetic.mp4");
}
