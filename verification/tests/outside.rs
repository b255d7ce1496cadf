use mega_save::pornavhd::unpack::{is_packer_safe, links_from_embed_html, unpack_packer};
use mega_save::pornavhd::url::parse_post_url;
use mega_save::spankbang::url::parse_video_url;
use mega_save::wnacg::images::parse_image_urls;
use mega_save::wnacg::naming::html_unescape;
use mega_save::wnacg::pixels::{jpeg_page, ImageFailure};
use mega_save::x::media::{parse_fxtwitter, parse_vxtwitter, VideoSource};
use std::io::Cursor;

#[test]
fn url_parser_normalizes_what_it_reads() {
    let v = parse_video_url("HTTPS://JP.SpankBang.com/ABC12/play/x/?a=1").unwrap();
    assert_eq!(v.id, "abc12");
    assert_eq!(v.url, "https://jp.spankbang.com/ABC12/play/x");
}

#[test]
fn relative_image_sources_resolve_against_the_page() {
    let html = r#"<img data-src="../photos/p-3.jpg"><img src="/photos/p-1.png">"#;
    let urls = parse_image_urls(html, "https://img1.qy0.ru/base/index.html").unwrap();
    assert_eq!(
        urls,
        vec!["https://img1.qy0.ru/photos/p-1.png", "https://img1.qy0.ru/photos/p-3.jpg"]
    );
    assert!(parse_image_urls(html, "not a url").is_err());
}

#[test]
fn post_url_gets_its_trailing_slash() {
    let p = parse_post_url("pornavhd.com/2024/01/02/some-slug?ref=x#top").unwrap();
    assert_eq!(p.url, "https://pornavhd.com/2024/01/02/some-slug/");
    assert_eq!(p.slug, "some-slug");
}

#[test]
fn numeric_references_name_characters() {
    assert_eq!(html_unescape("&#x263A;&#65;&amp;lt;"), "\u{263A}A<");
    assert_eq!(html_unescape("&#xD800;|&#1114112;"), "\u{FFFD}|\u{FFFD}");
    assert_eq!(html_unescape("&#x;&#12"), "&#x;&#12");
}

#[test]
fn fxtwitter_picks_the_best_mp4_format() {
    let doc = r#"{"tweet":{"media":{"all":[
        {"type":"photo","url":"https://pbs/1.jpg"},
        {"type":"video","url":"https://fallback/v.mp4","duration":3.5,"formats":[
            {"url":"https://v/low.mp4","container":"mp4","bitrate":256000},
            {"url":"https://v/high.m3u8","container":"hls","bitrate":9000000},
            {"url":"https://v/high.mp4","container":"MP4","bitrate":2176000}]},
        {"type":"gif","url":"https://v/g.mp4"}]}}}"#;
    let v = parse_fxtwitter(doc);
    assert_eq!(v.len(), 2);
    assert_eq!(v[0].mp4_url, "https://v/high.mp4");
    assert_eq!(v[0].bitrate, 2176000);
    assert_eq!(v[0].media_index, 1);
    assert_eq!(v[0].source, VideoSource::Fxtwitter);
    assert_eq!(v[1].mp4_url, "https://v/g.mp4");
    assert_eq!(v[1].bitrate, 0);
    assert_eq!(v[1].media_index, 2);
    assert!(parse_fxtwitter("not json").is_empty());
}

#[test]
fn vxtwitter_falls_back_to_media_urls() {
    let doc = r#"{"media_extended":[{"type":"image","url":"https://p/1.jpg"}],
        "mediaURLs":["https://p/1.jpg","https://video.twimg.com/x.mp4"]}"#;
    let v = parse_vxtwitter(doc);
    assert_eq!(v.len(), 1);
    assert_eq!(v[0].mp4_url, "https://video.twimg.com/x.mp4");
    assert_eq!(v[0].media_index, 1);
    assert_eq!(v[0].source, VideoSource::Vxtwitter);
}

const HEAD: &str = "eval(function(p,a,c,k,e,d){while(c--)if(k[c])p=p.replace(new RegExp('\\\\b'+c.toString(a)+'\\\\b','g'),k[c]);return p}('";

#[test]
fn packed_player_script_unpacks_to_its_links() {
    let html = format!(
        "<script>{HEAD}0 1={{\"2\":\"3\",\"hls4\":\"/s/m.m3u8\"}};4:\"12.5\"',36,5,'var|links|hls2|https://cdn.example/a.m3u8|duration'.split('|')))</script>"
    );
    assert!(is_packer_safe(&html));
    let js = unpack_packer(&html).unwrap();
    assert_eq!(
        js,
        "var links={\"hls2\":\"https://cdn.example/a.m3u8\",\"hls4\":\"/s/m.m3u8\"};duration:\"12.5\""
    );
    let links = links_from_embed_html(&html).unwrap();
    assert_eq!(links.hls2.as_deref(), Some("https://cdn.example/a.m3u8"));
    assert_eq!(links.duration_s.as_deref(), Some("12.5"));
    assert!(unpack_packer("<html></html>").is_err());
}

#[test]
fn replacement_reads_group_references() {
    let html = format!("{HEAD}a 1 b',36,2,'|$0-$$-$1-${{0}}'.split('|')))");
    assert_eq!(unpack_packer(&html).unwrap(), "a 1-$--1 b");
}

#[test]
fn jpeg_pages_are_reencoded() {
    let img = image::RgbImage::from_pixel(4, 3, image::Rgb([10, 200, 30]));
    let mut png = Vec::new();
    image::DynamicImage::ImageRgb8(img)
        .write_to(&mut Cursor::new(&mut png), image::ImageFormat::Png)
        .unwrap();
    let page = jpeg_page(&png).unwrap();
    assert_eq!((page.width, page.height), (4, 3));
    assert_eq!(&page.jpeg[..2], &[0xFF, 0xD8]);
    assert!(matches!(jpeg_page(b"not an image"), Err(ImageFailure::Dimensions) | Err(ImageFailure::Identify)));
}
