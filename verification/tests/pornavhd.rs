use mega_save::pornavhd::packer::{extract_hls_links, HlsLinks};
use mega_save::pornavhd::page::find_embed_url;
use mega_save::pornavhd::url::{parse_post_url, reject_non_post};

#[test]
fn parses_post() {
    let p = parse_post_url("https://pornavhd.com/2026/07/25/raikun325_20/?utm=1").unwrap();
    assert_eq!(p.slug, "raikun325_20");
    assert!(p.url.contains("pornavhd.com/2026/07/25/raikun325_20/"));
    assert!(!p.url.contains("utm"));
}

#[test]
fn rejects_category() {
    assert!(reject_non_post("https://pornavhd.com/category/myfans/").is_err());
}

#[test]
fn finds_recordplay_embed() {
    let html = r#"
        <iframe src="https://ads.example/e/xxx"></iframe>
        <iframe src="https://recordplay.biz/e/sxa7z853tvoj" width="640"></iframe>
        "#;
    let u = find_embed_url(html).unwrap();
    assert!(u.contains("recordplay.biz/e/sxa7z853tvoj"));
}

#[test]
fn unpacks_minimal_packer_shape() {
    let js = r#"var links={"hls2":"https://cdn.example/master.m3u8","hls4":"/stream/x/master.m3u8"};jwplayer("vplayer").setup({duration:"12.5"});"#;
    let l = extract_hls_links(js).unwrap();
    assert_eq!(l.hls2.as_deref(), Some("https://cdn.example/master.m3u8"));
    let (best, tag) = l.best("https://recordplay.biz").unwrap();
    assert_eq!(tag, "hls2");
    assert!(best.starts_with("https://"));
    assert_eq!(l.duration_s.as_deref(), Some("12.5"));
}

#[test]
fn hls4_absolutized() {
    let l = HlsLinks {
        hls2: None,
        hls3: None,
        hls4: Some("/stream/a/master.m3u8".into()),
        duration_s: None,
    };
    let (u, tag) = l.best("https://recordplay.biz").unwrap();
    assert_eq!(tag, "hls4");
    assert_eq!(u, "https://recordplay.biz/stream/a/master.m3u8");
}
