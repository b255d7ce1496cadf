use mega_save::wnacg::fetch::{is_access_control_status, is_retryable_status, retry_delay};
use mega_save::wnacg::images::parse_image_urls;
use mega_save::wnacg::item::parse_item_image_urls;
use mega_save::wnacg::naming::{filename_from_work_title, output_filename};
use mega_save::wnacg::pixels::PixelBudget;
use mega_save::wnacg::url::{parse_work_url, validate_image_url};
use reqwest::StatusCode;
use std::time::Duration;

#[test]
fn wnacg_parses_and_canonicalizes_work_url() {
    let work = parse_work_url("https://www.wnacg.com/photos-slide-aid-248039.html?foo=bar").unwrap();
    assert_eq!(work.aid, "248039");
    assert_eq!(work.url, "https://www.wnacg.com/photos-slide-aid-248039.html");
    assert!(parse_work_url("https://www.wnacg.com/photos-index-aid-248039.html").is_err());
    assert!(parse_work_url("https://other.example/photos-slide-aid-248039.html").is_err());
}

#[test]
fn wnacg_accepts_basename_and_preserves_pdf_extension_ux() {
    assert_eq!(output_filename("my work").unwrap(), "my work.pdf");
    assert_eq!(output_filename("MY-WORK.PDF").unwrap(), "MY-WORK.PDF");
}

#[test]
fn wnacg_rejects_unsafe_output_basenames() {
    for name in [
        "",
        "   ",
        ".",
        "..",
        "../escape",
        "nested/file",
        r"nested\\file",
        "/absolute",
        r"C:\\absolute",
    ] {
        assert!(output_filename(name).is_err(), "{name:?} should fail");
    }
}

#[test]
fn wnacg_extracts_only_work_title_without_creator_or_site_boilerplate() {
    let html = r#"<title>[ゆずや (ユズハ)] 銭湯のおねえさんと交わる、4日間の夏 (陰毛なし) [DL版] - 列表 - 紳士漫畫-專註分享漢化本子&#124;邪惡漫畫</title>"#;
    assert_eq!(
        filename_from_work_title(html).unwrap(),
        "銭湯のおねえさんと交わる、4日間の夏 (陰毛なし) [DL版].pdf"
    );
}

#[test]
fn wnacg_refuses_ambiguous_title_instead_of_falling_back_to_aid() {
    for html in [
        "<title>紳士漫畫-專註分享漢化本子</title>",
        "<title>[creator] - 列表 - 紳士漫畫</title>",
        "<title>Some work - 列表 - another site</title>",
    ] {
        assert!(filename_from_work_title(html).is_err(), "{html}");
    }
}

#[test]
fn wnacg_preserves_item_json_page_order() {
    let script = r#"mReader.initData({"page_url":["https://img1.qy0.ru/page-10.jpg","https://img1.qy0.ru/page-2.jpg","https://img1.qy0.ru/page-1.jpg",],"hidden":0});"#;
    let urls = parse_item_image_urls(script).unwrap();
    assert_eq!(
        urls,
        vec![
            "https://img1.qy0.ru/page-10.jpg",
            "https://img1.qy0.ru/page-2.jpg",
            "https://img1.qy0.ru/page-1.jpg",
        ]
    );
}

#[test]
fn wnacg_accepts_only_standard_port_wnacg_image_cdn_urls() {
    for url in [
        "https://img1.qy0.ru/photos/page-1.jpg",
        "http://img99.qy0.ru/photos/page-1.jpg",
        "https://IMG2.QY0.RU/photos/page-1.jpg",
    ] {
        assert!(validate_image_url(url).is_ok(), "{url} should be accepted");
    }
    for url in [
        "https://www.wnacg.com/photos/page-1.jpg",
        "https://img1.qy0.ru.evil.example/page-1.jpg",
        "https://img.qy0.ru/page-1.jpg",
        "https://img1.qy0.ru:444/page-1.jpg",
        "http://img1.qy0.ru:443/page-1.jpg",
        "ftp://img1.qy0.ru/page-1.jpg",
        "http://127.0.0.1/page-1.jpg",
    ] {
        assert!(validate_image_url(url).is_err(), "{url} should be rejected");
    }
}

#[test]
fn wnacg_extracts_lazy_images_in_page_order_without_duplicates() {
    let html = r#"
          <img src="/static/logo.png">
          <img data-original="https://img1.qy0.ru/pages/page-10.jpg">
          <img data-original="https://img1.qy0.ru/pages/page-2.jpg" src="/placeholder.gif">
          <img data-src="https://img1.qy0.ru/pages/page-1.jpg">
          <img data-original="https://img1.qy0.ru/pages/page-2.jpg">
          <img data-original="http://127.0.0.1/secret.jpg">
        "#;
    let urls = parse_image_urls(html, "https://www.wnacg.com/photos-slide-aid-248039.html").unwrap();
    assert_eq!(
        urls,
        vec![
            "https://img1.qy0.ru/pages/page-1.jpg",
            "https://img1.qy0.ru/pages/page-2.jpg",
            "https://img1.qy0.ru/pages/page-10.jpg",
        ]
    );
}

#[test]
fn wnacg_pixel_budget_allows_a_211_page_standard_work() {
    let mut budget = PixelBudget::with_limit(500_000_000);
    for _ in 0..211 {
        budget.consume(1_057, 1_500).unwrap();
    }
}

#[test]
fn wnacg_pixel_budget_rejects_oversized_single_or_total_images() {
    assert!(PixelBudget::with_limit(500_000_000).consume(20_001, 1_000).is_err());

    let mut budget = PixelBudget::with_limit(500_000_000);
    for _ in 0..50 {
        budget.consume(10_000, 1_000).unwrap();
    }
    assert!(budget.consume(10_000, 1_000).is_err());
}

#[test]
fn wnacg_retries_only_transient_http_statuses() {
    assert!(is_retryable_status(StatusCode::TOO_MANY_REQUESTS.as_u16()));
    assert!(is_retryable_status(StatusCode::INTERNAL_SERVER_ERROR.as_u16()));
    assert!(is_retryable_status(StatusCode::from_u16(520).unwrap().as_u16()));
    assert!(!is_retryable_status(StatusCode::BAD_REQUEST.as_u16()));
    assert!(!is_retryable_status(StatusCode::UNAUTHORIZED.as_u16()));
    assert!(!is_retryable_status(StatusCode::FORBIDDEN.as_u16()));
    assert!(!is_retryable_status(StatusCode::NOT_FOUND.as_u16()));
    assert!(is_access_control_status(StatusCode::UNAUTHORIZED.as_u16()));
    assert!(is_access_control_status(StatusCode::FORBIDDEN.as_u16()));
    assert!(is_access_control_status(StatusCode::NOT_FOUND.as_u16()));
}

#[test]
fn wnacg_retry_backoff_is_bounded_exponential() {
    assert_eq!(Duration::from_secs(retry_delay(1)), Duration::from_secs(1));
    assert_eq!(Duration::from_secs(retry_delay(2)), Duration::from_secs(2));
    assert_eq!(Duration::from_secs(retry_delay(3)), Duration::from_secs(4));
    assert_eq!(Duration::from_secs(retry_delay(4)), Duration::from_secs(8));
}

#[test]
fn fetch_retries_only_transient_http_statuses() {
    assert!(is_retryable_status(StatusCode::TOO_MANY_REQUESTS.as_u16()));
    assert!(is_retryable_status(StatusCode::INTERNAL_SERVER_ERROR.as_u16()));
    assert!(is_retryable_status(StatusCode::from_u16(520).unwrap().as_u16()));
    assert!(!is_retryable_status(StatusCode::BAD_REQUEST.as_u16()));
    assert!(!is_retryable_status(StatusCode::UNAUTHORIZED.as_u16()));
    assert!(!is_retryable_status(StatusCode::FORBIDDEN.as_u16()));
    assert!(!is_retryable_status(StatusCode::NOT_FOUND.as_u16()));
    assert!(is_access_control_status(StatusCode::UNAUTHORIZED.as_u16()));
    assert!(is_access_control_status(StatusCode::FORBIDDEN.as_u16()));
    assert!(is_access_control_status(StatusCode::NOT_FOUND.as_u16()));
}

#[test]
fn fetch_retry_backoff_is_bounded_exponential() {
    assert_eq!(Duration::from_secs(retry_delay(1)), Duration::from_secs(1));
    assert_eq!(Duration::from_secs(retry_delay(2)), Duration::from_secs(2));
    assert_eq!(Duration::from_secs(retry_delay(3)), Duration::from_secs(4));
    assert_eq!(Duration::from_secs(retry_delay(4)), Duration::from_secs(8));
}

#[test]
fn page_accepts_basename_and_preserves_pdf_extension_ux() {
    assert_eq!(output_filename("my work").unwrap(), "my work.pdf");
    assert_eq!(output_filename("MY-WORK.PDF").unwrap(), "MY-WORK.PDF");
}

#[test]
fn page_rejects_unsafe_output_basenames() {
    for name in [
        "",
        "   ",
        ".",
        "..",
        "../escape",
        "nested/file",
        r"nested\\file",
        "/absolute",
        r"C:\\absolute",
    ] {
        assert!(output_filename(name).is_err(), "{name:?} should fail");
    }
}

#[test]
fn page_extracts_only_work_title_without_creator_or_site_boilerplate() {
    let html = r#"<title>[ゆずや (ユズハ)] 銭湯のおねえさんと交わる、4日間の夏 (陰毛なし) [DL版] - 列表 - 紳士漫畫-專註分享漢化本子&#124;邪惡漫畫</title>"#;
    assert_eq!(
        filename_from_work_title(html).unwrap(),
        "銭湯のおねえさんと交わる、4日間の夏 (陰毛なし) [DL版].pdf"
    );
}

#[test]
fn page_refuses_ambiguous_title_instead_of_falling_back_to_aid() {
    for html in [
        "<title>紳士漫畫-專註分享漢化本子</title>",
        "<title>[creator] - 列表 - 紳士漫畫</title>",
        "<title>Some work - 列表 - another site</title>",
    ] {
        assert!(filename_from_work_title(html).is_err(), "{html}");
    }
}

#[test]
fn page_preserves_item_json_page_order() {
    let script = r#"mReader.initData({"page_url":["https://img1.qy0.ru/page-10.jpg","https://img1.qy0.ru/page-2.jpg","https://img1.qy0.ru/page-1.jpg",],"hidden":0});"#;
    let urls = parse_item_image_urls(script).unwrap();
    assert_eq!(
        urls,
        vec![
            "https://img1.qy0.ru/page-10.jpg",
            "https://img1.qy0.ru/page-2.jpg",
            "https://img1.qy0.ru/page-1.jpg",
        ]
    );
}

#[test]
fn page_extracts_lazy_images_in_page_order_without_duplicates() {
    let html = r#"
          <img src="/static/logo.png">
          <img data-original="https://img1.qy0.ru/pages/page-10.jpg">
          <img data-original="https://img1.qy0.ru/pages/page-2.jpg" src="/placeholder.gif">
          <img data-src="https://img1.qy0.ru/pages/page-1.jpg">
          <img data-original="https://img1.qy0.ru/pages/page-2.jpg">
          <img data-original="http://127.0.0.1/secret.jpg">
        "#;
    let urls = parse_image_urls(html, "https://www.wnacg.com/photos-slide-aid-248039.html").unwrap();
    assert_eq!(
        urls,
        vec![
            "https://img1.qy0.ru/pages/page-1.jpg",
            "https://img1.qy0.ru/pages/page-2.jpg",
            "https://img1.qy0.ru/pages/page-10.jpg",
        ]
    );
}

#[test]
fn pdf_pixel_budget_allows_a_211_page_standard_work() {
    let mut budget = PixelBudget::new();
    for _ in 0..211 {
        budget.consume(1_057, 1_500).unwrap();
    }
}

#[test]
fn pdf_pixel_budget_rejects_oversized_single_or_total_images() {
    assert!(PixelBudget::new().consume(20_001, 1_000).is_err());

    let mut budget = PixelBudget::new();
    for _ in 0..120 {
        budget.consume(10_000, 1_000).unwrap();
    }
    assert!(budget.consume(10_000, 1_000).is_err());
}

#[test]
fn url_parses_and_canonicalizes_work_url() {
    let work = parse_work_url("https://www.wnacg.com/photos-slide-aid-248039.html?foo=bar").unwrap();
    assert_eq!(work.aid, "248039");
    assert_eq!(work.url, "https://www.wnacg.com/photos-slide-aid-248039.html");
    assert!(parse_work_url("https://www.wnacg.com/photos-index-aid-248039.html").is_err());
    assert!(parse_work_url("https://other.example/photos-slide-aid-248039.html").is_err());
}

#[test]
fn url_accepts_only_standard_port_wnacg_image_cdn_urls() {
    for url in [
        "https://img1.qy0.ru/photos/page-1.jpg",
        "http://img99.qy0.ru/photos/page-1.jpg",
        "https://IMG2.QY0.RU/photos/page-1.jpg",
    ] {
        assert!(validate_image_url(url).is_ok(), "{url} should be accepted");
    }
    for url in [
        "https://www.wnacg.com/photos/page-1.jpg",
        "https://img1.qy0.ru.evil.example/page-1.jpg",
        "https://img.qy0.ru/page-1.jpg",
        "https://img1.qy0.ru:444/page-1.jpg",
        "http://img1.qy0.ru:443/page-1.jpg",
        "ftp://img1.qy0.ru/page-1.jpg",
        "http://127.0.0.1/page-1.jpg",
    ] {
        assert!(validate_image_url(url).is_err(), "{url} should be rejected");
    }
}
