use mega_save::pornavhd::page::find_embed_url;
use mega_save::storage::path::RemotePath;
use mega_save::wnacg::fetch::{next_step, retry_delay, AttemptResult, NextStep, HTTP_MAX_ATTEMPTS};
use mega_save::wnacg::images::parse_image_urls;
use mega_save::wnacg::naming::ensure_pdf;
use mega_save::wnacg::pdf::{PdfError, PdfLayout};
use mega_save::wnacg::pixels::{JpegPage, PixelBudget};

#[test]
fn join_then_parent_gives_the_directory_back() {
    let d = RemotePath::parse("mega:books/manga").unwrap();
    let f = d.join("work.pdf").unwrap();
    assert_eq!(f.parent().unwrap().as_rclone(), d.as_rclone());
    assert_eq!(f.name(), Some("work.pdf"));
}

#[test]
fn root_has_no_name_and_no_parent() {
    let r = RemotePath::parse("mega:").unwrap();
    assert!(r.is_root());
    assert_eq!(r.name(), None);
    assert!(r.parent().is_none());
}

#[test]
fn adding_an_extension_twice_changes_nothing() {
    for name in ["clip", "clip.mp4", "clip.MP4", "a.mp4.mp4"] {
        let once = mega_save::x::naming::ensure_mp4(name);
        assert_eq!(mega_save::x::naming::ensure_mp4(&once), once);
        let once = mega_save::pornavhd::url::ensure_mp4(name);
        assert_eq!(mega_save::pornavhd::url::ensure_mp4(&once), once);
    }
    let once = ensure_pdf("book");
    assert_eq!(once, "book.pdf");
    assert_eq!(ensure_pdf(&once), once);
}

#[test]
fn embed_choice_prefers_rank_then_least_url() {
    let html = r#"
        https://voe.example/e/zzz
        https://b-streamhg.example/e/bbb
        https://a-streamhg.example/e/aaa
        https://other.example/e/ccc
    "#;
    assert_eq!(find_embed_url(html).unwrap(), "https://a-streamhg.example/e/aaa");
    let plain = "x https://zeta.example/e/1 y https://alpha.example/e/2";
    assert_eq!(find_embed_url(plain).unwrap(), "https://alpha.example/e/2");
    assert!(find_embed_url("no player here").is_err());
}

#[test]
fn image_list_is_naturally_sorted_without_repeats() {
    let html = r#"
        <img data-src="https://img3.qy0.ru/p/b-3.png">
        <img data-src="https://img3.qy0.ru/p/a-20.webp">
        <img data-src="https://img3.qy0.ru/p/a-3.gif">
        <img data-src="https://img3.qy0.ru/p/a-3.gif">
        <img data-src="https://img3.qy0.ru/p/a-100.jpeg">
    "#;
    let urls = parse_image_urls(html, "https://www.wnacg.com/photos-slide-aid-1.html").unwrap();
    assert_eq!(
        urls,
        vec![
            "https://img3.qy0.ru/p/a-3.gif",
            "https://img3.qy0.ru/p/a-20.webp",
            "https://img3.qy0.ru/p/a-100.jpeg",
            "https://img3.qy0.ru/p/b-3.png",
        ]
    );
}

#[test]
fn no_request_is_tried_more_than_the_attempt_limit() {
    assert_eq!(HTTP_MAX_ATTEMPTS, 4);
    assert_eq!(next_step(1, AttemptResult::Status(503)), NextStep::RetryAfter(1));
    assert_eq!(next_step(3, AttemptResult::Status(429)), NextStep::RetryAfter(4));
    assert_eq!(next_step(4, AttemptResult::Status(503)), NextStep::StatusPersisted);
    assert_eq!(
        next_step(2, AttemptResult::TransportError { transient: true }),
        NextStep::RetryAfter(2)
    );
    assert_eq!(
        next_step(4, AttemptResult::TransportError { transient: true }),
        NextStep::TransportPersisted
    );
    assert_eq!(
        next_step(1, AttemptResult::TransportError { transient: false }),
        NextStep::TransportFailed
    );
    assert_eq!(next_step(1, AttemptResult::Status(404)), NextStep::Blocked);
    assert_eq!(next_step(1, AttemptResult::Status(200)), NextStep::Accept);
    assert_eq!(next_step(1, AttemptResult::Status(400)), NextStep::Accept);
}

#[test]
fn backoff_doubles_and_saturates() {
    assert_eq!(retry_delay(0), 1);
    assert_eq!(retry_delay(5), 16);
    assert_eq!(retry_delay(32), 2_147_483_648);
    assert_eq!(retry_delay(33), u32::MAX as u64);
    assert_eq!(retry_delay(u32::MAX), u32::MAX as u64);
}

#[test]
fn refused_images_count_nothing() {
    let mut budget = PixelBudget::with_limit(100);
    assert!(budget.consume(0, 5).is_err());
    assert!(budget.consume(10, 11).is_err());
    budget.consume(10, 10).unwrap();
    assert!(budget.consume(1, 1).is_err());
}

fn page(w: u32, h: u32, jpeg: &[u8]) -> JpegPage {
    JpegPage { width: w, height: h, jpeg: jpeg.to_vec() }
}

fn find(hay: &[u8], needle: &[u8]) -> bool {
    hay.windows(needle.len()).any(|w| w == needle)
}

#[test]
fn every_xref_offset_points_at_its_object() {
    let (mut layout, mut doc) = PdfLayout::create(2).unwrap();
    doc.extend(layout.add_page(page(2, 3, b"JPEGDATA1")).unwrap());
    doc.extend(layout.add_page(page(40, 50, b"JPEGDATA-TWO")).unwrap());
    assert_eq!(layout.add_page(page(1, 1, b"x")).unwrap_err(), PdfError::TooManyPages);
    let xref_at = doc.len();
    let tail = layout.finish().unwrap();
    doc.extend(tail.iter());
    let text = String::from_utf8_lossy(&doc).to_string();
    assert!(doc.starts_with(b"%PDF-1.4\n"));
    assert!(text.contains("/Count 2"));
    assert!(text.contains("/Kids [3 0 R 6 0 R ]"));
    assert!(find(&doc, b"/Length 9 >>\nstream\nJPEGDATA1\nendstream"));
    assert!(text.ends_with(&format!("startxref\n{xref_at}\n%%EOF\n")));
    let table = &text[text.find("xref\n0 9\n").unwrap()..];
    let lines: Vec<&str> = table.lines().skip(3).take(8).collect();
    for (k, line) in lines.iter().enumerate() {
        let offset: usize = line[..10].parse().unwrap();
        let head = format!("{} 0 obj\n", k + 1);
        assert_eq!(&doc[offset..offset + head.len()], head.as_bytes(), "object {}", k + 1);
    }
}

#[test]
fn a_document_must_get_all_its_pages() {
    assert!(matches!(PdfLayout::create(0), Err(PdfError::ZeroPages)));
    let (mut layout, _) = PdfLayout::create(2).unwrap();
    layout.add_page(page(1, 1, b"j")).unwrap();
    assert_eq!(layout.finish().unwrap_err(), PdfError::Incomplete(2, 1));
}
