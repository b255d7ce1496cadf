use mega_save::wnacg::work::{work_images, WorkImagesError};

const WORK: &str = "https://www.wnacg.com/photos-slide-aid-248039.html";

#[test]
fn reader_payload_list_is_used_as_given() {
    let script = r#"mReader.initData({"page_url":["https://img1.qy0.ru/page-10.jpg","https://img1.qy0.ru/page-2.jpg"],"hidden":0});"#;
    let images = work_images(script, "", WORK).unwrap();
    assert_eq!(
        images,
        vec!["https://img1.qy0.ru/page-10.jpg", "https://img1.qy0.ru/page-2.jpg"]
    );
}

#[test]
fn page_images_are_used_without_a_reader_payload() {
    let html = r#"<img data-original="https://img1.qy0.ru/pages/page-2.jpg"><img data-src="https://img1.qy0.ru/pages/page-1.jpg"><img data-original="https://img1.qy0.ru/pages/page-2.jpg">"#;
    let images = work_images("no payload here", html, WORK).unwrap();
    assert_eq!(
        images,
        vec!["https://img1.qy0.ru/pages/page-1.jpg", "https://img1.qy0.ru/pages/page-2.jpg"]
    );
}

#[test]
fn a_work_without_images_is_refused() {
    let err = work_images("no payload here", "<p>nothing</p>", WORK).unwrap_err();
    assert_eq!(err, WorkImagesError::NoImages);
    assert_eq!(
        err.message(),
        "no public work images found; the page structure may have changed or access is restricted"
    );
}

#[test]
fn a_work_with_too_many_images_is_refused() {
    let mut html = String::new();
    for i in 0..1001 {
        html.push_str(&format!("<img data-src=\"https://img1.qy0.ru/pages/page-{i}.jpg\">"));
    }
    let err = work_images("no payload here", &html, WORK).unwrap_err();
    assert_eq!(err, WorkImagesError::TooMany(1001));
    assert_eq!(err.message(), "refusing to process 1001 images (maximum is 1000)");
}

#[test]
fn an_unreadable_page_url_is_reported() {
    let err = work_images("no payload here", "", "not a url").unwrap_err();
    assert_eq!(err.message(), "parse work page URL");
}
