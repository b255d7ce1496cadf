use mega_save::wnacg::pdf::PdfLayout;
use mega_save::wnacg::pixels::{jpeg_page, JpegPage};
use mega_save::wnacg::work::resume_cached_page;

fn jpeg_of_solid_image(width: u32, height: u32) -> Vec<u8> {
    let image = image::DynamicImage::ImageRgb8(image::RgbImage::from_pixel(
        width,
        height,
        image::Rgb([12, 34, 56]),
    ));
    let mut source = Vec::new();
    image::codecs::jpeg::JpegEncoder::new(&mut source)
        .encode_image(&image)
        .unwrap();
    source
}

fn one_page_document(page: JpegPage) -> Vec<u8> {
    let (mut pdf, mut bytes) = PdfLayout::create(1).unwrap();
    bytes.extend(pdf.add_page(page).unwrap());
    bytes.extend(pdf.finish().unwrap());
    bytes
}

fn contains(bytes: &[u8], needle: &[u8]) -> bool {
    bytes.windows(needle.len()).any(|window| window == needle)
}

#[test]
fn pdf_makes_a_parseable_pdf_with_one_page_per_image() {
    let page = jpeg_page(&jpeg_of_solid_image(2, 3)).unwrap();
    let bytes = one_page_document(page);
    assert!(bytes.starts_with(b"%PDF-1.4"));
    assert!(contains(&bytes, b"/Count 1"));
    assert!(contains(&bytes, b"/DCTDecode"));
}

#[test]
fn wnacg_makes_a_parseable_pdf_with_one_page_per_image() {
    let page = jpeg_page(&jpeg_of_solid_image(2, 3)).unwrap();
    let bytes = one_page_document(page);
    assert!(bytes.starts_with(b"%PDF-1.4"));
    assert!(contains(&bytes, b"/Count 1"));
    assert!(contains(&bytes, b"/DCTDecode"));
}

#[test]
fn cached_page_resumes_only_when_it_decodes() {
    let expected = jpeg_page(&jpeg_of_solid_image(2, 3)).unwrap();
    let resumed = resume_cached_page(&expected.jpeg).unwrap();
    assert_eq!((resumed.width, resumed.height), (2, 3));
    assert!(resume_cached_page(b"incomplete image").is_none());
}

#[test]
fn page_objects_carry_the_image_size() {
    let page = jpeg_page(&jpeg_of_solid_image(2, 3)).unwrap();
    let bytes = one_page_document(page);
    assert!(contains(&bytes, b"/MediaBox [0 0 2 3]"));
    assert!(contains(&bytes, b"q\n2 0 0 3 0 0 cm\n/Im1 Do\nQ\n"));
    assert!(contains(&bytes, b"trailer\n<< /Size 6 /Root 1 0 R >>"));
}
