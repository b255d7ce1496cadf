//! One work's run: its settings, the image list to fetch, and the names of
//! its work directory and cached pages.

use crate::text::{chars_of, concat, dec_digits, dec_string, padded_dec, string_of, zero_pad};
use crate::wnacg::images::{
    lemma_sorted_counts_distinct, naturally_sorted, parse_image_urls, spec_found_images, ImagesError,
};
use crate::wnacg::item::{parse_item_image_urls, spec_item_urls, ItemFault};
use crate::wnacg::pixels::{jpeg_page, spec_jpeg_page, JpegPage};
use vstd::prelude::*;

verus! {

/// The settings of the WNACG command.
#[derive(Debug)]
pub struct Args {
    /// Public photo-slide URL.
    pub url: String,
    /// Destination remote directory.
    pub remote: String,
    /// Output basename (default: the work title).
    pub name: Option<String>,
    /// List the ordered image URLs only.
    pub dry_run: bool,
    /// Keep the PDF after upload.
    pub keep_temp: bool,
    pub rclone: String,
    /// Persistent page-cache root.
    pub workdir: Option<std::path::PathBuf>,
}

/// Images a work may have.
pub const MAX_IMAGES: usize = 1_000;

/// The reader endpoint of a work.
pub fn item_url(aid: &str) -> (r: String)
    ensures
        r@ == "https://www.wnacg.com/photos-item-aid-"@ + aid@ + ".html"@,
{
    let a = chars_of("https://www.wnacg.com/photos-item-aid-");
    let b = chars_of(aid);
    let c = chars_of(".html");
    let ab = concat(a.as_slice(), b.as_slice());
    string_of(concat(ab.as_slice(), c.as_slice()).as_slice())
}

#[derive(Debug, Clone, PartialEq, Eq)]
pub enum WorkImagesError {
    /// Neither the reader payload nor the page's HTML gave an image list.
    Images(ImagesError),
    /// No image at all.
    NoImages,
    /// More than [`MAX_IMAGES`]; holds the count.
    TooMany(usize),
}

impl WorkImagesError {
    pub fn message(&self) -> (m: String)
        ensures
            match self {
                WorkImagesError::Images(e) => m@ == e.spec_message(),
                WorkImagesError::NoImages => m@
                    == "no public work images found; the page structure may have changed or access is restricted"@,
                WorkImagesError::TooMany(n) => m@ == "refusing to process "@ + dec_digits(
                    *n as nat,
                ) + " images (maximum is 1000)"@,
            },
    {
        match self {
            WorkImagesError::Images(e) => e.message(),
            WorkImagesError::NoImages => String::from_str(
                "no public work images found; the page structure may have changed or access is restricted",
            ),
            WorkImagesError::TooMany(n) => {
                let a = chars_of("refusing to process ");
                let b = dec_string(*n as u64);
                let c = chars_of(" images (maximum is 1000)");
                let ab = concat(a.as_slice(), b.as_slice());
                string_of(concat(ab.as_slice(), c.as_slice()).as_slice())
            },
        }
    }
}

/// The images of a work: the reader payload's list when it gives one, else
/// the list read from the work page; refused when empty or longer than
/// [`MAX_IMAGES`].
pub fn work_images(item_data: &str, html: &str, work_url: &str) -> (r: Result<
    Vec<String>,
    WorkImagesError,
>)
    ensures
        match spec_item_urls(item_data@) {
            Ok(urls) => match r {
                Ok(v) => v@.map_values(|s: String| s@) == urls && 0 < urls.len() <= MAX_IMAGES,
                Err(WorkImagesError::NoImages) => urls.len() == 0,
                Err(WorkImagesError::TooMany(n)) => n == urls.len() && urls.len() > MAX_IMAGES,
                Err(WorkImagesError::Images(_)) => false,
            },
            Err(_) => match spec_found_images(html@, work_url@) {
                None => r == Err::<Vec<String>, WorkImagesError>(
                    WorkImagesError::Images(ImagesError::BadPageUrl),
                ),
                Some(Err(c)) => r matches Err(WorkImagesError::Images(ImagesError::Unresolvable(d)))
                    && d@ == c,
                Some(Ok(found)) => match r {
                    Ok(v) => naturally_sorted(v@.map_values(|s: String| s@)) && (forall|
                        x: Seq<char>,
                    | v@.map_values(|s: String| s@).contains(x) <==> found.contains(x)) && 0
                        < v.len() <= MAX_IMAGES && v.len() == found.to_set().len(),
                    Err(WorkImagesError::NoImages) => found.len() == 0,
                    Err(WorkImagesError::TooMany(n)) => n == found.to_set().len() && n
                        > MAX_IMAGES,
                    Err(WorkImagesError::Images(_)) => false,
                },
            },
        },
{
    let images = match parse_item_image_urls(item_data) {
        Ok(v) => v,
        Err(_) => match parse_image_urls(html, work_url) {
            Ok(v) => {
                proof {
                    if let Some(Ok(found)) = spec_found_images(html@, work_url@) {
                        lemma_sorted_counts_distinct(v@.map_values(|s: String| s@), found);
                    }
                }
                v
            },
            Err(e) => return Err(WorkImagesError::Images(e)),
        },
    };
    if images.len() == 0 {
        proof {
            assert(images@.map_values(|s: String| s@) =~= Seq::<Seq<char>>::empty());
            match spec_found_images(html@, work_url@) {
                Some(Ok(found)) => {
                    if found.len() > 0 {
                        assert(found.contains(found[0]));
                    }
                },
                _ => {},
            }
        }
        return Err(WorkImagesError::NoImages);
    }
    if images.len() > MAX_IMAGES {
        return Err(WorkImagesError::TooMany(images.len()));
    }
    Ok(images)
}

/// A line of the dry-run listing: the page number, four digits wide, and
/// the image URL.
pub fn dry_run_line(index: usize, image: &str) -> (r: String)
    requires
        index < usize::MAX,
    ensures
        r@ == zero_pad(dec_digits((index + 1) as nat), 4) + " "@ + image@,
{
    let n = padded_dec((index + 1) as u64, 4);
    let sp = chars_of(" ");
    let img = chars_of(image);
    let a = concat(n.as_slice(), sp.as_slice());
    string_of(concat(a.as_slice(), img.as_slice()).as_slice())
}

/// The file name of a cached page: `page-NNNN.image`.
pub fn cached_page_name(page_number: usize) -> (r: String)
    ensures
        r@ == "page-"@ + zero_pad(dec_digits(page_number as nat), 4) + ".image"@,
{
    let a = chars_of("page-");
    let n = padded_dec(page_number as u64, 4);
    let c = chars_of(".image");
    let an = concat(a.as_slice(), n.as_slice());
    string_of(concat(an.as_slice(), c.as_slice()).as_slice())
}

/// The directory of a work under an explicit work-directory root.
pub fn workdir_name(aid: &str) -> (r: String)
    ensures
        r@ == "mega-save-wnacg-"@ + aid@,
{
    crate::text::lit_then("mega-save-wnacg-", chars_of(aid).as_slice())
}

/// The prefix of a work's temporary directory.
pub fn temp_workdir_prefix(aid: &str) -> (r: String)
    ensures
        r@ == "mega-save-wnacg-"@ + aid@ + "-"@,
{
    let a = chars_of("mega-save-wnacg-");
    let b = chars_of(aid);
    let c = chars_of("-");
    let ab = concat(a.as_slice(), b.as_slice());
    string_of(concat(ab.as_slice(), c.as_slice()).as_slice())
}

/// A temporary work directory is removed when the run ends; one under an
/// explicit root is kept, so that its page cache serves a later run.
pub fn cleanup_on_drop(explicit_root: bool) -> (r: bool)
    ensures
        r == !explicit_root,
{
    !explicit_root
}

/// A cached page is reused only when it still decodes as a page image;
/// otherwise it is to be discarded.
pub fn resume_cached_page(bytes: &[u8]) -> (r: Option<JpegPage>)
    ensures
        match r {
            Some(p) => spec_jpeg_page(bytes@) == Ok::<(u32, u32, Seq<u8>), crate::wnacg::pixels::ImageFailure>(
                (p.width, p.height, p.jpeg@),
            ),
            None => spec_jpeg_page(bytes@) is Err,
        },
{
    match jpeg_page(bytes) {
        Ok(p) => Some(p),
        Err(_) => None,
    }
}

} // verus!
