//! Image size safeguards and page images re-encoded as JPEG.

use vstd::prelude::*;

verus! {

/// Pixels allowed in one image.
pub const MAX_IMAGE_PIXELS: u64 = 20_000_000;

/// Pixels allowed over a whole work: an output-size guard that leaves room
/// for long, high-resolution works while bounding a hostile page list.
pub const MAX_TOTAL_PIXELS: u64 = 1_200_000_000;

#[derive(Debug, Clone, Copy, PartialEq, Eq, Structural)]
pub enum PixelError {
    ZeroDimensions,
    /// One image over [`MAX_IMAGE_PIXELS`]; holds its pixel count.
    ImageTooLarge(u64),
    /// The running total does not fit in 64 bits.
    TotalOverflow,
    /// The running total would pass the budget's limit; holds the limit.
    TotalTooLarge(u64),
}

impl PixelError {
    pub open spec fn spec_message(self) -> Seq<char> {
        match self {
            PixelError::ZeroDimensions => "image has zero dimensions"@,
            PixelError::ImageTooLarge(p) => "refusing to decode image with "@ + crate::text::dec_digits(
                p as nat,
            ) + " pixels (maximum is 20000000)"@,
            PixelError::TotalOverflow => "total image pixel count overflow"@,
            PixelError::TotalTooLarge(l) => "refusing to decode more than "@
                + crate::text::dec_digits(l as nat) + " total image pixels"@,
        }
    }

    pub fn message(&self) -> (m: String)
        ensures
            m@ == self.spec_message(),
    {
        match self {
            PixelError::ZeroDimensions => String::from_str("image has zero dimensions"),
            PixelError::ImageTooLarge(p) => {
                let a = crate::text::chars_of("refusing to decode image with ");
                let b = crate::text::dec_string(*p);
                let c = crate::text::chars_of(" pixels (maximum is 20000000)");
                let ab = crate::text::concat(a.as_slice(), b.as_slice());
                crate::text::string_of(crate::text::concat(ab.as_slice(), c.as_slice()).as_slice())
            },
            PixelError::TotalOverflow => String::from_str("total image pixel count overflow"),
            PixelError::TotalTooLarge(l) => {
                let a = crate::text::chars_of("refusing to decode more than ");
                let b = crate::text::dec_string(*l);
                let c = crate::text::chars_of(" total image pixels");
                let ab = crate::text::concat(a.as_slice(), b.as_slice());
                crate::text::string_of(crate::text::concat(ab.as_slice(), c.as_slice()).as_slice())
            },
        }
    }
}

/// The pixel count of an image of that size, or why it is refused.
pub open spec fn spec_image_pixels(width: u32, height: u32) -> Result<u64, PixelError> {
    if width == 0 || height == 0 {
        Err(PixelError::ZeroDimensions)
    } else if width * height > MAX_IMAGE_PIXELS {
        Err(PixelError::ImageTooLarge((width * height) as u64))
    } else {
        Ok((width * height) as u64)
    }
}

pub fn validate_image_pixels(width: u32, height: u32) -> (r: Result<u64, PixelError>)
    ensures
        r == spec_image_pixels(width, height),
{
    if width == 0 || height == 0 {
        return Err(PixelError::ZeroDimensions);
    }
    let w = width as u64;
    let h = height as u64;
    assert(w * h <= u32::MAX * u32::MAX) by (nonlinear_arith)
        requires
            w <= u32::MAX,
            h <= u32::MAX,
    ;
    let pixels = w * h;
    if pixels > MAX_IMAGE_PIXELS {
        return Err(PixelError::ImageTooLarge(pixels));
    }
    Ok(pixels)
}

/// A running count of decoded pixels, bounded by a limit.
pub struct PixelBudget {
    used: u64,
    limit: u64,
}

impl PixelBudget {
    #[verifier::type_invariant]
    spec fn within_limit(self) -> bool {
        self.used <= self.limit
    }

    pub closed spec fn used(self) -> u64 {
        self.used
    }

    pub closed spec fn limit(self) -> u64 {
        self.limit
    }

    /// An empty budget of [`MAX_TOTAL_PIXELS`].
    pub fn new() -> (b: Self)
        ensures
            b.used() == 0,
            b.limit() == MAX_TOTAL_PIXELS,
    {
        PixelBudget { used: 0, limit: MAX_TOTAL_PIXELS }
    }

    /// An empty budget of `limit` pixels.
    pub fn with_limit(limit: u64) -> (b: Self)
        ensures
            b.used() == 0,
            b.limit() == limit,
    {
        PixelBudget { used: 0, limit }
    }

    /// Counts an image of that size against the budget, refusing it (and
    /// counting nothing) when the image alone is refused or the total would
    /// pass the limit.
    pub fn consume(&mut self, width: u32, height: u32) -> (r: Result<(), PixelError>)
        ensures
            final(self).limit() == old(self).limit(),
            final(self).used() <= final(self).limit(),
            match spec_image_pixels(width, height) {
                Err(e) => r == Err::<(), PixelError>(e) && final(self).used() == old(self).used(),
                Ok(p) => if old(self).used() + p > u64::MAX {
                    r == Err::<(), PixelError>(PixelError::TotalOverflow) && final(self).used()
                        == old(self).used()
                } else if old(self).used() + p > old(self).limit() {
                    r == Err::<(), PixelError>(PixelError::TotalTooLarge(old(self).limit()))
                        && final(self).used() == old(self).used()
                } else {
                    r is Ok && final(self).used() == old(self).used() + p
                },
            },
    {
        proof {
            use_type_invariant(&*self);
        }
        let pixels = match validate_image_pixels(width, height) {
            Ok(p) => p,
            Err(e) => return Err(e),
        };
        let total = match self.used.checked_add(pixels) {
            Some(t) => t,
            None => return Err(PixelError::TotalOverflow),
        };
        if total > self.limit {
            return Err(PixelError::TotalTooLarge(self.limit));
        }
        self.used = total;
        Ok(())
    }
}

// ---------------------------------------------------------------------------
// Page images
// ---------------------------------------------------------------------------

/// An image re-encoded as an RGB JPEG, with its size.
#[derive(Debug)]
pub struct JpegPage {
    pub width: u32,
    pub height: u32,
    pub jpeg: Vec<u8>,
}

#[derive(Debug, Clone, Copy, PartialEq, Eq, Structural)]
pub enum ImageFailure {
    /// The format could not be guessed from the bytes.
    Identify,
    /// The header gave no dimensions.
    Dimensions,
    /// The image did not decode.
    Decode,
    /// The JPEG encoder failed.
    Encode,
    /// The size was refused.
    Pixels(PixelError),
}

impl ImageFailure {
    pub fn message(&self) -> (m: String)
        ensures
            match self {
                ImageFailure::Identify => m@ == "identify supported image"@,
                ImageFailure::Dimensions => m@ == "read image dimensions"@,
                ImageFailure::Decode => m@ == "decode supported image"@,
                ImageFailure::Encode => m@ == "encode JPEG"@,
                ImageFailure::Pixels(e) => m@ == e.spec_message(),
            },
    {
        match self {
            ImageFailure::Identify => String::from_str("identify supported image"),
            ImageFailure::Dimensions => String::from_str("read image dimensions"),
            ImageFailure::Decode => String::from_str("decode supported image"),
            ImageFailure::Encode => String::from_str("encode JPEG"),
            ImageFailure::Pixels(e) => e.message(),
        }
    }
}

/// What `image::ImageReader::with_guessed_format` and `into_dimensions`
/// make of some bytes: the size its header declares, or which step failed.
pub uninterp spec fn image_header(bytes: Seq<u8>) -> Result<(u32, u32), ImageFailure>;

/// What decoding some bytes with `image::load_from_memory`, converting to
/// RGB8 and encoding with `JpegEncoder::new_with_quality(_, 92)` gives: the
/// decoded size and the JPEG bytes (`None` where the encoder failed); `None`
/// where decoding failed.
pub uninterp spec fn image_reencoded(bytes: Seq<u8>) -> Option<(u32, u32, Option<Seq<u8>>)>;

/// `image::ImageReader::new(Cursor::new(bytes)).with_guessed_format()` then
/// `into_dimensions()`. Only the name `image_header` ties the result to the
/// bytes.
#[verifier::external_body]
fn read_image_header(bytes: &[u8]) -> (r: Result<(u32, u32), ImageFailure>)
    ensures
        r == image_header(bytes@),
{
    let reader = image::ImageReader::new(std::io::Cursor::new(bytes)).with_guessed_format().map_err(
        |_| ImageFailure::Identify,
    )?;
    reader.into_dimensions().map_err(|_| ImageFailure::Dimensions)
}

/// `image::load_from_memory`, `to_rgb8`, `dimensions`, and a quality-92
/// `JpegEncoder` run on the RGB image. Only the name `image_reencoded` ties
/// the result to the bytes.
#[verifier::external_body]
fn reencode_as_jpeg(bytes: &[u8]) -> (r: Option<(u32, u32, Option<Vec<u8>>)>)
    ensures
        match r {
            Some((w, h, j)) => image_reencoded(bytes@) == Some(
                (
                    w,
                    h,
                    match j {
                        Some(v) => Some(v@),
                        None => None,
                    },
                ),
            ),
            None => image_reencoded(bytes@) is None,
        },
{
    let rgb = image::load_from_memory(bytes).ok()?.to_rgb8();
    let (width, height) = rgb.dimensions();
    let mut jpeg = Vec::new();
    let encoded = image::codecs::jpeg::JpegEncoder::new_with_quality(&mut jpeg, 92).encode_image(
        &image::DynamicImage::ImageRgb8(rgb),
    );
    Some((width, height, encoded.ok().map(|_| jpeg)))
}

/// What becomes of an image file as a PDF page: its header size is checked
/// before decoding, the decoded size again before its JPEG is used.
pub open spec fn spec_jpeg_page(bytes: Seq<u8>) -> Result<(u32, u32, Seq<u8>), ImageFailure> {
    match image_header(bytes) {
        Err(e) => Err(e),
        Ok((w, h)) => match spec_image_pixels(w, h) {
            Err(e) => Err(ImageFailure::Pixels(e)),
            Ok(_) => match image_reencoded(bytes) {
                None => Err(ImageFailure::Decode),
                Some((w2, h2, j)) => match spec_image_pixels(w2, h2) {
                    Err(e) => Err(ImageFailure::Pixels(e)),
                    Ok(_) => match j {
                        None => Err(ImageFailure::Encode),
                        Some(jpeg) => Ok((w2, h2, jpeg)),
                    },
                },
            },
        },
    }
}

/// Decodes a page image (within the pixel limits) and re-encodes it as an
/// RGB JPEG.
pub fn jpeg_page(bytes: &[u8]) -> (r: Result<JpegPage, ImageFailure>)
    ensures
        match r {
            Ok(p) => spec_jpeg_page(bytes@) == Ok::<(u32, u32, Seq<u8>), ImageFailure>(
                (p.width, p.height, p.jpeg@),
            ),
            Err(e) => spec_jpeg_page(bytes@) == Err::<(u32, u32, Seq<u8>), ImageFailure>(e),
        },
{
    let (w, h) = match read_image_header(bytes) {
        Ok(d) => d,
        Err(e) => return Err(e),
    };
    match validate_image_pixels(w, h) {
        Ok(_) => {},
        Err(e) => return Err(ImageFailure::Pixels(e)),
    }
    let (w2, h2, j) = match reencode_as_jpeg(bytes) {
        Some(x) => x,
        None => return Err(ImageFailure::Decode),
    };
    match validate_image_pixels(w2, h2) {
        Ok(_) => {},
        Err(e) => return Err(ImageFailure::Pixels(e)),
    }
    match j {
        Some(jpeg) => Ok(JpegPage { width: w2, height: h2, jpeg }),
        None => Err(ImageFailure::Encode),
    }
}

} // verus!
