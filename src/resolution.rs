//! The resolution test an image must pass to be collected.
use vstd::prelude::*;

verus! {

/// Width of the reference resolution (Full HD).
pub const FHD_WIDTH: u32 = 1920;

/// Height of the reference resolution (Full HD).
pub const FHD_HEIGHT: u32 = 1080;

/// At least Full HD in both directions, with exactly the 16:9 aspect ratio
/// of Full HD (compared by cross-multiplication, without rounding).
pub open spec fn qualifies(dimensions: (u32, u32)) -> bool {
    &&& dimensions.0 >= FHD_WIDTH
    &&& dimensions.1 >= FHD_HEIGHT
    &&& dimensions.0 * FHD_HEIGHT == dimensions.1 * FHD_WIDTH
}

/// Whether an image of the given `(width, height)` is Full HD or a larger
/// image of the same aspect ratio.
pub fn is_full_hd_or_better(dimensions: (u32, u32)) -> (r: bool)
    ensures
        r == qualifies(dimensions),
{
    let (width, height) = dimensions;
    let w = width as u64;
    let h = height as u64;
    assert(w * 1080 <= 0xffff_ffffu64 * 1080 && h * 1920 <= 0xffff_ffffu64 * 1920)
        by (nonlinear_arith)
        requires
            w <= 0xffff_ffffu64,
            h <= 0xffff_ffffu64,
    ;
    width >= FHD_WIDTH && height >= FHD_HEIGHT && w * (FHD_HEIGHT as u64) == h * (FHD_WIDTH as u64)
}

/// The `(width, height)` that the `image` crate's JPEG decoder reads from the
/// header of `bytes`, or `None` where it rejects them as a JPEG image.
pub uninterp spec fn jpeg_dimensions_of(bytes: Seq<u8>) -> Option<(u32, u32)>;

/// Relies on `image::codecs::jpeg::JpegDecoder::new` and
/// `image::ImageDecoder::dimensions`: the header is parsed from the bytes
/// alone, and a parse error comes back as `None`.
#[verifier::external_body]
fn decode_jpeg_dimensions(bytes: &[u8]) -> (r: Option<(u32, u32)>)
    ensures
        r == jpeg_dimensions_of(bytes@),
{
    match image::codecs::jpeg::JpegDecoder::new(std::io::Cursor::new(bytes)) {
        Ok(decoder) => Some(image::ImageDecoder::dimensions(&decoder)),
        Err(_) => None,
    }
}

/// A directory entry is collected when it is a regular file that decodes as
/// a JPEG image whose dimensions qualify.
pub open spec fn collectable(is_file: bool, dimensions: Option<(u32, u32)>) -> bool {
    &&& is_file
    &&& match dimensions {
        Some(d) => qualifies(d),
        None => false,
    }
}

/// Decides on an entry whose JPEG header has already been read: `dimensions`
/// is `None` where it did not decode.
pub fn should_collect_decoded(is_file: bool, dimensions: Option<(u32, u32)>) -> (r: bool)
    ensures
        r == collectable(is_file, dimensions),
{
    if !is_file {
        return false;
    }
    match dimensions {
        Some(d) => is_full_hd_or_better(d),
        None => false,
    }
}

/// Decides on an entry from its file type and its content. Content that is
/// not a JPEG image is not collected; it is never an error.
pub fn should_collect(is_file: bool, contents: &[u8]) -> (r: bool)
    ensures
        r == collectable(is_file, jpeg_dimensions_of(contents@)),
{
    if !is_file {
        return false;
    }
    should_collect_decoded(is_file, decode_jpeg_dimensions(contents))
}

} // verus!
