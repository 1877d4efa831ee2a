//! Pictures as PNG files.

use vstd::prelude::*;

verus! {

/// Why a picture cannot be written.
#[derive(Copy, Clone, Debug, PartialEq, Eq, Structural)]
pub enum PngError {
    ZeroWidth,
    ZeroHeight,
    /// The pixels do not fill the picture, or overfill it.
    BufferSize,
}

/// What is wrong with a picture of four bytes per pixel, if anything is.
pub open spec fn fault(width: u32, height: u32, bytes: nat) -> Option<PngError> {
    if width == 0 {
        Some(PngError::ZeroWidth)
    } else if height == 0 {
        Some(PngError::ZeroHeight)
    } else if bytes != 4 * width * height {
        Some(PngError::BufferSize)
    } else {
        None
    }
}

pub open spec fn big_endian(n: u32) -> Seq<u8> {
    seq![
        (n / 0x100_0000) as u8,
        (n / 0x1_0000 % 0x100) as u8,
        (n / 0x100 % 0x100) as u8,
        (n % 0x100) as u8,
    ]
}

/// How a PNG file starts: the signature, then a header chunk of 13 bytes with
/// width, height, 8 bits per sample and the colour type for RGBA, all plain.
pub open spec fn png_start(width: u32, height: u32) -> Seq<u8> {
    seq![137u8, 80, 78, 71, 13, 10, 26, 10] + seq![0u8, 0, 0, 13, 73, 72, 68, 82] + big_endian(
        width,
    ) + big_endian(height) + seq![8u8, 6, 0, 0, 0]
}

/// `png::EncodingError`, of which only its presence is used.
#[verifier::external_type_specification]
#[verifier::external_body]
pub struct ExEncodingError(png::EncodingError);

/// The PNG file that `png::Encoder` makes of a picture.
pub uninterp spec fn png_file(width: u32, height: u32, rgba: Seq<u8>) -> Seq<u8>;

/// Calls `png::Encoder` for an 8-bit RGBA picture in the sRGB colour space,
/// header and image data, into memory. It fails exactly on a picture without
/// width or height and on one whose pixels do not fill it; otherwise the bytes
/// depend on the arguments alone and start with signature and header.
#[verifier::external_body]
fn encode_rgba(width: u32, height: u32, rgba: &[u8]) -> (r: Result<Vec<u8>, png::EncodingError>)
    requires
        4 * width * height <= usize::MAX,
    ensures
        r is Ok == (fault(width, height, rgba@.len()) is None),
        r is Ok ==> r->Ok_0@ == png_file(width, height, rgba@),
        r is Ok ==> png_start(width, height).is_prefix_of(r->Ok_0@),
{
    let mut bytes: Vec<u8> = Vec::new();
    let mut encoder = png::Encoder::new(&mut bytes, width, height);
    encoder.set_color(png::ColorType::Rgba);
    encoder.set_depth(png::BitDepth::Eight);
    // The pixels come from an sRGB surface, so they are already encoded.
    encoder.set_source_srgb(png::SrgbRenderingIntent::Perceptual);
    encoder.write_header()?.write_image_data(rgba)?;
    Ok(bytes)
}

/// Checks a picture of `bytes` bytes.
pub fn check_picture(width: u32, height: u32, bytes: usize) -> (r: Option<PngError>)
    ensures
        r == fault(width, height, bytes as nat),
{
    if width == 0 {
        return Some(PngError::ZeroWidth);
    }
    if height == 0 {
        return Some(PngError::ZeroHeight);
    }
    let w: u128 = width as u128;
    let h: u128 = height as u128;
    assert(4 * w * h <= 4 * 0xffff_ffff * 0xffff_ffff && 4 * w <= 4 * 0xffff_ffff)
        by (nonlinear_arith)
        requires
            w <= 0xffff_ffff,
            h <= 0xffff_ffff,
    ;
    if bytes as u128 != 4 * w * h {
        return Some(PngError::BufferSize);
    }
    None
}

/// The PNG file of a picture in RGBA, four bytes per pixel, row by row.
pub fn encode_png(width: u32, height: u32, rgba: &[u8]) -> (r: Result<Vec<u8>, PngError>)
    ensures
        match r {
            Ok(bytes) => {
                &&& fault(width, height, rgba@.len()) is None
                &&& bytes@ == png_file(width, height, rgba@)
                &&& png_start(width, height).is_prefix_of(bytes@)
            },
            Err(e) => fault(width, height, rgba@.len()) == Some(e),
        },
{
    match check_picture(width, height, rgba.len()) {
        Some(e) => Err(e),
        None => match encode_rgba(width, height, rgba) {
            Ok(bytes) => Ok(bytes),
            Err(_) => Err(PngError::BufferSize),
        },
    }
}

/// A picture is in order exactly if it has width and height and four bytes for
/// every pixel. What is wrong is told in this order: no width, no height, bytes.
pub proof fn law_whole_pictures_are_in_order(width: u32, height: u32, bytes: nat)
    ensures
        fault(width, height, bytes) is None <==> width > 0 && height > 0 && bytes == 4 * width
            * height,
        fault(width, height, bytes) == Some(PngError::ZeroWidth) <==> width == 0,
        fault(width, height, bytes) == Some(PngError::ZeroHeight) <==> width > 0 && height == 0,
{
}

} // verus!
