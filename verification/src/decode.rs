//! Decoding encoded image files into RGBA images with the `image` crate.

use vstd::prelude::*;
use image::ImageFormat as O;
use self::ImageFormat as F;
use crate::texture::Image;

verus! {

#[verifier::external_type_specification]
#[verifier::external_body]
pub struct ExImageError(image::ImageError);

/// An encoded image file format.
#[derive(Clone, Copy, Debug, PartialEq, Eq, Structural)]
pub enum ImageFormat {
    Png,
    Jpeg,
    Gif,
    WebP,
    Pnm,
    Tiff,
    Tga,
    Dds,
    Bmp,
    Ico,
    Hdr,
    OpenExr,
    Farbfeld,
    Avif,
    Qoi,
}

/// Why an encoded image could not be decoded.
#[derive(Clone, Debug)]
pub struct DecodeError {
    pub message: String,
}

/// Width, height and RGBA bytes that the `image` crate decodes from `bytes`
/// read as `format`, or `None` when it reports an error.
pub uninterp spec fn rgba8_decoded_as(bytes: Seq<u8>, format: ImageFormat) -> Option<(u32, u32, Seq<u8>)>;

/// Width, height and RGBA bytes that the `image` crate decodes from `bytes`
/// after guessing their format, or `None` when it reports an error.
pub uninterp spec fn rgba8_decoded_guessing(bytes: Seq<u8>) -> Option<(u32, u32, Seq<u8>)>;

/// What decoding `bytes` gives: read as `format` when one is given, else
/// in the guessed format.
pub open spec fn spec_decoded(bytes: Seq<u8>, format: Option<ImageFormat>) -> Option<(u32, u32, Seq<u8>)> {
    match format {
        Some(f) => rgba8_decoded_as(bytes, f),
        None => rgba8_decoded_guessing(bytes),
    }
}

/// `img` is the image made of decoded width, height and RGBA bytes.
pub open spec fn holds_decoded(img: Image, decoded: (u32, u32, Seq<u8>)) -> bool {
    &&& img.width == decoded.0 as u16
    &&& img.height == decoded.1 as u16
    &&& img.bytes@ == decoded.2
}

/// A decoded buffer holds four bytes per pixel of the decoded width and
/// height.
pub open spec fn four_bytes_per_pixel(decoded: (u32, u32, Seq<u8>)) -> bool {
    decoded.2.len() == 4 * decoded.0 * decoded.1
}

/// Calls `image::load_from_memory_with_format` and `to_rgba8`: the result
/// is named by `rgba8_decoded_as`, and a decoded buffer holds four bytes per
/// pixel, as `ImageBuffer::new` allocates it.
#[verifier::external_body]
fn decode_rgba8_as(bytes: &[u8], format: ImageFormat) -> (r: Result<(u32, u32, Vec<u8>), image::ImageError>)
    ensures
        match r {
            Ok((w, h, d)) => rgba8_decoded_as(bytes@, format) == Some((w, h, d@)) && d@.len() == 4 * w * h,
            Err(_) => rgba8_decoded_as(bytes@, format) is None,
        },
{
    let f = match format {
        F::Png => O::Png, F::Jpeg => O::Jpeg, F::Gif => O::Gif, F::WebP => O::WebP, F::Pnm => O::Pnm,
        F::Tiff => O::Tiff, F::Tga => O::Tga, F::Dds => O::Dds, F::Bmp => O::Bmp, F::Ico => O::Ico,
        F::Hdr => O::Hdr, F::OpenExr => O::OpenExr, F::Farbfeld => O::Farbfeld, F::Avif => O::Avif,
        F::Qoi => O::Qoi,
    };
    let img = image::load_from_memory_with_format(bytes, f)?.to_rgba8();
    Ok((img.width(), img.height(), img.into_raw()))
}

/// Calls `image::load_from_memory` and `to_rgba8`: the result is named by
/// `rgba8_decoded_guessing`, and a decoded buffer holds four bytes per
/// pixel, as `ImageBuffer::new` allocates it.
#[verifier::external_body]
fn decode_rgba8_guessing(bytes: &[u8]) -> (r: Result<(u32, u32, Vec<u8>), image::ImageError>)
    ensures
        match r {
            Ok((w, h, d)) => rgba8_decoded_guessing(bytes@) == Some((w, h, d@)) && d@.len() == 4 * w * h,
            Err(_) => rgba8_decoded_guessing(bytes@) is None,
        },
{
    let img = image::load_from_memory(bytes)?.to_rgba8();
    Ok((img.width(), img.height(), img.into_raw()))
}

/// Calls `ToString::to_string` on an `image::ImageError`, through its
/// `Display` impl. Nothing is stated of the text.
#[verifier::external_body]
fn error_message(e: &image::ImageError) -> String {
    e.to_string()
}

/// Decodes `bytes`, read as `format` when one is given, else in the
/// guessed format.
fn decode_rgba8(bytes: &[u8], format: Option<ImageFormat>) -> (r: Result<(u32, u32, Vec<u8>), image::ImageError>)
    ensures
        match r {
            Ok((w, h, d)) => spec_decoded(bytes@, format) == Some((w, h, d@)) && d@.len() == 4 * w * h,
            Err(_) => spec_decoded(bytes@, format) is None,
        },
{
    match format {
        Some(f) => decode_rgba8_as(bytes, f),
        None => decode_rgba8_guessing(bytes),
    }
}

impl Image {
    /// The image made of a decoded width, height and RGBA buffer; the sizes
    /// are cut to 16 bits.
    pub fn from_rgba8_parts(width: u32, height: u32, bytes: Vec<u8>) -> (r: Image)
        ensures
            holds_decoded(r, (width, height, bytes@)),
    {
        Image {
            width: #[verifier::truncate] (width as u16),
            height: #[verifier::truncate] (height as u16),
            bytes,
        }
    }

    /// Creates an image from the bytes of an encoded image file, read as
    /// `format` when one is given, else in the guessed format.
    pub fn from_file_with_format(bytes: &[u8], format: Option<ImageFormat>) -> (r: Image)
        requires
            spec_decoded(bytes@, format) is Some,
        ensures
            holds_decoded(r, spec_decoded(bytes@, format).unwrap()),
            four_bytes_per_pixel(spec_decoded(bytes@, format).unwrap()),
            spec_decoded(bytes@, format).unwrap().0 <= 0xffff && spec_decoded(bytes@, format).unwrap().1
                <= 0xffff ==> r.well_formed(),
    {
        match decode_rgba8(bytes, format) {
            Ok((w, h, d)) => {
                let r = Image::from_rgba8_parts(w, h, d);
                proof {
                    assert(4 * w * h == 4 * (w * h)) by (nonlinear_arith);
                }
                r
            },
            Err(_) => Image::empty(),
        }
    }

    /// Like `from_file_with_format`, but reports a file that cannot be
    /// decoded instead of requiring a decodable one.
    pub fn try_from_file_with_format(bytes: &[u8], format: Option<ImageFormat>) -> (r: Result<Image, DecodeError>)
        ensures
            match r {
                Ok(img) => {
                    &&& spec_decoded(bytes@, format) is Some
                    &&& holds_decoded(img, spec_decoded(bytes@, format).unwrap())
                    &&& four_bytes_per_pixel(spec_decoded(bytes@, format).unwrap())
                    &&& spec_decoded(bytes@, format).unwrap().0 <= 0xffff && spec_decoded(
                        bytes@,
                        format,
                    ).unwrap().1 <= 0xffff ==> img.well_formed()
                },
                Err(_) => spec_decoded(bytes@, format) is None,
            },
    {
        match decode_rgba8(bytes, format) {
            Ok(_) => Ok(Image::from_file_with_format(bytes, format)),
            Err(e) => Err(DecodeError { message: error_message(&e) }),
        }
    }
}

/// With a format given, the bytes are decoded as exactly that format; with
/// none, the `image` crate guesses the format.
pub proof fn lemma_decode_uses_given_format(bytes: Seq<u8>, format: ImageFormat)
    ensures
        spec_decoded(bytes, Some(format)) == rgba8_decoded_as(bytes, format),
        spec_decoded(bytes, None) == rgba8_decoded_guessing(bytes),
{
}

} // verus!
