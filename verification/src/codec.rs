//! Decoding a drop image and turning it grey, both done by the `image`
//! crate. What the crate computes is taken on trust and given a name; what
//! is made of it is checked here.

use vstd::prelude::*;
use crate::aggregate::PipelineError;
use crate::imaging::{Bitmap, BitmapView};

verus! {

/// The error type of the `image` crate.
#[verifier::external_type_specification]
#[verifier::external_body]
pub struct ExImageError(image::ImageError);

/// What the `image` crate decodes from `bytes` read as a PNG file: width,
/// height and the pixels as red, green, blue and alpha bytes; nothing where
/// it reports an error.
pub uninterp spec fn png_decoding(bytes: Seq<u8>) -> Option<(u32, u32, Seq<u8>)>;

/// What `DynamicImage::grayscale` of the `image` crate makes of the picture
/// of the given size and pixels, again as red, green, blue and alpha bytes.
pub uninterp spec fn gray_pixels(width: u32, height: u32, data: Seq<u8>) -> Seq<u8>;

/// Decodes a PNG file with `ImageReader::with_format(..).decode()` and takes
/// the picture as 8-bit RGBA (`into_rgba8`, `into_raw`). The contract only
/// names the outcome: decoding depends on the bytes alone.
#[verifier::external_body]
fn decode_rgba(bytes: &Vec<u8>) -> (r: Result<(u32, u32, Vec<u8>), image::ImageError>)
    ensures
        match r {
            Ok(p) => png_decoding(bytes@) == Some((p.0, p.1, p.2@)),
            Err(_) => png_decoding(bytes@) is None,
        },
{
    let source = std::io::Cursor::new(bytes.as_slice());
    let picture = image::ImageReader::with_format(source, image::ImageFormat::Png).decode()?;
    let rgba = picture.into_rgba8();
    Ok((rgba.width(), rgba.height(), rgba.into_raw()))
}

/// Writes an error of the `image` crate out, as its `Debug` form. Nothing is
/// claimed about the text.
#[verifier::external_body]
fn image_error_text(error: &image::ImageError) -> (text: String) {
    format!("{:?}", error)
}

/// Turns a picture grey with `DynamicImage::grayscale`, going in and coming
/// out as 8-bit RGBA. The contract names the pixels and claims, as the
/// crate's source shows, that the picture keeps its size.
#[verifier::external_body]
fn gray_rgba(width: u32, height: u32, data: Vec<u8>) -> (out: Vec<u8>)
    requires
        data.len() == 4 * width * height,
    ensures
        out@ == gray_pixels(width, height, data@),
        out.len() == data.len(),
{
    let picture = image::RgbaImage::from_raw(width, height, data).unwrap();
    image::DynamicImage::ImageRgba8(picture).grayscale().into_rgba8().into_raw()
}

/// The bitmap that `bytes` decode to, where they decode to a picture with
/// four bytes per pixel.
pub open spec fn decoded(bytes: Seq<u8>) -> Option<BitmapView> {
    match png_decoding(bytes) {
        Some(p) => if p.2.len() == 4 * p.0 * p.1 {
            Some(BitmapView { width: p.0 as nat, height: p.1 as nat, data: p.2 })
        } else {
            None
        },
        None => None,
    }
}

/// `img` turned grey.
pub open spec fn grey(img: BitmapView) -> BitmapView {
    BitmapView { data: gray_pixels(img.width as u32, img.height as u32, img.data), ..img }
}

/// Decodes the attachment of a drop message, which is a PNG file. Anything
/// else is refused as undecodable.
pub fn decode_png(bytes: &Vec<u8>) -> (r: Result<Bitmap, PipelineError>)
    ensures
        match r {
            Ok(bitmap) => decoded(bytes@) == Some(bitmap@),
            Err(e) => decoded(bytes@) is None && e@ is Decode,
        },
{
    match decode_rgba(bytes) {
        Ok(parts) => {
            let (width, height, data) = parts;
            match Bitmap::from_raw(width, height, data) {
                Some(bitmap) => Ok(bitmap),
                None => Err(PipelineError::Decode("the picture is not whole".to_owned())),
            }
        },
        Err(e) => Err(PipelineError::Decode(image_error_text(&e))),
    }
}

/// Turns a picture grey.
pub fn grayscale(image: &Bitmap) -> (out: Bitmap)
    ensures
        out@ == grey(image@),
{
    let data = image.bytes().clone();
    let grey_data = gray_rgba(image.width(), image.height(), data);
    Bitmap::from_raw(image.width(), image.height(), grey_data).unwrap()
}

} // verus!
