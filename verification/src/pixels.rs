//! Pixels: the layouts that captures come in, and the image that they are handed out as.

use vstd::prelude::*;

use crate::error::{XCapError, XCapResult};
use crate::error;

verus! {

/// A captured image: an `image::RgbaImage`, whose pixels [`image_bytes`] and whose extent
/// [`image_size`] names.
#[derive(Debug)]
#[verifier::external_body]
pub struct CapturedImage {
    image: image::RgbaImage,
}

/// The bytes of an image, four for each pixel, row by row from the top.
pub uninterp spec fn image_bytes(image: CapturedImage) -> Seq<u8>;

/// The width and the height of an image.
pub uninterp spec fn image_size(image: CapturedImage) -> (u32, u32);

/// Whether a buffer of this length holds the pixels of an image of this extent. The bytes of a row
/// have to be countable, even of an image without rows.
pub open spec fn holds_pixels(width: u32, height: u32, length: nat) -> bool {
    4 * width <= usize::MAX && 4 * width * height <= length
}

/// Makes an image with `image::ImageBuffer::from_raw`, which takes any buffer that is at least as
/// long as the pixels need, and keeps it whole. It multiplies the number of channels by the width
/// first, and gives none where that does not fit in a word.
#[verifier::external_body]
fn image_from_raw(width: u32, height: u32, bytes: Vec<u8>) -> (image: Option<CapturedImage>)
    ensures
        image is Some <==> holds_pixels(width, height, bytes@.len()),
        image matches Some(made) ==> image_bytes(made) == bytes@ && image_size(made) == (
            width,
            height,
        ),
{
    image::RgbaImage::from_raw(width, height, bytes).map(|image| CapturedImage { image })
}

/// The extent of an image, from `image::ImageBuffer::dimensions`.
#[verifier::external_body]
fn image_dimensions(image: &CapturedImage) -> (size: (u32, u32))
    ensures
        size == image_size(*image),
{
    image.image.dimensions()
}

/// The buffer of an image, from `image::ImageBuffer::into_raw`.
#[verifier::external_body]
fn image_into_raw(image: CapturedImage) -> (bytes: Vec<u8>)
    ensures
        bytes@ == image_bytes(image),
{
    image.image.into_raw()
}

/// Why a buffer did not become an image.
pub open spec fn from_raw_failure() -> error::Failure {
    error::Failure::Error("RgbaImage::from_raw failed"@)
}

impl CapturedImage {
    /// An image of this extent over the given bytes; an error where they are too few, or where a row
    /// has more than can be counted.
    pub fn from_raw(width: u32, height: u32, bytes: Vec<u8>) -> (result: XCapResult<CapturedImage>)
        ensures
            match result {
                Ok(image) => holds_pixels(width, height, bytes@.len()) && image_bytes(image)
                    == bytes@ && image_size(image) == (width, height),
                Err(failure) => !holds_pixels(width, height, bytes@.len()) && failure@
                    == from_raw_failure(),
            },
    {
        match image_from_raw(width, height, bytes) {
            Some(image) => Ok(image),
            None => Err(XCapError::new("RgbaImage::from_raw failed")),
        }
    }

    /// The width and the height.
    pub fn dimensions(&self) -> (size: (u32, u32))
        ensures
            size == image_size(*self),
    {
        image_dimensions(self)
    }

    /// The bytes of the pixels.
    pub fn into_raw(self) -> (bytes: Vec<u8>)
        ensures
            bytes@ == image_bytes(self),
    {
        image_into_raw(self)
    }
}

} // verus!
