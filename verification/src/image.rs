use vstd::prelude::*;

use crate::error::{image_error_message, AgeError, AgeResult, ErrorSource};

verus! {

/// What decoding `data` with the `image` crate and converting it to 8-bit
/// RGBA gives: the width, the height and the pixel bytes, or `None` where the
/// bytes are no image the crate can read.
pub uninterp spec fn decoded_rgba8(data: Seq<u8>) -> Option<(u32, u32, Seq<u8>)>;

/// Decodes `data` with `image::load_from_memory`, converts the result with
/// `DynamicImage::into_rgba8`, and hands back its dimensions and raw bytes.
/// Trusted: the result is `decoded_rgba8` of the input bytes, a function of
/// the bytes alone, with four bytes for each pixel (the decoder fills a
/// buffer of exactly `width * height` pixels); nothing else is claimed.
#[verifier::external_body]
fn decode_rgba8(data: &[u8]) -> (r: Result<(u32, u32, Vec<u8>), image::ImageError>)
    ensures
        match r {
            Ok((w, h, p)) => decoded_rgba8(data@) == Some((w, h, p@)) && p@.len() == 4 * w * h,
            Err(_) => decoded_rgba8(data@) is None,
        },
{
    let rgba = image::load_from_memory(data)?.into_rgba8();
    let (width, height) = rgba.dimensions();
    Ok((width, height, rgba.into_raw()))
}

/// An image in memory: its size and its pixel bytes, row after row.
pub struct Image {
    width: u32,
    height: u32,
    pixels: Vec<u8>,
}

/// The mathematical value of an image.
pub struct ImageView {
    pub width: u32,
    pub height: u32,
    pub pixels: Seq<u8>,
}

impl View for Image {
    type V = ImageView;

    closed spec fn view(&self) -> ImageView {
        ImageView { width: self.width, height: self.height, pixels: self.pixels@ }
    }
}

impl Image {
    /// Decodes an image file held in memory (any format the `image` crate
    /// reads) into 8-bit RGBA pixels.
    pub fn from_bytes(data: &[u8]) -> (r: AgeResult<Self>)
        ensures
            match r {
                Ok(img) => decoded_rgba8(data@) == Some((img@.width, img@.height, img@.pixels))
                    && img@.pixels.len() == 4 * img@.width * img@.height,
                Err(e) => decoded_rgba8(data@) is None && e.message_spec() == image_error_message()
                    && e.has_source() && e.source_spec() matches Some(ErrorSource::Image(_)),
            },
    {
        Self::from_decoded(decode_rgba8(data))
    }

    /// Builds the image from what the decoder gave: its size and bytes, or
    /// the engine error that wraps the decoder's error.
    pub fn from_decoded(decoded: Result<(u32, u32, Vec<u8>), image::ImageError>) -> (r: AgeResult<Self>)
        ensures
            match decoded {
                Ok((w, h, p)) => r matches Ok(img) && img@.width == w && img@.height == h
                    && img@.pixels == p@,
                Err(err) => r matches Err(e) && e.message_spec() == image_error_message()
                    && e.source_spec() == Some(ErrorSource::Image(err)) && e.has_source(),
            },
    {
        match decoded {
            Ok((width, height, pixels)) => Ok(Image { width, height, pixels }),
            Err(err) => Err(AgeError::from(err)),
        }
    }

    /// Builds an image of the given size from a copy of `pixels`.
    pub fn from_pixels(width: u32, height: u32, pixels: &[u8]) -> (img: Self)
        ensures
            img@.width == width,
            img@.height == height,
            img@.pixels == pixels@,
    {
        Image { width, height, pixels: crate::bytes::copy_bytes(pixels) }
    }

    /// The width in pixels.
    pub fn width(&self) -> (w: u32)
        ensures
            w == self@.width,
    {
        self.width
    }

    /// The height in pixels.
    pub fn height(&self) -> (h: u32)
        ensures
            h == self@.height,
    {
        self.height
    }

    /// The pixel bytes.
    pub fn pixels(&self) -> (p: &[u8])
        ensures
            p@ == self@.pixels,
    {
        self.pixels.as_slice()
    }

    /// Writes one pixel byte.
    pub fn set(&mut self, index: usize, value: u8)
        requires
            index < old(self)@.pixels.len(),
        ensures
            final(self)@.width == old(self)@.width,
            final(self)@.height == old(self)@.height,
            final(self)@.pixels == old(self)@.pixels.update(index as int, value),
    {
        self.pixels.set(index, value);
    }
}

impl core::ops::Index<usize> for Image {
    type Output = u8;

    /// Reads one pixel byte.
    fn index(&self, index: usize) -> (r: &u8)
        ensures
            *r == self@.pixels[index as int],
    {
        &self.pixels[index]
    }
}

impl vstd::std_specs::core::IndexSpecImpl<usize> for Image {
    open spec fn index_req(&self, index: &usize) -> bool {
        *index < self@.pixels.len()
    }
}

} // verus!
