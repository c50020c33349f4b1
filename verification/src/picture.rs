//! Pictures as bytes of PNG files.

use image::{DynamicImage, GrayImage, ImageFormat, RgbaImage};
use std::io::Cursor;
use vstd::prelude::*;

verus! {

/// What a pixel is made of: one byte of gray, or four bytes of red, green, blue and opacity.
#[derive(Debug, Clone, Copy, PartialEq, Eq, Structural)]
pub enum Channels {
    Gray,
    Rgba,
}

impl Channels {
    /// How many bytes a pixel takes.
    pub open spec fn size(self) -> nat {
        match self {
            Channels::Gray => 1,
            Channels::Rgba => 4,
        }
    }
}

/// A picture as its pixels, row by row.
#[derive(Debug)]
pub struct Bitmap {
    pub width: u32,
    pub height: u32,
    pub channels: Channels,
    pub pixels: Vec<u8>,
}

impl Bitmap {
    /// Whether there are as many bytes as the pixels take.
    pub open spec fn is_filled(self) -> bool {
        self.pixels@.len() == self.width * self.height * self.channels.size()
    }
}

/// The bytes of a PNG file of a picture; nothing where it cannot be encoded.
pub uninterp spec fn png_of(
    width: u32,
    height: u32,
    channels: Channels,
    pixels: Seq<u8>,
) -> Option<Seq<u8>>;

/// The bytes where there are any.
pub open spec fn opt_bytes(bytes: Option<Vec<u8>>) -> Option<Seq<u8>> {
    match bytes {
        Some(b) => Some(b@),
        None => None,
    }
}

/// `image::DynamicImage::write_to` in the PNG format, into memory: the bytes of the file, or
/// nothing where it gives an error. They are named by the size and the pixels that they are
/// of. Which bytes they are, and for which sizes there is an error, is not said.
#[verifier::external_body]
fn encode_png(width: u32, height: u32, channels: Channels, pixels: &Vec<u8>) -> (r: Option<Vec<u8>>)
    requires
        pixels@.len() == width * height * channels.size(),
    ensures
        opt_bytes(r) == png_of(width, height, channels, pixels@),
{
    let pixels = pixels.clone();
    let image = match channels {
        Channels::Gray => DynamicImage::ImageLuma8(GrayImage::from_raw(width, height, pixels)?),
        Channels::Rgba => DynamicImage::ImageRgba8(RgbaImage::from_raw(width, height, pixels)?),
    };
    let mut out = Cursor::new(Vec::new());
    image.write_to(&mut out, ImageFormat::Png).ok()?;
    Some(out.into_inner())
}

/// The bytes of a PNG file of a picture: nothing where it cannot be encoded, or has not as
/// many bytes as its pixels take.
pub fn encode_picture(bitmap: &Bitmap) -> (r: Option<Vec<u8>>)
    ensures
        opt_bytes(r) == if bitmap.is_filled() {
            png_of(bitmap.width, bitmap.height, bitmap.channels, bitmap.pixels@)
        } else {
            None
        },
{
    let (w, h): (u128, u128) = (bitmap.width as u128, bitmap.height as u128);
    let size: u128 = match bitmap.channels {
        Channels::Gray => 1,
        Channels::Rgba => 4,
    };
    assert(0 <= w * h <= 0x1_0000_0000 * 0x1_0000_0000) by (nonlinear_arith)
        requires
            0 <= w < 0x1_0000_0000,
            0 <= h < 0x1_0000_0000,
    ;
    let area: u128 = w * h;
    assert(0 <= area * size <= 0x1_0000_0000 * 0x1_0000_0000 * 4) by (nonlinear_arith)
        requires
            0 <= area <= 0x1_0000_0000 * 0x1_0000_0000,
            1 <= size <= 4,
    ;
    if bitmap.pixels.len() as u128 != area * size {
        return None;
    }
    encode_png(bitmap.width, bitmap.height, bitmap.channels, &bitmap.pixels)
}

} // verus!
