//! Encoders for simple raster image formats.
//!
//! The heart of the crate is a QOI ("Quite OK Image") encoder: a greedy,
//! priority-ordered chain of five per-pixel operations (run, index, diff,
//! luma, raw RGB) over a 64-slot pixel cache.  The byte stream it produces
//! is pinned down, byte for byte, by the specification functions in
//! `qoi_spec`, and a specification-level decoder in `qoi_decode` shows how
//! the stream reads back.
use vstd::prelude::*;

pub mod bytebuf;
pub mod image;
pub mod qoi;
pub mod qoi_decode;
pub mod qoi_spec;
pub mod targa;


verus! {

use crate::image::ImageCodec;

/// Encodes a pre-built pixel source as a complete QOI stream.
pub fn encode_image(img: &image::Image) -> (r: Vec<u8>)
    requires
        qoi_spec::encodable(img.spec_pixels()),
    ensures
        r@ == qoi_spec::qoi_stream(
            img.spec_width() as u32,
            img.spec_height() as u32,
            img.spec_pixels(),
        ),
{
    let qoi = qoi::Qoi::from_image(img);
    qoi.serialize()
}

/// Builds a pixel source from a raw byte buffer and encodes it as a
/// complete QOI stream.
pub fn encode_qoi_simple(width: usize, height: usize, pixels: &[u8]) -> (r: Vec<u8>)
    requires
        qoi_spec::encodable(pixels@),
    ensures
        r@ == qoi_spec::qoi_stream(width as u32, height as u32, pixels@),
{
    let img = image::Image::new_with_data(width, height, pixels);
    encode_image(&img)
}

/// Whether a raw buffer is small enough to encode: the one machine limit
/// `encode_image` and `encode_qoi_simple` ask of their callers.
pub fn can_encode(pixels: &[u8]) -> (r: bool)
    ensures
        r == qoi_spec::encodable(pixels@),
{
    let n = pixels.len();
    let fits = n / 3 <= (usize::MAX / 2 - 23) / 5;
    proof {
        let q = n as int / 3;
        let k = usize::MAX as int / 2 - 23;
        vstd::arithmetic::div_mod::lemma_fundamental_div_mod(k, 5);
        vstd::arithmetic::div_mod::lemma_div_by_multiple(q, 5);
        if 5 * q <= k {
            vstd::arithmetic::div_mod::lemma_div_is_ordered(5 * q, k, 5);
        }
    }
    fits
}

} // verus!
