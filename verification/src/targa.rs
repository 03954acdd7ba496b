//! The second, incomplete format: a Targa (TGA) header builder.
//!
//! Only the fixed-layout 18-byte header of an uncompressed truecolor
//! image ever worked; there is no full serializer.  It is kept as the
//! contrasting format variant, with the header layout pinned down.
use vstd::prelude::*;

use crate::bytebuf::{buf_bytes, buf_put_bytes, buf_put_u16_le, buf_put_u8, le16};
use crate::image::{Image, ImageFormat};

verus! {

/// The 18-byte Targa header: no image id, no color map, image type 2
/// (uncompressed truecolor), zero origin, little-endian dimensions,
/// 24 bits per pixel, descriptor byte 32.
pub open spec fn targa_header_bytes(width: u16, height: u16) -> Seq<u8> {
    seq![0u8, 0u8, 2u8, 0u8, 0u8, 0u8, 0u8, 0u8, 0u8, 0u8, 0u8, 0u8] + le16(width) + le16(height)
        + seq![24u8, 32u8]
}

/// The Targa format bound to a pixel source.
pub struct Targa<'a> {
    image: &'a Image,
}

impl<'a> Targa<'a> {
    /// Binds the format to a pixel source.
    pub fn from_image(image: &'a Image) -> (r: Targa<'a>)
        ensures
            r.spec_image() == *image,
    {
        Targa { image }
    }

    /// Emits the fixed-layout header.  The dimensions are truncated to
    /// 16 bits, unchecked, as the format stores them.
    pub fn targa_header(&self, contents: &mut bytes::BytesMut)
        requires
            buf_bytes(*old(contents)).len() + 18 <= usize::MAX / 2,
        ensures
            buf_bytes(*final(contents)) == buf_bytes(*old(contents)) + targa_header_bytes(
                self.spec_image().spec_width() as u16,
                self.spec_image().spec_height() as u16,
            ),
    {
        // image id length, color map type, image type
        buf_put_u8(contents, 0);
        buf_put_u8(contents, 0);
        buf_put_u8(contents, 2);
        // color map specification
        buf_put_bytes(contents, 0, 5);
        // origin coordinates
        buf_put_bytes(contents, 0, 2);
        buf_put_bytes(contents, 0, 2);
        // dimensions, bits per pixel, image descriptor
        buf_put_u16_le(contents, #[verifier::truncate] (self.image.width() as u16));
        buf_put_u16_le(contents, #[verifier::truncate] (self.image.height() as u16));
        buf_put_u8(contents, 24);
        buf_put_u8(contents, 32);
        proof {
            assert(buf_bytes(*contents) =~= buf_bytes(*old(contents)) + targa_header_bytes(
                self.spec_image().spec_width() as u16,
                self.spec_image().spec_height() as u16,
            ));
        }
    }
}

impl<'a> ImageFormat for Targa<'a> {
    open spec fn spec_name() -> Seq<char> {
        "Targa"@
    }

    closed spec fn spec_image(&self) -> Image {
        *self.image
    }

    fn format_name() -> (r: &'static str) {
        "Targa"
    }

    fn get_raw_image(&self) -> (r: &Image) {
        self.image
    }
}

} // verus!
