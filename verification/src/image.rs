//! The pixel source and the format interfaces.
//!
//! An `Image` is pure data: a flat byte buffer with width and height.  It
//! holds no encoding logic.  The two traits split the format capabilities:
//! every format names itself and wraps a pixel source; a codec can also
//! produce a full serialized stream, pinned down by its `serialized_bytes`.
use vstd::prelude::*;

verus! {

/// A flat raster buffer with fixed dimensions.  The buffer must stay
/// valid and unchanged for the whole of one encode call, which borrowing
/// it enforces.
pub struct Image {
    width: usize,
    height: usize,
    pixels: Vec<u8>,
}

impl Image {
    /// The image width.
    pub closed spec fn spec_width(&self) -> usize {
        self.width
    }

    /// The image height.
    pub closed spec fn spec_height(&self) -> usize {
        self.height
    }

    /// The raw bytes of the pixel buffer.
    pub closed spec fn spec_pixels(&self) -> Seq<u8> {
        self.pixels@
    }

    /// The raw pixel buffer.
    pub fn pixels(&self) -> (r: &Vec<u8>)
        ensures
            r@ == self.spec_pixels(),
    {
        &self.pixels
    }

    /// An image of the given dimensions with an empty buffer.
    pub fn new(width: usize, height: usize) -> (r: Image)
        ensures
            r.spec_width() == width,
            r.spec_height() == height,
            r.spec_pixels() == Seq::<u8>::empty(),
    {
        Image { width, height, pixels: Vec::new() }
    }

    /// An image of the given dimensions holding a copy of the given bytes.
    pub fn new_with_data(width: usize, height: usize, pixels: &[u8]) -> (r: Image)
        ensures
            r.spec_width() == width,
            r.spec_height() == height,
            r.spec_pixels() == pixels@,
    {
        Image { width, height, pixels: vstd::slice::slice_to_vec(pixels) }
    }

    #[verifier::when_used_as_spec(spec_width)]
    pub fn width(&self) -> (r: usize)
        ensures
            r == self.spec_width(),
    {
        self.width
    }

    #[verifier::when_used_as_spec(spec_height)]
    pub fn height(&self) -> (r: usize)
        ensures
            r == self.spec_height(),
    {
        self.height
    }

    /// A borrowed view of the raw buffer, for zero-copy hand-off.  The
    /// buffer must outlive every read through it, which the borrow
    /// enforces.
    pub fn buffer(&self) -> (r: &[u8])
        ensures
            r@ == self.spec_pixels(),
    {
        self.pixels.as_slice()
    }
}

/// A format variant: it names itself and wraps a pixel source.
pub trait ImageFormat {
    /// The format's name, in spec form.
    spec fn spec_name() -> Seq<char>;

    /// The wrapped pixel source, in spec form.
    spec fn spec_image(&self) -> Image;

    /// The format's name.
    fn format_name() -> (r: &'static str)
        ensures
            r@ == Self::spec_name(),
    ;

    /// The pixel source this format instance wraps.
    fn get_raw_image(&self) -> (r: &Image)
        ensures
            *r == self.spec_image(),
    ;
}

/// A format that can produce a complete serialized byte stream.
pub trait ImageCodec: ImageFormat {
    /// The exact bytes `serialize` returns.
    spec fn serialized_bytes(&self) -> Seq<u8>;

    /// Whether the wrapped image is small enough for the output buffer:
    /// a machine limit, never a property of the picture.
    spec fn can_serialize(&self) -> bool;

    /// The whole encoded stream.
    fn serialize(&self) -> (r: Vec<u8>)
        requires
            self.can_serialize(),
        ensures
            r@ == self.serialized_bytes(),
    ;
}

} // verus!
