//! Pixels, colours and frames of pixels.

use vstd::prelude::*;

verus! {

/// The ink colour of one glyph cell.
#[derive(Clone, Copy, Debug, PartialEq, Eq, Structural)]
pub struct Color {
    pub r: u8,
    pub g: u8,
    pub b: u8,
}

/// One sampled pixel: red, green, blue and alpha, each from 0 to 255.
#[derive(Clone, Copy, Debug, PartialEq, Eq, Structural)]
pub struct Pixel {
    pub r: u8,
    pub g: u8,
    pub b: u8,
    pub a: u8,
}

impl Pixel {
    /// The colour of the pixel: its three colour channels, without alpha.
    pub open spec fn color_of(self) -> Color {
        Color { r: self.r, g: self.g, b: self.b }
    }

    /// The colour a glyph for this pixel is written in. Alpha plays no part.
    pub fn color(&self) -> (c: Color)
        ensures
            c == self.color_of(),
    {
        Color { r: self.r, g: self.g, b: self.b }
    }
}

/// The pixels that a run of bytes holds, four bytes to a pixel in the order
/// red, green, blue, alpha. Bytes beyond the last full group of four are
/// not part of any pixel.
pub open spec fn pixels_of(bytes: Seq<u8>) -> Seq<Pixel> {
    Seq::new(
        (bytes.len() / 4) as nat,
        |i: int| Pixel { r: bytes[4 * i], g: bytes[4 * i + 1], b: bytes[4 * i + 2], a: bytes[4 * i + 3] },
    )
}

/// A frame: `width * height` pixels in row-major order, held as raw bytes.
///
/// Every value of this type holds exactly four bytes for each of its pixels.
pub struct PixelBuffer {
    width: u32,
    height: u32,
    data: Vec<u8>,
}

impl View for PixelBuffer {
    type V = Seq<Pixel>;

    /// The pixels of the frame, row after row.
    open spec fn view(&self) -> Seq<Pixel> {
        pixels_of(self.bytes())
    }
}

impl PixelBuffer {
    #[verifier::type_invariant]
    spec fn well_formed(self) -> bool {
        self.data@.len() == 4 * (self.width * self.height)
    }

    /// The number of pixels in a row.
    pub closed spec fn spec_width(&self) -> u32 {
        self.width
    }

    /// The number of rows.
    pub closed spec fn spec_height(&self) -> u32 {
        self.height
    }

    /// The raw bytes of the frame.
    pub closed spec fn bytes(&self) -> Seq<u8> {
        self.data@
    }

    /// Makes a frame of the given size from raw bytes. The bytes must be
    /// exactly those of `width * height` pixels; any other length is refused.
    pub fn from_raw(width: u32, height: u32, data: Vec<u8>) -> (frame: Option<PixelBuffer>)
        ensures
            frame is Some <==> data@.len() == 4 * (width * height),
            frame matches Some(f) ==> f.width() == width && f.height() == height && f.bytes()
                == data@,
    {
        assert(width * height <= 0xffff_ffff * 0xffff_ffff) by (nonlinear_arith)
            requires
                width <= 0xffff_ffff,
                height <= 0xffff_ffff,
        ;
        let cells: u64 = width as u64 * height as u64;
        if data.len() as u128 == 4 * (cells as u128) {
            Some(PixelBuffer { width, height, data })
        } else {
            None
        }
    }

    /// Makes a frame from bytes that are known to be those of
    /// `width * height` pixels.
    pub(crate) fn from_exact(width: u32, height: u32, data: Vec<u8>) -> (frame: PixelBuffer)
        requires
            data@.len() == 4 * (width * height),
        ensures
            frame.width() == width,
            frame.height() == height,
            frame.bytes() == data@,
            frame@.len() == width * height,
    {
        PixelBuffer { width, height, data }
    }

    /// The number of pixels in a row.
    #[verifier::when_used_as_spec(spec_width)]
    pub fn width(&self) -> (w: u32)
        ensures
            w == self.width(),
    {
        self.width
    }

    /// The number of rows.
    #[verifier::when_used_as_spec(spec_height)]
    pub fn height(&self) -> (h: u32)
        ensures
            h == self.height(),
    {
        self.height
    }

    /// The raw bytes of the frame, four to a pixel.
    pub fn as_raw(&self) -> (raw: &[u8])
        ensures
            raw@ == self.bytes(),
            raw@.len() == 4 * (self.width() * self.height()),
    {
        proof {
            use_type_invariant(self);
        }
        self.data.as_slice()
    }

    /// The number of pixels in the frame.
    pub fn len(&self) -> (n: usize)
        ensures
            n == self@.len(),
            n == self.width() * self.height(),
    {
        proof {
            use_type_invariant(self);
        }
        self.data.len() / 4
    }

    /// The pixel at `index`, counted in row-major order.
    pub fn pixel(&self, index: usize) -> (p: Pixel)
        requires
            index < self@.len(),
        ensures
            p == self@[index as int],
    {
        proof {
            use_type_invariant(self);
            assert(self@.len() == self.data@.len() / 4);
            assert(4 * index + 3 < self.data.len());
        }
        let at: usize = 4 * index;
        Pixel { r: self.data[at], g: self.data[at + 1], b: self.data[at + 2], a: self.data[at + 3] }
    }
}

} // verus!
