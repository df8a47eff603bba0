//! The engine: it holds a source image and renders it as text at a size
//! that the caller asks for.

use vstd::prelude::*;
use crate::dimensions::{resolve, resolved_dimensions};
use crate::encoder::{encode, frame_text};
use crate::error::EngineError;
use crate::pixel::{pixels_of, PixelBuffer};

verus! {

/// What the `image` crate makes of a frame of RGBA bytes when it resizes it
/// to a new width and height with its nearest-neighbour filter.
pub uninterp spec fn nearest_resized(
    data: Seq<u8>,
    width: u32,
    height: u32,
    new_width: u32,
    new_height: u32,
) -> Seq<u8>;

/// Whether the buffers that resampling allocates can exist: the resampled
/// frame of four bytes to a pixel, and a frame in between, as wide as the
/// source and as high as the result, of sixteen bytes to a pixel.
pub open spec fn frame_fits(source_width: u32, width: u32, height: u32) -> bool {
    4 * (width * height) <= isize::MAX && 16 * (source_width * height) <= isize::MAX
}

/// Whether a source of the given width can be resampled to `width` by
/// `height` pixels on this machine: see [`frame_fits`].
pub fn fits_in_memory(source_width: u32, width: u32, height: u32) -> (fits: bool)
    ensures
        fits == frame_fits(source_width, width, height),
{
    assert(width * height <= 0xffff_ffff * 0xffff_ffff && source_width * height <= 0xffff_ffff
        * 0xffff_ffff) by (nonlinear_arith)
        requires
            width <= 0xffff_ffff,
            height <= 0xffff_ffff,
            source_width <= 0xffff_ffff,
    ;
    let limit: u128 = isize::MAX as u128;
    let frame: u128 = 4 * ((width as u128) * (height as u128));
    let between: u128 = 16 * ((source_width as u128) * (height as u128));
    frame <= limit && between <= limit
}

/// Decodes an image with `image::load_from_memory` and hands it out as
/// RGBA bytes, pixel by pixel in row-major order. Whether the crate accepts
/// the bytes, and what it reads from them, is its own answer: it also goes
/// by the format and decoding hooks that are registered in the process. So
/// nothing is claimed of the outcome but its shape: on success there are
/// exactly four bytes for each of the `width * height` pixels.
#[verifier::external_body]
fn decode_rgba8(source: &[u8]) -> (decoded: Result<(u32, u32, Vec<u8>), image::ImageError>)
    ensures
        decoded matches Ok((width, height, data)) ==> data@.len() == 4 * (width * height),
{
    let decoded = image::load_from_memory(source)?.into_rgba8();
    let data: Vec<u8> = decoded.pixels().flat_map(|pixel| pixel.0).collect();
    Ok((decoded.width(), decoded.height(), data))
}

/// Resizes a frame of RGBA bytes with `DynamicImage::resize_exact` and the
/// filter `Nearest`. The result is what the crate makes of these arguments,
/// and holds exactly four bytes for each of the
/// `new_width * new_height` pixels.
///
/// Two more things are taken from the crate's source. Where the new size
/// is the size of the source, the crate copies the source. And with this
/// filter the window that a cell is sampled from holds one source pixel,
/// with weight one, so each pixel of the result is a pixel of the source as
/// it stands; a source without pixels gives blank pixels instead.
///
/// The crate panics where a buffer that it allocates cannot exist, so
/// those sizes are left out.
#[verifier::external_body]
fn resize_nearest(data: &[u8], width: u32, height: u32, new_width: u32, new_height: u32) -> (resized:
    Vec<u8>)
    requires
        data@.len() == 4 * (width * height),
        frame_fits(width, new_width, new_height),
    ensures
        resized@ == nearest_resized(data@, width, height, new_width, new_height),
        resized@.len() == 4 * (new_width * new_height),
        new_width == width && new_height == height ==> resized@ == data@,
        width * height > 0 ==> forall|i: int|
            0 <= i < new_width * new_height ==> pixels_of(data@).contains(
                #[trigger] pixels_of(resized@)[i],
            ),
{
    let source = image::RgbaImage::from_raw(width, height, data.to_vec()).unwrap();
    let resized = image::DynamicImage::ImageRgba8(source)
        .resize_exact(new_width, new_height, image::imageops::FilterType::Nearest)
        .into_rgba8();
    resized.pixels().flat_map(|pixel| pixel.0).collect()
}

/// Engine for rendering RGBA images as text.
pub struct ImageEngine {
    source: PixelBuffer,
}

impl ImageEngine {
    /// The source image.
    pub closed spec fn source_frame(&self) -> PixelBuffer {
        self.source
    }

    /// The size at which the source is rendered, if there is one.
    pub open spec fn dimensions(&self, width: Option<u32>, height: Option<u32>) -> Option<(u32, u32)> {
        resolved_dimensions(width, height, self.source_frame().width(), self.source_frame().height())
    }

    /// The bytes of the source, resampled to a size.
    pub open spec fn resampled_bytes(&self, width: u32, height: u32) -> Seq<u8> {
        nearest_resized(
            self.source_frame().bytes(),
            self.source_frame().width(),
            self.source_frame().height(),
            width,
            height,
        )
    }

    /// The text of the source rendered at the size that was asked for:
    /// the source resampled to the resolved size, and that frame encoded.
    /// There is none where the size cannot be resolved or has no pixels.
    pub open spec fn ascii_text(
        &self,
        alpha_threshold: u8,
        width: Option<u32>,
        height: Option<u32>,
    ) -> Option<Seq<char>> {
        match self.dimensions(width, height) {
            Some((w, h)) => if w == 0 || h == 0 {
                None
            } else {
                Some(frame_text(pixels_of(self.resampled_bytes(w, h)), w as nat, alpha_threshold))
            },
            None => None,
        }
    }

    /// Constructs an engine that owns the source image.
    pub fn new(source: PixelBuffer) -> (engine: ImageEngine)
        ensures
            engine.source_frame() == source,
    {
        ImageEngine { source }
    }

    /// Constructs an engine from the outcome of decoding: the engine over
    /// the decoded image, or the decoder's error as a `DecodeError`.
    pub fn from_decoded(decoded: Result<PixelBuffer, image::ImageError>) -> (made: Result<
        ImageEngine,
        EngineError,
    >)
        ensures
            match (decoded, made) {
                (Ok(frame), Ok(engine)) => engine.source_frame() == frame,
                (Err(cause), Err(EngineError::DecodeError(carried))) => carried == cause,
                _ => false,
            },
    {
        match decoded {
            Ok(frame) => Ok(ImageEngine::new(frame)),
            Err(cause) => Err(EngineError::DecodeError(cause)),
        }
    }

    /// Constructs an engine from the bytes of an encoded image. The bytes
    /// go to the decoder as they are, and the format is guessed from them.
    /// Where the decoder accepts them, the engine holds the decoded image as
    /// RGBA, four bytes to each pixel; where it does not, the call fails
    /// with a `DecodeError` that carries the decoder's error. What an
    /// outcome of decoding becomes is said by [`ImageEngine::from_decoded`].
    pub fn from_slice(source: &[u8]) -> (made: Result<ImageEngine, EngineError>)
        ensures
            match made {
                Ok(engine) => engine.source_frame().bytes().len() == 4 * (
                engine.source_frame().width() * engine.source_frame().height()),
                Err(error) => error is DecodeError,
            },
    {
        let decoded = match decode_rgba8(source) {
            Ok((width, height, data)) => Ok(PixelBuffer::from_exact(width, height, data)),
            Err(cause) => Err(cause),
        };
        ImageEngine::from_decoded(decoded)
    }

    /// The source image.
    pub fn source(&self) -> (frame: &PixelBuffer)
        ensures
            *frame == self.source_frame(),
    {
        &self.source
    }

    /// The size at which the source is rendered. At least one of `width`
    /// and `height` has to be given: with neither, the call fails with
    /// `InvalidDimensions`. With one, the other keeps the proportions of the
    /// source, halved because a glyph is twice as high as wide. With both,
    /// both are taken as they are.
    pub fn calculate_dimensions(&self, width: Option<u32>, height: Option<u32>) -> (resolved: Result<
        (u32, u32),
        EngineError,
    >)
        ensures
            match resolved {
                Ok(size) => self.dimensions(width, height) == Some(size),
                Err(error) => error is InvalidDimensions && width is None && height is None,
            },
    {
        resolve(width, height, self.source.width(), self.source.height())
    }

    /// The source resampled to `width` by `height` pixels. Each pixel of
    /// the result is picked from the source by nearest-neighbour sampling;
    /// nothing is blended.
    pub fn resample(&self, width: u32, height: u32) -> (frame: PixelBuffer)
        requires
            frame_fits(self.source_frame().width(), width, height),
        ensures
            frame.width() == width,
            frame.height() == height,
            frame.bytes() == self.resampled_bytes(width, height),
            frame@.len() == width * height,
            width == self.source_frame().width() && height == self.source_frame().height()
                ==> frame.bytes() == self.source_frame().bytes(),
            self.source_frame()@.len() > 0 ==> forall|i: int|
                0 <= i < frame@.len() ==> self.source_frame()@.contains(#[trigger] frame@[i]),
    {
        let data = resize_nearest(
            self.source.as_raw(),
            self.source.width(),
            self.source.height(),
            width,
            height,
        );
        PixelBuffer::from_exact(width, height, data)
    }

    /// Renders the source as text, at the size that `width` and `height`
    /// ask for.
    ///
    /// The call fails with `InvalidDimensions` where neither a width nor a
    /// height is given, and where the resolved width or height is zero.
    /// Otherwise the source is resampled to the resolved size and the
    /// resulting frame is encoded: one line of glyphs per row, the colour
    /// set where it changes, every row closed with a reset. The frame has
    /// a pixel for each cell of the resolved size, and each of them is a
    /// pixel of the source, unless the source has none. At the size of the
    /// source itself the frame is the source.
    pub fn get_ascii_as_string(
        &self,
        alpha_threshold: u8,
        width: Option<u32>,
        height: Option<u32>,
    ) -> (rendered: Result<String, EngineError>)
        requires
            self.dimensions(width, height) matches Some((w, h)) ==> w == 0 || h == 0 || frame_fits(
                self.source_frame().width(),
                w,
                h,
            ),
        ensures
            match rendered {
                Ok(text) => self.ascii_text(alpha_threshold, width, height) == Some(text@),
                Err(error) => error is InvalidDimensions && self.ascii_text(
                    alpha_threshold,
                    width,
                    height,
                ) is None,
            },
            rendered is Ok && self.dimensions(width, height) == Some(
                (self.source_frame().width(), self.source_frame().height()),
            ) ==> rendered->Ok_0@ == frame_text(
                self.source_frame()@,
                self.source_frame().width() as nat,
                alpha_threshold,
            ),
            rendered is Ok ==> (self.dimensions(width, height) matches Some((w, h)) && {
                let sampled = pixels_of(self.resampled_bytes(w, h));
                &&& w > 0 && h > 0
                &&& sampled.len() == w * h
                &&& self.source_frame()@.len() > 0 ==> forall|i: int|
                    0 <= i < sampled.len() ==> self.source_frame()@.contains(#[trigger] sampled[i])
            }),
    {
        let (w, h) = match self.calculate_dimensions(width, height) {
            Ok(size) => size,
            Err(error) => {
                return Err(error);
            },
        };
        if w == 0 || h == 0 {
            return Err(EngineError::InvalidDimensions);
        }
        let frame = self.resample(w, h);
        Ok(encode(&frame, alpha_threshold))
    }
}

/// Rendering the same image twice with the same parameters gives the same
/// outcome: any two results that `get_ascii_as_string` can give for one
/// engine, one threshold and one size are both the same text, character
/// for character, or both `InvalidDimensions`.
pub proof fn lemma_renderings_agree(
    engine: ImageEngine,
    alpha_threshold: u8,
    width: Option<u32>,
    height: Option<u32>,
    first: Result<String, EngineError>,
    second: Result<String, EngineError>,
)
    requires
        match first {
            Ok(text) => engine.ascii_text(alpha_threshold, width, height) == Some(text@),
            Err(error) => error is InvalidDimensions && engine.ascii_text(
                alpha_threshold,
                width,
                height,
            ) is None,
        },
        match second {
            Ok(text) => engine.ascii_text(alpha_threshold, width, height) == Some(text@),
            Err(error) => error is InvalidDimensions && engine.ascii_text(
                alpha_threshold,
                width,
                height,
            ) is None,
        },
    ensures
        match (first, second) {
            (Ok(one), Ok(other)) => one@ == other@,
            (Err(one), Err(other)) => one is InvalidDimensions && other is InvalidDimensions,
            _ => false,
        },
{
}

/// Rendering depends on nothing but the pixels of the source and the
/// parameters: two engines over the same image give the same text for the
/// same threshold and the same size, and fail on the same inputs.
pub proof fn lemma_rendering_is_repeatable(
    first: ImageEngine,
    second: ImageEngine,
    alpha_threshold: u8,
    width: Option<u32>,
    height: Option<u32>,
)
    requires
        first.source_frame().width() == second.source_frame().width(),
        first.source_frame().height() == second.source_frame().height(),
        first.source_frame().bytes() == second.source_frame().bytes(),
    ensures
        first.ascii_text(alpha_threshold, width, height) == second.ascii_text(
            alpha_threshold,
            width,
            height,
        ),
{
}

} // verus!
