//! From a source image's bytes to the bytes of its thumbnail.
//!
//! Decoding, scaling and encoding are the `image` crate's work. An image is
//! carried through as that crate's `DynamicImage`; what it holds is named
//! here, so that each step can be stated as a function of what went in.

use image::{ColorType, DynamicImage, ImageFormat, ImageOutputFormat};
use std::io::Cursor;
use vstd::prelude::*;
use vstd::string::*;

verus! {

/// The widest a thumbnail may be, in pixels.
pub const THUMBNAIL_MAX_WIDTH: u32 = 100;

/// The tallest a thumbnail may be, in pixels.
pub const THUMBNAIL_MAX_HEIGHT: u32 = 100;

/// Why no thumbnail could be served.
#[derive(Clone, Copy, Debug, PartialEq, Eq, Structural)]
pub enum ErrorKind {
    /// The source file is missing or cannot be read.
    SourceUnreadable,
    /// The source's bytes are not an image of a supported format.
    DecodeFailed,
    /// The thumbnail could not be encoded.
    EncodeFailed,
    /// The cache could not be read or written.
    CacheIOFailed,
}

/// A failure, with the text that came with it.
#[derive(Debug)]
pub struct ThumbnailError {
    pub kind: ErrorKind,
    pub detail: String,
}

/// A failure as a value: its kind and the characters of its text.
pub ghost struct Failure {
    pub kind: ErrorKind,
    pub detail: Seq<char>,
}

impl View for ThumbnailError {
    type V = Failure;

    open spec fn view(&self) -> Failure {
        Failure { kind: self.kind, detail: self.detail@ }
    }
}

/// `image::DynamicImage`, carried through without looking inside.
#[verifier::external_type_specification]
#[verifier::external_body]
pub struct ExDynamicImage(DynamicImage);

/// The colour type of an image: what channels a pixel has, and what a
/// sample is (8 bits, 16 bits, or a 32-bit floating-point number).
#[derive(Clone, Copy, Debug, PartialEq, Eq, Structural)]
pub enum ColorKind {
    L8,
    La8,
    Rgb8,
    Rgba8,
    L16,
    La16,
    Rgb16,
    Rgba16,
    Rgb32F,
    Rgba32F,
    /// A colour type that is none of these.
    Other,
}

/// The number that stands for a colour type in an image's shape.
pub open spec fn color_code(kind: ColorKind) -> int {
    match kind {
        ColorKind::L8 => 0,
        ColorKind::La8 => 1,
        ColorKind::Rgb8 => 2,
        ColorKind::Rgba8 => 3,
        ColorKind::L16 => 4,
        ColorKind::La16 => 5,
        ColorKind::Rgb16 => 6,
        ColorKind::Rgba16 => 7,
        ColorKind::Rgb32F => 8,
        ColorKind::Rgba32F => 9,
        ColorKind::Other => 10,
    }
}

/// What an image is made of: its colour type, its size, and its samples.
pub ghost struct Raster {
    pub color: int,
    pub width: int,
    pub height: int,
    pub samples: Seq<int>,
}

/// The samples that an image holds, row by row and channel by channel. A
/// sample is given as a whole number, a floating-point sample by its bits.
pub uninterp spec fn image_samples(image: DynamicImage) -> Seq<int>;

/// The shape of an image: its colour type, numbered as `color_code` numbers
/// the kinds, then its width and its height in pixels.
pub uninterp spec fn image_shape(image: DynamicImage) -> (int, int, int);

/// All that an image is made of.
pub open spec fn raster_of(image: DynamicImage) -> Raster {
    Raster {
        color: image_shape(image).0,
        width: image_shape(image).1,
        height: image_shape(image).2,
        samples: image_samples(image),
    }
}

/// The image that the bytes of a file at `path` decode to, or the text of
/// the decoder's error. The format is told by the path's extension.
pub uninterp spec fn decoded(source: Seq<u8>, path: Seq<char>) -> Result<Raster, Seq<char>>;

/// An image scaled to fit a box, its aspect ratio kept.
pub uninterp spec fn scaled_to_fit(image: Raster, max_width: int, max_height: int) -> Raster;

/// The WebP encoding of an image, or the text of the encoder's error.
pub uninterp spec fn webp_of(image: Raster) -> Result<Seq<u8>, Seq<char>>;

/// Decodes as `image::open` does once the file is read: the format comes
/// from the path's extension (`ImageFormat::from_path`), then the bytes are
/// decoded (`image::load_from_memory_with_format`). An error is handed back
/// as its text. Trusted: whether this succeeds, and the image or the text it
/// gives, are functions of the bytes and of the path's text.
#[verifier::external_body]
pub(crate) fn decode_image(source: &[u8], path: &str) -> (res: Result<DynamicImage, String>)
    ensures
        match res {
            Ok(image) => decoded(source@, path@) == Ok::<Raster, Seq<char>>(
                (Raster {
                    color: image_shape(image).0,
                    width: image_shape(image).1,
                    height: image_shape(image).2,
                    samples: image_samples(image),
                }),
            ),
            Err(text) => decoded(source@, path@) == Err::<Raster, Seq<char>>(text@),
        },
{
    let format = ImageFormat::from_path(path).map_err(|error| error.to_string())?;
    image::load_from_memory_with_format(source, format).map_err(|error| error.to_string())
}

/// Calls `DynamicImage::color` and hands the colour type back as the
/// library's own. Trusted: it is the colour type of the image's shape.
#[verifier::external_body]
pub(crate) fn color_of(image: &DynamicImage) -> (kind: ColorKind)
    ensures
        color_code(kind) == image_shape(*image).0,
{
    match image.color() {
        ColorType::L8 => ColorKind::L8,
        ColorType::La8 => ColorKind::La8,
        ColorType::Rgb8 => ColorKind::Rgb8,
        ColorType::Rgba8 => ColorKind::Rgba8,
        ColorType::L16 => ColorKind::L16,
        ColorType::La16 => ColorKind::La16,
        ColorType::Rgb16 => ColorKind::Rgb16,
        ColorType::Rgba16 => ColorKind::Rgba16,
        ColorType::Rgb32F => ColorKind::Rgb32F,
        ColorType::Rgba32F => ColorKind::Rgba32F,
        _ => ColorKind::Other,
    }
}

/// Calls `DynamicImage::width`. Trusted: it is the width of the image's
/// shape.
#[verifier::external_body]
pub(crate) fn width_of(image: &DynamicImage) -> (width: u32)
    ensures
        width == image_shape(*image).1,
{
    image.width()
}

/// Calls `DynamicImage::height`. Trusted: it is the height of the image's
/// shape.
#[verifier::external_body]
pub(crate) fn height_of(image: &DynamicImage) -> (height: u32)
    ensures
        height == image_shape(*image).2,
{
    image.height()
}

/// Whether the samples of `pixels` pixels can be added up where scaling adds
/// them up. Samples of 8 and of 16 bits are summed in 32 bits, and half the
/// number of pixels is added to round the mean: the largest such sum must
/// fit. Floating-point samples are summed in floating point, and only the
/// number of pixels must fit in 32 bits. Of any other colour type nothing is
/// known.
pub open spec fn sum_fits(color: int, pixels: int) -> bool {
    if 0 <= color <= 3 {
        pixels * 255 + pixels / 2 <= 0xFFFF_FFFF
    } else if 4 <= color <= 7 {
        pixels * 65535 + pixels / 2 <= 0xFFFF_FFFF
    } else if 8 <= color <= 9 {
        pixels <= 0xFFFF_FFFF
    } else {
        false
    }
}

/// A length that the scaled image is sure to reach along one side. Scaling
/// fills the box along one side; along the other it keeps the proportions,
/// rounds to whole pixels, and gives no less than one pixel. So along this
/// side the image is as long as the box, or no shorter than the whole
/// pixels in `side * max_other / other`, and no shorter than one pixel.
pub open spec fn least_side(side: int, other: int, max_side: int, max_other: int) -> int {
    let across = side * max_other / other;
    if across < 1 || max_side < 1 {
        1
    } else if across < max_side {
        across
    } else {
        max_side
    }
}

/// How many source pixels, at most, lie along one side of the block that is
/// averaged into one pixel of the scaled image: the source's length divided
/// by the least length of the scaled image, rounded up, with room for the
/// rounding of the single-precision arithmetic that places the blocks (less
/// than one part in 512) and one pixel more.
pub open spec fn block_side(side: int, other: int, max_side: int, max_other: int) -> int {
    let least = least_side(side, other, max_side, max_other);
    let ratio = (side + least - 1) / least;
    ratio + ratio / 512 + 1
}

/// Whether an image of the given colour type and size can be scaled to fit
/// the box without a sum of samples running over: the largest block that is
/// averaged into one pixel is small enough. An image without pixels is not
/// averaged at all.
pub open spec fn blocks_fit(color: int, width: int, height: int, max_width: int, max_height: int)
    -> bool {
    width >= 1 && height >= 1 ==> sum_fits(
        color,
        block_side(width, height, max_width, max_height) * block_side(
            height,
            width,
            max_height,
            max_width,
        ),
    )
}

/// Whether an image can be scaled to fit the box.
pub open spec fn scales_safely(image: Raster, max_width: int, max_height: int) -> bool {
    blocks_fit(image.color, image.width, image.height, max_width, max_height)
}

/// Whether `scaled` has the shape of `source` as nearly as whole pixels
/// allow, and is as large as a box allows: it is as wide as the box and its
/// height is less than a pixel from what the source's proportions ask for,
/// or the same with width and height exchanged.
pub open spec fn keeps_shape(source: Raster, scaled: Raster, max_width: int, max_height: int)
    -> bool {
    ||| {
        &&& scaled.width == max_width
        &&& -source.width < scaled.height * source.width - source.height * max_width
            < source.width
    }
    ||| {
        &&& scaled.height == max_height
        &&& -source.height < scaled.width * source.height - source.width * max_height
            < source.height
    }
}

/// Calls `DynamicImage::thumbnail`. Trusted: the result is a function of the
/// image and the box; it is at least one pixel wide and high, and no wider or
/// higher than the box; and where the image is no less than a pixel wide and
/// high, the result fills the box in one direction and keeps the image's
/// proportions to within a pixel in the other. The box is kept small enough
/// for the new image's buffer to have a length. The call adds up the samples
/// of each block of source pixels in a number of fixed width and panics
/// where a sum runs over: `scales_safely` leaves those images out.
#[verifier::external_body]
pub(crate) fn scale_to_fit(image: &DynamicImage, max_width: u32, max_height: u32) -> (scaled:
    DynamicImage)
    requires
        1 <= max_width <= 16384,
        1 <= max_height <= 16384,
        scales_safely(raster_of(*image), max_width as int, max_height as int),
    ensures
        raster_of(scaled) == scaled_to_fit(raster_of(*image), max_width as int, max_height as int),
        1 <= image_shape(scaled).1 <= max_width,
        1 <= image_shape(scaled).2 <= max_height,
        image_shape(*image).1 >= 1 && image_shape(*image).2 >= 1 ==> keeps_shape(
            raster_of(*image),
            raster_of(scaled),
            max_width as int,
            max_height as int,
        ),
{
    image.thumbnail(max_width, max_height)
}

/// Calls `DynamicImage::write_to` with `ImageOutputFormat::WebP`, into
/// memory. An error is handed back as its text. Trusted: whether this
/// succeeds, and the bytes or the text it gives, are functions of the image.
#[verifier::external_body]
pub(crate) fn encode_webp(image: &DynamicImage) -> (res: Result<Vec<u8>, String>)
    ensures
        match res {
            Ok(bytes) => webp_of(raster_of(*image)) == Ok::<Seq<u8>, Seq<char>>(bytes@),
            Err(text) => webp_of(raster_of(*image)) == Err::<Seq<u8>, Seq<char>>(text@),
        },
{
    let mut buffer = Vec::new();
    let written = image.write_to(&mut Cursor::new(&mut buffer), ImageOutputFormat::WebP);
    written.map(|_| buffer).map_err(|error| error.to_string())
}

/// A served request's result as a value.
pub open spec fn outcome_of(res: Result<Vec<u8>, ThumbnailError>) -> Result<Seq<u8>, Failure> {
    match res {
        Ok(bytes) => Ok(bytes@),
        Err(error) => Err(error@),
    }
}

/// The text of the failure for an image that cannot be scaled.
pub open spec fn too_large_text() -> Seq<char> {
    "the image is too large to be scaled to a thumbnail"@
}

/// The thumbnail of a source image, as the bytes of a WebP file: the source
/// decoded, scaled to fit the 100 by 100 box, and encoded. Where decoding or
/// encoding fails, the failure says which, with the codec's text. An image
/// that cannot be scaled safely fails as `EncodeFailed`, with the library's
/// own text.
pub open spec fn rendered(source: Seq<u8>, path: Seq<char>) -> Result<Seq<u8>, Failure> {
    match decoded(source, path) {
        Err(text) => Err(Failure { kind: ErrorKind::DecodeFailed, detail: text }),
        Ok(image) => if !scales_safely(
            image,
            THUMBNAIL_MAX_WIDTH as int,
            THUMBNAIL_MAX_HEIGHT as int,
        ) {
            Err(Failure { kind: ErrorKind::EncodeFailed, detail: too_large_text() })
        } else {
            match webp_of(thumbnail_of(image)) {
                Err(text) => Err(Failure { kind: ErrorKind::EncodeFailed, detail: text }),
                Ok(bytes) => Ok(bytes),
            }
        },
    }
}

/// Whether an image fits the box of a thumbnail: at least one pixel and at
/// most 100 pixels wide and high.
pub open spec fn fits_the_box(image: Raster) -> bool {
    &&& 1 <= image.width <= THUMBNAIL_MAX_WIDTH
    &&& 1 <= image.height <= THUMBNAIL_MAX_HEIGHT
}

/// The source image scaled to the size of a thumbnail.
pub open spec fn thumbnail_of(image: Raster) -> Raster {
    scaled_to_fit(image, THUMBNAIL_MAX_WIDTH as int, THUMBNAIL_MAX_HEIGHT as int)
}

/// Whether bytes are a thumbnail: the WebP encoding of an image that fits
/// the box.
pub open spec fn is_thumbnail(bytes: Seq<u8>) -> bool {
    exists|image: Raster| fits_the_box(image) && #[trigger] webp_of(image) == Ok::<
        Seq<u8>,
        Seq<char>,
    >(bytes)
}

/// What is sure of the thumbnail of a source that decodes to an image that
/// can be scaled: the image that is encoded fits the box, fills it in one
/// direction, and has the source's proportions to within a pixel.
pub open spec fn thumbnail_shaped(source: Seq<u8>, path: Seq<char>) -> bool {
    match decoded(source, path) {
        Ok(image) => scales_safely(image, THUMBNAIL_MAX_WIDTH as int, THUMBNAIL_MAX_HEIGHT as int)
            ==> {
            &&& fits_the_box(thumbnail_of(image))
            &&& image.width >= 1 && image.height >= 1 ==> keeps_shape(
                image,
                thumbnail_of(image),
                THUMBNAIL_MAX_WIDTH as int,
                THUMBNAIL_MAX_HEIGHT as int,
            )
        },
        Err(_) => true,
    }
}

/// How many source pixels, at most, lie along one side of a block.
fn block_side_of(side: u32, other: u32, max_side: u32, max_other: u32) -> (pixels: u64)
    requires
        side >= 1,
        other >= 1,
    ensures
        pixels == block_side(side as int, other as int, max_side as int, max_other as int),
        1 <= pixels <= 0x1_0080_0000,
{
    assert(side * max_other <= 0xFFFF_FFFF * 0xFFFF_FFFF) by (nonlinear_arith)
        requires
            0 <= side <= 0xFFFF_FFFF,
            0 <= max_other <= 0xFFFF_FFFF,
    ;
    let across: u64 = side as u64 * max_other as u64 / other as u64;
    let least: u64 = if across < 1 || max_side < 1 {
        1
    } else if across < max_side as u64 {
        across
    } else {
        max_side as u64
    };
    let ratio: u64 = (side as u64 + least - 1) / least;
    assert(0 <= ratio <= side) by (nonlinear_arith)
        requires
            ratio == (side + least - 1) / (least as int),
            least >= 1,
            side >= 1,
    ;
    ratio + ratio / 512 + 1
}

/// Whether an image of the given colour type and size can be scaled to fit
/// the box without a sum of samples running over.
pub fn can_scale(kind: ColorKind, width: u32, height: u32, max_width: u32, max_height: u32) -> (safe:
    bool)
    ensures
        safe == blocks_fit(
            color_code(kind),
            width as int,
            height as int,
            max_width as int,
            max_height as int,
        ),
{
    if width < 1 || height < 1 {
        return true;
    }
    let across = block_side_of(width, height, max_width, max_height);
    let down = block_side_of(height, width, max_height, max_width);
    assert(across * down <= 0x1_0080_0000 * 0x1_0080_0000) by (nonlinear_arith)
        requires
            0 <= across <= 0x1_0080_0000,
            0 <= down <= 0x1_0080_0000,
    ;
    let pixels: u128 = across as u128 * down as u128;
    match kind {
        ColorKind::L8 | ColorKind::La8 | ColorKind::Rgb8 | ColorKind::Rgba8 => pixels * 255
            + pixels / 2 <= 0xFFFF_FFFF,
        ColorKind::L16 | ColorKind::La16 | ColorKind::Rgb16 | ColorKind::Rgba16 => pixels * 65535
            + pixels / 2 <= 0xFFFF_FFFF,
        ColorKind::Rgb32F | ColorKind::Rgba32F => pixels <= 0xFFFF_FFFF,
        ColorKind::Other => false,
    }
}

/// Renders the thumbnail of the image whose file at `source_path` holds
/// `source`. Nothing is read or written: the same bytes under the same path
/// always give the same result. What is rendered is a WebP file of an image
/// that fits the box; and whenever the source decodes to an image that can
/// be scaled, the image that is encoded fits the box, fills it in one
/// direction, and has the source's proportions to within a pixel. An image
/// whose blocks of pixels are too large to be averaged is not scaled: the
/// request fails as `EncodeFailed`.
pub fn render_thumbnail(source: &[u8], source_path: &str) -> (res: Result<Vec<u8>, ThumbnailError>)
    ensures
        outcome_of(res) == rendered(source@, source_path@),
        res matches Ok(bytes) ==> is_thumbnail(bytes@),
        thumbnail_shaped(source@, source_path@),
{
    let image = match decode_image(source, source_path) {
        Ok(image) => image,
        Err(text) => {
            return Err(ThumbnailError { kind: ErrorKind::DecodeFailed, detail: text });
        },
    };
    let fits = can_scale(
        color_of(&image),
        width_of(&image),
        height_of(&image),
        THUMBNAIL_MAX_WIDTH,
        THUMBNAIL_MAX_HEIGHT,
    );
    if !fits {
        return Err(
            ThumbnailError {
                kind: ErrorKind::EncodeFailed,
                detail: String::from_str("the image is too large to be scaled to a thumbnail"),
            },
        );
    }
    let thumbnail = scale_to_fit(&image, THUMBNAIL_MAX_WIDTH, THUMBNAIL_MAX_HEIGHT);
    assert(fits_the_box(raster_of(thumbnail)));
    match encode_webp(&thumbnail) {
        Ok(bytes) => Ok(bytes),
        Err(text) => Err(ThumbnailError { kind: ErrorKind::EncodeFailed, detail: text }),
    }
}

} // verus!
