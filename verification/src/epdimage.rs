//! The image codec: from a decoded raster to the panel's packed one-bit frame.
//!
//! A raster is fitted to the panel's geometry, reduced to luma, cut at a fixed
//! threshold and packed eight pixels to a byte, row by row, the first pixel of
//! each group in the most significant bit. Decoding, resampling, the luma
//! weighting and the threshold are the work of the `image` and `imageproc`
//! crates; the packing is done here.

use vstd::prelude::*;
use crate::error::DriverError;
use crate::error::ImageFailure;

verus! {

/// Width of the panel in pixels.
pub const EPD_WIDTH: u32 = 400;

/// Height of the panel in pixels.
pub const EPD_HEIGHT: u32 = 300;

/// The luma from which on a pixel counts as "off" and packs to bit 1.
pub const LUMA_THRESHOLD: u8 = 0x88;

/// The geometry of the panel that an image is fitted to.
#[derive(Debug, Clone, Copy, PartialEq, Eq, Structural)]
pub struct EpdImageFormat {
    /// width in px
    pub width: u32,
    /// height in px
    pub height: u32,
}

/// What an [`EpdImage`] holds: its geometry and its samples, four per pixel
/// (red, green, blue, alpha), row by row.
pub struct Raster {
    pub width: u32,
    pub height: u32,
    pub pixels: Seq<u8>,
}

impl Raster {
    /// The raster is not empty and has exactly the samples of its geometry.
    pub open spec fn well_formed(self) -> bool {
        &&& self.width >= 1
        &&& self.height >= 1
        &&& self.pixels.len() == 4 * (self.width * self.height)
    }

    /// Every colour sample of the raster equals `value`; alpha is free.
    pub open spec fn solid(self, value: u8) -> bool {
        forall|i: int| 0 <= i < self.pixels.len() && i % 4 != 3 ==> self.pixels[i] == value
    }
}

/// A decoded image, held as 8-bit RGBA.
#[derive(Debug)]
pub struct EpdImage {
    width: u32,
    height: u32,
    pixels: Vec<u8>,
}

impl View for EpdImage {
    type V = Raster;

    closed spec fn view(&self) -> Raster {
        Raster { width: self.width, height: self.height, pixels: self.pixels@ }
    }
}

/// The raster that `image::load_from_memory` decodes from `bytes`, converted
/// to 8-bit RGBA, as width, height and samples; `None` where it fails.
pub uninterp spec fn decoded_rgba(bytes: Seq<u8>) -> Option<(u32, u32, Seq<u8>)>;

/// The samples that `image::DynamicImage::resize_exact` with the Gaussian
/// filter gives for an 8-bit RGBA raster and a new geometry.
pub uninterp spec fn resampled_rgba(
    width: u32,
    height: u32,
    pixels: Seq<u8>,
    new_width: u32,
    new_height: u32,
) -> Seq<u8>;

/// The luma of one pixel, by the weights of the `image` crate: 0.2126 red,
/// 0.7152 green, 0.0722 blue, in integers and rounded down.
pub open spec fn luma_value(r: u8, g: u8, b: u8) -> u8 {
    ((2126 * r + 7152 * g + 722 * b) / 10000) as u8
}

/// The luma of every pixel of a run of RGBA samples.
pub open spec fn luma_of(rgba: Seq<u8>) -> Seq<u8> {
    Seq::new(
        rgba.len() / 4,
        |i: int| luma_value(rgba[4 * i], rgba[4 * i + 1], rgba[4 * i + 2]),
    )
}

/// The cut at the threshold: 255 for a luma of 136 or more, 0 below.
pub open spec fn binarized(luma: Seq<u8>) -> Seq<u8> {
    Seq::new(luma.len(), |i: int| if luma[i] >= LUMA_THRESHOLD { 255u8 } else { 0u8 })
}

/// The bit of pixel `i`: 1 where the pixel is not zero, 0 where it is zero
/// and past the end of the pixels.
pub open spec fn bit_at(pixels: Seq<u8>, i: int) -> int {
    if 0 <= i < pixels.len() && pixels[i] != 0 {
        1
    } else {
        0
    }
}

/// Byte `j` of the packed pixels: pixels `8 * j` to `8 * j + 7`, the first in
/// the most significant bit.
pub open spec fn packed_byte(pixels: Seq<u8>, j: int) -> int {
    128 * bit_at(pixels, 8 * j) + 64 * bit_at(pixels, 8 * j + 1) + 32 * bit_at(pixels, 8 * j + 2)
        + 16 * bit_at(pixels, 8 * j + 3) + 8 * bit_at(pixels, 8 * j + 4) + 4 * bit_at(
        pixels,
        8 * j + 5,
    ) + 2 * bit_at(pixels, 8 * j + 6) + bit_at(pixels, 8 * j + 7)
}

/// The pixels packed one bit each. The length is the number of pixels over
/// eight, rounded up; the bits past the last pixel are 0.
pub open spec fn packed(pixels: Seq<u8>) -> Seq<u8> {
    Seq::new(((pixels.len() + 7) / 8) as nat, |j: int| packed_byte(pixels, j) as u8)
}

/// The panel frame of a run of RGBA samples that already has the panel's
/// geometry: luma, threshold, packing.
pub open spec fn panel_frame(rgba: Seq<u8>) -> Seq<u8> {
    packed(binarized(luma_of(rgba)))
}

/// Whether the buffers that resampling a raster of width `width` to `format`
/// goes through can be addressed on this machine: the intermediate one holds
/// four 32-bit samples for each pixel of `width` by `format.height`, the
/// final one four bytes for each pixel of the format.
pub open spec fn resample_fits(width: u32, format: EpdImageFormat) -> bool {
    &&& 16 * (width * format.height) <= isize::MAX
    &&& 4 * (format.width * format.height) <= isize::MAX
}

/// The samples of a raster once it is fitted to a format: its own where it
/// has the format's geometry already, the resampled ones otherwise.
pub open spec fn fitted(raster: Raster, format: EpdImageFormat) -> Seq<u8> {
    if format.width == raster.width && format.height == raster.height {
        raster.pixels
    } else {
        resampled_rgba(raster.width, raster.height, raster.pixels, format.width, format.height)
    }
}

/// What exporting a raster to a format gives: the panel frame of the fitted
/// raster, or `TooLarge` where resampling does not fit the machine.
pub open spec fn exported(raster: Raster, format: EpdImageFormat) -> Result<Seq<u8>, DriverError> {
    if resample_fits(raster.width, format) {
        Ok(panel_frame(fitted(raster, format)))
    } else {
        Err(DriverError::ImageDecodeError(ImageFailure::TooLarge))
    }
}

/// What is made of the width, height and samples that the decoder gives: the
/// raster, or a failure of `Geometry` where a side is zero or the samples are
/// not four for each pixel.
pub open spec fn decoded_image(raster: (u32, u32, Seq<u8>)) -> Result<Raster, DriverError> {
    let raster = Raster { width: raster.0, height: raster.1, pixels: raster.2 };
    if raster.well_formed() {
        Ok(raster)
    } else {
        Err(DriverError::ImageDecodeError(ImageFailure::Geometry))
    }
}

/// `image::ImageError`, as the decoder hands it out. Nothing is known of a
/// value but what `failure_of` tells.
#[verifier::external_type_specification]
#[verifier::external_body]
pub struct ExImageError(image::ImageError);

/// Calls `image::load_from_memory` and converts what it decodes with
/// `DynamicImage::into_rgba8`. Trusted: the result is a function of the bytes
/// alone, which `decoded_rgba` names.
#[verifier::external_body]
fn decode_rgba8(bytes: &[u8]) -> (res: Result<(u32, u32, Vec<u8>), image::ImageError>)
    ensures
        match res {
            Ok(raster) => decoded_rgba(bytes@) == Some((raster.0, raster.1, raster.2@)),
            Err(_) => decoded_rgba(bytes@) is None,
        },
{
    let rgba = image::load_from_memory(bytes)?.into_rgba8();
    Ok((rgba.width(), rgba.height(), rgba.into_raw()))
}

/// Tells the variants of `image::ImageError` apart. Nothing is claimed of the
/// result.
#[verifier::external_body]
fn failure_of(error: &image::ImageError) -> ImageFailure {
    match error {
        image::ImageError::Decoding(_) => ImageFailure::Decoding,
        image::ImageError::Encoding(_) => ImageFailure::Encoding,
        image::ImageError::Parameter(_) => ImageFailure::Parameter,
        image::ImageError::Limits(_) => ImageFailure::Limits,
        image::ImageError::Unsupported(_) => ImageFailure::Unsupported,
        image::ImageError::IoError(_) => ImageFailure::Io,
    }
}

/// Calls `image::DynamicImage::resize_exact` with `FilterType::Gaussian` on
/// an 8-bit RGBA raster. Trusted: the result is a function of the arguments
/// alone, which `resampled_rgba` names; it has four samples for each pixel of
/// the new geometry; and where the new geometry is the old one, the crate
/// copies the raster instead of resampling it. The preconditions keep the
/// crate's buffers within what a vector can hold, where it would panic
/// otherwise, and the source raster non-empty.
#[verifier::external_body]
fn resample_rgba8(width: u32, height: u32, pixels: Vec<u8>, new_width: u32, new_height: u32) -> (res:
    Vec<u8>)
    requires
        width >= 1,
        height >= 1,
        pixels@.len() == 4 * (width * height),
        16 * (width * new_height) <= isize::MAX,
        4 * (new_width * new_height) <= isize::MAX,
    ensures
        res@ == resampled_rgba(width, height, pixels@, new_width, new_height),
        res@.len() == 4 * (new_width * new_height),
        new_width == width && new_height == height ==> res@ == pixels@,
{
    let source = image::RgbaImage::from_raw(width, height, pixels).unwrap();
    let resized = image::DynamicImage::ImageRgba8(source).resize_exact(
        new_width,
        new_height,
        image::imageops::FilterType::Gaussian,
    );
    resized.into_rgba8().into_raw()
}

/// Calls `image::DynamicImage::grayscale` on an 8-bit RGBA raster and takes
/// the luma channel with `into_luma8`. Trusted: each pixel's luma is
/// `luma_value` of its red, green and blue samples.
#[verifier::external_body]
fn luma_rgba8(width: u32, height: u32, pixels: Vec<u8>) -> (res: Vec<u8>)
    requires
        pixels@.len() == 4 * (width * height),
    ensures
        res@ == luma_of(pixels@),
{
    let source = image::RgbaImage::from_raw(width, height, pixels).unwrap();
    image::DynamicImage::ImageRgba8(source).grayscale().into_luma8().into_raw()
}

/// Calls `imageproc::contrast::threshold` on an 8-bit luma raster. Trusted:
/// a pixel of at most `thresh` becomes 0, any other 255.
#[verifier::external_body]
fn threshold_luma8(width: u32, height: u32, luma: Vec<u8>, thresh: u8) -> (res: Vec<u8>)
    requires
        luma@.len() == width * height,
    ensures
        res@.len() == luma@.len(),
        forall|i: int|
            0 <= i < luma@.len() ==> res@[i] == if luma@[i] <= thresh {
                0u8
            } else {
                255u8
            },
{
    let source = image::GrayImage::from_raw(width, height, luma).unwrap();
    imageproc::contrast::threshold(&source, thresh).into_raw()
}

/// The number of pixels of a geometry.
fn pixel_count(width: u32, height: u32) -> (count: u64)
    ensures
        count == width * height,
{
    assert(width * height <= 0xffff_ffff * 0xffff_ffff) by (nonlinear_arith)
        requires
            width <= 0xffff_ffff,
            height <= 0xffff_ffff,
    ;
    (width as u64) * (height as u64)
}

/// The bit of the pixel `offset` places after `base`.
fn pixel_bit(pixels: &[u8], base: usize, offset: usize) -> (bit: u8)
    requires
        base <= pixels@.len(),
        offset < 8,
    ensures
        bit == bit_at(pixels@, base + offset),
{
    if offset < pixels.len() - base && pixels[base + offset] != 0 {
        1
    } else {
        0
    }
}

/// Packs the eight pixels from `base` on into one byte; pixels past the end
/// count as zero.
fn pack_group(pixels: &[u8], base: usize) -> (byte: u8)
    requires
        base <= pixels@.len(),
        base % 8 == 0,
    ensures
        byte == packed_byte(pixels@, base as int / 8),
{
    128 * pixel_bit(pixels, base, 0) + 64 * pixel_bit(pixels, base, 1) + 32 * pixel_bit(
        pixels,
        base,
        2,
    ) + 16 * pixel_bit(pixels, base, 3) + 8 * pixel_bit(pixels, base, 4) + 4 * pixel_bit(
        pixels,
        base,
        5,
    ) + 2 * pixel_bit(pixels, base, 6) + pixel_bit(pixels, base, 7)
}

/// Packs binary pixels, one byte each, into one bit each: a pixel that is not
/// zero gives bit 1. Eight pixels make a byte, the first in the most
/// significant bit; a last group of fewer than eight is filled up with 0 bits.
pub fn pack_pixels(pixels: &[u8]) -> (data: Vec<u8>)
    ensures
        data@ == packed(pixels@),
        data@.len() == (pixels@.len() + 7) / 8,
{
    let full: usize = pixels.len() / 8;
    let mut data: Vec<u8> = Vec::new();
    let mut j: usize = 0;
    while j < full
        invariant
            pixels@.len() <= usize::MAX,
            full == pixels@.len() / 8,
            j <= full,
            data@.len() == j,
            forall|k: int| 0 <= k < j ==> data@[k] == packed_byte(pixels@, k) as u8,
        decreases full - j,
    {
        let byte = pack_group(pixels, 8 * j);
        data.push(byte);
        j += 1;
    }
    if pixels.len() % 8 != 0 {
        let byte = pack_group(pixels, 8 * full);
        data.push(byte);
    }
    assert(data@ =~= packed(pixels@));
    data
}

/// Cuts a luma raster at the threshold.
fn binarize(width: u32, height: u32, luma: Vec<u8>) -> (res: Vec<u8>)
    requires
        luma@.len() == width * height,
    ensures
        res@ == binarized(luma@),
{
    let res = threshold_luma8(width, height, luma, LUMA_THRESHOLD - 1);
    assert(res@ =~= binarized(luma@));
    res
}

impl Clone for EpdImage {
    fn clone(&self) -> (res: EpdImage)
        ensures
            res@ == self@,
    {
        proof {
            use_type_invariant(self);
        }
        let pixels = self.pixels.clone();
        assert(pixels@ =~= self.pixels@);
        EpdImage { width: self.width, height: self.height, pixels }
    }
}

impl EpdImage {
    #[verifier::type_invariant]
    spec fn well_formed(self) -> bool {
        self@.well_formed()
    }

    /// Takes a raster of 8-bit RGBA samples. It is refused, as a failure of
    /// `Geometry`, where a side is zero or the samples are not four for each
    /// pixel.
    pub fn from_rgba8(width: u32, height: u32, pixels: Vec<u8>) -> (res: Result<
        EpdImage,
        DriverError,
    >)
        ensures
            match res {
                Ok(image) => decoded_image((width, height, pixels@)) == Ok::<Raster, DriverError>(
                    image@,
                ),
                Err(e) => decoded_image((width, height, pixels@)) == Err::<Raster, DriverError>(e),
            },
    {
        if width == 0 || height == 0 {
            return Err(DriverError::ImageDecodeError(ImageFailure::Geometry));
        }
        let expected: u128 = 4 * (pixel_count(width, height) as u128);
        if pixels.len() as u128 != expected {
            return Err(DriverError::ImageDecodeError(ImageFailure::Geometry));
        }
        Ok(EpdImage { width, height, pixels })
    }

    /// Decodes an encoded image, of whatever format its bytes show, into a
    /// raster. Any failure of the decoder comes back as `ImageDecodeError`
    /// with the decoder's reason.
    pub fn decode(bytes: &[u8]) -> (res: Result<EpdImage, DriverError>)
        ensures
            match decoded_rgba(bytes@) {
                Some(raster) => match res {
                    Ok(image) => decoded_image(raster) == Ok::<Raster, DriverError>(image@),
                    Err(e) => decoded_image(raster) == Err::<Raster, DriverError>(e),
                },
                None => res matches Err(e) && e is ImageDecodeError,
            },
    {
        match decode_rgba8(bytes) {
            Ok(raster) => EpdImage::from_rgba8(raster.0, raster.1, raster.2),
            Err(error) => Err(DriverError::ImageDecodeError(failure_of(&error))),
        }
    }

    /// Width in pixels.
    pub fn width(&self) -> (width: u32)
        ensures
            width == self@.width,
    {
        self.width
    }

    /// Height in pixels.
    pub fn height(&self) -> (height: u32)
        ensures
            height == self@.height,
    {
        self.height
    }

    /// The samples, four per pixel, row by row.
    pub fn pixels(&self) -> (pixels: &Vec<u8>)
        ensures
            pixels@ == self@.pixels,
    {
        &self.pixels
    }

    /// Turns the image into the panel's frame: fitted to the format's
    /// geometry without regard to the aspect ratio, reduced to luma, cut at
    /// the threshold and packed. An image that already has the format's
    /// geometry is not resampled. The one failure is `TooLarge`.
    pub fn export(self, format: &EpdImageFormat) -> (res: Result<Vec<u8>, DriverError>)
        ensures
            self@.well_formed(),
            match res {
                Ok(data) => {
                    &&& exported(self@, *format) == Ok::<Seq<u8>, DriverError>(data@)
                    &&& data@.len() == (format.width * format.height + 7) / 8
                },
                Err(e) => exported(self@, *format) == Err::<Seq<u8>, DriverError>(e),
            },
    {
        proof {
            use_type_invariant(&self);
        }
        let width = format.width;
        let height = format.height;
        let limit: u128 = isize::MAX as u128;
        let between: u128 = 16 * (pixel_count(self.width, height) as u128);
        let after: u128 = 4 * (pixel_count(width, height) as u128);
        if between > limit || after > limit {
            return Err(DriverError::ImageDecodeError(ImageFailure::TooLarge));
        }
        let rgba = resample_rgba8(self.width, self.height, self.pixels, width, height);
        let luma = luma_rgba8(width, height, rgba);
        assert(luma@.len() == width * height);
        let binary = binarize(width, height, luma);
        let data = pack_pixels(binary.as_slice());
        Ok(data)
    }
}

/// The packed pixels are as many bytes as it takes to hold a bit for each:
/// the last group is not dropped where it is short.
pub proof fn lemma_packed_len(pixels: Seq<u8>)
    ensures
        pixels.len() <= 8 * packed(pixels).len() < pixels.len() + 8,
        pixels.len() % 8 != 0 ==> packed(pixels).len() == pixels.len() / 8 + 1,
{
}

/// The threshold is on the side of bit 1: a pixel packs to bit 1 exactly if
/// its luma is 136 or more.
pub proof fn lemma_threshold_side(luma: Seq<u8>, i: int)
    requires
        0 <= i < luma.len(),
    ensures
        bit_at(binarized(luma), i) == 1 <==> luma[i] >= 136,
        luma[i] == 136 ==> bit_at(binarized(luma), i) == 1,
        luma[i] == 135 ==> bit_at(binarized(luma), i) == 0,
{
}

/// The bits past the last pixel are 0.
pub proof fn lemma_padding_bits(pixels: Seq<u8>, i: int)
    requires
        i >= pixels.len(),
    ensures
        bit_at(pixels, i) == 0,
{
}

/// A raster that is white all over packs to bit 1 in every pixel, so every
/// byte that holds eight pixels is 0xff.
pub proof fn lemma_solid_white(raster: Raster)
    requires
        raster.well_formed(),
        raster.solid(255),
    ensures
        forall|i: int|
            0 <= i < raster.width * raster.height ==> bit_at(
                binarized(luma_of(raster.pixels)),
                i,
            ) == 1,
        forall|j: int|
            0 <= j < (raster.width * raster.height) / 8 ==> #[trigger] panel_frame(
                raster.pixels,
            )[j] == 0xff,
{
    let count = raster.width * raster.height;
    let binary = binarized(luma_of(raster.pixels));
    assert forall|i: int| 0 <= i < count implies bit_at(binary, i) == 1 by {
        lemma_solid_luma(raster, 255, i);
    }
    assert forall|j: int| 0 <= j < count / 8 implies #[trigger] panel_frame(raster.pixels)[j]
        == 0xff by {
        assert(bit_at(binary, 8 * j) == 1);
        assert(bit_at(binary, 8 * j + 1) == 1);
        assert(bit_at(binary, 8 * j + 2) == 1);
        assert(bit_at(binary, 8 * j + 3) == 1);
        assert(bit_at(binary, 8 * j + 4) == 1);
        assert(bit_at(binary, 8 * j + 5) == 1);
        assert(bit_at(binary, 8 * j + 6) == 1);
        assert(bit_at(binary, 8 * j + 7) == 1);
        assert(packed_byte(binary, j) == 255);
    }
}

/// A raster that is black all over packs to bit 0 in every pixel, so every
/// byte of its frame is 0.
pub proof fn lemma_solid_black(raster: Raster)
    requires
        raster.well_formed(),
        raster.solid(0),
    ensures
        forall|i: int| bit_at(binarized(luma_of(raster.pixels)), i) == 0,
        forall|j: int|
            0 <= j < panel_frame(raster.pixels).len() ==> #[trigger] panel_frame(raster.pixels)[j]
                == 0,
{
    let count = raster.width * raster.height;
    let binary = binarized(luma_of(raster.pixels));
    assert forall|i: int| bit_at(binary, i) == 0 by {
        if 0 <= i < count {
            lemma_solid_luma(raster, 0, i);
        }
    }
    assert forall|j: int| 0 <= j < panel_frame(raster.pixels).len() implies #[trigger] panel_frame(
        raster.pixels,
    )[j] == 0 by {
        assert(packed_byte(binary, j) == 0);
    }
}

/// A white raster that has the format's geometry exports to a frame in which
/// every byte of eight pixels is 0xff, and a black one to a frame of zeros.
pub proof fn lemma_solid_export(raster: Raster, format: EpdImageFormat)
    requires
        raster.well_formed(),
        format.width == raster.width,
        format.height == raster.height,
        resample_fits(raster.width, format),
    ensures
        exported(raster, format) == Ok::<Seq<u8>, DriverError>(panel_frame(raster.pixels)),
        raster.solid(255) ==> forall|j: int|
            0 <= j < (format.width * format.height) / 8 ==> #[trigger] panel_frame(
                raster.pixels,
            )[j] == 0xff,
        raster.solid(0) ==> forall|j: int|
            0 <= j < panel_frame(raster.pixels).len() ==> #[trigger] panel_frame(raster.pixels)[j]
                == 0,
{
    if raster.solid(255) {
        lemma_solid_white(raster);
    }
    if raster.solid(0) {
        lemma_solid_black(raster);
    }
}

/// In a raster of one colour value, every pixel has that value as its luma:
/// the weights add up to one.
pub proof fn lemma_solid_luma(raster: Raster, value: u8, i: int)
    requires
        raster.well_formed(),
        raster.solid(value),
        0 <= i < raster.width * raster.height,
    ensures
        luma_of(raster.pixels).len() == raster.width * raster.height,
        luma_of(raster.pixels)[i] == value,
{
    let rgba = raster.pixels;
    assert(rgba[4 * i] == value);
    assert(rgba[4 * i + 1] == value);
    assert(rgba[4 * i + 2] == value);
    assert((2126 * value + 7152 * value + 722 * value) / 10000 == value);
}

} // verus!
