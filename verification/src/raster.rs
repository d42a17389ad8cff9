//! Rasters, and the calls into `image` that scale and convert them.

use vstd::arithmetic::power2::{lemma2_to64, lemma_pow2_unfold, pow2};
use vstd::prelude::*;
use crate::document::copy_bytes;
use crate::pdf_numbers::{double_spacing, rounded_magnitude};

verus! {

/// A colour image, three bytes per pixel, row by row.
#[derive(Debug)]
pub struct RgbRaster {
    pub width: u32,
    pub height: u32,
    pub pixels: Vec<u8>,
}

/// A grey image, one byte per pixel, row by row.
#[derive(Debug)]
pub struct GrayRaster {
    pub width: u32,
    pub height: u32,
    pub pixels: Vec<u8>,
}

/// What an image shows: its size and its pixels.
#[verifier::ext_equal]
pub struct RasterModel {
    pub width: u32,
    pub height: u32,
    pub pixels: Seq<u8>,
}

impl View for RgbRaster {
    type V = RasterModel;

    open spec fn view(&self) -> RasterModel {
        RasterModel { width: self.width, height: self.height, pixels: self.pixels@ }
    }
}

impl RgbRaster {
    /// The pixels are as many as the size says.
    pub open spec fn wf(self) -> bool {
        self.pixels.len() == 3 * (self.width * self.height)
    }

    /// A copy with the same size and pixels.
    pub fn copy(&self) -> (r: RgbRaster)
        ensures
            r@ == self@,
    {
        RgbRaster { width: self.width, height: self.height, pixels: copy_bytes(&self.pixels) }
    }
}

impl GrayRaster {
    /// The pixels are as many as the size says.
    pub open spec fn wf(self) -> bool {
        self.pixels.len() == self.width * self.height
    }
}

/// One byte of a picture: a colour of a pixel.
pub open spec fn byte_at(pixels: Seq<u8>, width: int, x: int, y: int, channel: int) -> u8 {
    pixels[3 * (y * width + x) + channel]
}

/// The pixels that `image::imageops::resize` makes with the triangle filter.
pub uninterp spec fn triangle_resized(
    pixels: Seq<u8>,
    width: u32,
    height: u32,
    to_width: u32,
    to_height: u32,
) -> Seq<u8>;

/// The colours of a pixel, weighted by how bright they look, in parts of ten thousand.
pub open spec fn weighted_colors(pixels: Seq<u8>, p: int) -> int {
    2_126 * pixels[3 * p] + 7_152 * pixels[3 * p + 1] + 722 * pixels[3 * p + 2]
}

/// Whether grey pixels are the brightness of colour ones: each is the weighted mean of the
/// colours, or differs from it by at most one.
pub open spec fn is_brightness(gray: Seq<u8>, pixels: Seq<u8>) -> bool {
    &&& pixels.len() == 3 * gray.len()
    &&& forall|p: int|
        0 <= p < gray.len() ==> -10_000 <= 10_000 * #[trigger] gray[p] - weighted_colors(pixels, p)
            <= 10_000
}

/// The pixels that `image::imageops::thumbnail` makes.
pub uninterp spec fn thumbnail_pixels(
    pixels: Seq<u8>,
    width: u32,
    height: u32,
    to_width: u32,
    to_height: u32,
) -> Seq<u8>;

/// The longest side that an image is scaled to: far from where the positions of pixels
/// stop being told apart in single precision.
pub const LONGEST_SCALED: u32 = 0x1000;

/// Scales an image with the triangle filter (`image::imageops::resize`). The result
/// has the wanted size; its pixels are named by the image and the size. A longer side is
/// left out: a position that is rounded may see no pixel at all, and then there is no
/// answer.
#[verifier::external_body]
pub(crate) fn resize_triangle(image: &RgbRaster, width: u32, height: u32) -> (r: RgbRaster)
    requires
        image.wf(),
        0 < width <= LONGEST_SCALED,
        0 < height <= LONGEST_SCALED,
    ensures
        r.width == width,
        r.height == height,
        r.wf(),
        r.pixels@ == triangle_resized(image.pixels@, image.width, image.height, width, height),
{
    let source = image::RgbImage::from_raw(image.width, image.height, image.pixels.clone()).unwrap();
    let filter = image::imageops::FilterType::Triangle;
    let scaled = image::imageops::resize(&source, width, height, filter);
    RgbRaster { width: scaled.width(), height: scaled.height(), pixels: scaled.into_raw() }
}

/// Scales an image with the Lanczos filter (`image::imageops::resize`). The result
/// has the wanted size. An image that has it already is copied; else the pixels rest on
/// the sine function of the machine and are left open. A longer side is left out, as it is
/// with the triangle filter.
#[verifier::external_body]
pub(crate) fn resize_lanczos(image: &RgbRaster, width: u32, height: u32) -> (r: RgbRaster)
    requires
        image.wf(),
        0 < width <= LONGEST_SCALED,
        0 < height <= LONGEST_SCALED,
    ensures
        r.width == width,
        r.height == height,
        r.wf(),
        width == image.width && height == image.height ==> r.pixels@ == image.pixels@,
{
    let source = image::RgbImage::from_raw(image.width, image.height, image.pixels.clone()).unwrap();
    let filter = image::imageops::FilterType::Lanczos3;
    let scaled = image::imageops::resize(&source, width, height, filter);
    RgbRaster { width: scaled.width(), height: scaled.height(), pixels: scaled.into_raw() }
}

/// The brightness of a colour image (`image::DynamicImage::to_luma8`). The result has the
/// same size, and each pixel is the weighted mean of the colours to within one. The exact
/// value rests on whether the machine multiplies and adds in one step, and is left open.
#[verifier::external_body]
pub(crate) fn to_luma(image: &RgbRaster) -> (r: GrayRaster)
    requires
        image.wf(),
    ensures
        r.width == image.width,
        r.height == image.height,
        r.wf(),
        is_brightness(r.pixels@, image.pixels@),
{
    let source = image::RgbImage::from_raw(image.width, image.height, image.pixels.clone()).unwrap();
    let gray = image::DynamicImage::ImageRgb8(source).to_luma8();
    GrayRaster { width: gray.width(), height: gray.height(), pixels: gray.into_raw() }
}

/// The most pixels that can be summed up for one pixel of a smaller image: as many white
/// ones as 32 bits can count.
pub const MOST_SUMMED: u64 = 16_843_009;

/// The longest side that is told exactly when images are shrunk.
pub const LONGEST_SHRUNK: u32 = 0x100_0000;

/// Whether an image can be shrunk to a size: no pixel of the smaller image stands for more
/// pixels than can be summed up. A block may be a few pixels longer than the quotient of
/// the sides.
pub open spec fn can_be_shrunk(width: u32, height: u32, to_width: u32, to_height: u32) -> bool {
    &&& width <= LONGEST_SHRUNK
    &&& height <= LONGEST_SHRUNK
    &&& 0 < to_width <= LONGEST_SHRUNK
    &&& 0 < to_height <= LONGEST_SHRUNK
    &&& (width / to_width + 8) * (height / to_height + 8) <= MOST_SUMMED
}

/// Tells whether an image can be shrunk to a size.
pub fn can_shrink(width: u32, height: u32, to_width: u32, to_height: u32) -> (r: bool)
    ensures
        r == can_be_shrunk(width, height, to_width, to_height),
{
    if width > LONGEST_SHRUNK || height > LONGEST_SHRUNK || to_width == 0 || to_height == 0
        || to_width > LONGEST_SHRUNK || to_height > LONGEST_SHRUNK {
        return false;
    }
    let across: u64 = (width / to_width) as u64 + 8;
    let down: u64 = (height / to_height) as u64 + 8;
    assert(0 <= across * down <= 0x100_0008 * 0x100_0008) by (nonlinear_arith)
        requires
            0 <= across <= 0x100_0008,
            0 <= down <= 0x100_0008,
    ;
    across * down <= MOST_SUMMED
}

/// Shrinks an image (`image::imageops::thumbnail`). The result has the wanted size;
/// its pixels are named by the image and the size.
#[verifier::external_body]
pub(crate) fn thumbnail(image: &RgbRaster, width: u32, height: u32) -> (r: RgbRaster)
    requires
        image.wf(),
        can_be_shrunk(image.width, image.height, width, height),
    ensures
        r.width == width,
        r.height == height,
        r.wf(),
        r.pixels@ == thumbnail_pixels(image.pixels@, image.width, image.height, width, height),
{
    let source = image::RgbImage::from_raw(image.width, image.height, image.pixels.clone()).unwrap();
    let small = image::imageops::thumbnail(&source, width, height);
    RgbRaster { width: small.width(), height: small.height(), pixels: small.into_raw() }
}

/// The size of the pictures that the camera's window shows.
pub const FRAME_WIDTH: u32 = 1_280;

pub const FRAME_HEIGHT: u32 = 960;

/// The picture of a camera frame that the window shows.
pub fn preview_of(frame: &RgbRaster) -> (r: RgbRaster)
    requires
        frame.wf(),
        can_be_shrunk(frame.width, frame.height, FRAME_WIDTH, FRAME_HEIGHT),
    ensures
        r.wf(),
        r.width == FRAME_WIDTH,
        r.height == FRAME_HEIGHT,
        r.pixels@ == thumbnail_pixels(frame.pixels@, frame.width, frame.height, 1_280, 960),
{
    thumbnail(frame, FRAME_WIDTH, FRAME_HEIGHT)
}

/// The exponent that brings a quotient to 53 significant bits, starting from one
/// already known to be needed.
pub open spec fn quotient_shift(p: nat, q: nat, shift: nat) -> nat
    decreases 0x20_0000_0000_0000 * q - p * pow2(shift),
{
    if p == 0 || p * pow2(shift) >= 0x10_0000_0000_0000 * q {
        shift
    } else {
        proof {
            lemma_pow2_unfold(shift + 1);
            vstd::arithmetic::power2::lemma_pow2_pos(shift);
            let b = pow2(shift);
            assert(p * (2 * b) == 2 * (p * b)) by (nonlinear_arith);
            assert(p * b > 0) by (nonlinear_arith)
                requires
                    p > 0,
                    b > 0,
            ;
        }
        quotient_shift(p, q, shift + 1)
    }
}

/// A quotient rounded to the nearest integer, ties to even.
pub open spec fn half_even(n: nat, q: nat) -> nat {
    let below = n / q;
    let rest = n % q;
    if 2 * rest > q || (2 * rest == q && below % 2 == 1) {
        below + 1
    } else {
        below
    }
}

/// A side of an image scaled by `limit / longest`, with the quotient and the
/// product rounded to double precision and the result to whole pixels, at least one.
pub open spec fn scaled_side(side: nat, limit: nat, longest: nat) -> u32 {
    let shift = quotient_shift(limit, longest, 0);
    let mantissa = half_even(limit * pow2(shift), longest);
    let product = rounded_magnitude(side * mantissa);
    let pixels = (2 * product + pow2(shift)) / (2 * pow2(shift));
    if pixels == 0 {
        1
    } else if pixels > u32::MAX {
        u32::MAX
    } else {
        pixels as u32
    }
}

pub open spec fn longest_side(width: u32, height: u32) -> u32 {
    if width > height {
        width
    } else {
        height
    }
}

pub open spec fn at_least_one(side: u32) -> u32 {
    if side == 0 {
        1
    } else {
        side
    }
}

/// The size of an image scaled down, in proportion, to fit into a square. No side
/// comes out shorter than a pixel.
pub open spec fn fitted_size(width: u32, height: u32, limit: u32) -> (u32, u32) {
    let longest = longest_side(width, height);
    if longest <= limit {
        (at_least_one(width), at_least_one(height))
    } else {
        (
            scaled_side(width as nat, limit as nat, longest as nat),
            scaled_side(height as nat, limit as nat, longest as nat),
        )
    }
}

/// The spacing of doubles near a number is one, or tiny beside the number.
pub proof fn lemma_spacing_small(n: nat, spacing: nat)
    requires
        spacing >= 1,
        spacing == 1 || 0x10_0000_0000_0000 * spacing <= n,
    ensures
        double_spacing(n, spacing) == 1 || 0x10_0000_0000_0000 * double_spacing(n, spacing) <= n,
        double_spacing(n, spacing) >= 1,
    decreases n - spacing,
{
    if n >= 0x20_0000_0000_0000 * spacing {
        lemma_spacing_small(n, 2 * spacing);
    }
}

/// The shift that scales a quotient to 53 bits leaves at least 53 of them.
pub proof fn lemma_shift_suffices(p: nat, q: nat, shift: nat)
    requires
        p > 0,
    ensures
        p * pow2(quotient_shift(p, q, shift)) >= 0x10_0000_0000_0000 * q,
    decreases 0x20_0000_0000_0000 * q - p * pow2(shift),
{
    if p * pow2(shift) < 0x10_0000_0000_0000 * q {
        lemma_pow2_unfold(shift + 1);
        vstd::arithmetic::power2::lemma_pow2_pos(shift);
        let b = pow2(shift);
        assert(p * (2 * b) == 2 * (p * b)) by (nonlinear_arith);
        assert(p * b > 0) by (nonlinear_arith)
            requires
                p > 0,
                b > 0,
        ;
        lemma_shift_suffices(p, q, shift + 1);
    }
}

/// No side of a scaled image is longer than the limit.
pub proof fn law_scaled_side_fits(side: nat, limit: nat, longest: nat)
    requires
        side <= longest <= u32::MAX,
        0 < limit < longest,
    ensures
        scaled_side(side, limit, longest) <= limit,
{
    let shift = quotient_shift(limit, longest, 0);
    let power = pow2(shift);
    let n = limit * power;
    let below = n / longest;
    let rest = n % longest;
    let mantissa = half_even(n, longest);
    let exact = side * mantissa;
    lemma_shift_suffices(limit, longest, 0);
    lemma_spacing_small(exact, 1);
    let spacing = double_spacing(exact, 1);
    let product = rounded_magnitude(exact);
    vstd::arithmetic::div_mod::lemma_fundamental_div_mod(n as int, longest as int);
    assert(2 * (longest * mantissa) <= 2 * n + longest) by (nonlinear_arith)
        requires
            n == longest * below + rest,
            0 <= rest < longest,
            mantissa == below || (mantissa == below + 1 && 2 * rest >= longest),
    ;
    assert(exact <= longest * mantissa) by (nonlinear_arith)
        requires
            exact == side * mantissa,
            side <= longest,
            mantissa >= 0,
    ;
    assert(power > 0x10_0000_0000_0000) by (nonlinear_arith)
        requires
            limit * power >= 0x10_0000_0000_0000 * longest,
            0 < limit < longest,
            power >= 0,
    ;
    let under = exact / spacing;
    let left = exact % spacing;
    vstd::arithmetic::div_mod::lemma_fundamental_div_mod(exact as int, spacing as int);
    let rounded: nat = if 2 * left > spacing || (2 * left == spacing && under % 2 == 1) {
        under + 1
    } else {
        under
    };
    assert(product == rounded * spacing);
    assert(2 * product <= 2 * exact + spacing) by (nonlinear_arith)
        requires
            exact == spacing * under + left,
            0 <= left < spacing,
            product == rounded * spacing,
            rounded == under || (rounded == under + 1 && 2 * left >= spacing),
    ;
    assert(n <= 0xffff_ffff * power) by (nonlinear_arith)
        requires
            n == limit * power,
            limit <= 0xffff_ffff,
            power >= 0,
    ;
    assert(spacing <= power / 4);
    assert(longest <= power / 4);
    assert(2 * product <= 2 * n + power / 2);
    assert((2 * product + power) / (2 * power) <= limit) by (nonlinear_arith)
        requires
            2 * product <= 2 * n + power / 2,
            n == limit * power,
            power > 4,
    ;
}

/// An image scaled to fit does fit.
pub proof fn law_fitted_size_fits(width: u32, height: u32, limit: u32)
    requires
        limit > 0,
    ensures
        fitted_size(width, height, limit).0 <= limit,
        fitted_size(width, height, limit).1 <= limit,
{
    let longest = longest_side(width, height);
    if longest > limit {
        law_scaled_side_fits(width as nat, limit as nat, longest as nat);
        law_scaled_side_fits(height as nat, limit as nat, longest as nat);
    }
}

pub(crate) fn round_to_double(n: u128) -> (r: u128)
    requires
        n < 0x40_0000_0000_0000_0000_0000,
    ensures
        r == rounded_magnitude(n as nat),
        r <= 0x80_0000_0000_0000_0000_0000,
{
    let mut spacing: u128 = 1;
    while n >= 0x20_0000_0000_0000 * spacing
        invariant
            n < 0x40_0000_0000_0000_0000_0000,
            1 <= spacing <= 0x4_0000_0000,
            spacing == 1 || 0x10_0000_0000_0000 * spacing <= n,
            double_spacing(n as nat, 1) == double_spacing(n as nat, spacing as nat),
        decreases 0x40_0000_0000_0000_0000_0000 - spacing,
    {
        spacing = 2 * spacing;
    }
    let below: u128 = n / spacing;
    let rest: u128 = n % spacing;
    assert(below < 0x20_0000_0000_0000) by (nonlinear_arith)
        requires
            n < 0x20_0000_0000_0000 * spacing,
            below == n / spacing,
            spacing >= 1,
    ;
    let rounded: u128 = if 2 * rest > spacing || (2 * rest == spacing && below % 2 == 1) {
        below + 1
    } else {
        below
    };
    assert(spacing <= 0x4_0000_0000);
    assert(0 <= rounded * spacing <= 0x80_0000_0000_0000_0000_0000) by (nonlinear_arith)
        requires
            0 <= rounded <= 0x20_0000_0000_0000,
            0 <= spacing <= 0x4_0000_0000,
    ;
    rounded * spacing
}

fn scale_side(side: u32, limit: u32, longest: u32) -> (r: u32)
    requires
        0 < limit < longest,
    ensures
        r == scaled_side(side as nat, limit as nat, longest as nat),
        r > 0,
{
    let mut numerator: u128 = limit as u128;
    let mut power: u128 = 1;
    let ghost mut shift: nat = 0;
    let q: u128 = longest as u128;
    proof {
        lemma2_to64();
        assert(limit * 1 == limit);
    }
    while numerator < 0x10_0000_0000_0000 * q
        invariant
            0 < limit,
            q == longest,
            numerator == limit * pow2(shift),
            power == pow2(shift),
            1 <= power <= numerator,
            0 < numerator < 0x20_0000_0000_0000 * q,
            quotient_shift(limit as nat, longest as nat, 0) == quotient_shift(
                limit as nat,
                longest as nat,
                shift,
            ),
        decreases 0x20_0000_0000_0000 * q - numerator,
    {
        proof {
            lemma_pow2_unfold(shift + 1);
            let b = pow2(shift);
            let p = limit as nat;
            assert(p * (2 * b) == 2 * (p * b)) by (nonlinear_arith);
            shift = shift + 1;
        }
        numerator = 2 * numerator;
        power = 2 * power;
    }
    assert(quotient_shift(limit as nat, longest as nat, 0) == shift);
    let below: u128 = numerator / q;
    let rest: u128 = numerator % q;
    assert(below < 0x20_0000_0000_0000) by (nonlinear_arith)
        requires
            numerator < 0x20_0000_0000_0000 * q,
            below == numerator / q,
            q >= 1,
    ;
    let mantissa: u128 = if 2 * rest > q || (2 * rest == q && below % 2 == 1) {
        below + 1
    } else {
        below
    };
    assert(mantissa == half_even((limit * pow2(shift)) as nat, longest as nat));
    let s: u128 = side as u128;
    assert(0 <= s * mantissa < 0x40_0000_0000_0000_0000_0000) by (nonlinear_arith)
        requires
            0 <= s <= 0xffff_ffff,
            0 <= mantissa <= 0x20_0000_0000_0000,
    ;
    let product: u128 = round_to_double(s * mantissa);
    let pixels: u128 = (2 * product + power) / (2 * power);
    if pixels == 0 {
        1
    } else if pixels > 0xffff_ffff {
        0xffff_ffff
    } else {
        pixels as u32
    }
}

/// The size to which an image is scaled down so that it fits into a square of
/// `limit` pixels.
pub fn fit_within(width: u32, height: u32, limit: u32) -> (r: (u32, u32))
    requires
        limit > 0,
    ensures
        r == fitted_size(width, height, limit),
        r.0 > 0,
        r.1 > 0,
{
    let longest: u32 = if width > height {
        width
    } else {
        height
    };
    if longest <= limit {
        (
            if width == 0 {
                1
            } else {
                width
            },
            if height == 0 {
                1
            } else {
                height
            },
        )
    } else {
        (scale_side(width, limit, longest), scale_side(height, limit, longest))
    }
}

} // verus!
