//! What happens to a picture that is turned, scaled, measured or cut to ink and paper.

use vstd::arithmetic::power2::pow2;
use vstd::prelude::*;
use crate::bilevel::{
    binarize, decoded_g4, encode_g4, ink_rows, law_g4_round_trip, reads_back, DecodedG4,
};
use crate::detect::{
    first_reaching, page_threshold, percentile_value, prefix_sum, tallies, tally,
};
use crate::enhance::{
    are_global_tones, are_tones, area_samples, cell_edge, cell_samples, central_samples,
    is_bright_mode, is_flat, next_fourth, page_tones, row_samples, ChannelTones, PageTones,
};
use crate::pdf_numbers::{double_spacing, rounded_magnitude};
use crate::raster::{
    byte_at, fit_within, half_even, law_scaled_side_fits, lemma_shift_suffices,
    lemma_spacing_small, quotient_shift, scaled_side, GrayRaster, RgbRaster,
};
use crate::rotation::{is_turned, rotate_rgb};

verus! {

/// The place of a byte of the pixel in column `x` of row `y`.
pub open spec fn place(width: int, x: int, y: int, channel: int) -> int {
    3 * (y * width + x) + channel
}

/// A turn goes clockwise: after one, what stood in the top row stands in the last column,
/// from its top to its bottom; after two, every pixel stands opposite; after three, the top
/// row has become the first column, from its bottom to its top.
pub proof fn law_turn_goes_clockwise(
    image: RgbRaster,
    quarter_turns: u8,
    r: RgbRaster,
    x: int,
    y: int,
    channel: int,
)
    requires
        image.wf(),
        call_ensures(rotate_rgb, (&image, quarter_turns), r),
        0 <= x < image.width,
        0 <= y < image.height,
        0 <= channel < 3,
    ensures
        quarter_turns % 2 == 1 ==> r.width == image.height && r.height == image.width,
        quarter_turns % 2 == 0 ==> r.width == image.width && r.height == image.height,
        quarter_turns % 4 == 0 ==> r.pixels@[place(r.width as int, x, y, channel)]
            == image.pixels@[place(image.width as int, x, y, channel)],
        quarter_turns % 4 == 1 ==> r.pixels@[place(
            r.width as int,
            image.height - 1 - y,
            x,
            channel,
        )] == image.pixels@[place(image.width as int, x, y, channel)],
        quarter_turns % 4 == 2 ==> r.pixels@[place(
            r.width as int,
            image.width - 1 - x,
            image.height - 1 - y,
            channel,
        )] == image.pixels@[place(image.width as int, x, y, channel)],
        quarter_turns % 4 == 3 ==> r.pixels@[place(
            r.width as int,
            y,
            image.width - 1 - x,
            channel,
        )] == image.pixels@[place(image.width as int, x, y, channel)],
{
    let w = image.width as int;
    let h = image.height as int;
    let turns = quarter_turns as int;
    assert(is_turned(image.pixels@, w, h, turns, r.pixels@, r.width as int, r.height as int));
    let (to_x, to_y) = if turns % 4 == 0 {
        (x, y)
    } else if turns % 4 == 1 {
        (h - 1 - y, x)
    } else if turns % 4 == 2 {
        (w - 1 - x, h - 1 - y)
    } else {
        (y, w - 1 - x)
    };
    assert(byte_at(r.pixels@, r.width as int, to_x, to_y, channel) == byte_at(
        image.pixels@,
        w,
        x,
        y,
        channel,
    ));
}

/// The exact quotient and the pixels of a scaled side are less than one pixel apart.
proof fn lemma_side_scaled_in_proportion(side: nat, limit: nat, longest: nat)
    requires
        0 < side <= longest <= u32::MAX,
        0 < limit < longest,
    ensures
        -longest < longest * scaled_side(side, limit, longest) - side * limit < longest,
{
    let shift = quotient_shift(limit, longest, 0);
    let power = pow2(shift);
    let n = limit * power;
    let below = n / longest;
    let rest = n % longest;
    let mantissa = half_even(n, longest);
    let exact = side * mantissa;
    lemma_shift_suffices(limit, longest, 0);
    lemma_spacing_small(exact, 1);
    let spacing = double_spacing(exact, 1);
    let product = rounded_magnitude(exact);
    vstd::arithmetic::div_mod::lemma_fundamental_div_mod(n as int, longest as int);
    assert(2 * n - longest <= 2 * (longest * mantissa) <= 2 * n + longest) by (nonlinear_arith)
        requires
            n == longest * below + rest,
            0 <= rest < longest,
            (mantissa == below && 2 * rest <= longest) || (mantissa == below + 1 && 2 * rest
                >= longest),
    ;
    assert(exact <= longest * mantissa) by (nonlinear_arith)
        requires
            exact == side * mantissa,
            side <= longest,
            mantissa >= 0,
    ;
    assert(power > 0x10_0000_0000_0000) by (nonlinear_arith)
        requires
            limit * power >= 0x10_0000_0000_0000 * longest,
            0 < limit < longest,
            power >= 0,
    ;
    let under = exact / spacing;
    let left = exact % spacing;
    vstd::arithmetic::div_mod::lemma_fundamental_div_mod(exact as int, spacing as int);
    let rounded: nat = if 2 * left > spacing || (2 * left == spacing && under % 2 == 1) {
        under + 1
    } else {
        under
    };
    assert(product == rounded * spacing);
    assert(2 * exact - spacing <= 2 * product <= 2 * exact + spacing) by (nonlinear_arith)
        requires
            exact == spacing * under + left,
            0 <= left < spacing,
            product == rounded * spacing,
            (rounded == under && 2 * left <= spacing) || (rounded == under + 1 && 2 * left
                >= spacing),
    ;
    assert(n <= 0xffff_ffff * power) by (nonlinear_arith)
        requires
            n == limit * power,
            limit <= 0xffff_ffff,
            power >= 0,
    ;
    assert(spacing <= power / 4);
    assert(side <= power / 4);
    let pixels = (2 * product + power) / (2 * power);
    let over = (2 * product + power) % (2 * power);
    vstd::arithmetic::div_mod::lemma_fundamental_div_mod(
        (2 * product + power) as int,
        (2 * power) as int,
    );
    assert(2 * (power * pixels) - power / 4 - power <= 2 * exact <= 2 * (power * pixels) + power
        + power / 4) by (nonlinear_arith)
        requires
            2 * product + power == (2 * power) * pixels + over,
            0 <= over < 2 * power,
            2 * exact - spacing <= 2 * product <= 2 * exact + spacing,
            spacing <= power / 4,
    ;
    let aim = side * limit;
    let whole = longest * mantissa;
    assert(side * n == aim * power && longest * exact == side * whole) by (nonlinear_arith)
        requires
            n == limit * power,
            aim == side * limit,
            exact == side * mantissa,
            whole == longest * mantissa,
    ;
    assert(2 * (side * n) - side * longest <= 2 * (side * whole) <= 2 * (side * n) + side * longest)
        by (nonlinear_arith)
        requires
            2 * n - longest <= 2 * whole <= 2 * n + longest,
            side >= 0,
    ;
    assert(side * longest <= longest * (power / 4)) by (nonlinear_arith)
        requires
            0 <= side <= power / 4,
            0 <= longest,
    ;
    assert(2 * (aim * power) - longest * (power / 4) <= 2 * (longest * exact) <= 2 * (aim * power)
        + longest * (power / 4));
    let gap = longest * pixels - aim;
    assert(2 * (power * (longest * pixels)) - longest * (power / 4) - longest * power <= 2 * (
    longest * exact) <= 2 * (power * (longest * pixels)) + longest * power + longest * (power / 4))
        by (nonlinear_arith)
        requires
            2 * (power * pixels) - power / 4 - power <= 2 * exact <= 2 * (power * pixels) + power
                + power / 4,
            longest >= 0,
    ;
    assert(-longest < gap < longest) by (nonlinear_arith)
        requires
            2 * (aim * power) - longest * (power / 4) <= 2 * (longest * exact) <= 2 * (aim * power)
                + longest * (power / 4),
            2 * (power * (longest * pixels)) - longest * (power / 4) - longest * power <= 2 * (
            longest * exact) <= 2 * (power * (longest * pixels)) + longest * power + longest * (
            power / 4),
            gap == longest * pixels - aim,
            longest > 0,
            power > 4,
    ;
    law_scaled_side_fits(side, limit, longest);
    assert(aim > 0) by (nonlinear_arith)
        requires
            aim == side * limit,
            side > 0,
            limit > 0,
    ;
    if pixels > u32::MAX {
        assert(scaled_side(side, limit, longest) == u32::MAX);
        assert(false);
    }
    if pixels == 0 {
        assert(longest * 0 == 0) by (nonlinear_arith);
        assert(scaled_side(side, limit, longest) == 1);
    }
}

/// A picture that fits keeps its size. One that does not is scaled so that its longest side
/// has the length of the limit, and its other side follows in proportion, to less than a
/// pixel.
pub proof fn law_scaling_keeps_the_proportions(width: u32, height: u32, limit: u32, r: (u32, u32))
    requires
        width > 0,
        height > 0,
        limit > 0,
        call_ensures(fit_within, (width, height, limit), r),
    ensures
        width <= limit && height <= limit ==> r == (width, height),
        width > limit && width >= height ==> r.0 == limit && -width < width * r.1 - height * limit
            < width,
        height > limit && height >= width ==> r.1 == limit && -height < height * r.0 - width
            * limit < height,
{
    if width > limit || height > limit {
        let longest: u32 = if width > height {
            width
        } else {
            height
        };
        lemma_side_scaled_in_proportion(width as nat, limit as nat, longest as nat);
        lemma_side_scaled_in_proportion(height as nat, limit as nat, longest as nat);
        let top = scaled_side(longest as nat, limit as nat, longest as nat);
        assert(top == limit) by (nonlinear_arith)
            requires
                -longest < longest * top - longest * limit < longest,
                longest > 0,
        ;
    }
}

/// What is cut to ink and paper, written and read again shows black exactly where the
/// picture was darker than 128, and white everywhere else.
pub proof fn law_dark_pixels_are_read_back_as_ink(
    gray: GrayRaster,
    cut: GrayRaster,
    written: Vec<u8>,
    p: int,
)
    requires
        gray.wf(),
        gray.width <= 32_767,
        0 <= p < gray.pixels@.len(),
        call_ensures(binarize, (&gray,), cut),
        call_ensures(encode_g4, (&cut,), written),
        reads_back(written@, gray.width, ink_rows(cut.pixels@, cut.width, cut.height)),
    ensures
        gray.pixels@[p] < 128 ==> cut.pixels@[p] == 0,
        gray.pixels@[p] >= 128 ==> cut.pixels@[p] == 255,
        decoded_g4(written@, gray.width, gray.height) == DecodedG4::Pixels(cut.pixels@),
{
    assert(gray.width > 0 && gray.height > 0) by (nonlinear_arith)
        requires
            0 < gray.width * gray.height,
            gray.width >= 0,
            gray.height >= 0,
    ;
    law_g4_round_trip(written@, cut.pixels@, cut.width, cut.height);
    assert forall|q: int| 0 <= q < cut.pixels@.len() implies #[trigger] cut.pixels@[q] == 0
        || cut.pixels@[q] == 255 by {}
}

/// How many of the values are less than `v`.
pub open spec fn how_many_below(values: Seq<u8>, v: int) -> nat
    decreases values.len(),
{
    if values.len() == 0 {
        0
    } else {
        how_many_below(values.drop_last(), v) + if values.last() < v {
            1nat
        } else {
            0nat
        }
    }
}

proof fn lemma_below_next(values: Seq<u8>, v: int)
    ensures
        how_many_below(values, v + 1) == how_many_below(values, v) + tally(values, v),
        tally(values, v) <= values.len(),
    decreases values.len(),
{
    if values.len() > 0 {
        lemma_below_next(values.drop_last(), v);
    }
}

proof fn lemma_counts_below(values: Seq<u8>, n: nat)
    requires
        n <= 256,
        values.len() <= u64::MAX,
    ensures
        prefix_sum(tallies(values), n) == how_many_below(values, n as int),
    decreases n,
{
    if n == 0 {
        lemma_none_below(values);
    } else {
        lemma_counts_below(values, (n - 1) as nat);
        lemma_below_next(values, n - 1);
    }
}

proof fn lemma_none_below(values: Seq<u8>)
    ensures
        how_many_below(values, 0) == 0,
    decreases values.len(),
{
    if values.len() > 0 {
        lemma_none_below(values.drop_last());
    }
}

proof fn lemma_all_below(values: Seq<u8>)
    ensures
        how_many_below(values, 256) == values.len(),
    decreases values.len(),
{
    if values.len() > 0 {
        lemma_all_below(values.drop_last());
    }
}

proof fn lemma_reached(histogram: Seq<u64>, target: int, v: int)
    requires
        histogram.len() == 256,
        0 <= v < 256,
        prefix_sum(histogram, v as nat) < target,
        target <= prefix_sum(histogram, 256),
    ensures
        v <= first_reaching(histogram, target, v) < 256,
        prefix_sum(histogram, first_reaching(histogram, target, v) as nat) < target,
        target <= prefix_sum(histogram, (first_reaching(histogram, target, v) + 1) as nat),
    decreases 256 - v,
{
    if prefix_sum(histogram, (v + 1) as nat) < target {
        lemma_reached(histogram, target, v + 1);
    }
}

/// Whether fewer than `target` of the values lie below `v`, and at least as many lie below it
/// or at it.
pub open spec fn stands_at(values: Seq<u8>, target: int, v: int) -> bool {
    &&& 0 <= v < 256
    &&& how_many_below(values, v) < target
    &&& target <= how_many_below(values, v + 1)
}

/// The value at a percentile parts the values: fewer than the target lie below it, and no
/// fewer lie below it or at it.
pub proof fn law_percentile_parts_the_values(values: Seq<u8>, target: int)
    requires
        0 < target <= values.len() <= u64::MAX,
    ensures
        stands_at(values, target, percentile_value(tallies(values), target)),
{
    let histogram = tallies(values);
    lemma_counts_below(values, 256);
    lemma_all_below(values);
    lemma_reached(histogram, target, 0);
    let v = percentile_value(histogram, target);
    lemma_counts_below(values, v as nat);
    lemma_counts_below(values, (v + 1) as nat);
}

/// The page is told from the mat by a level between the darkest and the brightest tenth of
/// the picture, 35 hundredths of the way up; none is found where they are less than 50 apart.
pub proof fn law_level_lies_between_mat_and_page(pixels: Seq<u8>, dark: int, bright: int)
    requires
        10 <= pixels.len() <= u64::MAX,
        stands_at(pixels, pixels.len() as int / 10, dark),
        stands_at(pixels, pixels.len() as int * 9 / 10, bright),
    ensures
        bright - dark < 50 <==> page_threshold(tallies(pixels), pixels.len() as int) is None,
        page_threshold(tallies(pixels), pixels.len() as int) matches Some(level) ==> 100 * (level
            - dark) <= 35 * (bright - dark) < 100 * (level - dark) + 100,
{
    let n = pixels.len() as int;
    law_percentile_parts_the_values(pixels, n / 10);
    law_percentile_parts_the_values(pixels, n * 9 / 10);
    lemma_one_stands_there(pixels, n / 10, dark, percentile_value(tallies(pixels), n / 10));
    lemma_one_stands_there(pixels, n * 9 / 10, bright, percentile_value(tallies(pixels), n * 9 / 10));
}

proof fn lemma_below_grows(values: Seq<u8>, v: int, w: int)
    requires
        v <= w,
    ensures
        how_many_below(values, v) <= how_many_below(values, w),
    decreases values.len(),
{
    if values.len() > 0 {
        lemma_below_grows(values.drop_last(), v, w);
    }
}

proof fn lemma_one_stands_there(values: Seq<u8>, target: int, v: int, w: int)
    requires
        stands_at(values, target, v),
        stands_at(values, target, w),
    ensures
        v == w,
{
    if v < w {
        lemma_below_grows(values, v + 1, w);
    } else if w < v {
        lemma_below_grows(values, w + 1, v);
    }
}

/// How many steps of four lead from `from` to before `to`.
pub open spec fn steps(from: int, to: int) -> int {
    if from >= to {
        0
    } else {
        (to - from - 1) / 4 + 1
    }
}

proof fn lemma_row_sampled(pixels: Seq<u8>, width: int, channel: int, y: int, x: int, to: int)
    ensures
        row_samples(pixels, width, channel, y, x, to).len() == steps(x, to),
        forall|j: int|
            0 <= j < steps(x, to) ==> #[trigger] row_samples(pixels, width, channel, y, x, to)[j]
                == pixels[place(width, x + 4 * j, y, channel)],
    decreases to - x + 4,
{
    if x < to {
        lemma_row_sampled(pixels, width, channel, y, x + 4, to);
        assert forall|j: int| 0 <= j < steps(x, to) implies #[trigger] row_samples(
            pixels,
            width,
            channel,
            y,
            x,
            to,
        )[j] == pixels[place(width, x + 4 * j, y, channel)] by {
            if j > 0 {
                assert(row_samples(pixels, width, channel, y, x, to)[j] == row_samples(
                    pixels,
                    width,
                    channel,
                    y,
                    x + 4,
                    to,
                )[j - 1]);
                assert(x + 4 + 4 * (j - 1) == x + 4 * j);
            }
        }
    }
}

/// The samples of an area are its pixels in every fourth column of every fourth row, row by
/// row.
pub proof fn law_every_fourth_pixel_is_sampled(
    pixels: Seq<u8>,
    width: int,
    channel: int,
    left: int,
    right: int,
    top: int,
    bottom: int,
)
    ensures
        area_samples(pixels, width, channel, left, right, top, bottom).len() == steps(top, bottom)
            * steps(left, right),
        forall|i: int, j: int|
            0 <= i < steps(top, bottom) && 0 <= j < steps(left, right) ==> area_samples(
                pixels,
                width,
                channel,
                left,
                right,
                top,
                bottom,
            )[i * steps(left, right) + j] == pixels[#[trigger] place(
                width,
                left + 4 * j,
                top + 4 * i,
                channel,
            )],
    decreases bottom - top + 4,
{
    let n = steps(left, right);
    let m = steps(top, bottom);
    if top < bottom {
        law_every_fourth_pixel_is_sampled(pixels, width, channel, left, right, top + 4, bottom);
        lemma_row_sampled(pixels, width, channel, top, left, right);
        assert(m == steps(top + 4, bottom) + 1);
        assert((m - 1) * n + n == m * n) by (nonlinear_arith);
        let samples = area_samples(pixels, width, channel, left, right, top, bottom);
        let others = area_samples(pixels, width, channel, left, right, top + 4, bottom);
        assert forall|i: int, j: int| 0 <= i < m && 0 <= j < n implies samples[i * n + j]
            == pixels[#[trigger] place(width, left + 4 * j, top + 4 * i, channel)] by {
            if i == 0 {
                assert(0 * n == 0) by (nonlinear_arith);
                assert(samples[j] == row_samples(pixels, width, channel, top, left, right)[j]);
            } else {
                assert((i - 1) * n + n == i * n) by (nonlinear_arith);
                assert((i - 1) * n >= 0) by (nonlinear_arith)
                    requires
                        i >= 1,
                        n >= 0,
                ;
                assert((i - 1) * n + j < (m - 1) * n) by (nonlinear_arith)
                    requires
                        i <= m - 1,
                        0 <= j < n,
                ;
                assert(samples[i * n + j] == others[(i - 1) * n + j]);
                let there = place(width, left + 4 * j, top + 4 + 4 * (i - 1), channel);
                assert(top + 4 + 4 * (i - 1) == top + 4 * i);
                assert(others[(i - 1) * n + j] == pixels[there]);
            }
        }
    } else {
        assert(0 * n == 0) by (nonlinear_arith);
    }
}

/// Whether a value is the paper of some samples: the commonest from 100 up, and the brightest
/// of those that are as common.
pub open spec fn is_paper_of(samples: Seq<u8>, paper: int) -> bool {
    &&& 100 <= paper < 256
    &&& forall|v: int|
        100 <= v < 256 ==> #[trigger] tally(samples, v) <= tally(samples, paper) && (tally(
            samples,
            v,
        ) == tally(samples, paper) ==> v <= paper)
}

proof fn lemma_paper_found(samples: Seq<u8>, paper: int)
    requires
        samples.len() <= u64::MAX,
        is_bright_mode(tallies(samples), paper),
    ensures
        is_paper_of(samples, paper),
{
    lemma_below_next(samples, paper);
    assert forall|v: int| 100 <= v < 256 implies #[trigger] tally(samples, v) <= tally(
        samples,
        paper,
    ) && (tally(samples, v) == tally(samples, paper) ==> v <= paper) by {
        lemma_below_next(samples, v);
        assert(tallies(samples)[v] == tally(samples, v));
    }
}

/// The tones of the red, the green or the blue.
pub open spec fn tones_of(tones: PageTones, channel: int) -> ChannelTones {
    if channel == 0 {
        tones.red
    } else if channel == 1 {
        tones.green
    } else {
        tones.blue
    }
}

/// The ink of a page is its darkest two-hundredth, and its paper the commonest bright value;
/// both are measured without the outer fifth on each side, and lie more than 60 apart.
pub proof fn law_tones_are_those_of_ink_and_paper(
    image: RgbRaster,
    r: Option<PageTones>,
    channel: int,
    samples: Seq<u8>,
)
    requires
        image.wf(),
        call_ensures(page_tones, (&image,), r),
        r is Some,
        0 <= channel < 3,
        samples == area_samples(
            image.pixels@,
            image.width as int,
            channel,
            image.width as int / 5,
            image.width as int - image.width as int / 5,
            image.height as int / 5,
            image.height as int - image.height as int / 5,
        ),
        200 <= samples.len() <= u64::MAX,
    ensures
        stands_at(samples, samples.len() as int / 200, tones_of(r->Some_0, channel).low as int),
        is_paper_of(samples, tones_of(r->Some_0, channel).paper as int),
        tones_of(r->Some_0, channel).paper > tones_of(r->Some_0, channel).low + 60,
{
    let tones = tones_of(r->Some_0, channel);
    let w = image.width as int;
    let h = image.height as int;
    assert(samples == central_samples(image.pixels@, w, h, channel));
    assert(are_tones(image.pixels@, w, h, channel, tones));
    assert(are_global_tones(samples, tones.low as int, tones.paper as int));
    assert(!is_flat(image.pixels@, w, h, channel));
    law_percentile_parts_the_values(samples, samples.len() as int / 200);
    lemma_paper_found(samples, tones.paper as int);
}

/// Whether `at` is the first place, of those a step apart, that is not left of the edge
/// between two of `cells` equal parts of a side.
pub open spec fn is_first_from(at: int, step: int, part: int, side: int, cells: int) -> bool {
    &&& at % step == 0
    &&& at * cells >= part * side
    &&& (at - step) * cells < part * side
}

proof fn lemma_first_from(at: int, part: int, side: int, cells: int)
    requires
        cells > 0,
    ensures
        is_first_from(at, 1, part, side, cells) ==> at == cell_edge(part, side, cells),
        is_first_from(at, 4, part, side, cells) ==> at == next_fourth(
            cell_edge(part, side, cells),
        ),
{
    let n = part * side;
    let edge = cell_edge(part, side, cells);
    let d = n + cells - 1;
    vstd::arithmetic::div_mod::lemma_fundamental_div_mod(d, cells);
    let rest = d % cells;
    assert(edge * cells >= n && (edge - 1) * cells < n) by (nonlinear_arith)
        requires
            d == n + cells - 1,
            d == cells * edge + rest,
            0 <= rest < cells,
    ;
    if is_first_from(at, 1, part, side, cells) {
        assert(at == edge) by (nonlinear_arith)
            requires
                cells > 0,
                edge * cells >= n,
                (edge - 1) * cells < n,
                at * cells >= n,
                (at - 1) * cells < n,
        ;
    }
    if is_first_from(at, 4, part, side, cells) {
        assert(at >= edge && at - 4 < edge) by (nonlinear_arith)
            requires
                cells > 0,
                edge * cells >= n,
                (edge - 1) * cells < n,
                at * cells >= n,
                (at - 4) * cells < n,
        ;
    }
}

/// The page is parted into 12 columns and 16 rows of cells, listed row by row; each cell has
/// the paper of the pixels that stand in every fourth column and row of it.
pub proof fn law_each_cell_has_its_own_paper(
    image: RgbRaster,
    r: Option<PageTones>,
    channel: int,
    row: int,
    col: int,
    left: int,
    right: int,
    top: int,
    bottom: int,
)
    requires
        image.wf(),
        call_ensures(page_tones, (&image,), r),
        r is Some,
        0 <= channel < 3,
        0 <= row < 16,
        0 <= col < 12,
        is_first_from(left, 4, col, image.width as int, 12),
        is_first_from(right, 1, col + 1, image.width as int, 12),
        is_first_from(top, 4, row, image.height as int, 16),
        is_first_from(bottom, 1, row + 1, image.height as int, 16),
        area_samples(
            image.pixels@,
            image.width as int,
            channel,
            left,
            right,
            top,
            bottom,
        ).len() <= u64::MAX,
    ensures
        tones_of(r->Some_0, channel).cells@.len() == 192,
        is_paper_of(
            area_samples(image.pixels@, image.width as int, channel, left, right, top, bottom),
            tones_of(r->Some_0, channel).cells@[12 * row + col] as int,
        ),
{
    let tones = tones_of(r->Some_0, channel);
    let w = image.width as int;
    let h = image.height as int;
    lemma_first_from(left, col, w, 12);
    lemma_first_from(right, col + 1, w, 12);
    lemma_first_from(top, row, h, 16);
    lemma_first_from(bottom, row + 1, h, 16);
    assert(are_tones(image.pixels@, w, h, channel, tones));
    let i = 12 * row + col;
    assert(i / 12 == row && i % 12 == col);
    assert(0 <= i < tones.cells@.len());
    assert(is_bright_mode(
        tallies(cell_samples(image.pixels@, w, h, channel, row, col)),
        tones.cells@[i] as int,
    ));
    lemma_paper_found(
        area_samples(image.pixels@, w, channel, left, right, top, bottom),
        tones.cells@[i] as int,
    );
}

} // verus!
