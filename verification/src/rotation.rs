//! Turning pictures by quarter turns, clockwise.

use vstd::prelude::*;
use crate::raster::{byte_at, RgbRaster};

verus! {

/// Width and height after some quarter turns.
pub open spec fn turned_size(width: int, height: int, turns: int) -> (int, int) {
    if turns % 2 == 1 {
        (height, width)
    } else {
        (width, height)
    }
}

/// Where the pixel at column `x` and row `y` of a turned picture comes from.
pub open spec fn turned_from(width: int, height: int, turns: int, x: int, y: int) -> (int, int) {
    if turns % 4 == 1 {
        (y, height - 1 - x)
    } else if turns % 4 == 2 {
        (width - 1 - x, height - 1 - y)
    } else if turns % 4 == 3 {
        (width - 1 - y, x)
    } else {
        (x, y)
    }
}

/// Whether a picture is another one turned.
pub open spec fn is_turned(
    from: Seq<u8>,
    width: int,
    height: int,
    turns: int,
    to: Seq<u8>,
    to_width: int,
    to_height: int,
) -> bool {
    &&& (to_width, to_height) == turned_size(width, height, turns)
    &&& to.len() == 3 * (to_width * to_height)
    &&& forall|x: int, y: int, channel: int|
        0 <= x < to_width && 0 <= y < to_height && 0 <= channel < 3 ==> #[trigger] byte_at(
            to,
            to_width,
            x,
            y,
            channel,
        ) == {
            let source = turned_from(width, height, turns, x, y);
            byte_at(from, width, source.0, source.1, channel)
        }
}

/// Turning twice turns by the sum.
pub proof fn law_turns_add_up(
    first: Seq<u8>,
    width: int,
    height: int,
    a: int,
    second: Seq<u8>,
    second_width: int,
    second_height: int,
    b: int,
    third: Seq<u8>,
    third_width: int,
    third_height: int,
)
    requires
        width >= 0,
        height >= 0,
        a >= 0,
        b >= 0,
        is_turned(first, width, height, a, second, second_width, second_height),
        is_turned(second, second_width, second_height, b, third, third_width, third_height),
    ensures
        is_turned(first, width, height, a + b, third, third_width, third_height),
{
    assert forall|x: int, y: int, channel: int|
        0 <= x < third_width && 0 <= y < third_height && 0 <= channel < 3 implies #[trigger] byte_at(
        third,
        third_width,
        x,
        y,
        channel,
    ) == {
        let source = turned_from(width, height, a + b, x, y);
        byte_at(first, width, source.0, source.1, channel)
    } by {
        let middle = turned_from(second_width, second_height, b, x, y);
        assert(byte_at(second, second_width, middle.0, middle.1, channel) == {
            let source = turned_from(width, height, a, middle.0, middle.1);
            byte_at(first, width, source.0, source.1, channel)
        });
    }
}

/// A picture turned four times, or not at all, is as it was.
pub proof fn law_full_turn_changes_nothing(
    from: Seq<u8>,
    width: int,
    height: int,
    turns: int,
    to: Seq<u8>,
    to_width: int,
    to_height: int,
)
    requires
        width >= 0,
        height >= 0,
        turns % 4 == 0,
        from.len() == 3 * (width * height),
        is_turned(from, width, height, turns, to, to_width, to_height),
    ensures
        to_width == width,
        to_height == height,
        to == from,
{
    assert forall|i: int| 0 <= i < from.len() implies #[trigger] to[i] == from[i] by {
        let p = i / 3;
        let channel = i % 3;
        let x = p % width;
        let y = p / width;
        assert(width > 0 && height > 0) by (nonlinear_arith)
            requires
                0 <= i < 3 * (width * height),
                width >= 0,
                height >= 0,
        ;
        vstd::arithmetic::div_mod::lemma_fundamental_div_mod(p, width);
        assert(0 <= y < height) by (nonlinear_arith)
            requires
                y == p / width,
                0 <= p < width * height,
                width > 0,
        ;
        assert(y * width == width * y) by (nonlinear_arith);
        assert(byte_at(to, width, x, y, channel) == byte_at(from, width, x, y, channel));
    }
    assert(to =~= from);
}

/// The picture turned clockwise. Only what goes to the screen is turned: the bytes of
/// a page never change for it.
pub fn rotate_rgb(image: &RgbRaster, quarter_turns: u8) -> (r: RgbRaster)
    requires
        image.wf(),
    ensures
        r.wf(),
        is_turned(
            image.pixels@,
            image.width as int,
            image.height as int,
            quarter_turns as int,
            r.pixels@,
            r.width as int,
            r.height as int,
        ),
{
    let turns: u8 = quarter_turns % 4;
    let (width, height): (u32, u32) = if turns % 2 == 1 {
        (image.height, image.width)
    } else {
        (image.width, image.height)
    };
    let ghost w = image.width as int;
    let ghost h = image.height as int;
    let ghost tw = width as int;
    let ghost th = height as int;
    let mut pixels: Vec<u8> = Vec::new();
    assert(tw * th == w * h) by (nonlinear_arith)
        requires
            (tw == w && th == h) || (tw == h && th == w),
    ;
    let mut y: u32 = 0;
    while y < height
        invariant
            image.wf(),
            w == image.width,
            h == image.height,
            tw == width,
            th == height,
            (tw, th) == turned_size(w, h, turns as int),
            tw * th == w * h,
            turns < 4,
            y <= height,
            pixels.len() == 3 * (y * tw),
            forall|i: int| 0 <= i < 3 * (y * tw) ==> #[trigger] pixels[i] == turned_byte(
                image.pixels@,
                w,
                h,
                turns as int,
                tw,
                i,
            ),
        decreases height - y,
    {
        let mut x: u32 = 0;
        proof {
            assert(y * tw + tw <= tw * th && 0 <= y * tw) by (nonlinear_arith)
                requires
                    0 <= y < th,
                    tw >= 0,
            ;
        }
        while x < width
            invariant
                image.wf(),
                w == image.width,
                h == image.height,
                tw == width,
                th == height,
                (tw, th) == turned_size(w, h, turns as int),
                tw * th == w * h,
                turns < 4,
                y < height,
                x <= width,
                0 <= y * tw,
                y * tw + tw <= tw * th,
                pixels.len() == 3 * (y * tw + x),
                forall|i: int|
                    0 <= i < 3 * (y * tw + x) ==> #[trigger] pixels[i] == turned_byte(
                        image.pixels@,
                        w,
                        h,
                        turns as int,
                        tw,
                        i,
                    ),
            decreases width - x,
        {
            let (sx, sy): (u32, u32) = if turns == 1 {
                (y, image.height - 1 - x)
            } else if turns == 2 {
                (image.width - 1 - x, image.height - 1 - y)
            } else if turns == 3 {
                (image.width - 1 - y, x)
            } else {
                (x, y)
            };
            assert((sx as int, sy as int) == turned_from(w, h, turns as int, x as int, y as int));
            proof {
                assert(0 <= sy * w && sy * w + sx < w * h) by (nonlinear_arith)
                    requires
                        0 <= sx < w,
                        0 <= sy < h,
                ;
                let p = y * tw + x;
                vstd::arithmetic::div_mod::lemma_fundamental_div_mod_converse(
                    p,
                    tw,
                    y as int,
                    x as int,
                );
                assert((3 * p) / 3 == p && (3 * p + 1) / 3 == p && (3 * p + 2) / 3 == p);
                assert((3 * p) % 3 == 0 && (3 * p + 1) % 3 == 1 && (3 * p + 2) % 3 == 2);
            }
            let at: usize = 3 * (sy as usize * image.width as usize + sx as usize);
            pixels.push(image.pixels[at]);
            pixels.push(image.pixels[at + 1]);
            pixels.push(image.pixels[at + 2]);
            x = x + 1;
        }
        y = y + 1;
        assert((y - 1) * tw + tw == y * tw) by (nonlinear_arith);
    }
    assert(th * tw == tw * th) by (nonlinear_arith);
    proof {
        assert forall|x: int, y: int, channel: int|
            0 <= x < tw && 0 <= y < th && 0 <= channel < 3 implies #[trigger] byte_at(
            pixels@,
            tw,
            x,
            y,
            channel,
        ) == {
            let source = turned_from(w, h, quarter_turns as int, x, y);
            byte_at(image.pixels@, w, source.0, source.1, channel)
        } by {
            let p = y * tw + x;
            assert(0 <= p < tw * th) by (nonlinear_arith)
                requires
                    p == y * tw + x,
                    0 <= x < tw,
                    0 <= y < th,
            ;
            vstd::arithmetic::div_mod::lemma_fundamental_div_mod_converse(p, tw, y, x);
            assert((3 * p + channel) / 3 == p);
            assert((3 * p + channel) % 3 == channel);
            assert(pixels@[3 * p + channel] == turned_byte(
                image.pixels@,
                w,
                h,
                turns as int,
                tw,
                3 * p + channel,
            ));
        }
    }
    RgbRaster { width, height, pixels }
}

/// The byte at a place of a turned picture.
spec fn turned_byte(
    from: Seq<u8>,
    width: int,
    height: int,
    turns: int,
    to_width: int,
    i: int,
) -> u8 {
    let p = i / 3;
    let source = turned_from(width, height, turns, p % to_width, p / to_width);
    byte_at(from, width, source.0, source.1, i % 3)
}

} // verus!
