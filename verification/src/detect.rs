//! Finding the page on the scanner mat.

use vstd::prelude::*;
use crate::raster::{
    fit_within, fitted_size, is_brightness, law_fitted_size_fits, resize_triangle, to_luma,
    triangle_resized, GrayRaster, RgbRaster,
};
use crate::regions::{
    is_largest_region, largest_region, lemma_count_bound, lemma_linked_self, linked, region_area,
};

verus! {

/// A corner of the page: `x` of so many columns to the right, `y` of so many rows down.
#[derive(Debug, Clone, Copy, PartialEq, Eq, Structural)]
pub struct Corner {
    pub x: u32,
    pub y: u32,
}

/// The four corners of a page, in a grid of `columns` by `rows`.
#[derive(Debug, Clone, Copy, PartialEq, Eq, Structural)]
pub struct PageCorners {
    pub top_left: Corner,
    pub top_right: Corner,
    pub bottom_right: Corner,
    pub bottom_left: Corner,
    pub columns: u32,
    pub rows: u32,
}

/// Where the page lies, and whether it stands out clearly from the mat.
#[derive(Debug, Clone, Copy, PartialEq, Eq, Structural)]
pub struct DetectResult {
    pub corners: PageCorners,
    pub confident: bool,
}

/// The longest side of the image in which the page is looked for.
pub const PREVIEW_PX: u32 = 720;

/// The corners taken where no page is found: six percent in from each edge.
pub open spec fn fallback_result() -> DetectResult {
    DetectResult {
        corners: PageCorners {
            top_left: Corner { x: 6, y: 6 },
            top_right: Corner { x: 94, y: 6 },
            bottom_right: Corner { x: 94, y: 94 },
            bottom_left: Corner { x: 6, y: 94 },
            columns: 100,
            rows: 100,
        },
        confident: false,
    }
}

fn fallback_corners() -> (r: DetectResult)
    ensures
        r == fallback_result(),
{
    DetectResult {
        corners: PageCorners {
            top_left: Corner { x: 6, y: 6 },
            top_right: Corner { x: 94, y: 6 },
            bottom_right: Corner { x: 94, y: 94 },
            bottom_left: Corner { x: 6, y: 94 },
            columns: 100,
            rows: 100,
        },
        confident: false,
    }
}

/// The sum of the first `n` entries.
pub open spec fn prefix_sum(values: Seq<u64>, n: nat) -> nat
    decreases n,
{
    if n == 0 {
        0
    } else {
        prefix_sum(values, (n - 1) as nat) + values[n - 1] as nat
    }
}

/// How many values equal `v`.
pub open spec fn tally(values: Seq<u8>, v: int) -> nat
    decreases values.len(),
{
    if values.len() == 0 {
        0
    } else {
        tally(values.drop_last(), v) + if values.last() == v {
            1nat
        } else {
            0nat
        }
    }
}

/// Whether a histogram counts how often each value occurs.
pub open spec fn is_histogram(histogram: Seq<u64>, values: Seq<u8>) -> bool {
    &&& histogram.len() == 256
    &&& forall|v: int| 0 <= v < 256 ==> #[trigger] histogram[v] == tally(values, v)
}

/// The first value, from `v` on, by which the counts reach a target; 255 where
/// they never do.
pub open spec fn first_reaching(histogram: Seq<u64>, target: int, v: int) -> int
    decreases histogram.len() - v,
{
    if v >= histogram.len() {
        255
    } else if prefix_sum(histogram, (v + 1) as nat) >= target {
        v
    } else {
        first_reaching(histogram, target, v + 1)
    }
}

/// The value below or at which `target` of the counted values lie.
pub open spec fn percentile_value(histogram: Seq<u64>, target: int) -> int {
    first_reaching(histogram, target, 0)
}

proof fn lemma_prefix_grows(values: Seq<u64>, m: nat, n: nat)
    requires
        m <= n,
    ensures
        prefix_sum(values, m) <= prefix_sum(values, n),
    decreases n,
{
    if m < n {
        lemma_prefix_grows(values, m, (n - 1) as nat);
    }
}

/// The value at a percentile of a histogram.
pub fn percentile(histogram: &Vec<u64>, target: u64) -> (r: usize)
    requires
        histogram.len() == 256,
        prefix_sum(histogram@, 256) <= u64::MAX,
    ensures
        r == percentile_value(histogram@, target as int),
        r < 256,
{
    let mut count: u64 = 0;
    let mut value: usize = 0;
    while value < histogram.len()
        invariant
            histogram.len() == 256,
            prefix_sum(histogram@, 256) <= u64::MAX,
            value <= 256,
            count == prefix_sum(histogram@, value as nat),
            percentile_value(histogram@, target as int) == first_reaching(
                histogram@,
                target as int,
                value as int,
            ),
        decreases 256 - value,
    {
        proof {
            lemma_prefix_grows(histogram@, (value + 1) as nat, 256);
        }
        count = count + histogram[value];
        if count >= target {
            return value;
        }
        value = value + 1;
    }
    255
}

fn zeros_256() -> (r: Vec<u64>)
    ensures
        r.len() == 256,
        forall|v: int| 0 <= v < 256 ==> #[trigger] r[v] == 0,
{
    let mut counts: Vec<u64> = Vec::new();
    let mut v: usize = 0;
    while v < 256
        invariant
            v <= 256,
            counts.len() == v,
            forall|k: int| 0 <= k < v ==> #[trigger] counts[k] == 0,
        decreases 256 - v,
    {
        counts.push(0);
        v = v + 1;
    }
    counts
}

proof fn lemma_tally_bound(values: Seq<u8>, v: int)
    ensures
        tally(values, v) <= values.len(),
    decreases values.len(),
{
    if values.len() > 0 {
        lemma_tally_bound(values.drop_last(), v);
    }
}

/// The number of times each value occurs.
pub fn histogram_of(values: &Vec<u8>) -> (r: Vec<u64>)
    ensures
        is_histogram(r@, values@),
{
    let mut counts: Vec<u64> = zeros_256();
    let mut i: usize = 0;
    assert(values@.take(0) =~= Seq::<u8>::empty());
    while i < values.len()
        invariant
            i <= values.len(),
            is_histogram(counts@, values@.take(i as int)),
        decreases values.len() - i,
    {
        let value: u8 = values[i];
        let ghost before = counts@;
        proof {
            assert(values@.take(i + 1).drop_last() =~= values@.take(i as int));
            assert(values@.take(i + 1).last() == value);
            lemma_tally_bound(values@.take(i as int), value as int);
            assert(before[value as int] == tally(values@.take(i as int), value as int));
        }
        let count: u64 = counts[value as usize];
        counts.set(value as usize, count + 1);
        i = i + 1;
    }
    assert(values@.take(i as int) =~= values@);
    counts
}

/// The counts of a histogram add up to the number of values.
pub proof fn lemma_histogram_total(histogram: Seq<u64>, values: Seq<u8>)
    requires
        is_histogram(histogram, values),
    ensures
        prefix_sum(histogram, 256) == values.len(),
    decreases values.len(),
{
    if values.len() == 0 {
        assert forall|n: nat| n <= 256 implies #[trigger] prefix_sum(histogram, n) == 0 by {
            lemma_prefix_zero(histogram, n);
        }
    } else {
        let rest = values.drop_last();
        let last = values.last() as int;
        let smaller = Seq::new(256, |v: int| tally(rest, v) as u64);
        assert forall|v: int| 0 <= v < 256 implies #[trigger] smaller[v] == tally(rest, v) by {
            assert(histogram[v] == tally(values, v));
        }
        lemma_histogram_total(smaller, rest);
        assert forall|v: int| 0 <= v < 256 implies #[trigger] histogram[v] == smaller[v] + if v
            == last {
            1int
        } else {
            0int
        } by {}
        lemma_prefix_one_more(smaller, histogram, last, 256);
    }
}

proof fn lemma_prefix_zero(histogram: Seq<u64>, n: nat)
    requires
        n <= histogram.len(),
        forall|v: int| 0 <= v < histogram.len() ==> #[trigger] histogram[v] == 0,
    ensures
        prefix_sum(histogram, n) == 0,
    decreases n,
{
    if n > 0 {
        lemma_prefix_zero(histogram, (n - 1) as nat);
    }
}

proof fn lemma_prefix_one_more(before: Seq<u64>, after: Seq<u64>, at: int, n: nat)
    requires
        n <= before.len(),
        before.len() == after.len(),
        0 <= at < before.len(),
        forall|v: int|
            0 <= v < before.len() ==> #[trigger] after[v] == before[v] + if v == at {
                1int
            } else {
                0int
            },
    ensures
        prefix_sum(after, n) == prefix_sum(before, n) + if at < n {
            1int
        } else {
            0int
        },
    decreases n,
{
    if n > 0 {
        lemma_prefix_one_more(before, after, at, (n - 1) as nat);
        assert(after[n - 1] == before[n - 1] + if n - 1 == at {
            1int
        } else {
            0int
        });
    }
}

/// Column and row of a pixel.
pub open spec fn column(p: int, width: int) -> int {
    p % width
}

pub open spec fn row(p: int, width: int) -> int {
    p / width
}

/// How far a pixel lies in a diagonal direction; each sign is one or minus one.
pub open spec fn reach(p: int, width: int, right: int, down: int) -> int {
    right * column(p, width) + down * row(p, width)
}

/// Whether a pixel lies furthest in a direction among the marked ones; of pixels
/// equally far the first counts.
pub open spec fn is_furthest(
    marked: Seq<bool>,
    width: int,
    right: int,
    down: int,
    p: int,
) -> bool {
    &&& 0 <= p < marked.len()
    &&& marked[p]
    &&& forall|q: int|
        0 <= q < marked.len() && #[trigger] marked[q] ==> {
            ||| reach(q, width, right, down) < reach(p, width, right, down)
            ||| reach(q, width, right, down) == reach(p, width, right, down) && p <= q
        }
}

/// Whether a corner is where a pixel lies.
pub open spec fn lies_at(corner: Corner, width: int, p: int) -> bool {
    corner.x == column(p, width) && corner.y == row(p, width)
}

/// Whether a corner lies furthest in a direction.
pub open spec fn is_corner(
    marked: Seq<bool>,
    width: int,
    right: int,
    down: int,
    corner: Corner,
) -> bool {
    exists|p: int| #[trigger] is_furthest(marked, width, right, down, p) && lies_at(corner, width, p)
}

fn furthest(marked: &Vec<bool>, width: usize, right: i64, down: i64) -> (r: Corner)
    requires
        0 < width <= PREVIEW_PX,
        marked.len() <= width * PREVIEW_PX,
        right == 1 || right == -1,
        down == 1 || down == -1,
        exists|p: int| 0 <= p < marked.len() && #[trigger] marked[p],
    ensures
        is_corner(marked@, width as int, right as int, down as int, r),
        r.x < width,
        r.y < PREVIEW_PX,
{
    let ghost w = width as int;
    let mut found: bool = false;
    let mut best: Corner = Corner { x: 0, y: 0 };
    let mut best_reach: i64 = 0;
    let ghost mut best_at: int = 0;
    let mut x: usize = 0;
    let mut y: usize = 0;
    let mut at: usize = 0;
    while at < marked.len()
        invariant
            w == width,
            0 < width <= PREVIEW_PX,
            marked.len() <= width * PREVIEW_PX,
            right == 1 || right == -1,
            down == 1 || down == -1,
            at <= marked.len(),
            at == y * w + x,
            y <= at,
            x < width,
            best.x < width,
            best.y < PREVIEW_PX,
            !found ==> forall|q: int| 0 <= q < at ==> !#[trigger] marked[q],
            found ==> {
                &&& is_furthest(marked@.take(at as int), w, right as int, down as int, best_at)
                &&& best_reach == reach(best_at, w, right as int, down as int)
                &&& lies_at(best, w, best_at)
            },
        decreases marked.len() - at,
    {
        proof {
            vstd::arithmetic::div_mod::lemma_fundamental_div_mod_converse(
                at as int,
                w,
                y as int,
                x as int,
            );
            assert(y < 720) by (nonlinear_arith)
                requires
                    y * w + x < w * 720,
                    w > 0,
                    x >= 0,
            ;
        }
        let ghost seen = marked@.take(at as int);
        let ghost more = marked@.take(at + 1);
        assert(forall|q: int| 0 <= q < at ==> #[trigger] more[q] == seen[q]);
        if marked[at] {
            let here: i64 = (if right == 1 {
                x as i64
            } else {
                -(x as i64)
            }) + (if down == 1 {
                y as i64
            } else {
                -(y as i64)
            });
            assert(here == reach(at as int, w, right as int, down as int)) by {
                let r = right as int;
                let d = down as int;
                let xi = x as int;
                let yi = y as int;
                assert(r == 1 ==> r * xi == xi) by (nonlinear_arith);
                assert(r == -1 ==> r * xi == -xi) by (nonlinear_arith);
                assert(d == 1 ==> d * yi == yi) by (nonlinear_arith);
                assert(d == -1 ==> d * yi == -yi) by (nonlinear_arith);
            }
            if !found || here > best_reach {
                found = true;
                best = Corner { x: x as u32, y: y as u32 };
                best_reach = here;
                proof {
                    best_at = at as int;
                }
            }
            assert(more[at as int]);
        } else {
            assert(!more[at as int]);
        }
        assert(found ==> is_furthest(more, w, right as int, down as int, best_at));
        at = at + 1;
        x = x + 1;
        if x == width {
            x = 0;
            y = y + 1;
            assert((y - 1) * w + w == y * w) by (nonlinear_arith);
        }
    }
    assert(marked@.take(at as int) =~= marked@);
    assert(is_furthest(marked@, w, right as int, down as int, best_at));
    best
}

pub open spec fn square(n: int) -> int {
    n * n
}

/// Whether the edge between two corners is longer than a quarter of a side.
pub open spec fn spans(from: Corner, to: Corner, side: int) -> bool {
    16 * (square(to.x - from.x) + square(to.y - from.y)) > square(side)
}

/// One term of twice the enclosed area.
pub open spec fn cross(from: Corner, to: Corner) -> int {
    from.x * to.y - to.x * from.y
}

/// Twice the area that four corners enclose.
pub open spec fn double_area(a: Corner, b: Corner, c: Corner, d: Corner) -> int {
    let sum = cross(a, b) + cross(b, c) + cross(c, d) + cross(d, a);
    if sum < 0 {
        -sum
    } else {
        sum
    }
}

/// Whether four corners, clockwise from the top left, can be those of a page: each
/// edge is over a quarter of the image, and they enclose over 18 percent of it.
pub open spec fn is_quadrilateral(
    a: Corner,
    b: Corner,
    c: Corner,
    d: Corner,
    width: int,
    height: int,
) -> bool {
    &&& spans(a, b, width)
    &&& spans(d, c, width)
    &&& spans(a, d, height)
    &&& spans(b, c, height)
    &&& 25 * double_area(a, b, c, d) > 9 * (width * height)
}

fn edge_spans(from: Corner, to: Corner, side: u32) -> (r: bool)
    requires
        from.x < PREVIEW_PX,
        from.y < PREVIEW_PX,
        to.x < PREVIEW_PX,
        to.y < PREVIEW_PX,
        side <= PREVIEW_PX,
    ensures
        r == spans(from, to, side as int),
{
    let dx: i64 = to.x as i64 - from.x as i64;
    let dy: i64 = to.y as i64 - from.y as i64;
    let s: i64 = side as i64;
    assert(0 <= dx * dx <= 720 * 720) by (nonlinear_arith)
        requires
            -720 < dx < 720,
    ;
    assert(0 <= dy * dy <= 720 * 720) by (nonlinear_arith)
        requires
            -720 < dy < 720,
    ;
    assert(0 <= s * s <= 720 * 720) by (nonlinear_arith)
        requires
            0 <= s <= 720,
    ;
    16 * (dx * dx + dy * dy) > s * s
}

fn cross_term(from: Corner, to: Corner) -> (r: i64)
    requires
        from.x < PREVIEW_PX,
        from.y < PREVIEW_PX,
        to.x < PREVIEW_PX,
        to.y < PREVIEW_PX,
    ensures
        r == cross(from, to),
        -720 * 720 <= r <= 720 * 720,
{
    let (fx, fy): (i64, i64) = (from.x as i64, from.y as i64);
    let (tx, ty): (i64, i64) = (to.x as i64, to.y as i64);
    assert(0 <= fx * ty <= 720 * 720) by (nonlinear_arith)
        requires
            0 <= fx < 720,
            0 <= ty < 720,
    ;
    assert(0 <= tx * fy <= 720 * 720) by (nonlinear_arith)
        requires
            0 <= tx < 720,
            0 <= fy < 720,
    ;
    fx * ty - tx * fy
}

fn valid_quadrilateral(
    a: Corner,
    b: Corner,
    c: Corner,
    d: Corner,
    width: u32,
    height: u32,
) -> (r: bool)
    requires
        width <= PREVIEW_PX,
        height <= PREVIEW_PX,
        a.x < PREVIEW_PX && a.y < PREVIEW_PX,
        b.x < PREVIEW_PX && b.y < PREVIEW_PX,
        c.x < PREVIEW_PX && c.y < PREVIEW_PX,
        d.x < PREVIEW_PX && d.y < PREVIEW_PX,
    ensures
        r == is_quadrilateral(a, b, c, d, width as int, height as int),
{
    let sum: i64 = cross_term(a, b) + cross_term(b, c) + cross_term(c, d) + cross_term(d, a);
    let area: i64 = if sum < 0 {
        -sum
    } else {
        sum
    };
    assert(0 <= width * height <= 720 * 720) by (nonlinear_arith)
        requires
            width <= 720,
            height <= 720,
    ;
    edge_spans(a, b, width) && edge_spans(d, c, width) && edge_spans(a, d, height) && edge_spans(
        b,
        c,
        height,
    ) && 25 * area > 9 * (width as i64 * height as i64)
}

/// The sum of the brightness of the pixels that are marked.
pub open spec fn marked_sum(pixels: Seq<u8>, marked: Seq<bool>, n: nat) -> nat
    decreases n,
{
    if n == 0 {
        0
    } else {
        marked_sum(pixels, marked, (n - 1) as nat) + if marked[n - 1] {
            pixels[n - 1] as nat
        } else {
            0
        }
    }
}

fn sum_marked(pixels: &Vec<u8>, marked: &Vec<bool>) -> (r: u64)
    requires
        marked.len() == pixels.len(),
        pixels.len() <= PREVIEW_PX * PREVIEW_PX,
    ensures
        r == marked_sum(pixels@, marked@, pixels.len() as nat),
        r <= 255 * pixels.len(),
{
    let mut sum: u64 = 0;
    let mut i: usize = 0;
    while i < pixels.len()
        invariant
            i <= pixels.len(),
            marked.len() == pixels.len(),
            pixels.len() <= PREVIEW_PX * PREVIEW_PX,
            sum == marked_sum(pixels@, marked@, i as nat),
            sum <= 255 * i,
        decreases pixels.len() - i,
    {
        if marked[i] {
            sum = sum + pixels[i] as u64;
        }
        i = i + 1;
    }
    sum
}

/// Which pixels are brighter than a threshold.
pub open spec fn brighter(pixels: Seq<u8>, threshold: int) -> Seq<bool> {
    Seq::new(pixels.len(), |p: int| pixels[p] > threshold)
}

/// Which pixels belong to the region of a pixel.
pub open spec fn members_of(mask: Seq<bool>, width: int, start: int) -> Seq<bool> {
    Seq::new(mask.len(), |p: int| linked(mask, width, start, p))
}

/// Whether the marked pixels clearly outshine the others, on average.
pub open spec fn outshines(pixels: Seq<u8>, marked: Seq<bool>, area: int) -> bool {
    let inside = marked_sum(pixels, marked, pixels.len()) as int;
    let outside = marked_sum(pixels, Seq::new(pixels.len(), |p: int| !marked[p]), pixels.len()) as int;
    let outside_area = pixels.len() - area;
    outside_area > 0 && inside / area >= outside / outside_area + 40
}

/// What is found where the page is taken to be the region of `start`.
pub open spec fn page_found(
    pixels: Seq<u8>,
    mask: Seq<bool>,
    width: int,
    height: int,
    start: int,
    r: DetectResult,
) -> bool {
    let marked = members_of(mask, width, start);
    let area = region_area(mask, width, start) as int;
    if area < width * height * 18 / 100 {
        r == fallback_result()
    } else {
        exists|a: Corner, b: Corner, c: Corner, d: Corner|
            {
                &&& #[trigger] is_corner(marked, width, -1, -1, a)
                &&& #[trigger] is_corner(marked, width, 1, -1, b)
                &&& #[trigger] is_corner(marked, width, 1, 1, c)
                &&& #[trigger] is_corner(marked, width, -1, 1, d)
                &&& r == if is_quadrilateral(a, b, c, d, width, height) {
                    DetectResult {
                        corners: PageCorners {
                            top_left: a,
                            top_right: b,
                            bottom_right: c,
                            bottom_left: d,
                            columns: width as u32,
                            rows: height as u32,
                        },
                        confident: outshines(pixels, marked, area),
                    }
                } else {
                    fallback_result()
                }
            }
    }
}

/// The brightness that parts the page from the mat: 35 percent of the way from the
/// darkest tenth to the brightest. `None` where the two are too close to tell.
pub open spec fn page_threshold(histogram: Seq<u64>, total: int) -> Option<int> {
    let dark = percentile_value(histogram, total / 10);
    let bright = percentile_value(histogram, total * 9 / 10);
    if bright < dark + 50 {
        None
    } else {
        Some(dark + (bright - dark) * 35 / 100)
    }
}

/// The histogram of a list of values.
pub open spec fn tallies(values: Seq<u8>) -> Seq<u64> {
    Seq::new(256, |v: int| tally(values, v) as u64)
}

/// What is found in a grey image: the page is the largest bright region.
pub open spec fn is_detection(pixels: Seq<u8>, width: int, height: int, r: DetectResult) -> bool {
    if width < 40 || height < 40 {
        r == fallback_result()
    } else {
        match page_threshold(tallies(pixels), width * height) {
            None => r == fallback_result(),
            Some(threshold) => {
                let mask = brighter(pixels, threshold);
                if forall|p: int| 0 <= p < mask.len() ==> !#[trigger] mask[p] {
                    r == fallback_result()
                } else {
                    exists|start: int| #[trigger]
                        is_largest_region(mask, width, start) && page_found(
                            pixels,
                            mask,
                            width,
                            height,
                            start,
                            r,
                        )
                }
            },
        }
    }
}

fn bright_mask(pixels: &Vec<u8>, threshold: u8) -> (r: Vec<bool>)
    ensures
        r@ == brighter(pixels@, threshold as int),
{
    let mut mask: Vec<bool> = Vec::new();
    let mut i: usize = 0;
    while i < pixels.len()
        invariant
            i <= pixels.len(),
            mask.len() == i,
            forall|p: int| 0 <= p < i ==> #[trigger] mask[p] == (pixels[p] > threshold),
        decreases pixels.len() - i,
    {
        mask.push(pixels[i] > threshold);
        i = i + 1;
    }
    assert(mask@ =~= brighter(pixels@, threshold as int));
    mask
}

fn complement(marked: &Vec<bool>) -> (r: Vec<bool>)
    ensures
        r@ == Seq::new(marked.len() as nat, |p: int| !marked[p]),
{
    let mut others: Vec<bool> = Vec::new();
    let mut i: usize = 0;
    while i < marked.len()
        invariant
            i <= marked.len(),
            others.len() == i,
            forall|p: int| 0 <= p < i ==> #[trigger] others[p] == !marked[p],
        decreases marked.len() - i,
    {
        others.push(!marked[i]);
        i = i + 1;
    }
    assert(others@ =~= Seq::new(marked.len() as nat, |p: int| !marked[p]));
    others
}

fn clearly_outshines(pixels: &Vec<u8>, marked: &Vec<bool>, area: usize) -> (r: bool)
    requires
        marked.len() == pixels.len(),
        pixels.len() <= PREVIEW_PX * PREVIEW_PX,
        0 < area <= pixels.len(),
    ensures
        r == outshines(pixels@, marked@, area as int),
{
    let outside_area: usize = pixels.len() - area;
    if outside_area == 0 {
        return false;
    }
    let inside: u64 = sum_marked(pixels, marked);
    let others: Vec<bool> = complement(marked);
    let outside: u64 = sum_marked(pixels, &others);
    assert(others@ =~= Seq::new(pixels@.len(), |p: int| !marked@[p]));
    assert(outside / outside_area as u64 <= outside) by (nonlinear_arith)
        requires
            outside_area > 0,
    ;
    inside / area as u64 >= outside / outside_area as u64 + 40
}

/// The threshold for a histogram, as `page_threshold` states it.
fn threshold_for(histogram: &Vec<u64>, total: u64) -> (r: Option<u8>)
    requires
        histogram.len() == 256,
        prefix_sum(histogram@, 256) <= u64::MAX,
        total <= PREVIEW_PX * PREVIEW_PX,
    ensures
        r is None <==> page_threshold(histogram@, total as int) is None,
        r matches Some(v) ==> page_threshold(histogram@, total as int) == Some(v as int),
{
    let dark: usize = percentile(histogram, total / 10);
    let bright: usize = percentile(histogram, total * 9 / 10);
    if bright < dark + 50 {
        None
    } else {
        Some((dark + (bright - dark) * 35 / 100) as u8)
    }
}

fn page_in_region(
    gray: &GrayRaster,
    marked: &Vec<bool>,
    area: usize,
    Ghost(mask): Ghost<Seq<bool>>,
    Ghost(start): Ghost<int>,
) -> (r: DetectResult)
    requires
        gray.wf(),
        40 <= gray.width <= PREVIEW_PX,
        40 <= gray.height <= PREVIEW_PX,
        mask.len() == gray.pixels.len(),
        0 <= start < mask.len(),
        mask[start],
        area == region_area(mask, gray.width as int, start),
        marked@ == members_of(mask, gray.width as int, start),
    ensures
        page_found(gray.pixels@, mask, gray.width as int, gray.height as int, start, r),
{
    let ghost w = gray.width as int;
    let ghost h = gray.height as int;
    proof {
        assert(1600 <= w * h <= 720 * 720) by (nonlinear_arith)
            requires
                40 <= w <= 720,
                40 <= h <= 720,
        ;
        assert(w * h <= w * 720) by (nonlinear_arith)
            requires
                40 <= w,
                h <= 720,
        ;
        lemma_count_bound(mask.len(), |p: int| linked(mask, w, start, p));
        lemma_linked_self(mask, w, start);
        assert(marked@[start]);
    }
    if (area as u64) < (gray.width as u64 * gray.height as u64) * 18 / 100 {
        return fallback_corners();
    }
    let width: usize = gray.width as usize;
    let a: Corner = furthest(marked, width, -1, -1);
    let b: Corner = furthest(marked, width, 1, -1);
    let c: Corner = furthest(marked, width, 1, 1);
    let d: Corner = furthest(marked, width, -1, 1);
    if !valid_quadrilateral(a, b, c, d, gray.width, gray.height) {
        return fallback_corners();
    }
    DetectResult {
        corners: PageCorners {
            top_left: a,
            top_right: b,
            bottom_right: c,
            bottom_left: d,
            columns: gray.width,
            rows: gray.height,
        },
        confident: clearly_outshines(&gray.pixels, marked, area),
    }
}

/// What is found in the largest bright region is what is found in the image.
proof fn lemma_page_detected(
    pixels: Seq<u8>,
    width: int,
    height: int,
    threshold: int,
    start: int,
    r: DetectResult,
)
    requires
        width >= 40,
        height >= 40,
        page_threshold(tallies(pixels), width * height) == Some(threshold),
        0 <= start < brighter(pixels, threshold).len(),
        brighter(pixels, threshold)[start],
        is_largest_region(brighter(pixels, threshold), width, start),
        page_found(pixels, brighter(pixels, threshold), width, height, start, r),
    ensures
        is_detection(pixels, width, height, r),
{
}

/// Finds the page in a grey preview: the largest bright region on the dark mat.
/// Where no region can be a page, the fallback corners come back, never confident.
pub fn detect_in_gray(gray: &GrayRaster) -> (r: DetectResult)
    requires
        gray.wf(),
        gray.width <= PREVIEW_PX,
        gray.height <= PREVIEW_PX,
    ensures
        is_detection(gray.pixels@, gray.width as int, gray.height as int, r),
{
    if gray.width < 40 || gray.height < 40 {
        return fallback_corners();
    }
    let ghost w = gray.width as int;
    proof {
        let h = gray.height as int;
        assert(1600 <= w * h <= 720 * 720) by (nonlinear_arith)
            requires
                40 <= w <= 720,
                40 <= h <= 720,
        ;
    }
    let histogram: Vec<u64> = histogram_of(&gray.pixels);
    proof {
        lemma_histogram_total(histogram@, gray.pixels@);
        assert(histogram@ =~= tallies(gray.pixels@));
        assert(gray.pixels@.len() == w * gray.height);
    }
    match threshold_for(&histogram, gray.pixels.len() as u64) {
        None => {
            assert(page_threshold(tallies(gray.pixels@), w * gray.height) is None);
            let r: DetectResult = fallback_corners();
            assert(is_detection(gray.pixels@, w, gray.height as int, r));
            r
        },
        Some(threshold) => {
            let mask: Vec<bool> = bright_mask(&gray.pixels, threshold);
            assert(page_threshold(tallies(gray.pixels@), w * gray.height) == Some(threshold as int));
            assert(mask@ == brighter(gray.pixels@, threshold as int));
            match largest_region(&mask, gray.width as usize) {
                None => {
                    assert(forall|p: int| 0 <= p < mask@.len() ==> !#[trigger] mask@[p]);
                    let r: DetectResult = fallback_corners();
                    assert(is_detection(gray.pixels@, w, gray.height as int, r));
                    r
                },
                Some(region) => {
                    let ghost start = region.start as int;
                    assert(mask@[start]);
                    assert(region.members@ =~= members_of(mask@, w, start));
                    let r: DetectResult = page_in_region(
                        gray,
                        &region.members,
                        region.area,
                        Ghost(mask@),
                        Ghost(start),
                    );
                    assert(is_largest_region(mask@, w, start));
                    assert(page_found(gray.pixels@, mask@, w, gray.height as int, start, r));
                    proof {
                        lemma_page_detected(
                            gray.pixels@,
                            w,
                            gray.height as int,
                            threshold as int,
                            start,
                            r,
                        );
                    }
                    r
                },
            }
        },
    }
}

/// Whether this is what is found in a colour preview: in its brightness, whichever way a
/// machine rounds it.
pub open spec fn is_found_in(preview: Seq<u8>, width: u32, height: u32, r: DetectResult) -> bool {
    exists|gray: Seq<u8>| #[trigger]
        is_brightness(gray, preview) && is_detection(gray, width as int, height as int, r)
}

/// Finds the page in a photograph, looking at a preview of at most 720 pixels a side.
pub fn detect_document(image: &RgbRaster) -> (r: DetectResult)
    requires
        image.wf(),
    ensures
        image.width < 40 || image.height < 40 ==> r == fallback_result(),
        image.width >= 40 && image.height >= 40 ==> {
            let size = fitted_size(image.width, image.height, PREVIEW_PX);
            let preview = triangle_resized(
                image.pixels@,
                image.width,
                image.height,
                size.0,
                size.1,
            );
            is_found_in(preview, size.0, size.1, r)
        },
{
    if image.width < 40 || image.height < 40 {
        return fallback_corners();
    }
    let (width, height): (u32, u32) = fit_within(image.width, image.height, PREVIEW_PX);
    proof {
        law_fitted_size_fits(image.width, image.height, PREVIEW_PX);
    }
    let preview: RgbRaster = resize_triangle(image, width, height);
    let gray: GrayRaster = to_luma(&preview);
    detect_in_gray(&gray)
}

/// The corners of the page in a photograph.
pub fn detect_document_corners(image: &RgbRaster) -> (r: PageCorners)
    requires
        image.wf(),
    ensures
        image.width < 40 || image.height < 40 ==> r == fallback_result().corners,
        image.width >= 40 && image.height >= 40 ==> {
            let size = fitted_size(image.width, image.height, PREVIEW_PX);
            let preview = triangle_resized(
                image.pixels@,
                image.width,
                image.height,
                size.0,
                size.1,
            );
            exists|found: DetectResult| #[trigger]
                is_found_in(preview, size.0, size.1, found) && r == found.corners
        },
{
    let found: DetectResult = detect_document(image);
    found.corners
}

/// What is found in an image is never in doubt: two results that both fit are equal.
pub proof fn law_detection_is_unique(
    pixels: Seq<u8>,
    width: int,
    height: int,
    left: DetectResult,
    right: DetectResult,
)
    requires
        width > 0,
        is_detection(pixels, width, height, left),
        is_detection(pixels, width, height, right),
    ensures
        left == right,
{
}

} // verus!
