//! What the corners found in a photograph have to do with the bright page on it.

use vstd::prelude::*;
use crate::detect::{
    brighter, column, double_area, fallback_result, first_reaching, is_corner, is_detection,
    is_furthest, is_quadrilateral, lies_at, marked_sum, members_of, outshines, page_found,
    page_threshold, percentile_value, prefix_sum, reach, row, tallies, tally, Corner,
    DetectResult, PageCorners,
};
use crate::regions::{count_where, is_largest_region, is_path, linked, region_area, touches};

verus! {

/// The place of a pixel in a picture that is kept row by row.
pub open spec fn pixel_at(width: int, x: int, y: int) -> int {
    y * width + x
}

/// Whether every pixel of a patch lies on one side of a slanting line through a corner:
/// going `right` and `down` one alike, none lies further.
pub open spec fn none_lies_further(
    page: Seq<bool>,
    width: int,
    height: int,
    corner: Corner,
    right: int,
    down: int,
) -> bool {
    forall|x: int, y: int|
        0 <= x < width && 0 <= y < height && #[trigger] page[pixel_at(width, x, y)] ==> right * x
            + down * y <= right * corner.x + down * corner.y
}

/// Whether a corner is a pixel of a patch.
pub open spec fn is_on(page: Seq<bool>, width: int, height: int, corner: Corner) -> bool {
    corner.x < width && corner.y < height && page[pixel_at(width, corner.x as int, corner.y as int)]
}

/// Whether four corners are those of a patch: each is a pixel of it, and none lies further
/// towards that corner, columns and rows counting alike.
pub open spec fn are_corners_of(
    page: Seq<bool>,
    width: int,
    height: int,
    corners: PageCorners,
) -> bool {
    &&& is_on(page, width, height, corners.top_left)
    &&& is_on(page, width, height, corners.top_right)
    &&& is_on(page, width, height, corners.bottom_right)
    &&& is_on(page, width, height, corners.bottom_left)
    &&& none_lies_further(page, width, height, corners.top_left, -1, -1)
    &&& none_lies_further(page, width, height, corners.top_right, 1, -1)
    &&& none_lies_further(page, width, height, corners.bottom_right, 1, 1)
    &&& none_lies_further(page, width, height, corners.bottom_left, -1, 1)
}

/// Whether a patch is made of pixels brighter than a level, and goes as far as they do from
/// side to side and from row to row.
pub open spec fn is_patch_above(pixels: Seq<u8>, width: int, page: Seq<bool>, level: int) -> bool {
    &&& page.len() == pixels.len()
    &&& forall|p: int| 0 <= p < page.len() && #[trigger] page[p] ==> pixels[p] > level
    &&& forall|p: int, q: int|
        #![trigger page[p], page[q]]
        0 <= p < page.len() && 0 <= q < page.len() && page[p] && pixels[q] > level && are_beside(
            width,
            p,
            q,
        ) ==> page[q]
}

/// Whether two pixels lie side by side, or one above the other.
pub open spec fn are_beside(width: int, p: int, q: int) -> bool {
    ||| q == p + width
    ||| p == q + width
    ||| q == p + 1 && q % width != 0
    ||| p == q + 1 && p % width != 0
}

proof fn lemma_coordinates(width: int, x: int, y: int)
    requires
        0 <= x < width,
        0 <= y,
    ensures
        column(pixel_at(width, x, y), width) == x,
        row(pixel_at(width, x, y), width) == y,
        pixel_at(width, x, y) >= 0,
{
    vstd::arithmetic::div_mod::lemma_fundamental_div_mod_converse(
        pixel_at(width, x, y),
        width,
        y,
        x,
    );
    assert(y * width >= 0) by (nonlinear_arith)
        requires
            y >= 0,
            width >= 0,
    ;
}

proof fn lemma_place(width: int, height: int, p: int)
    requires
        0 < width,
        0 <= p < width * height,
    ensures
        0 <= column(p, width) < width,
        0 <= row(p, width) < height,
        pixel_at(width, column(p, width), row(p, width)) == p,
{
    vstd::arithmetic::div_mod::lemma_fundamental_div_mod(p, width);
    assert(row(p, width) * width == width * row(p, width)) by (nonlinear_arith);
    assert(0 <= p / width < height) by (nonlinear_arith)
        requires
            0 <= p < width * height,
            0 < width,
            p == width * (p / width) + p % width,
            0 <= p % width < width,
    ;
}

proof fn lemma_inside(width: int, height: int, x: int, y: int)
    requires
        0 <= x < width,
        0 <= y < height,
    ensures
        0 <= pixel_at(width, x, y) < width * height,
{
    assert(0 <= y * width + x < width * height) by (nonlinear_arith)
        requires
            0 <= x < width,
            0 <= y < height,
    ;
}

/// A corner that is furthest is on the patch, and none lies further.
proof fn lemma_corner(
    page: Seq<bool>,
    width: int,
    height: int,
    right: int,
    down: int,
    corner: Corner,
)
    requires
        0 < width,
        page.len() == width * height,
        is_corner(page, width, right, down, corner),
        right == 1 || right == -1,
        down == 1 || down == -1,
    ensures
        is_on(page, width, height, corner),
        none_lies_further(page, width, height, corner, right, down),
{
    let p = choose|p: int| #[trigger]
        is_furthest(page, width, right, down, p) && lies_at(corner, width, p);
    lemma_place(width, height, p);
    assert forall|x: int, y: int|
        0 <= x < width && 0 <= y < height && #[trigger] page[pixel_at(width, x, y)] implies right * x
        + down * y <= right * corner.x + down * corner.y by {
        let q = pixel_at(width, x, y);
        lemma_inside(width, height, x, y);
        lemma_coordinates(width, x, y);
        assert(page[q]);
        assert(reach(q, width, right, down) <= reach(p, width, right, down));
    }
}

proof fn lemma_path_on(mask: Seq<bool>, width: int, a: int, b: int, c: int)
    requires
        linked(mask, width, a, b),
        touches(width, mask.len() as int, b, c),
        mask[c],
    ensures
        linked(mask, width, a, c),
{
    let path = choose|path: Seq<int>| is_path(mask, width, path, a, b);
    let longer = path.push(c);
    assert forall|i: int| 0 < i < longer.len() implies touches(
        width,
        mask.len() as int,
        longer[i - 1],
        #[trigger] longer[i],
    ) by {
        if i < path.len() {
            assert(longer[i] == path[i]);
        }
    }
    assert(is_path(mask, width, longer, a, c));
}

/// Where a page is found, its corners are those of a bright patch: there is a level that
/// every pixel of the patch is above, the patch goes as far as the pixels above it do, and
/// no pixel of it lies further towards a corner than the corner found, columns and rows
/// counting alike.
pub proof fn law_corners_enclose_a_bright_patch(
    pixels: Seq<u8>,
    width: int,
    height: int,
    r: DetectResult,
)
    requires
        0 < width,
        0 < height,
        width <= u32::MAX,
        height <= u32::MAX,
        pixels.len() == width * height,
        is_detection(pixels, width, height, r),
        r != fallback_result(),
    ensures
        r.corners.columns == width,
        r.corners.rows == height,
        exists|page: Seq<bool>, level: int| #[trigger]
            is_patch_above(pixels, width, page, level) && are_corners_of(
                page,
                width,
                height,
                r.corners,
            ),
{
    let level = page_threshold(tallies(pixels), width * height).unwrap();
    let mask = brighter(pixels, level);
    let start = choose|start: int| #[trigger]
        is_largest_region(mask, width, start) && page_found(pixels, mask, width, height, start, r);
    let page = members_of(mask, width, start);
    lemma_corner(page, width, height, -1, -1, r.corners.top_left);
    lemma_corner(page, width, height, 1, -1, r.corners.top_right);
    lemma_corner(page, width, height, 1, 1, r.corners.bottom_right);
    lemma_corner(page, width, height, -1, 1, r.corners.bottom_left);
    assert forall|p: int| 0 <= p < page.len() && #[trigger] page[p] implies pixels[p] > level by {
        let path = choose|path: Seq<int>| is_path(mask, width, path, start, p);
        assert(mask[path[path.len() - 1]]);
    }
    assert forall|p: int, q: int|
        #![trigger page[p], page[q]]
        0 <= p < page.len() && 0 <= q < page.len() && page[p] && pixels[q] > level && are_beside(
            width,
            p,
            q,
        ) implies page[q] by {
        assert(mask[q]);
        assert(touches(width, mask.len() as int, p, q));
        lemma_path_on(mask, width, start, p, q);
    }
    assert(is_patch_above(pixels, width, page, level));
}

/// How many pixels a patch has.
pub open spec fn filled(page: Seq<bool>) -> nat
    decreases page.len(),
{
    if page.len() == 0 {
        0
    } else {
        filled(page.drop_last()) + if page.last() {
            1nat
        } else {
            0nat
        }
    }
}

/// Whether a picture shows a patch of one brightness on a ground of another.
pub open spec fn shows(pixels: Seq<u8>, page: Seq<bool>, bright: u8, dark: u8) -> bool {
    &&& pixels.len() == page.len()
    &&& forall|p: int|
        0 <= p < page.len() ==> #[trigger] pixels[p] == if page[p] {
            bright
        } else {
            dark
        }
}

/// Whether a patch hangs together: there is a way from each of its pixels to each, step by
/// step, without leaving it.
pub open spec fn hangs_together(page: Seq<bool>, width: int) -> bool {
    forall|p: int, q: int|
        #![trigger page[p], page[q]]
        0 <= p < page.len() && 0 <= q < page.len() && page[p] && page[q] ==> linked(
            page,
            width,
            p,
            q,
        )
}

proof fn lemma_filled_bound(page: Seq<bool>)
    ensures
        filled(page) <= page.len(),
    decreases page.len(),
{
    if page.len() > 0 {
        lemma_filled_bound(page.drop_last());
    }
}

proof fn lemma_tally(pixels: Seq<u8>, page: Seq<bool>, bright: u8, dark: u8, v: int)
    requires
        shows(pixels, page, bright, dark),
        dark < bright,
    ensures
        tally(pixels, v) == if v == bright {
            filled(page) as int
        } else if v == dark {
            pixels.len() - filled(page)
        } else {
            0
        },
    decreases pixels.len(),
{
    if pixels.len() > 0 {
        let less = pixels.drop_last();
        let less_page = page.drop_last();
        assert forall|p: int| 0 <= p < less_page.len() implies #[trigger] less[p] == if less_page[p] {
            bright
        } else {
            dark
        } by {
            assert(pixels[p] == less[p]);
            assert(page[p] == less_page[p]);
        }
        lemma_tally(less, less_page, bright, dark, v);
        assert(pixels[pixels.len() - 1] == pixels.last());
        lemma_filled_bound(less_page);
    }
}

proof fn lemma_prefix(
    pixels: Seq<u8>,
    page: Seq<bool>,
    bright: u8,
    dark: u8,
    n: nat,
)
    requires
        shows(pixels, page, bright, dark),
        dark < bright,
        pixels.len() <= u64::MAX,
        n <= 256,
    ensures
        prefix_sum(tallies(pixels), n) == if n <= dark {
            0
        } else if n <= bright {
            pixels.len() - filled(page)
        } else {
            pixels.len() as int
        },
    decreases n,
{
    lemma_filled_bound(page);
    if n > 0 {
        lemma_prefix(pixels, page, bright, dark, (n - 1) as nat);
        lemma_tally(pixels, page, bright, dark, n - 1);
        assert(tallies(pixels)[n - 1] == tally(pixels, n - 1) as u64);
    }
}

proof fn lemma_first(histogram: Seq<u64>, target: int, v: int, at: int)
    requires
        0 <= v <= at < histogram.len(),
        forall|m: int| v <= m < at ==> #[trigger] prefix_sum(histogram, (m + 1) as nat) < target,
        prefix_sum(histogram, (at + 1) as nat) >= target,
    ensures
        first_reaching(histogram, target, v) == at,
    decreases at - v,
{
    if v < at {
        assert(prefix_sum(histogram, (v + 1) as nat) < target);
        lemma_first(histogram, target, v + 1, at);
    }
}

proof fn lemma_threshold(pixels: Seq<u8>, page: Seq<bool>, bright: u8, dark: u8)
    requires
        shows(pixels, page, bright, dark),
        bright >= dark + 50,
        1600 <= pixels.len() <= u64::MAX,
        10 * filled(page) <= 9 * pixels.len(),
        100 * filled(page) >= 18 * pixels.len(),
    ensures
        page_threshold(tallies(pixels), pixels.len() as int) matches Some(level) && dark <= level
            < bright,
{
    let n = pixels.len() as int;
    let histogram = tallies(pixels);
    lemma_filled_bound(page);
    assert forall|m: int| 0 <= m < dark implies #[trigger] prefix_sum(histogram, (m + 1) as nat) < n
        / 10 by {
        lemma_prefix(pixels, page, bright, dark, (m + 1) as nat);
    }
    lemma_prefix(pixels, page, bright, dark, (dark + 1) as nat);
    lemma_first(histogram, n / 10, 0, dark as int);
    assert forall|m: int| 0 <= m < bright implies #[trigger] prefix_sum(histogram, (m + 1) as nat)
        < n * 9 / 10 by {
        lemma_prefix(pixels, page, bright, dark, (m + 1) as nat);
    }
    lemma_prefix(pixels, page, bright, dark, (bright + 1) as nat);
    lemma_first(histogram, n * 9 / 10, 0, bright as int);
    assert(percentile_value(histogram, n / 10) == dark);
    assert(percentile_value(histogram, n * 9 / 10) == bright);
}

proof fn lemma_count(page: Seq<bool>, n: nat, property: spec_fn(int) -> bool)
    requires
        n <= page.len(),
        forall|p: int| 0 <= p < n ==> #[trigger] page[p] == property(p),
    ensures
        count_where(n, property) == filled(page.take(n as int)),
    decreases n,
{
    if n > 0 {
        lemma_count(page, (n - 1) as nat, property);
        assert(page.take(n as int).drop_last() =~= page.take(n - 1));
        assert(page.take(n as int).last() == page[n - 1]);
    } else {
        assert(page.take(0) =~= Seq::<bool>::empty());
    }
}

proof fn lemma_sums(pixels: Seq<u8>, page: Seq<bool>, marked: Seq<bool>, level: u8, n: nat)
    requires
        n <= pixels.len(),
        marked.len() == pixels.len(),
        forall|p: int| 0 <= p < n && #[trigger] marked[p] ==> pixels[p] == level,
    ensures
        marked_sum(pixels, marked, n) == level * filled(marked.take(n as int)),
    decreases n,
{
    if n > 0 {
        lemma_sums(pixels, page, marked, level, (n - 1) as nat);
        let less = filled(marked.take(n - 1));
        assert(marked.take(n as int).drop_last() =~= marked.take(n - 1));
        assert(marked.take(n as int).last() == marked[n - 1]);
        assert(level * (less + 1) == level * less + level) by (nonlinear_arith);
        assert(marked[n - 1] ==> pixels[n - 1] == level);
    } else {
        assert(marked.take(0) =~= Seq::<bool>::empty());
        assert(level * 0 == 0) by (nonlinear_arith);
    }
}

proof fn lemma_filled_complement(page: Seq<bool>)
    ensures
        filled(Seq::new(page.len(), |p: int| !page[p])) == page.len() - filled(page),
    decreases page.len(),
{
    let other = Seq::new(page.len(), |p: int| !page[p]);
    if page.len() > 0 {
        lemma_filled_complement(page.drop_last());
        assert(other.drop_last() =~= Seq::new(
            page.drop_last().len(),
            |p: int| !page.drop_last()[p],
        ));
    }
}

proof fn lemma_outshines(pixels: Seq<u8>, page: Seq<bool>, bright: u8, dark: u8)
    requires
        shows(pixels, page, bright, dark),
        bright >= dark + 40,
        0 < filled(page) < pixels.len(),
    ensures
        outshines(pixels, page, filled(page) as int),
{
    let n = pixels.len();
    let area = filled(page) as int;
    let other = Seq::new(pixels.len(), |p: int| !page[p]);
    assert(page.take(n as int) =~= page);
    assert(other.take(n as int) =~= other);
    lemma_sums(pixels, page, page, bright, n);
    lemma_sums(pixels, page, other, dark, n);
    lemma_filled_complement(page);
    assert(other =~= Seq::new(page.len(), |p: int| !page[p]));
    let rest = n - area;
    assert((bright * area) / area == bright) by (nonlinear_arith)
        requires
            area > 0,
    ;
    assert((dark * rest) / rest == dark) by (nonlinear_arith)
        requires
            rest > 0,
    ;
}

proof fn lemma_one_corner(
    marked: Seq<bool>,
    width: int,
    right: int,
    down: int,
    left: Corner,
    other: Corner,
)
    requires
        is_corner(marked, width, right, down, left),
        is_corner(marked, width, right, down, other),
    ensures
        left == other,
{
    let p = choose|p: int| #[trigger]
        is_furthest(marked, width, right, down, p) && lies_at(left, width, p);
    let q = choose|q: int| #[trigger]
        is_furthest(marked, width, right, down, q) && lies_at(other, width, q);
    assert(marked[p] && marked[q]);
}

/// In a picture of one bright patch the region looked at is that patch.
#[verifier::spinoff_prover]
#[verifier::rlimit(40)]
proof fn lemma_patch_is_region(
    pixels: Seq<u8>,
    width: int,
    height: int,
    page: Seq<bool>,
    bright: u8,
    dark: u8,
    r: DetectResult,
) -> (start: int)
    requires
        40 <= width <= u32::MAX,
        40 <= height <= u32::MAX,
        pixels.len() == width * height,
        pixels.len() <= u64::MAX,
        shows(pixels, page, bright, dark),
        bright >= dark + 50,
        hangs_together(page, width),
        10 * filled(page) <= 9 * pixels.len(),
        100 * filled(page) >= 18 * pixels.len(),
        is_detection(pixels, width, height, r),
    ensures
        page_found(pixels, page, width, height, start, r),
        members_of(page, width, start) == page,
        region_area(page, width, start) == filled(page),
        filled(page) >= width * height * 18 / 100,
        outshines(pixels, page, filled(page) as int),
{
    let n = pixels.len() as int;
    assert(n >= 1600) by (nonlinear_arith)
        requires
            n == width * height,
            width >= 40,
            height >= 40,
    ;
    lemma_threshold(pixels, page, bright, dark);
    let level = page_threshold(tallies(pixels), n).unwrap();
    let mask = brighter(pixels, level);
    assert(mask =~= page);
    lemma_filled_some(page);
    let q = choose|q: int| 0 <= q < page.len() && #[trigger] page[q];
    assert(mask[q]);
    let start = choose|start: int| #[trigger]
        is_largest_region(mask, width, start) && page_found(pixels, mask, width, height, start, r);
    let marked = members_of(mask, width, start);
    assert(page[start]);
    assert forall|p: int| 0 <= p < page.len() implies #[trigger] marked[p] == page[p] by {
        if page[p] {
            assert(linked(page, width, start, p));
        }
        if marked[p] {
            let path = choose|path: Seq<int>| is_path(mask, width, path, start, p);
            assert(mask[path[path.len() - 1]]);
        }
    }
    assert(marked =~= page);
    let property = |p: int| linked(mask, width, start, p);
    lemma_count(page, page.len(), property);
    assert(page.take(page.len() as int) =~= page);
    let area = region_area(mask, width, start) as int;
    assert(area == filled(page));
    lemma_outshines(pixels, page, bright, dark);
    assert(area >= width * height * 18 / 100);
    start
}

/// A bright page on a dark ground is found, and with confidence: a patch of one brightness
/// that hangs together, at least fifty levels brighter than the rest, between 18 and 90
/// hundredths of the picture. The corners found are those of the patch, wherever they span
/// a quadrilateral that is large enough.
#[verifier::spinoff_prover]
#[verifier::rlimit(40)]
pub proof fn law_bright_page_is_found(
    pixels: Seq<u8>,
    width: int,
    height: int,
    page: Seq<bool>,
    bright: u8,
    dark: u8,
    r: DetectResult,
)
    requires
        40 <= width <= u32::MAX,
        40 <= height <= u32::MAX,
        pixels.len() == width * height,
        pixels.len() <= u64::MAX,
        shows(pixels, page, bright, dark),
        bright >= dark + 50,
        hangs_together(page, width),
        10 * filled(page) <= 9 * pixels.len(),
        100 * filled(page) >= 18 * pixels.len(),
        is_detection(pixels, width, height, r),
    ensures
        r == fallback_result() || (r.confident && are_corners_of(page, width, height, r.corners)),
        forall|corners: PageCorners|
            {
                &&& #[trigger] are_first_corners_of(page, width, height, corners)
                &&& is_quadrilateral(
                    corners.top_left,
                    corners.top_right,
                    corners.bottom_right,
                    corners.bottom_left,
                    width,
                    height,
                )
            } ==> r == (DetectResult { corners, confident: true }),
{
    let start = lemma_patch_is_region(pixels, width, height, page, bright, dark, r);
    let marked = page;
    let area = filled(page) as int;
    if r != fallback_result() {
        lemma_corner(page, width, height, -1, -1, r.corners.top_left);
        lemma_corner(page, width, height, 1, -1, r.corners.top_right);
        lemma_corner(page, width, height, 1, 1, r.corners.bottom_right);
        lemma_corner(page, width, height, -1, 1, r.corners.bottom_left);
    }
    assert forall|corners: PageCorners|
        {
            &&& #[trigger] are_first_corners_of(page, width, height, corners)
            &&& is_quadrilateral(
                corners.top_left,
                corners.top_right,
                corners.bottom_right,
                corners.bottom_left,
                width,
                height,
            )
        } implies r == (DetectResult { corners, confident: true }) by {
        let (a, b, c, d) = choose|a: Corner, b: Corner, c: Corner, d: Corner|
            {
                &&& #[trigger] is_corner(marked, width, -1, -1, a)
                &&& #[trigger] is_corner(marked, width, 1, -1, b)
                &&& #[trigger] is_corner(marked, width, 1, 1, c)
                &&& #[trigger] is_corner(marked, width, -1, 1, d)
                &&& r == if is_quadrilateral(a, b, c, d, width, height) {
                    DetectResult {
                        corners: PageCorners {
                            top_left: a,
                            top_right: b,
                            bottom_right: c,
                            bottom_left: d,
                            columns: width as u32,
                            rows: height as u32,
                        },
                        confident: outshines(pixels, marked, area),
                    }
                } else {
                    fallback_result()
                }
            };
        lemma_is_corner(page, width, height, corners.top_left, -1, -1);
        lemma_is_corner(page, width, height, corners.top_right, 1, -1);
        lemma_is_corner(page, width, height, corners.bottom_right, 1, 1);
        lemma_is_corner(page, width, height, corners.bottom_left, -1, 1);
        lemma_one_corner(marked, width, -1, -1, a, corners.top_left);
        lemma_one_corner(marked, width, 1, -1, b, corners.top_right);
        lemma_one_corner(marked, width, 1, 1, c, corners.bottom_right);
        lemma_one_corner(marked, width, -1, 1, d, corners.bottom_left);
    }
}

proof fn lemma_filled_some(page: Seq<bool>)
    ensures
        filled(page) > 0 ==> exists|p: int| 0 <= p < page.len() && #[trigger] page[p],
    decreases page.len(),
{
    if page.len() > 0 {
        lemma_filled_some(page.drop_last());
        if page.last() {
            assert(page[page.len() - 1]);
        } else if filled(page) > 0 {
            let p = choose|p: int|
                0 <= p < page.drop_last().len() && #[trigger] page.drop_last()[p];
            assert(page[p]);
        }
    }
}

/// Whether a corner is the first, row by row, of those pixels of a patch that lie furthest.
pub open spec fn is_first_on(
    page: Seq<bool>,
    width: int,
    height: int,
    corner: Corner,
    right: int,
    down: int,
) -> bool {
    &&& is_on(page, width, height, corner)
    &&& none_lies_further(page, width, height, corner, right, down)
    &&& forall|x: int, y: int|
        0 <= x < width && 0 <= y < height && #[trigger] page[pixel_at(width, x, y)] && right * x
            + down * y == right * corner.x + down * corner.y ==> corner.y < y || (corner.y == y
            && corner.x <= x)
}

/// Whether four corners are those of a patch, each the first of those that lie as far.
pub open spec fn are_first_corners_of(
    page: Seq<bool>,
    width: int,
    height: int,
    corners: PageCorners,
) -> bool {
    &&& is_first_on(page, width, height, corners.top_left, -1, -1)
    &&& is_first_on(page, width, height, corners.top_right, 1, -1)
    &&& is_first_on(page, width, height, corners.bottom_right, 1, 1)
    &&& is_first_on(page, width, height, corners.bottom_left, -1, 1)
    &&& corners.columns == width
    &&& corners.rows == height
}

proof fn lemma_is_corner(
    page: Seq<bool>,
    width: int,
    height: int,
    corner: Corner,
    right: int,
    down: int,
)
    requires
        0 < width,
        page.len() == width * height,
        is_first_on(page, width, height, corner, right, down),
    ensures
        is_corner(page, width, right, down, corner),
{
    let p = pixel_at(width, corner.x as int, corner.y as int);
    lemma_inside(width, height, corner.x as int, corner.y as int);
    lemma_coordinates(width, corner.x as int, corner.y as int);
    assert forall|q: int| 0 <= q < page.len() && #[trigger] page[q] implies {
        ||| reach(q, width, right, down) < reach(p, width, right, down)
        ||| reach(q, width, right, down) == reach(p, width, right, down) && p <= q
    } by {
        lemma_place(width, height, q);
        let x = column(q, width);
        let y = row(q, width);
        assert(page[pixel_at(width, x, y)]);
        if right * x + down * y == right * corner.x + down * corner.y {
            assert(corner.y < y || (corner.y == y && corner.x <= x));
            assert(p <= q) by (nonlinear_arith)
                requires
                    p == corner.y * width + corner.x,
                    q == y * width + x,
                    0 <= corner.x < width,
                    0 <= x < width,
                    corner.y < y || (corner.y == y && corner.x <= x),
            ;
        }
    }
    assert(is_furthest(page, width, right, down, p));
}

/// A rectangle parallel to the picture is large enough where its sides are longer than a
/// quarter of the picture's and it covers more than 18 hundredths of it.
pub proof fn law_large_rectangle_counts(
    left: u32,
    top: u32,
    right: u32,
    bottom: u32,
    width: int,
    height: int,
)
    requires
        left < right,
        top < bottom,
        0 < width,
        0 < height,
    ensures
        is_quadrilateral(
            Corner { x: left, y: top },
            Corner { x: right, y: top },
            Corner { x: right, y: bottom },
            Corner { x: left, y: bottom },
            width,
            height,
        ) <==> 4 * (right - left) > width && 4 * (bottom - top) > height && 100 * ((right - left) * (
        bottom - top)) > 18 * (width * height),
{
    let a = right - left;
    let b = bottom - top;
    lemma_square_order(4 * a, width);
    lemma_square_order(4 * b, height);
    assert(16 * (a * a) == (4 * a) * (4 * a)) by (nonlinear_arith);
    assert(16 * (b * b) == (4 * b) * (4 * b)) by (nonlinear_arith);
    assert((-a) * (-a) == a * a) by (nonlinear_arith);
    assert((-b) * (-b) == b * b) by (nonlinear_arith);
    assert(0 * 0 == 0);
    assert(double_area(
        Corner { x: left, y: top },
        Corner { x: right, y: top },
        Corner { x: right, y: bottom },
        Corner { x: left, y: bottom },
    ) == 2 * (a * b)) by {
        let (l, t, r, u) = (left as int, top as int, right as int, bottom as int);
        assert((l * t - r * t) + (r * u - r * t) + (r * u - l * u) + (l * t - l * u) == 2 * ((r - l) * (
        u - t))) by (nonlinear_arith);
        assert((r - l) * (u - t) >= 0) by (nonlinear_arith)
            requires
                r >= l,
                u >= t,
        ;
    }
}

proof fn lemma_square_order(a: int, b: int)
    requires
        a >= 0,
        b >= 0,
    ensures
        a * a > b * b <==> a > b,
{
    assert(a > b ==> a * a > b * b) by (nonlinear_arith)
        requires
            a >= 0,
            b >= 0,
    ;
    assert(a <= b ==> a * a <= b * b) by (nonlinear_arith)
        requires
            a >= 0,
            b >= 0,
    ;
}

/// The area within four corners is the same wherever they lie in the picture, and the same
/// for a picture seen in a mirror that swaps columns and rows.
pub proof fn law_area_stays_when_moved(a: Corner, b: Corner, c: Corner, d: Corner, dx: u32, dy: u32)
    requires
        a.x + dx <= u32::MAX,
        b.x + dx <= u32::MAX,
        c.x + dx <= u32::MAX,
        d.x + dx <= u32::MAX,
        a.y + dy <= u32::MAX,
        b.y + dy <= u32::MAX,
        c.y + dy <= u32::MAX,
        d.y + dy <= u32::MAX,
    ensures
        double_area(
            moved_by(a, dx, dy),
            moved_by(b, dx, dy),
            moved_by(c, dx, dy),
            moved_by(d, dx, dy),
        ) == double_area(a, b, c, d),
        double_area(swapped(a), swapped(d), swapped(c), swapped(b)) == double_area(a, b, c, d),
{
    let x = dx as int;
    let y = dy as int;
    lemma_cross_moved(a, b, x, y);
    lemma_cross_moved(b, c, x, y);
    lemma_cross_moved(c, d, x, y);
    lemma_cross_moved(d, a, x, y);
    assert(a.y * d.x == d.x * a.y && d.y * c.x == c.x * d.y && c.y * b.x == b.x * c.y && b.y * a.x
        == a.x * b.y) by (nonlinear_arith);
    assert(d.y * a.x == a.x * d.y && c.y * d.x == d.x * c.y && b.y * c.x == c.x * b.y && a.y * b.x
        == b.x * a.y) by (nonlinear_arith);
    assert(x * (b.y - a.y) + x * (c.y - b.y) + x * (d.y - c.y) + x * (a.y - d.y) == 0)
        by (nonlinear_arith);
    assert(y * (a.x - b.x) + y * (b.x - c.x) + y * (c.x - d.x) + y * (d.x - a.x) == 0)
        by (nonlinear_arith);
}

proof fn lemma_cross_moved(from: Corner, to: Corner, x: int, y: int)
    ensures
        (from.x + x) * (to.y + y) - (to.x + x) * (from.y + y) == (from.x * to.y - to.x * from.y) + x
            * (to.y - from.y) + y * (from.x - to.x),
{
    let (a, b, c, d) = (from.x as int, from.y as int, to.x as int, to.y as int);
    assert((a + x) * (d + y) - (c + x) * (b + y) == (a * d - c * b) + x * (d - b) + y * (a - c))
        by (nonlinear_arith);
}

/// A corner, moved.
pub open spec fn moved_by(corner: Corner, dx: u32, dy: u32) -> Corner {
    Corner { x: (corner.x + dx) as u32, y: (corner.y + dy) as u32 }
}

/// A corner with column and row swapped.
pub open spec fn swapped(corner: Corner) -> Corner {
    Corner { x: corner.y, y: corner.x }
}

/// Where no page can be told, the corners are those of a frame a little within the picture,
/// and nobody is told to trust them.
pub proof fn law_no_page_is_told_so(r: DetectResult)
    requires
        r == fallback_result(),
    ensures
        !r.confident,
        r.corners.columns == r.corners.rows,
        100 * r.corners.top_left.x == 6 * r.corners.columns,
        100 * r.corners.top_left.y == 6 * r.corners.rows,
        100 * r.corners.bottom_right.x == 94 * r.corners.columns,
        100 * r.corners.bottom_right.y == 94 * r.corners.rows,
        r.corners.top_right.x == r.corners.bottom_right.x,
        r.corners.top_right.y == r.corners.top_left.y,
        r.corners.bottom_left.x == r.corners.top_left.x,
        r.corners.bottom_left.y == r.corners.bottom_right.y,
{
}

/// In a picture of nearly one brightness no page is found.
pub proof fn law_flat_picture_has_no_page(
    pixels: Seq<u8>,
    width: int,
    height: int,
    level: u8,
    r: DetectResult,
)
    requires
        40 <= width,
        40 <= height,
        pixels.len() == width * height,
        pixels.len() <= u64::MAX,
        forall|p: int| 0 <= p < pixels.len() ==> #[trigger] pixels[p] == level,
        is_detection(pixels, width, height, r),
    ensures
        r == fallback_result(),
{
    let n = pixels.len() as int;
    assert(n >= 1600) by (nonlinear_arith)
        requires
            n == width * height,
            width >= 40,
            height >= 40,
    ;
    let histogram = tallies(pixels);
    assert forall|m: int| 0 <= m < level implies #[trigger] prefix_sum(histogram, (m + 1) as nat)
        == 0 by {
        lemma_flat_prefix(pixels, level, (m + 1) as nat);
    }
    lemma_flat_prefix(pixels, level, (level + 1) as nat);
    lemma_first(histogram, n / 10, 0, level as int);
    lemma_first(histogram, n * 9 / 10, 0, level as int);
    assert(page_threshold(histogram, n) is None);
}

proof fn lemma_flat_tally(pixels: Seq<u8>, level: u8, v: int)
    requires
        forall|p: int| 0 <= p < pixels.len() ==> #[trigger] pixels[p] == level,
    ensures
        tally(pixels, v) == if v == level {
            pixels.len()
        } else {
            0
        },
    decreases pixels.len(),
{
    if pixels.len() > 0 {
        assert forall|p: int| 0 <= p < pixels.drop_last().len() implies #[trigger] pixels.drop_last()[p]
            == level by {
            assert(pixels[p] == level);
        }
        lemma_flat_tally(pixels.drop_last(), level, v);
        assert(pixels[pixels.len() - 1] == level);
    }
}

proof fn lemma_flat_prefix(pixels: Seq<u8>, level: u8, n: nat)
    requires
        forall|p: int| 0 <= p < pixels.len() ==> #[trigger] pixels[p] == level,
        pixels.len() <= u64::MAX,
        n <= 256,
    ensures
        prefix_sum(tallies(pixels), n) == if n <= level {
            0
        } else {
            pixels.len()
        },
    decreases n,
{
    if n > 0 {
        lemma_flat_prefix(pixels, level, (n - 1) as nat);
        lemma_flat_tally(pixels, level, n - 1);
        assert(tallies(pixels)[n - 1] == tally(pixels, n - 1) as u64);
    }
}

} // verus!
