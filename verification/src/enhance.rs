//! What the paper and the ink of a page look like, before its tones are stretched.

use vstd::prelude::*;
use crate::detect::{histogram_of, lemma_histogram_total, percentile, percentile_value, tallies};
use crate::raster::RgbRaster;

verus! {

/// The cells across and down in which the paper is measured.
pub const FLATTEN_COLS: u32 = 12;

pub const FLATTEN_ROWS: u32 = 16;

/// One channel of the pixels of a row, every fourth from column `x` up to `to`.
pub open spec fn row_samples(
    pixels: Seq<u8>,
    width: int,
    channel: int,
    y: int,
    x: int,
    to: int,
) -> Seq<u8>
    decreases to - x + 4,
{
    if x >= to {
        Seq::empty()
    } else {
        seq![pixels[3 * (y * width + x) + channel]] + row_samples(
            pixels,
            width,
            channel,
            y,
            x + 4,
            to,
        )
    }
}

/// The samples of every fourth row from `y` up to `bottom`.
pub open spec fn area_samples(
    pixels: Seq<u8>,
    width: int,
    channel: int,
    left: int,
    right: int,
    y: int,
    bottom: int,
) -> Seq<u8>
    decreases bottom - y + 4,
{
    if y >= bottom {
        Seq::empty()
    } else {
        row_samples(pixels, width, channel, y, left, right) + area_samples(
            pixels,
            width,
            channel,
            left,
            right,
            y + 4,
            bottom,
        )
    }
}

fn collect_row(image: &RgbRaster, channel: usize, y: u32, left: u32, right: u32) -> (r: Vec<u8>)
    requires
        image.wf(),
        channel < 3,
        y < image.height,
        right <= image.width,
    ensures
        r@ == row_samples(
            image.pixels@,
            image.width as int,
            channel as int,
            y as int,
            left as int,
            right as int,
        ),
{
    let mut samples: Vec<u8> = Vec::new();
    let mut x: u32 = left;
    let ghost w = image.width as int;
    let ghost whole = row_samples(
        image.pixels@,
        w,
        channel as int,
        y as int,
        left as int,
        right as int,
    );
    assert(samples@ + whole =~= whole);
    while x < right
        invariant
            image.wf(),
                w == image.width,
            channel < 3,
            y < image.height,
            right <= image.width,
            whole == row_samples(
                image.pixels@,
                w,
                channel as int,
                y as int,
                left as int,
                right as int,
            ),
            whole == samples@ + row_samples(
                image.pixels@,
                w,
                channel as int,
                y as int,
                x as int,
                right as int,
            ),
        decreases right - x,
    {
        proof {
            let h = image.height as int;
            assert(0 <= y * w + x < w * h) by (nonlinear_arith)
                requires
                    0 <= x < w,
                    0 <= y < h,
            ;
            assert(y * w <= y * w + x);
            assert(y * w >= 0) by (nonlinear_arith)
                requires
                    w >= 0,
                    y >= 0,
            ;
        }
        let at: usize = y as usize * image.width as usize + x as usize;
        let value: u8 = image.pixels[3 * at + channel];
        let ghost before = samples@;
        samples.push(value);
        assert(samples@ =~= before + seq![value]);
        if right - x <= 4 {
            assert(row_samples(image.pixels@, w, channel as int, y as int, x + 4, right as int)
                =~= Seq::<u8>::empty());
            assert(whole =~= samples@);
            return samples;
        }
        proof {
            let rest = row_samples(image.pixels@, w, channel as int, y as int, x + 4, right as int);
            assert(before + (seq![value] + rest) =~= samples@ + rest);
        }
        x = x + 4;
    }
    assert(whole =~= samples@);
    samples
}

fn collect_area(
    image: &RgbRaster,
    channel: usize,
    left: u32,
    right: u32,
    top: u32,
    bottom: u32,
) -> (r: Vec<u8>)
    requires
        image.wf(),
        channel < 3,
        right <= image.width,
        bottom <= image.height,
    ensures
        r@ == area_samples(
            image.pixels@,
            image.width as int,
            channel as int,
            left as int,
            right as int,
            top as int,
            bottom as int,
        ),
{
    let mut samples: Vec<u8> = Vec::new();
    let mut y: u32 = top;
    let ghost w = image.width as int;
    let ghost c = channel as int;
    let ghost whole = area_samples(
        image.pixels@,
        w,
        c,
        left as int,
        right as int,
        top as int,
        bottom as int,
    );
    assert(samples@ + whole =~= whole);
    while y < bottom
        invariant
            image.wf(),
                w == image.width,
            c == channel,
            channel < 3,
            right <= image.width,
            bottom <= image.height,
            whole == area_samples(
                image.pixels@,
                w,
                c,
                left as int,
                right as int,
                top as int,
                bottom as int,
            ),
            whole == samples@ + area_samples(
                image.pixels@,
                w,
                c,
                left as int,
                right as int,
                y as int,
                bottom as int,
            ),
        decreases bottom - y,
    {
        let mut line: Vec<u8> = collect_row(image, channel, y, left, right);
        let ghost before = samples@;
        let ghost row = line@;
        samples.append(&mut line);
        proof {
            let rest = area_samples(
                image.pixels@,
                w,
                c,
                left as int,
                right as int,
                y + 4,
                bottom as int,
            );
            assert(before + (row + rest) =~= samples@ + rest);
        }
        if bottom - y <= 4 {
            assert(whole =~= samples@);
            return samples;
        }
        y = y + 4;
    }
    assert(whole =~= samples@);
    samples
}

/// Whether a value is the commonest of those from 100 on; of equals the last counts.
pub open spec fn is_bright_mode(histogram: Seq<u64>, v: int) -> bool {
    &&& 100 <= v < 256
    &&& forall|u: int|
        100 <= u < 256 ==> #[trigger] histogram[u] < histogram[v] || (histogram[u] == histogram[v]
            && u <= v)
}

/// The commonest bright value of a histogram: the colour of the paper, which small
/// highlights cannot shift.
pub fn bright_mode(histogram: &Vec<u64>) -> (r: u8)
    requires
        histogram.len() == 256,
    ensures
        is_bright_mode(histogram@, r as int),
{
    let mut best: usize = 100;
    let mut v: usize = 101;
    while v < 256
        invariant
            histogram.len() == 256,
            100 <= best < v <= 256,
            forall|u: int|
                100 <= u < v ==> #[trigger] histogram[u] < histogram[best as int] || (histogram[u]
                    == histogram[best as int] && u <= best),
        decreases 256 - v,
    {
        if histogram[v] >= histogram[best] {
            best = v;
        }
        v = v + 1;
    }
    best as u8
}

/// The smallest whole number that is at least `n / d`.
pub open spec fn ceil_div(n: int, d: int) -> int {
    (n + d - 1) / d
}

/// The first multiple of four from a number on.
pub open spec fn next_fourth(n: int) -> int {
    4 * ceil_div(n, 4)
}

/// Where a cell begins along a side that is cut into `cells`.
pub open spec fn cell_edge(cell: int, side: int, cells: int) -> int {
    ceil_div(cell * side, cells)
}

/// The samples of one cell: every fourth pixel of the image, both ways, that lies in it.
pub open spec fn cell_samples(
    pixels: Seq<u8>,
    width: int,
    height: int,
    channel: int,
    row: int,
    col: int,
) -> Seq<u8> {
    area_samples(
        pixels,
        width,
        channel,
        next_fourth(cell_edge(col, width, FLATTEN_COLS as int)),
        cell_edge(col + 1, width, FLATTEN_COLS as int),
        next_fourth(cell_edge(row, height, FLATTEN_ROWS as int)),
        cell_edge(row + 1, height, FLATTEN_ROWS as int),
    )
}

/// A pixel lies in the cell that its share of the side points to, and in no other.
pub proof fn law_cells_part_the_side(at: int, side: int, cells: int, cell: int)
    requires
        0 <= at < side,
        cells > 0,
    ensures
        cell_edge(cell, side, cells) <= at < cell_edge(cell + 1, side, cells) <==> at * cells / side
            == cell,
{
    let low = cell * side;
    let high = (cell + 1) * side;
    lemma_ceil(low, cells, at);
    lemma_ceil(high, cells, at);
    assert(low <= at * cells < high <==> at * cells / side == cell) by (nonlinear_arith)
        requires
            side > 0,
            low == cell * side,
            high == (cell + 1) * side,
    ;
}

proof fn lemma_ceil(n: int, d: int, at: int)
    requires
        d > 0,
    ensures
        ceil_div(n, d) <= at <==> n <= at * d,
{
    let q = (n + d - 1) / d;
    vstd::arithmetic::div_mod::lemma_fundamental_div_mod(n + d - 1, d);
    let rest = (n + d - 1) % d;
    assert(q <= at <==> n <= at * d) by (nonlinear_arith)
        requires
            n + d - 1 == d * q + rest,
            0 <= rest < d,
    ;
}

/// What one channel says of a page: the ink, the paper, and the paper of each cell,
/// row by row.
#[derive(Debug)]
pub struct ChannelTones {
    pub low: u8,
    pub paper: u8,
    pub cells: Vec<u8>,
}

/// The three channels of a page.
#[derive(Debug)]
pub struct PageTones {
    pub red: ChannelTones,
    pub green: ChannelTones,
    pub blue: ChannelTones,
}

/// The samples of the middle three fifths of a page.
pub open spec fn central_samples(pixels: Seq<u8>, width: int, height: int, channel: int) -> Seq<u8> {
    area_samples(
        pixels,
        width,
        channel,
        width / 5,
        width - width / 5,
        height / 5,
        height - height / 5,
    )
}

/// Whether tones are those of a channel: the ink is the darkest half percent of the
/// middle, the paper its commonest bright value.
pub open spec fn are_global_tones(samples: Seq<u8>, low: int, paper: int) -> bool {
    &&& low == percentile_value(tallies(samples), samples.len() as int / 200)
    &&& is_bright_mode(tallies(samples), paper)
}

pub open spec fn are_cells(pixels: Seq<u8>, width: int, height: int, channel: int, cells: Seq<u8>) -> bool {
    &&& cells.len() == FLATTEN_COLS * FLATTEN_ROWS
    &&& forall|i: int|
        0 <= i < cells.len() ==> is_bright_mode(
            tallies(
                cell_samples(
                    pixels,
                    width,
                    height,
                    channel,
                    i / FLATTEN_COLS as int,
                    i % FLATTEN_COLS as int,
                ),
            ),
            #[trigger] cells[i] as int,
        )
}

pub open spec fn are_tones(
    pixels: Seq<u8>,
    width: int,
    height: int,
    channel: int,
    r: ChannelTones,
) -> bool {
    &&& are_global_tones(
        central_samples(pixels, width, height, channel),
        r.low as int,
        r.paper as int,
    )
    &&& are_cells(pixels, width, height, channel, r.cells@)
}

/// Whether the paper of a channel is too close to its ink to be stretched.
pub open spec fn is_flat(pixels: Seq<u8>, width: int, height: int, channel: int) -> bool {
    exists|low: int, paper: int| #[trigger]
        are_global_tones(central_samples(pixels, width, height, channel), low, paper) && paper
            <= low + 60
}

proof fn lemma_global_tones_unique(samples: Seq<u8>, low: int, paper: int, low2: int, paper2: int)
    requires
        are_global_tones(samples, low, paper),
        are_global_tones(samples, low2, paper2),
    ensures
        low == low2,
        paper == paper2,
{
    let h = tallies(samples);
    assert(h[paper] <= h[paper2] && h[paper2] <= h[paper]);
}

fn histogram_of_samples(samples: &Vec<u8>) -> (r: Vec<u64>)
    ensures
        r@ == tallies(samples@),
        r.len() == 256,
        crate::detect::prefix_sum(r@, 256) == samples.len(),
{
    let histogram: Vec<u64> = histogram_of(samples);
    proof {
        lemma_histogram_total(histogram@, samples@);
    }
    assert(histogram@ =~= tallies(samples@));
    histogram
}

fn global_tones(image: &RgbRaster, channel: usize) -> (r: (u8, u8))
    requires
        image.wf(),
        channel < 3,
    ensures
        are_global_tones(
            central_samples(
                image.pixels@,
                image.width as int,
                image.height as int,
                channel as int,
            ),
            r.0 as int,
            r.1 as int,
        ),
{
    let samples: Vec<u8> = collect_area(
        image,
        channel,
        image.width / 5,
        image.width - image.width / 5,
        image.height / 5,
        image.height - image.height / 5,
    );
    let histogram: Vec<u64> = histogram_of_samples(&samples);
    let low: usize = percentile(&histogram, samples.len() as u64 / 200);
    (low as u8, bright_mode(&histogram))
}

fn edge_of(cell: u32, side: u32, cells: u32) -> (r: u32)
    requires
        cell <= cells,
        0 < cells <= 16,
    ensures
        r == cell_edge(cell as int, side as int, cells as int),
        r <= side,
        cell < cells ==> r <= 0xf000_0000,
{
    let ghost n = cell * side;
    proof {
        assert(cell * side <= cells * side) by (nonlinear_arith)
            requires
                cell <= cells,
                side >= 0,
        ;
        assert(cells * side <= 16 * 0xffff_ffff) by (nonlinear_arith)
            requires
                cells <= 16,
                side <= 0xffff_ffff,
        ;
        lemma_ceil(n, cells as int, side as int);
        lemma_ceil(n, cells as int, 0xf000_0000);
        if cell < cells {
            assert(n <= 0xf000_0000 * cells) by (nonlinear_arith)
                requires
                    n == cell * side,
                    cell < cells <= 16,
                    0 <= side <= 0xffff_ffff,
            ;
        }
        assert(side * cells == cells * side) by (nonlinear_arith);
        assert(0 <= n) by (nonlinear_arith)
            requires
                n == cell * side,
                cell >= 0,
                side >= 0,
        ;
    }
    let product: u64 = cell as u64 * side as u64;
    ((product + cells as u64 - 1) / cells as u64) as u32
}

fn fourth_from(n: u32) -> (r: u32)
    requires
        n < 0xffff_fff0,
    ensures
        r == next_fourth(n as int),
{
    4 * ((n + 3) / 4)
}

fn cell_tone(image: &RgbRaster, channel: usize, row: u32, col: u32) -> (r: u8)
    requires
        image.wf(),
        channel < 3,
        row < FLATTEN_ROWS,
        col < FLATTEN_COLS,
    ensures
        is_bright_mode(
            tallies(
                cell_samples(
                    image.pixels@,
                    image.width as int,
                    image.height as int,
                    channel as int,
                    row as int,
                    col as int,
                ),
            ),
            r as int,
        ),
{
    let samples: Vec<u8> = collect_area(
        image,
        channel,
        fourth_from(edge_of(col, image.width, FLATTEN_COLS)),
        edge_of(col + 1, image.width, FLATTEN_COLS),
        fourth_from(edge_of(row, image.height, FLATTEN_ROWS)),
        edge_of(row + 1, image.height, FLATTEN_ROWS),
    );
    let histogram: Vec<u64> = histogram_of_samples(&samples);
    bright_mode(&histogram)
}

fn cell_tones(image: &RgbRaster, channel: usize) -> (r: Vec<u8>)
    requires
        image.wf(),
        channel < 3,
    ensures
        are_cells(
            image.pixels@,
            image.width as int,
            image.height as int,
            channel as int,
            r@,
        ),
{
    let mut cells: Vec<u8> = Vec::new();
    let mut i: u32 = 0;
    while i < FLATTEN_COLS * FLATTEN_ROWS
        invariant
            image.wf(),
                channel < 3,
            i <= FLATTEN_COLS * FLATTEN_ROWS,
            cells.len() == i,
            forall|k: int|
                0 <= k < i ==> is_bright_mode(
                    tallies(
                        cell_samples(
                            image.pixels@,
                            image.width as int,
                            image.height as int,
                            channel as int,
                            k / FLATTEN_COLS as int,
                            k % FLATTEN_COLS as int,
                        ),
                    ),
                    #[trigger] cells[k] as int,
                ),
        decreases FLATTEN_COLS * FLATTEN_ROWS - i,
    {
        let tone: u8 = cell_tone(image, channel, i / FLATTEN_COLS, i % FLATTEN_COLS);
        cells.push(tone);
        i = i + 1;
    }
    cells
}

/// Measures the ink and the paper of a page. Nothing comes back for a page that is
/// too small, or whose paper and ink are too close in some channel: its tones are
/// left alone.
pub fn page_tones(image: &RgbRaster) -> (r: Option<PageTones>)
    requires
        image.wf(),
    ensures
        r is None <==> (image.width < 20 || image.height < 20 || is_flat(
            image.pixels@,
            image.width as int,
            image.height as int,
            0,
        ) || is_flat(image.pixels@, image.width as int, image.height as int, 1) || is_flat(
            image.pixels@,
            image.width as int,
            image.height as int,
            2,
        )),
        r matches Some(tones) ==> {
            &&& are_tones(image.pixels@, image.width as int, image.height as int, 0, tones.red)
            &&& are_tones(image.pixels@, image.width as int, image.height as int, 1, tones.green)
            &&& are_tones(image.pixels@, image.width as int, image.height as int, 2, tones.blue)
        },
{
    if image.width < 20 || image.height < 20 {
        return None;
    }
    let ghost w = image.width as int;
    let ghost h = image.height as int;
    proof {
        assert(w * h >= 20 * w && w * h >= 20 * h) by (nonlinear_arith)
            requires
                w >= 20,
                h >= 20,
        ;
    }
    let (low0, paper0): (u8, u8) = global_tones(image, 0);
    let (low1, paper1): (u8, u8) = global_tones(image, 1);
    let (low2, paper2): (u8, u8) = global_tones(image, 2);
    proof {
        lemma_flat_iff(image.pixels@, w, h, 0, low0 as int, paper0 as int);
        lemma_flat_iff(image.pixels@, w, h, 1, low1 as int, paper1 as int);
        lemma_flat_iff(image.pixels@, w, h, 2, low2 as int, paper2 as int);
    }
    if paper0 as u32 <= low0 as u32 + 60 || paper1 as u32 <= low1 as u32 + 60 || paper2 as u32
        <= low2 as u32 + 60 {
        return None;
    }
    Some(
        PageTones {
            red: ChannelTones { low: low0, paper: paper0, cells: cell_tones(image, 0) },
            green: ChannelTones { low: low1, paper: paper1, cells: cell_tones(image, 1) },
            blue: ChannelTones { low: low2, paper: paper2, cells: cell_tones(image, 2) },
        },
    )
}

proof fn lemma_flat_iff(pixels: Seq<u8>, width: int, height: int, channel: int, low: int, paper: int)
    requires
        are_global_tones(central_samples(pixels, width, height, channel), low, paper),
    ensures
        is_flat(pixels, width, height, channel) <==> paper <= low + 60,
{
    if is_flat(pixels, width, height, channel) {
        let samples = central_samples(pixels, width, height, channel);
        let (low2, paper2) = choose|low2: int, paper2: int| #[trigger]
            are_global_tones(samples, low2, paper2) && paper2 <= low2 + 60;
        lemma_global_tones_unique(samples, low, paper, low2, paper2);
    }
}

} // verus!
