//! Black-and-white pages: the CCITT Group 4 codec, through `fax`.
//!
//! A grey pixel below 128 is ink. What is read back is 0 for ink and 255 for paper.

use vstd::prelude::*;
use crate::raster::GrayRaster;
use crate::text::{decimal, decimal_text};

verus! {

/// The encoder of `fax`.
#[verifier::external_type_specification]
#[verifier::external_body]
#[verifier::reject_recursive_types(W)]
pub struct ExEncoder<W>(fax::encoder::Encoder<W>);

/// The bit writer of `fax`.
#[verifier::external_type_specification]
#[verifier::external_body]
pub struct ExVecWriter(fax::VecWriter);

/// The rows that an encoder was given, ink being true.
pub uninterp spec fn written_rows(encoder: fax::encoder::Encoder<fax::VecWriter>) -> Seq<Seq<bool>>;

/// The stream that `fax::encoder::Encoder::finish` leaves for rows.
pub uninterp spec fn g4_stream(rows: Seq<Seq<bool>>) -> Seq<u8>;

/// The colour changes of the lines that `fax::decoder::decode_g4` hands out where no height
/// is given, at most `limit` of them, and whether it came to the end marker.
pub uninterp spec fn g4_lines(bytes: Seq<u8>, width: u32, limit: u32) -> (Seq<Seq<u32>>, bool);

/// The widest row that can be encoded.
pub const MAX_G4_WIDTH: u32 = 32_767;

/// The widest line that can be decoded.
pub const MAX_G4_LINE: u32 = 0x7fff_fffc;

/// The colour of a pixel in a line given by its colour changes, from the `i`th change
/// on, where `start` pixels came before it: the runs follow one another, white first.
pub open spec fn run_color(line: Seq<u32>, i: int, start: int, x: int) -> bool
    decreases line.len() - i,
{
    if i >= line.len() {
        line.len() % 2 == 1
    } else {
        let before: int = if i == 0 {
            0
        } else {
            line[i - 1] as int
        };
        let end = if line[i] > before {
            start + line[i] - before
        } else {
            start
        };
        if x < end {
            i % 2 == 1
        } else {
            run_color(line, i + 1, end, x)
        }
    }
}

/// The pixels of a line given by its colour changes, ink being true.
pub open spec fn line_pixels(line: Seq<u32>, width: u32) -> Seq<bool> {
    Seq::new(width as nat, |x: int| run_color(line, 0, 0, x))
}

/// An encoder that was given no row (`fax::encoder::Encoder::new`).
#[verifier::external_body]
fn new_encoder() -> (r: fax::encoder::Encoder<fax::VecWriter>)
    ensures
        written_rows(r) == Seq::<Seq<bool>>::empty(),
{
    fax::encoder::Encoder::new(fax::VecWriter::new())
}

/// Encodes one more row (`fax::encoder::Encoder::encode_line`).
#[verifier::external_body]
fn encode_row(encoder: &mut fax::encoder::Encoder<fax::VecWriter>, row: &Vec<bool>)
    requires
        row.len() <= MAX_G4_WIDTH,
    ensures
        written_rows(*final(encoder)) == written_rows(*old(encoder)).push(row@),
{
    let color = |ink: &bool| match ink {
        true => fax::Color::Black,
        false => fax::Color::White,
    };
    let Ok(()) = encoder.encode_line(row.iter().map(color), row.len() as u32);
}

/// Whether reading a stream gives rows back.
pub open spec fn reads_back(bytes: Seq<u8>, width: u32, rows: Seq<Seq<bool>>) -> bool {
    let lines = g4_lines(bytes, width, rows.len() as u32).0;
    &&& lines.len() == rows.len()
    &&& forall|y: int| 0 <= y < rows.len() ==> line_pixels(#[trigger] lines[y], width) == rows[y]
}

pub open spec fn all_wide(rows: Seq<Seq<bool>>, width: u32) -> bool {
    forall|y: int| 0 <= y < rows.len() ==> (#[trigger] rows[y]).len() == width
}

/// Ends the stream (`fax::encoder::Encoder::finish`, `fax::VecWriter::finish`). The
/// stream depends on the rows alone and holds at least the end marker. Reading it, with
/// the width that all rows have, gives the rows back.
#[verifier::external_body]
fn finish(encoder: fax::encoder::Encoder<fax::VecWriter>) -> (r: Vec<u8>)
    ensures
        r@ == g4_stream(written_rows(encoder)),
        r@.len() > 0,
        forall|width: u32|
            1 <= width <= MAX_G4_WIDTH && written_rows(encoder).len() <= u32::MAX && #[trigger]
            all_wide(written_rows(encoder), width) ==> reads_back(
                r@,
                width,
                written_rows(encoder),
            ),
{
    let Ok(writer) = encoder.finish();
    writer.finish()
}

/// The lists that the decoder handed out.
pub open spec fn handed_out(lines: Seq<Vec<u32>>) -> Seq<Seq<u32>> {
    Seq::new(lines.len(), |y: int| lines[y]@)
}

/// Keeps a line that the decoder hands out, unless there are enough.
fn keep_line(lines: &mut Vec<Vec<u32>>, line: &[u32], limit: u32)
    ensures
        handed_out(final(lines)@) == if old(lines).len() < limit {
            handed_out(old(lines)@).push(line@)
        } else {
            handed_out(old(lines)@)
        },
{
    if lines.len() < limit as usize {
        let mut kept: Vec<u32> = Vec::new();
        let mut i: usize = 0;
        while i < line.len()
            invariant
                i <= line.len(),
                kept@ == line@.take(i as int),
            decreases line.len() - i,
        {
            kept.push(line[i]);
            i = i + 1;
        }
        assert(kept@ =~= line@);
        lines.push(kept);
        assert(handed_out(lines@) =~= handed_out(old(lines)@).push(line@));
    }
}

/// Decodes a stream (`fax::decoder::decode_g4`): the colour changes of its lines, at most
/// `limit` of them, and whether the end marker was reached. The decoder is given no height:
/// it would make up white lines to reach it.
#[verifier::external_body]
fn read_lines(bytes: &[u8], width: u32, limit: u32) -> (r: (Vec<Vec<u32>>, bool))
    requires
        width <= MAX_G4_LINE,
    ensures
        (handed_out(r.0@), r.1) == g4_lines(bytes@, width, limit),
        r.0.len() <= limit,
{
    let mut lines = Vec::new();
    let keep = |line: &[u32]| keep_line(&mut lines, line, limit);
    let status = fax::decoder::decode_g4(bytes.iter().copied(), width, None, keep);
    (lines, status.is_some())
}

/// The pixels of a line (`fax::decoder::pels`).
#[verifier::external_body]
fn pixels_of_line(line: &Vec<u32>, width: u32) -> (r: Vec<bool>)
    ensures
        r@ == line_pixels(line@, width),
{
    let ink = |color: fax::Color| match color {
        fax::Color::Black => true,
        fax::Color::White => false,
    };
    fax::decoder::pels(line, width).map(ink).collect()
}

/// The rows of a grey image, ink being true.
pub open spec fn ink_rows(pixels: Seq<u8>, width: u32, height: u32) -> Seq<Seq<bool>> {
    Seq::new(height as nat, |y: int| ink_row(pixels, width, y))
}

/// One row of a grey image, ink being true.
pub open spec fn ink_row(pixels: Seq<u8>, width: u32, y: int) -> Seq<bool> {
    Seq::new(width as nat, |x: int| pixels[y * width + x] < 128)
}

fn row_of(image: &GrayRaster, y: u32) -> (r: Vec<bool>)
    requires
        image.wf(),
        y < image.height,
    ensures
        r@ == ink_row(image.pixels@, image.width, y as int),
{
    let mut row: Vec<bool> = Vec::new();
    let mut x: u32 = 0;
    let ghost w = image.width as int;
    while x < image.width
        invariant
            image.wf(),
            y < image.height,
            w == image.width,
            x <= image.width,
            row.len() == x,
            forall|k: int| 0 <= k < x ==> #[trigger] row[k] == (image.pixels[y * w + k] < 128),
        decreases image.width - x,
    {
        proof {
            let h = image.height as int;
            assert(0 <= y * w && y * w + x < w * h) by (nonlinear_arith)
                requires
                    0 <= x < w,
                    0 <= y < h,
            ;
        }
        row.push(image.pixels[y as usize * image.width as usize + x as usize] < 128);
        x = x + 1;
    }
    assert(row@ =~= ink_row(image.pixels@, image.width, y as int));
    row
}

/// Encodes a grey image as a raw Group 4 stream, which gives the same ink back when
/// it is read. Any pixel darker than 128 is ink.
pub fn encode_g4(image: &GrayRaster) -> (r: Vec<u8>)
    requires
        image.wf(),
        image.width <= MAX_G4_WIDTH,
    ensures
        r@ == g4_stream(ink_rows(image.pixels@, image.width, image.height)),
        r@.len() > 0,
        image.width > 0 ==> reads_back(
            r@,
            image.width,
            ink_rows(image.pixels@, image.width, image.height),
        ),
{
    let ghost rows = ink_rows(image.pixels@, image.width, image.height);
    let mut encoder = new_encoder();
    let mut y: u32 = 0;
    assert(rows.take(0) =~= Seq::<Seq<bool>>::empty());
    while y < image.height
        invariant
            image.wf(),
            image.width <= MAX_G4_WIDTH,
            y <= image.height,
            rows == ink_rows(image.pixels@, image.width, image.height),
            written_rows(encoder) == rows.take(y as int),
        decreases image.height - y,
    {
        let row: Vec<bool> = row_of(image, y);
        encode_row(&mut encoder, &row);
        assert(rows.take(y + 1) =~= rows.take(y as int).push(row@));
        y = y + 1;
    }
    assert(rows.take(y as int) =~= rows);
    assert(all_wide(rows, image.width));
    finish(encoder)
}

/// What reading a stream of known size gives.
pub enum DecodedG4 {
    /// The pixels, 0 for ink and 255 for paper.
    Pixels(Seq<u8>),
    ZeroSize,
    Damaged,
    TooShort(nat),
}

/// The pixels of an image given by the colour changes of its lines.
pub open spec fn pixels_of_lines(lines: Seq<Seq<u32>>, width: u32, height: u32) -> Seq<u8> {
    Seq::new(
        width as nat * height as nat,
        |p: int|
            if run_color(lines[p / width as int], 0, 0, p % width as int) {
                0u8
            } else {
                255u8
            },
    )
}

/// What reading gives, once the decoder has handed out its lines.
pub open spec fn decoded_lines(
    lines: Seq<Seq<u32>>,
    ended: bool,
    width: u32,
    height: u32,
) -> DecodedG4 {
    if lines.len() >= height {
        DecodedG4::Pixels(pixels_of_lines(lines, width, height))
    } else if ended {
        DecodedG4::TooShort(lines.len())
    } else {
        DecodedG4::Damaged
    }
}

/// What reading a stream gives: a half page never passes as a page.
pub open spec fn decoded_g4(bytes: Seq<u8>, width: u32, height: u32) -> DecodedG4 {
    if width == 0 || height == 0 {
        DecodedG4::ZeroSize
    } else {
        let (lines, ended) = g4_lines(bytes, width, height);
        decoded_lines(lines, ended, width, height)
    }
}

/// The message for a stream that cannot be read.
pub open spec fn g4_message(decoded: DecodedG4, height: u32) -> Seq<char> {
    match decoded {
        DecodedG4::ZeroSize => "Strona ma zerowy rozmiar."@,
        DecodedG4::TooShort(lines) => "Nie można odczytać strony (G4: "@ + decimal(lines)
            + " z "@ + decimal(height as nat) + " wierszy)."@,
        _ => "Nie można odczytać strony (uszkodzone dane G4)."@,
    }
}

/// Whether a result is what reading gave, with the message where it failed.
pub open spec fn is_decoded(
    r: Result<GrayRaster, String>,
    decoded: DecodedG4,
    width: u32,
    height: u32,
) -> bool {
    match decoded {
        DecodedG4::Pixels(pixels) => {
            &&& r matches Ok(image)
            &&& image.width == width
            &&& image.height == height
            &&& image.pixels@ == pixels
        },
        _ => r is Err && r->Err_0@ == g4_message(decoded, height),
    }
}

/// Puts an image together from the lines that the decoder handed out.
pub fn image_of_lines(lines: Vec<Vec<u32>>, ended: bool, width: u32, height: u32) -> (r: Result<
    GrayRaster,
    String,
>)
    requires
        width > 0,
        height > 0,
        width * height <= usize::MAX,
    ensures
        is_decoded(r, decoded_lines(handed_out(lines@), ended, width, height), width, height),
        r matches Ok(image) ==> image.wf(),
{
    let ghost model = handed_out(lines@);
    if lines.len() < height as usize {
        if !ended {
            return Err("Nie można odczytać strony (uszkodzone dane G4).".to_owned());
        }
        let mut message: String = "Nie można odczytać strony (G4: ".to_owned();
        message.append(decimal_text(lines.len() as u64).as_str());
        message.append(" z ");
        message.append(decimal_text(height as u64).as_str());
        message.append(" wierszy).");
        return Err(message);
    }
    let ghost whole = pixels_of_lines(model, width, height);
    let ghost w = width as int;
    let ghost h = height as int;
    let mut pixels: Vec<u8> = Vec::new();
    let mut y: u32 = 0;
    while y < height
        invariant
            width > 0,
            y <= height,
            height <= lines.len(),
            w == width,
            h == height,
            w * h <= usize::MAX,
            pixels.len() == y * w,
            model == handed_out(lines@),
            whole == pixels_of_lines(model, width, height),
            forall|p: int| 0 <= p < y * w ==> #[trigger] pixels[p] == whole[p],
        decreases height - y,
    {
        let row: Vec<bool> = pixels_of_line(&lines[y as usize], width);
        let mut x: u32 = 0;
        proof {
            assert(y * w + w <= w * h) by (nonlinear_arith)
                requires
                    0 <= y < h,
                    w > 0,
            ;
            assert(0 <= y * w) by (nonlinear_arith)
                requires
                    0 <= y,
                    w > 0,
            ;
        }
        while x < width
            invariant
                width > 0,
                y < height,
                height <= lines.len(),
                w == width,
                h == height,
                x <= width,
                0 <= y * w,
                y * w + w <= w * h,
                row@ == line_pixels(lines@[y as int]@, width),
                pixels.len() == y * w + x,
                model == handed_out(lines@),
                whole == pixels_of_lines(model, width, height),
                forall|p: int| 0 <= p < y * w + x ==> #[trigger] pixels[p] == whole[p],
            decreases width - x,
        {
            proof {
                let p = y * w + x;
                vstd::arithmetic::div_mod::lemma_fundamental_div_mod_converse(
                    p,
                    w,
                    y as int,
                    x as int,
                );
                assert(whole[p] == if run_color(model[y as int], 0, 0, x as int) {
                    0u8
                } else {
                    255u8
                });
            }
            pixels.push(
                if row[x as usize] {
                    0
                } else {
                    255
                },
            );
            x = x + 1;
        }
        y = y + 1;
        assert((y - 1) * w + w == y * w) by (nonlinear_arith);
    }
    assert(h * w == w * h) by (nonlinear_arith);
    assert(pixels@ =~= whole);
    Ok(GrayRaster { width, height, pixels })
}

/// Decodes a raw Group 4 stream of known size. Fewer lines than `height`, or a damaged
/// stream, is an error: a half page must never pass as a page.
pub fn decode_g4(bytes: &[u8], width: u32, height: u32) -> (r: Result<GrayRaster, String>)
    requires
        width <= MAX_G4_LINE,
        width * height <= usize::MAX,
    ensures
        is_decoded(r, decoded_g4(bytes@, width, height), width, height),
        r matches Ok(image) ==> image.wf() && width > 0 && height > 0,
{
    if width == 0 || height == 0 {
        return Err("Strona ma zerowy rozmiar.".to_owned());
    }
    let (lines, ended): (Vec<Vec<u32>>, bool) = read_lines(bytes, width, height);
    image_of_lines(lines, ended, width, height)
}

/// A pixel as it is read back: ink or paper.
pub open spec fn bilevel_pixel(pixel: u8) -> u8 {
    if pixel < 128 {
        0
    } else {
        255
    }
}

/// Reading what was written gives each pixel back, dark ones as ink and the others as
/// paper. A page of ink and paper comes back pixel for pixel.
pub proof fn law_g4_round_trip(bytes: Seq<u8>, pixels: Seq<u8>, width: u32, height: u32)
    requires
        width > 0,
        height > 0,
        pixels.len() == width * height,
        reads_back(bytes, width, ink_rows(pixels, width, height)),
    ensures
        decoded_g4(bytes, width, height) == DecodedG4::Pixels(
            Seq::new(pixels.len(), |p: int| bilevel_pixel(pixels[p])),
        ),
        (forall|p: int| 0 <= p < pixels.len() ==> #[trigger] pixels[p] == 0 || pixels[p] == 255)
            ==> decoded_g4(bytes, width, height) == DecodedG4::Pixels(pixels),
{
    let rows = ink_rows(pixels, width, height);
    let lines = g4_lines(bytes, width, height).0;
    let read = pixels_of_lines(lines, width, height);
    let w = width as int;
    let expected = Seq::new(pixels.len(), |p: int| bilevel_pixel(pixels[p]));
    assert forall|p: int| 0 <= p < pixels.len() implies #[trigger] read[p] == expected[p] by {
        let y = p / w;
        let x = p % w;
        vstd::arithmetic::div_mod::lemma_fundamental_div_mod(p, w);
        assert(0 <= y < height) by (nonlinear_arith)
            requires
                y == p / w,
                0 <= p < w * height,
                w > 0,
        ;
        assert(y * w == w * y) by (nonlinear_arith);
        assert(line_pixels(lines[y], width) == rows[y]);
        assert(line_pixels(lines[y], width)[x] == rows[y][x]);
    }
    assert(read =~= expected);
    if forall|p: int| 0 <= p < pixels.len() ==> #[trigger] pixels[p] == 0 || pixels[p] == 255 {
        assert(expected =~= pixels);
    }
}

/// Ink and paper: the luma of a page cut at 128.
pub fn binarize(gray: &GrayRaster) -> (r: GrayRaster)
    requires
        gray.wf(),
    ensures
        r.wf(),
        r.width == gray.width,
        r.height == gray.height,
        r.pixels@ == Seq::new(gray.pixels@.len(), |p: int| bilevel_pixel(gray.pixels@[p])),
{
    let mut pixels: Vec<u8> = Vec::new();
    let mut i: usize = 0;
    while i < gray.pixels.len()
        invariant
            i <= gray.pixels.len(),
            pixels.len() == i,
            forall|p: int| 0 <= p < i ==> #[trigger] pixels[p] == bilevel_pixel(gray.pixels[p]),
        decreases gray.pixels.len() - i,
    {
        pixels.push(
            if gray.pixels[i] < 128 {
                0
            } else {
                255
            },
        );
        i = i + 1;
    }
    assert(pixels@ =~= Seq::new(gray.pixels@.len(), |p: int| bilevel_pixel(gray.pixels@[p])));
    GrayRaster { width: gray.width, height: gray.height, pixels }
}

} // verus!
