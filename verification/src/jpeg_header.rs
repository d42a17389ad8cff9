//! What the header of a JPEG tells of the picture, before it is decoded.

use vstd::prelude::*;

verus! {

/// The furthest that a brightness may stray while a picture is summed up in 32 bits, with
/// room for rounding and for the middle grey.
pub const FURTHEST: u64 = 0x7fff_ffff - 1_028;

/// The largest step from one block to the next that an eight-bit picture can take.
pub const LARGEST_STEP: u64 = 2_047;

/// The longest JPEG that is read.
pub const LONGEST_JPEG: u64 = 0x7fff_ffff;

/// What the markers of a JPEG tell.
#[derive(Debug, Clone, Copy, PartialEq, Eq, Structural)]
pub struct Survey {
    /// Whether every marker was understood and describes a usual picture.
    pub plain: bool,
    /// The coarsest scale of a block's brightness.
    pub scale: u64,
    /// The most blocks that a colour of a sequential picture can have.
    pub blocks: u64,
    /// How many times the picture is gone through.
    pub scans: u64,
}

pub open spec fn nothing_seen() -> Survey {
    Survey { plain: true, scale: 0, blocks: 0, scans: 0 }
}

pub open spec fn torn(before: Survey) -> Survey {
    Survey { plain: false, ..before }
}

pub open spec fn word_at(bytes: Seq<u8>, i: int) -> int {
    256 * bytes[i] + bytes[i + 1]
}

fn read_word(bytes: &[u8], i: usize) -> (r: usize)
    requires
        i + 2 <= bytes.len(),
    ensures
        r == word_at(bytes@, i as int),
        r <= 0xffff,
{
    256 * (bytes[i] as usize) + bytes[i + 1] as usize
}

/// Where the segment of a marker ends.
pub open spec fn segment_end(bytes: Seq<u8>, i: int) -> int {
    i + 2 + word_at(bytes, i + 2)
}

/// Whether the segment of a marker is there as a whole.
pub open spec fn has_segment(bytes: Seq<u8>, i: int) -> bool {
    i + 4 <= bytes.len() && segment_end(bytes, i) <= bytes.len()
}

/// The coarsest scale in the quantization tables between two places; nothing where they
/// are not understood.
pub open spec fn coarsest(bytes: Seq<u8>, p: int, end: int) -> Option<int>
    decreases end - p,
{
    if p >= end {
        Some(0)
    } else {
        let size = if bytes[p] < 16 {
            65int
        } else {
            129int
        };
        if bytes[p] >= 32 || p + size > end {
            None
        } else {
            let scale = if bytes[p] < 16 {
                bytes[p + 1] as int
            } else {
                word_at(bytes, p + 1)
            };
            match coarsest(bytes, p + size, end) {
                Some(other) => Some(
                    if other > scale {
                        other
                    } else {
                        scale
                    },
                ),
                None => None,
            }
        }
    }
}

fn find_coarsest(bytes: &[u8], start: usize, end: usize) -> (r: Option<u64>)
    requires
        end <= bytes.len() <= LONGEST_JPEG,
        start <= bytes.len(),
    ensures
        match r {
            Some(scale) => coarsest(bytes@, start as int, end as int) == Some(scale as int)
                && scale <= 0xffff,
            None => coarsest(bytes@, start as int, end as int) is None,
        },
    decreases end - start,
{
    if start >= end {
        return Some(0);
    }
    let wide: bool = bytes[start] >= 16;
    let size: usize = if wide {
        129
    } else {
        65
    };
    if bytes[start] >= 32 || end - start < size {
        return None;
    }
    let scale: u64 = if wide {
        read_word(bytes, start + 1) as u64
    } else {
        bytes[start + 1] as u64
    };
    match find_coarsest(bytes, start + size, end) {
        Some(other) => Some(
            if other > scale {
                other
            } else {
                scale
            },
        ),
        None => None,
    }
}

/// How many of the symbols counted by the bytes between two places there are.
pub open spec fn counted(bytes: Seq<u8>, p: int, end: int) -> int
    decreases end - p,
{
    if p >= end {
        0
    } else {
        counted(bytes, p, end - 1) + bytes[end - 1]
    }
}

/// Whether the Huffman tables between two places are whole, and those for the brightness
/// of blocks take no step that is too large.
pub open spec fn has_plain_codes(bytes: Seq<u8>, p: int, end: int) -> bool
    decreases end - p,
{
    if end - p <= 16 {
        true
    } else {
        let next = p + 17 + counted(bytes, p + 1, p + 17);
        &&& p + 17 <= next <= end
        &&& bytes[p] < 16 ==> forall|k: int| p + 17 <= k < next ==> #[trigger] bytes[k] <= 11
        &&& has_plain_codes(bytes, next, end)
    }
}

fn check_codes(bytes: &[u8], start: usize, end: usize) -> (r: bool)
    requires
        start <= end + 2,
        end <= bytes.len() <= LONGEST_JPEG,
    ensures
        r == has_plain_codes(bytes@, start as int, end as int),
    decreases end - start,
{
    if start >= end || end - start <= 16 {
        return true;
    }
    let mut total: usize = 0;
    let mut i: usize = start + 1;
    while i < start + 17
        invariant
            start + 1 <= i <= start + 17,
            start + 17 <= end <= bytes.len() <= LONGEST_JPEG,
            total == counted(bytes@, start + 1, i as int),
            total <= 255 * (i - start),
        decreases start + 17 - i,
    {
        total = total + bytes[i] as usize;
        i = i + 1;
    }
    let next: usize = start + 17 + total;
    if next > end {
        return false;
    }
    if bytes[start] < 16 {
        let mut k: usize = start + 17;
        while k < next
            invariant
                start + 17 <= k <= next,
                next <= end <= bytes.len(),
                bytes[start as int] < 16,
                next == start + 17 + counted(bytes@, start + 1, start + 17),
                forall|j: int| start + 17 <= j < k ==> #[trigger] bytes[j] <= 11,
            decreases next - k,
        {
            if bytes[k] > 11 {
                assert(!(bytes@[k as int] <= 11));
                return false;
            }
            k = k + 1;
        }
    }
    check_codes(bytes, next, end)
}

/// Whether a frame describes a usual picture: grey or of three colours, of which only the
/// first may be finer than the others, and then twice as fine at most.
pub open spec fn is_plain_frame(bytes: Seq<u8>, i: int) -> bool {
    &&& i + 13 <= bytes.len()
    &&& bytes[i + 11] == 0x11 || bytes[i + 11] == 0x12 || bytes[i + 11] == 0x21 || bytes[i + 11]
        == 0x22
    &&& bytes[i + 9] == 3 || (bytes[i + 9] == 1 && bytes[i + 1] != 0xC2)
    &&& bytes[i + 9] == 3 ==> i + 19 <= bytes.len() && bytes[i + 14] == 0x11 && bytes[i + 17]
        == 0x11
}

/// The most blocks that a colour of a frame can have; progressive frames are not summed up
/// block by block.
pub open spec fn frame_blocks(bytes: Seq<u8>, i: int) -> int {
    if bytes[i + 1] == 0xC2 {
        0
    } else {
        ((word_at(bytes, i + 7) + 15) / 8) * ((word_at(bytes, i + 5) + 15) / 8)
    }
}

/// What is known after one more place was looked at.
pub open spec fn noted(bytes: Seq<u8>, i: int, before: Survey) -> Survey {
    if bytes[i] != 0xFF {
        before
    } else if bytes[i + 1] == 0xDA {
        Survey { scans: (before.scans + 1) as u64, ..before }
    } else if bytes[i + 1] == 0xDB {
        if !has_segment(bytes, i) {
            torn(before)
        } else {
            match coarsest(bytes, i + 4, segment_end(bytes, i)) {
                Some(scale) => if scale > before.scale {
                    Survey { scale: scale as u64, ..before }
                } else {
                    before
                },
                None => torn(before),
            }
        }
    } else if bytes[i + 1] == 0xC4 {
        if has_segment(bytes, i) && has_plain_codes(bytes, i + 4, segment_end(bytes, i)) {
            before
        } else {
            torn(before)
        }
    } else if 0xC0 <= bytes[i + 1] <= 0xC2 {
        if !is_plain_frame(bytes, i) {
            torn(before)
        } else if frame_blocks(bytes, i) > before.blocks {
            Survey { blocks: frame_blocks(bytes, i) as u64, ..before }
        } else {
            before
        }
    } else {
        before
    }
}

fn note_frame(bytes: &[u8], i: usize, before: Survey) -> (r: Survey)
    requires
        i + 2 <= bytes.len() <= LONGEST_JPEG,
        bytes[i as int] == 0xFF,
        0xC0 <= bytes[i + 1] <= 0xC2,
        before.blocks <= 0x400_4001,
    ensures
        r == noted(bytes@, i as int, before),
        r.blocks <= 0x400_4001,
{
    let n: usize = bytes.len();
    let unusual: Survey = Survey { plain: false, ..before };
    if n < i + 13 {
        return unusual;
    }
    let first: u8 = bytes[i + 11];
    let colors: u8 = bytes[i + 9];
    let progressive: bool = bytes[i + 1] == 0xC2;
    if first != 0x11 && first != 0x12 && first != 0x21 && first != 0x22 {
        return unusual;
    }
    if colors != 3 && (colors != 1 || progressive) {
        return unusual;
    }
    if colors == 3 && (n < i + 19 || bytes[i + 14] != 0x11 || bytes[i + 17] != 0x11) {
        return unusual;
    }
    if progressive {
        return before;
    }
    let across: u64 = (read_word(bytes, i + 7) as u64 + 15) / 8;
    let down: u64 = (read_word(bytes, i + 5) as u64 + 15) / 8;
    assert(across * down <= 8_193 * 8_193) by (nonlinear_arith)
        requires
            0 <= across <= 8_193,
            0 <= down <= 8_193,
    ;
    let blocks: u64 = across * down;
    assert(blocks == frame_blocks(bytes@, i as int));
    if blocks > before.blocks {
        Survey { blocks, ..before }
    } else {
        before
    }
}

fn note(bytes: &[u8], i: usize, before: Survey) -> (r: Survey)
    requires
        i + 2 <= bytes.len() <= LONGEST_JPEG,
        before.scale <= 0xffff,
        before.blocks <= 0x400_4001,
        before.scans <= i,
    ensures
        r == noted(bytes@, i as int, before),
        r.scale <= 0xffff,
        r.blocks <= 0x400_4001,
        r.scans <= i + 1,
{
    if bytes[i] != 0xFF {
        return before;
    }
    let code: u8 = bytes[i + 1];
    if code == 0xDA {
        return Survey { scans: before.scans + 1, ..before };
    }
    if 0xC0 <= code && code <= 0xC2 {
        return note_frame(bytes, i, before);
    }
    if code != 0xDB && code != 0xC4 {
        return before;
    }
    let unusual: Survey = Survey { plain: false, ..before };
    if bytes.len() < i + 4 {
        return unusual;
    }
    let end: usize = i + 2 + read_word(bytes, i + 2);
    if end > bytes.len() {
        return unusual;
    }
    if code == 0xDB {
        match find_coarsest(bytes, i + 4, end) {
            Some(scale) => if scale > before.scale {
                Survey { scale, ..before }
            } else {
                before
            },
            None => unusual,
        }
    } else if check_codes(bytes, i + 4, end) {
        before
    } else {
        unusual
    }
}

/// What is known after every place from one on was looked at.
pub open spec fn trailed(bytes: Seq<u8>, i: int, before: Survey) -> Survey
    decreases bytes.len() - i,
{
    if i + 2 > bytes.len() {
        before
    } else {
        trailed(bytes, i + 1, noted(bytes, i, before))
    }
}

/// What is known after the segments from a place on were gone through, and every place of
/// the picture that follows them was looked at.
pub open spec fn chained(bytes: Seq<u8>, i: int, before: Survey) -> Survey
    decreases bytes.len() - i,
{
    if !(i + 4 <= bytes.len() && bytes[i] == 0xFF && bytes[i + 1] != 0) {
        torn(before)
    } else if bytes[i + 1] == 0xDA {
        trailed(bytes, i, before)
    } else if bytes[i + 1] == 0xFF {
        chained(bytes, i + 1, before)
    } else if word_at(bytes, i + 2) < 2 || segment_end(bytes, i) > bytes.len() {
        torn(before)
    } else {
        chained(bytes, segment_end(bytes, i), noted(bytes, i, before))
    }
}

fn survey(bytes: &[u8]) -> (r: Survey)
    requires
        2 <= bytes.len() <= LONGEST_JPEG,
    ensures
        r == chained(bytes@, 2, nothing_seen()),
        r.scale <= 0xffff,
        r.blocks <= 0x400_4001,
        r.scans <= bytes.len(),
{
    let n: usize = bytes.len();
    let mut seen: Survey = Survey { plain: true, scale: 0, blocks: 0, scans: 0 };
    let mut i: usize = 2;
    loop
        invariant_except_break
            chained(bytes@, i as int, seen) == chained(bytes@, 2, nothing_seen()),
        invariant
            2 <= i <= n,
            n == bytes.len(),
            n <= LONGEST_JPEG,
            seen.scale <= 0xffff,
            seen.blocks <= 0x400_4001,
            seen.scans <= i,
        ensures
            trailed(bytes@, i as int, seen) == chained(bytes@, 2, nothing_seen()),
        decreases n - i,
    {
        if n - i < 4 || bytes[i] != 0xFF || bytes[i + 1] == 0 {
            return Survey { plain: false, ..seen };
        }
        if bytes[i + 1] == 0xDA {
            break;
        }
        if bytes[i + 1] == 0xFF {
            i = i + 1;
        } else {
            let length: usize = read_word(bytes, i + 2);
            if length < 2 || n - i - 2 < length {
                return Survey { plain: false, ..seen };
            }
            seen = note(bytes, i, seen);
            i = i + 2 + length;
        }
    }
    while i + 2 <= n
        invariant
            2 <= i <= n,
            n == bytes.len(),
            n <= LONGEST_JPEG,
            trailed(bytes@, i as int, seen) == chained(bytes@, 2, nothing_seen()),
            seen.scale <= 0xffff,
            seen.blocks <= 0x400_4001,
            seen.scans <= i,
        decreases n - i,
    {
        seen = note(bytes, i, seen);
        i = i + 1;
    }
    seen
}

pub open spec fn starts_as_jpeg(bytes: Seq<u8>) -> bool {
    bytes.len() >= 3 && bytes[0] == 0xFF && bytes[1] == 0xD8 && bytes[2] == 0xFF
}

/// Whether bytes are no JPEG, or one that can be decoded without going astray: its header
/// describes a usual picture, and however its blocks follow on one another, none gets
/// further than 32 bits reach.
pub open spec fn stays_in_reach(bytes: Seq<u8>) -> bool {
    starts_as_jpeg(bytes) ==> {
        let seen = chained(bytes, 2, nothing_seen());
        &&& bytes.len() <= LONGEST_JPEG
        &&& seen.plain
        &&& LARGEST_STEP * (seen.scale * seen.blocks * seen.scans) <= FURTHEST
    }
}

/// Tells whether bytes can be decoded without going astray.
pub fn check_reach(bytes: &[u8]) -> (r: bool)
    ensures
        r == stays_in_reach(bytes@),
{
    let jpeg: bool = bytes.len() >= 3 && bytes[0] == 0xFF && bytes[1] == 0xD8 && bytes[2] == 0xFF;
    if !jpeg {
        return true;
    }
    if bytes.len() as u64 > LONGEST_JPEG {
        return false;
    }
    let seen: Survey = survey(bytes);
    if !seen.plain {
        return false;
    }
    let (scale, blocks, scans): (u64, u64, u64) = (seen.scale, seen.blocks, seen.scans);
    assert(scale * blocks <= 0xffff * 0x400_4001) by (nonlinear_arith)
        requires
            scale <= 0xffff,
            blocks <= 0x400_4001,
    ;
    let weight: u64 = scale * blocks;
    if scans == 0 || weight == 0 {
        assert(scale * blocks * scans == 0) by (nonlinear_arith)
            requires
                scans == 0 || scale * blocks == 0,
        ;
        return true;
    }
    assert(weight * scans >= weight && weight * scans <= weight * 0x7fff_ffff) by (nonlinear_arith)
        requires
            1 <= scans <= 0x7fff_ffff,
            weight >= 1,
    ;
    if weight > FURTHEST {
        return false;
    }
    let reach: u64 = weight * scans;
    reach <= FURTHEST / LARGEST_STEP
}

} // verus!
