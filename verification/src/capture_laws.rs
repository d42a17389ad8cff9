//! When a picture is taken by itself, told by the frames and the times alone.

use vstd::prelude::*;
use crate::autocapture::{
    is_novel, moved, pixel_luma, sample_of, total_difference, AutoModel, CaptureState, FeedResult,
};

verus! {

/// The levels between two brightnesses.
pub open spec fn apart(a: u8, b: u8) -> nat {
    if a >= b {
        (a - b) as nat
    } else {
        (b - a) as nat
    }
}

/// Whether two frames are at most so many levels apart at every pixel.
pub open spec fn are_close(left: Seq<u8>, right: Seq<u8>, levels: nat) -> bool {
    left.len() == right.len() && forall|i: int|
        0 <= i < left.len() ==> apart(#[trigger] left[i], right[i]) <= levels
}

/// Whether two frames are at least so many levels apart at every pixel, brighter or darker.
pub open spec fn are_apart(left: Seq<u8>, right: Seq<u8>, levels: nat) -> bool {
    left.len() == right.len() && forall|i: int|
        0 <= i < left.len() ==> apart(#[trigger] left[i], right[i]) >= levels
}

proof fn lemma_bounds(left: Seq<u8>, right: Seq<u8>, low: nat, high: nat, n: nat)
    requires
        n <= left.len(),
        left.len() == right.len(),
        forall|i: int|
            0 <= i < n ==> low <= apart(#[trigger] left[i], right[i]) <= high,
    ensures
        low * n <= total_difference(left, right, n) <= high * n,
    decreases n,
{
    if n > 0 {
        lemma_bounds(left, right, low, high, (n - 1) as nat);
        assert(low <= apart(left[n - 1], right[n - 1]) <= high);
        assert(low * n == low * (n - 1) + low) by (nonlinear_arith);
        assert(high * n == high * (n - 1) + high) by (nonlinear_arith);
    } else {
        assert(low * n == 0) by (nonlinear_arith)
            requires
                n == 0,
        ;
        assert(high * n == 0) by (nonlinear_arith)
            requires
                n == 0,
        ;
    }
}

/// What two frames differ by is the same whichever comes first, is no less than what any
/// pixel differs by, and is nothing only where they agree.
pub proof fn law_difference_sees_every_pixel(left: Seq<u8>, right: Seq<u8>, n: nat)
    requires
        n <= left.len(),
        n <= right.len(),
    ensures
        total_difference(left, right, n) == total_difference(right, left, n),
        forall|i: int|
            0 <= i < n ==> total_difference(left, right, n) >= apart(#[trigger] left[i], right[i]),
        total_difference(left, right, n) == 0 <==> forall|i: int|
            0 <= i < n ==> #[trigger] left[i] == right[i],
    decreases n,
{
    if n > 0 {
        law_difference_sees_every_pixel(left, right, (n - 1) as nat);
        let last = apart(left[n - 1], right[n - 1]);
        assert(total_difference(left, right, n) == total_difference(left, right, (n - 1) as nat)
            + last);
    }
}

/// What one pixel more adds is what it differs by, brighter or darker.
pub proof fn law_difference_adds_up(left: Seq<u8>, right: Seq<u8>, a: u8, b: u8)
    requires
        left.len() == right.len(),
    ensures
        total_difference(left.push(a), right.push(b), left.len() + 1) == total_difference(
            left,
            right,
            left.len(),
        ) + apart(a, b),
{
    lemma_longer(left, right, a, b, left.len());
}

proof fn lemma_longer(left: Seq<u8>, right: Seq<u8>, a: u8, b: u8, n: nat)
    requires
        left.len() == right.len(),
        n <= left.len(),
    ensures
        total_difference(left.push(a), right.push(b), n) == total_difference(left, right, n),
    decreases n,
{
    if n > 0 {
        lemma_longer(left, right, a, b, (n - 1) as nat);
    }
}

/// Frames that are nowhere more than two levels apart show no motion, those that are three
/// apart everywhere do. A scene that is nowhere more than twelve levels from another is not
/// new, one that is thirteen away everywhere is.
pub proof fn law_motion_and_novelty_by_level(left: Seq<u8>, right: Seq<u8>)
    requires
        left.len() > 0,
    ensures
        are_close(left, right, 2) ==> !moved(left, right),
        are_apart(left, right, 3) ==> moved(left, right),
        are_close(left, right, 12) ==> !is_novel(left, right),
        are_apart(left, right, 13) ==> is_novel(left, right),
{
    let n = left.len();
    if are_close(left, right, 2) {
        lemma_bounds(left, right, 0, 2, n);
    }
    if are_apart(left, right, 3) {
        lemma_bounds(left, right, 3, 255, n);
    }
    if are_close(left, right, 12) {
        lemma_bounds(left, right, 0, 12, n);
    }
    if are_apart(left, right, 13) {
        lemma_bounds(left, right, 13, 255, n);
    }
}

/// A page that is laid on the mat and lies still for 700 milliseconds is photographed: the
/// mat is seen first, then a page that is more than twelve levels brighter or darker
/// everywhere, three times; the third time it has lain long enough.
pub proof fn law_still_new_page_is_taken(
    model: AutoModel,
    mat: Seq<u8>,
    page: Seq<u8>,
    t0: u64,
    t1: u64,
    t2: u64,
    t3: u64,
)
    requires
        model.enabled,
        model.state == CaptureState::Baseline,
        mat.len() > 0,
        are_apart(mat, page, 13),
        t3 - t2 >= 700_000_000,
    ensures
        ({
            let (first, r0) = model.step(mat, t0);
            let (second, r1) = first.step(page, t1);
            let (third, r2) = second.step(page, t2);
            let (last, r3) = third.step(page, t3);
            &&& r0 == FeedResult::Nothing
            &&& r1 == FeedResult::Nothing
            &&& r2 == FeedResult::Nothing
            &&& r3 == FeedResult::Trigger
            &&& last.captured == Some(page)
            &&& last.state == CaptureState::Cooldown
        }),
{
    law_motion_and_novelty_by_level(mat, page);
    assert(are_close(page, page, 2));
    law_motion_and_novelty_by_level(page, page);
}

/// No picture is taken of a page that has lain still for less than 700 milliseconds since it
/// was first seen, or since it last moved.
pub proof fn law_no_picture_before_the_page_rests(
    model: AutoModel,
    page: Seq<u8>,
    since: u64,
    now: u64,
)
    requires
        model.stable_since == Some(since),
        now - since < 700_000_000,
    ensures
        model.step(page, now).1 == FeedResult::Nothing,
{
}

/// A frame that moved starts the wait anew: nothing is taken of it, and nothing sooner than
/// 700 milliseconds after it.
pub proof fn law_motion_starts_the_wait_anew(
    model: AutoModel,
    before: Seq<u8>,
    frame: Seq<u8>,
    next: Seq<u8>,
    now: u64,
    later: u64,
)
    requires
        before.len() > 0,
        model.previous == Some(before),
        are_apart(before, frame, 3),
        later - now < 700_000_000,
    ensures
        model.step(frame, now).1 == FeedResult::Nothing,
        model.state == CaptureState::Settling ==> model.step(frame, now).0.step(next, later).1
            == FeedResult::Nothing,
{
    law_motion_and_novelty_by_level(before, frame);
}

/// A scene that is nowhere more than twelve levels from the picture taken last is never
/// taken again, moved or not, however long it lies.
pub proof fn law_the_same_page_is_not_taken_twice(
    model: AutoModel,
    taken: Seq<u8>,
    frame: Seq<u8>,
    now: u64,
)
    requires
        taken.len() > 0,
        model.captured == Some(taken),
        are_close(taken, frame, 12),
    ensures
        model.step(frame, now).1 == FeedResult::Nothing,
{
    law_motion_and_novelty_by_level(taken, frame);
}

/// Turned off, nothing is ever taken, and only the last frame is remembered.
pub proof fn law_turned_off_takes_nothing(model: AutoModel, frame: Seq<u8>, now: u64)
    requires
        !model.enabled,
    ensures
        model.step(frame, now).1 == FeedResult::Nothing,
        model.step(frame, now).0 == (AutoModel { previous: Some(frame), ..model }),
{
}

/// After a picture taken by hand the page in view counts as taken: while it stays as it was
/// nothing is taken of it.
pub proof fn law_a_page_taken_by_hand_is_not_taken_again(
    model: AutoModel,
    page: Seq<u8>,
    frame: Seq<u8>,
    now: u64,
)
    requires
        page.len() > 0,
        model.previous == Some(page),
        are_close(page, frame, 12),
    ensures
        model.manually_captured().step(frame, now).1 == FeedResult::Nothing,
        model.manually_captured().captured == Some(page),
        model.manually_captured().enabled == model.enabled,
{
    law_motion_and_novelty_by_level(page, frame);
}

/// The brightness of a grey pixel is its level; of any pixel it lies between its darkest and
/// its brightest colour, and green counts for more than red, red for more than blue.
pub proof fn law_brightness_lies_among_the_colours(pixels: Seq<u8>, p: int)
    requires
        0 <= p,
        3 * p + 2 < pixels.len(),
    ensures
        ({
            let (red, green, blue) = (pixels[3 * p], pixels[3 * p + 1], pixels[3 * p + 2]);
            let luma = sample_of(pixels)[p];
            &&& red == green && green == blue ==> luma == red
            &&& luma >= red || luma >= green || luma >= blue
            &&& luma <= red || luma <= green || luma <= blue
            &&& 256 * luma <= 54 * red + 183 * green + 19 * blue < 256 * luma + 256
        }),
{
    let sum = pixels[3 * p] * 54 + pixels[3 * p + 1] * 183 + pixels[3 * p + 2] * 19;
    assert(0 <= sum / 256 <= 255);
    assert(sample_of(pixels)[p] == pixel_luma(pixels, p));
}

} // verus!
