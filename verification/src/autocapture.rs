//! Taking a picture by itself once a new page lies still under the camera.

use vstd::prelude::*;
use crate::document::{copy_bytes, optional_bytes};
use crate::raster::{can_be_shrunk, thumbnail, thumbnail_pixels, RgbRaster};

verus! {

/// Two frames that differ by no more than 2.5 levels per pixel, on average, show no
/// motion; the limit in halves.
pub const MOTION_MAX_HALVES: u64 = 5;

/// A frame that differs by more than 12 levels per pixel, on average, shows a new scene.
pub const NOVELTY_MIN: u64 = 12;

/// How long a page must lie still, in milliseconds.
pub const STABLE_MS: u64 = 700;

const SAMPLE_WIDTH: u32 = 160;

const SAMPLE_HEIGHT: u32 = 120;

/// The number of pixels that are compared.
pub const SAMPLE_LEN: usize = 19_200;

/// What is being waited for.
#[derive(Debug, Clone, Copy, PartialEq, Eq, Structural)]
pub enum CaptureState {
    /// For a first frame, which shows the empty mat.
    Baseline,
    /// For a scene unlike the last picture.
    Armed,
    /// For the new page to lie still.
    Settling,
    /// For the page just taken to go.
    Cooldown,
}

#[derive(Debug, Clone, Copy, PartialEq, Eq, Structural)]
pub enum FeedResult {
    Nothing,
    Trigger,
}

/// Decides when to take a picture.
#[derive(Debug)]
pub struct AutoCapture {
    enabled: bool,
    state: CaptureState,
    previous: Option<Vec<u8>>,
    captured: Option<Vec<u8>>,
    stable_since: Option<u64>,
}

/// What is known: the last frame, the frame that was taken, and since when, in
/// nanoseconds, nothing has moved.
#[verifier::ext_equal]
pub struct AutoModel {
    pub enabled: bool,
    pub state: CaptureState,
    pub previous: Option<Seq<u8>>,
    pub captured: Option<Seq<u8>>,
    pub stable_since: Option<u64>,
}

impl View for AutoCapture {
    type V = AutoModel;

    closed spec fn view(&self) -> AutoModel {
        AutoModel {
            enabled: self.enabled,
            state: self.state,
            previous: optional_bytes(self.previous),
            captured: optional_bytes(self.captured),
            stable_since: self.stable_since,
        }
    }
}

/// The levels by which two frames differ, summed over their first `n` pixels.
pub open spec fn total_difference(left: Seq<u8>, right: Seq<u8>, n: nat) -> nat
    decreases n,
{
    if n == 0 {
        0
    } else {
        let a = left[n - 1];
        let b = right[n - 1];
        total_difference(left, right, (n - 1) as nat) + if a > b {
            (a - b) as nat
        } else {
            (b - a) as nat
        }
    }
}

/// Whether something moved between two frames.
pub open spec fn moved(left: Seq<u8>, right: Seq<u8>) -> bool {
    2 * total_difference(left, right, left.len()) > MOTION_MAX_HALVES * left.len()
}

/// Whether a frame shows another scene.
pub open spec fn is_novel(left: Seq<u8>, right: Seq<u8>) -> bool {
    total_difference(left, right, left.len()) > NOVELTY_MIN * left.len()
}

impl AutoModel {
    /// Whether this frame moved against the last one; `otherwise` where there is none.
    pub open spec fn motion(self, sample: Seq<u8>, otherwise: bool) -> bool {
        match self.previous {
            Some(previous) => moved(previous, sample),
            None => otherwise,
        }
    }

    /// Whether this frame differs from the one taken; `otherwise` where there is none.
    pub open spec fn novelty(self, sample: Seq<u8>, otherwise: bool) -> bool {
        match self.captured {
            Some(captured) => is_novel(captured, sample),
            None => otherwise,
        }
    }

    /// The frames are of one size.
    pub open spec fn wf(self) -> bool {
        &&& self.previous matches Some(previous) ==> previous.len() == SAMPLE_LEN
        &&& self.captured matches Some(captured) ==> captured.len() == SAMPLE_LEN
    }

    /// A picture was taken by hand: it counts as one taken of the last frame.
    pub open spec fn manually_captured(self) -> AutoModel {
        AutoModel {
            captured: if self.previous is Some {
                self.previous
            } else {
                self.captured
            },
            state: CaptureState::Cooldown,
            stable_since: None,
            ..self
        }
    }

    /// What a frame does.
    pub open spec fn step(self, sample: Seq<u8>, now: u64) -> (AutoModel, FeedResult) {
        let seen = AutoModel { previous: Some(sample), ..self };
        if !self.enabled {
            (seen, FeedResult::Nothing)
        } else {
            match self.state {
                CaptureState::Baseline => (
                    AutoModel { captured: Some(sample), state: CaptureState::Cooldown, ..seen },
                    FeedResult::Nothing,
                ),
                CaptureState::Armed => if self.novelty(sample, true) {
                    (
                        AutoModel { state: CaptureState::Settling, stable_since: Some(now), ..seen },
                        FeedResult::Nothing,
                    )
                } else {
                    (seen, FeedResult::Nothing)
                },
                CaptureState::Settling => if !self.novelty(sample, true) {
                    (
                        AutoModel { state: CaptureState::Armed, stable_since: None, ..seen },
                        FeedResult::Nothing,
                    )
                } else if self.motion(sample, true) {
                    (AutoModel { stable_since: Some(now), ..seen }, FeedResult::Nothing)
                } else {
                    let since = match self.stable_since {
                        Some(since) => since,
                        None => now,
                    };
                    if now - since >= STABLE_MS * 1_000_000 {
                        (
                            AutoModel {
                                captured: Some(sample),
                                state: CaptureState::Cooldown,
                                stable_since: None,
                                ..seen
                            },
                            FeedResult::Trigger,
                        )
                    } else {
                        (AutoModel { stable_since: Some(since), ..seen }, FeedResult::Nothing)
                    }
                },
                CaptureState::Cooldown => if self.motion(sample, false) || self.novelty(
                    sample,
                    false,
                ) {
                    (AutoModel { state: CaptureState::Armed, ..seen }, FeedResult::Nothing)
                } else {
                    (seen, FeedResult::Nothing)
                },
            }
        }
    }
}

proof fn lemma_same_frame(sample: Seq<u8>, n: nat)
    ensures
        total_difference(sample, sample, n) == 0,
    decreases n,
{
    if n > 0 {
        lemma_same_frame(sample, (n - 1) as nat);
    }
}

/// While nothing changes after a picture, or after the first frame, none is taken, for
/// however long: the state stays as it is.
pub proof fn law_still_scene_never_triggers(model: AutoModel, sample: Seq<u8>, now: u64)
    requires
        model.state == CaptureState::Cooldown,
        model.previous == Some(sample),
        model.captured == Some(sample),
    ensures
        model.step(sample, now) == (model, FeedResult::Nothing),
{
    lemma_same_frame(sample, sample.len());
    assert(model.step(sample, now).0 =~= model);
}

/// A picture is taken only while enabled, only of a scene unlike the last picture, only
/// where this frame shows no motion, and only once nothing moved for long enough. The
/// scene is then remembered.
pub proof fn law_trigger_means_settled(model: AutoModel, sample: Seq<u8>, now: u64)
    requires
        model.step(sample, now).1 == FeedResult::Trigger,
    ensures
        model.enabled,
        model.state == CaptureState::Settling,
        model.novelty(sample, true),
        !model.motion(sample, true),
        model.stable_since matches Some(since) && now - since >= STABLE_MS * 1_000_000,
        model.step(sample, now).0.state == CaptureState::Cooldown,
        model.step(sample, now).0.captured == Some(sample),
{
}

/// Two pictures are never taken of frames next to each other, nor with a single frame
/// between them: the page has to leave and a new one has to settle first.
pub proof fn law_triggers_are_apart(
    model: AutoModel,
    first: Seq<u8>,
    second: Seq<u8>,
    third: Seq<u8>,
    t1: u64,
    t2: u64,
    t3: u64,
)
    requires
        model.step(first, t1).1 == FeedResult::Trigger,
    ensures
        model.step(first, t1).0.step(second, t2).1 == FeedResult::Nothing,
        model.step(first, t1).0.step(second, t2).0.step(third, t3).1 == FeedResult::Nothing,
{
}

/// Frames keep the frames that are remembered of one size.
pub proof fn law_step_keeps_sizes(model: AutoModel, sample: Seq<u8>, now: u64)
    requires
        model.wf(),
        sample.len() == SAMPLE_LEN,
    ensures
        model.step(sample, now).0.wf(),
{
}

/// The brightness of a pixel.
pub open spec fn pixel_luma(pixels: Seq<u8>, p: int) -> u8 {
    ((pixels[3 * p] * 54 + pixels[3 * p + 1] * 183 + pixels[3 * p + 2] * 19) / 256) as u8
}

/// The brightness of every pixel.
pub open spec fn sample_of(pixels: Seq<u8>) -> Seq<u8> {
    Seq::new(pixels.len() / 3, |p: int| pixel_luma(pixels, p))
}

fn brightness(image: &RgbRaster) -> (r: Vec<u8>)
    requires
        image.wf(),
    ensures
        r@ == sample_of(image.pixels@),
{
    let count: usize = image.pixels.len() / 3;
    let mut sample: Vec<u8> = Vec::new();
    let mut p: usize = 0;
    while p < count
        invariant
            p <= count,
            count == image.pixels.len() / 3,
            sample.len() == p,
            forall|k: int| 0 <= k < p ==> #[trigger] sample[k] == pixel_luma(image.pixels@, k),
        decreases count - p,
    {
        let red: u32 = image.pixels[3 * p] as u32;
        let green: u32 = image.pixels[3 * p + 1] as u32;
        let blue: u32 = image.pixels[3 * p + 2] as u32;
        sample.push(((red * 54 + green * 183 + blue * 19) / 256) as u8);
        p = p + 1;
    }
    assert(sample@ =~= sample_of(image.pixels@));
    sample
}

fn difference(left: &Vec<u8>, right: &Vec<u8>) -> (r: u64)
    requires
        left.len() == SAMPLE_LEN,
        right.len() == SAMPLE_LEN,
    ensures
        r == total_difference(left@, right@, left.len() as nat),
        r <= 255 * SAMPLE_LEN,
{
    let mut total: u64 = 0;
    let mut i: usize = 0;
    while i < left.len()
        invariant
            i <= left.len(),
            left.len() == SAMPLE_LEN,
            right.len() == SAMPLE_LEN,
            total == total_difference(left@, right@, i as nat),
            total <= 255 * i,
        decreases left.len() - i,
    {
        let a: u8 = left[i];
        let b: u8 = right[i];
        total = total + if a > b {
            (a - b) as u64
        } else {
            (b - a) as u64
        };
        i = i + 1;
    }
    total
}

fn motion_between(previous: &Option<Vec<u8>>, sample: &Vec<u8>, otherwise: bool) -> (r: bool)
    requires
        sample.len() == SAMPLE_LEN,
        previous matches Some(previous) ==> previous.len() == SAMPLE_LEN,
    ensures
        r == match optional_bytes(*previous) {
            Some(previous) => moved(previous, sample@),
            None => otherwise,
        },
{
    match previous {
        None => otherwise,
        Some(previous) => 2 * difference(previous, sample) > MOTION_MAX_HALVES
            * previous.len() as u64,
    }
}

fn novelty_against(captured: &Option<Vec<u8>>, sample: &Vec<u8>, otherwise: bool) -> (r: bool)
    requires
        sample.len() == SAMPLE_LEN,
        captured matches Some(captured) ==> captured.len() == SAMPLE_LEN,
    ensures
        r == match optional_bytes(*captured) {
            Some(captured) => is_novel(captured, sample@),
            None => otherwise,
        },
{
    match captured {
        None => otherwise,
        Some(captured) => difference(captured, sample) > NOVELTY_MIN * captured.len() as u64,
    }
}

/// What the operator is told.
pub open spec fn hint_text(enabled: bool, state: CaptureState) -> Seq<char> {
    if !enabled {
        "Auto wyłączone — Spacja robi zdjęcie"@
    } else {
        match state {
            CaptureState::Baseline => "Połóż stronę pod kamerą"@,
            CaptureState::Armed => "Połóż następną stronę"@,
            CaptureState::Settling => "Trzymaj nieruchomo…"@,
            CaptureState::Cooldown => "Zmień stronę"@,
        }
    }
}

impl AutoCapture {
    pub fn new() -> (r: AutoCapture)
        ensures
            r@ == (AutoModel {
                enabled: true,
                state: CaptureState::Baseline,
                previous: None,
                captured: None,
                stable_since: None,
            }),
            r@.wf(),
    {
        AutoCapture {
            enabled: true,
            state: CaptureState::Baseline,
            previous: None,
            captured: None,
            stable_since: None,
        }
    }

    pub fn enabled(&self) -> (r: bool)
        ensures
            r == self@.enabled,
    {
        self.enabled
    }

    pub fn state(&self) -> (r: CaptureState)
        ensures
            r == self@.state,
    {
        self.state
    }

    /// Turns it on or off. Turned on again, it starts over: the scene then in view does
    /// not count as new.
    pub fn set_enabled(&mut self, on: bool)
        requires
            old(self)@.wf(),
        ensures
            final(self)@ == if on && !old(self)@.enabled {
                AutoModel {
                    enabled: on,
                    state: CaptureState::Baseline,
                    captured: None,
                    stable_since: None,
                    ..old(self)@
                }
            } else {
                AutoModel { enabled: on, ..old(self)@ }
            },
            final(self)@.wf(),
    {
        if on && !self.enabled {
            self.state = CaptureState::Baseline;
            self.captured = None;
            self.stable_since = None;
        }
        self.enabled = on;
    }

    /// A picture taken by hand counts as one taken of the last frame.
    pub fn note_manual_capture(&mut self)
        requires
            old(self)@.wf(),
        ensures
            final(self)@ == old(self)@.manually_captured(),
            final(self)@.wf(),
    {
        if let Some(previous) = &self.previous {
            let copy: Vec<u8> = copy_bytes(previous);
            self.captured = Some(copy);
        }
        self.state = CaptureState::Cooldown;
        self.stable_since = None;
    }

    pub fn hint(&self) -> (r: &'static str)
        ensures
            r@ == hint_text(self@.enabled, self@.state),
    {
        if !self.enabled {
            return "Auto wyłączone — Spacja robi zdjęcie";
        }
        match self.state {
            CaptureState::Baseline => "Połóż stronę pod kamerą",
            CaptureState::Armed => "Połóż następną stronę",
            CaptureState::Settling => "Trzymaj nieruchomo…",
            CaptureState::Cooldown => "Zmień stronę",
        }
    }

    /// Takes in the brightness of a frame, seen at `now` nanoseconds.
    pub fn feed_sample(&mut self, sample: Vec<u8>, now: u64) -> (r: FeedResult)
        requires
            old(self)@.wf(),
            sample.len() == SAMPLE_LEN,
        ensures
            (final(self)@, r) == old(self)@.step(sample@, now),
            final(self)@.wf(),
    {
        let unseen: bool = match self.state {
            CaptureState::Cooldown => false,
            _ => true,
        };
        let motion: bool = motion_between(&self.previous, &sample, unseen);
        let novelty: bool = novelty_against(&self.captured, &sample, unseen);
        self.previous = Some(copy_bytes(&sample));
        if !self.enabled {
            return FeedResult::Nothing;
        }
        match self.state {
            CaptureState::Baseline => {
                self.captured = Some(sample);
                self.state = CaptureState::Cooldown;
                FeedResult::Nothing
            },
            CaptureState::Armed => {
                if novelty {
                    self.state = CaptureState::Settling;
                    self.stable_since = Some(now);
                }
                FeedResult::Nothing
            },
            CaptureState::Settling => {
                if !novelty {
                    self.state = CaptureState::Armed;
                    self.stable_since = None;
                    return FeedResult::Nothing;
                }
                if motion {
                    self.stable_since = Some(now);
                    return FeedResult::Nothing;
                }
                let since: u64 = match self.stable_since {
                    Some(since) => since,
                    None => now,
                };
                self.stable_since = Some(since);
                if now >= since && now - since >= STABLE_MS * 1_000_000 {
                    self.captured = Some(sample);
                    self.state = CaptureState::Cooldown;
                    self.stable_since = None;
                    FeedResult::Trigger
                } else {
                    FeedResult::Nothing
                }
            },
            CaptureState::Cooldown => {
                if motion || novelty {
                    self.state = CaptureState::Armed;
                }
                FeedResult::Nothing
            },
        }
    }

    /// Takes in a frame of the camera, seen at `now` nanoseconds.
    pub fn feed(&mut self, preview: &RgbRaster, now: u64) -> (r: FeedResult)
        requires
            old(self)@.wf(),
            preview.wf(),
            can_be_shrunk(preview.width, preview.height, 160, 120),
        ensures
            (final(self)@, r) == old(self)@.step(
                sample_of(
                    thumbnail_pixels(preview.pixels@, preview.width, preview.height, 160, 120),
                ),
                now,
            ),
            final(self)@.wf(),
    {
        let small: RgbRaster = thumbnail(preview, SAMPLE_WIDTH, SAMPLE_HEIGHT);
        let sample: Vec<u8> = brightness(&small);
        self.feed_sample(sample, now)
    }
}

} // verus!
