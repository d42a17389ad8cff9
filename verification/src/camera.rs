//! Which camera is used, in which of its modes, and what is said where that fails.

use vstd::prelude::*;
use crate::messages::joined;
use crate::order::{sort_stably, sorts_before, Order, Ranking};
use crate::paths::texts;
use crate::raster::{byte_at, RgbRaster};
use crate::text::{chars_of, contains_text, has_text, lowercase_text, text_lowercase};

verus! {

/// A mode in which a camera can send pictures.
#[derive(Debug, Clone, Copy, PartialEq, Eq, Structural)]
pub struct CameraMode {
    pub width: u32,
    pub height: u32,
    /// Whether the pictures come as a series of JPEG files.
    pub mjpeg: bool,
    pub frame_rate: u32,
}

impl CameraMode {
    /// How many pixels a picture has.
    pub open spec fn pixels(self) -> nat {
        self.width as nat * self.height as nat
    }

    /// Whether the mode is good enough for documents.
    pub open spec fn is_usable(self) -> bool {
        self.mjpeg && self.width >= 1280 && self.height >= 720 && self.frame_rate <= 30
    }

    pub open spec fn same_size(self, other: CameraMode) -> bool {
        self.width == other.width && self.height == other.height
    }

    fn count_pixels(&self) -> (r: u64)
        ensures
            r == self.pixels(),
    {
        assert(self.width as nat * self.height as nat <= 0xffff_fffe_0000_0001nat)
            by (nonlinear_arith)
            requires
                self.width <= 0xffff_ffffu32,
                self.height <= 0xffff_ffffu32,
        ;
        self.width as u64 * self.height as u64
    }

    fn usable(&self) -> (r: bool)
        ensures
            r == self.is_usable(),
    {
        self.mjpeg && self.width >= 1280 && self.height >= 720 && self.frame_rate <= 30
    }
}

/// How two modes are ranked: more pixels come first, then more pictures per second.
pub open spec fn mode_order(left: CameraMode, right: CameraMode) -> Order {
    if left.pixels() > right.pixels() {
        Order::Less
    } else if left.pixels() < right.pixels() {
        Order::Greater
    } else if left.frame_rate > right.frame_rate {
        Order::Less
    } else if left.frame_rate < right.frame_rate {
        Order::Greater
    } else {
        Order::Equal
    }
}

/// Ranks the modes of a camera.
pub struct ModeRanking {}

impl Ranking<CameraMode> for ModeRanking {
    open spec fn order(&self, a: &CameraMode, b: &CameraMode) -> Order {
        mode_order(*a, *b)
    }

    proof fn order_mirror(&self, a: &CameraMode, b: &CameraMode) {
    }

    proof fn order_transitive(&self, a: &CameraMode, b: &CameraMode, c: &CameraMode) {
    }

    fn compare(&self, a: &CameraMode, b: &CameraMode) -> (r: Order) {
        let left: u64 = a.count_pixels();
        let right: u64 = b.count_pixels();
        if left > right {
            Order::Less
        } else if left < right {
            Order::Greater
        } else if a.frame_rate > b.frame_rate {
            Order::Less
        } else if a.frame_rate < b.frame_rate {
            Order::Greater
        } else {
            Order::Equal
        }
    }
}

/// The modes that are good enough, in order.
pub open spec fn usable_modes(modes: Seq<CameraMode>) -> Seq<CameraMode> {
    modes.filter(|mode: CameraMode| mode.is_usable())
}

/// Whether places list every mode once, in the order in which they are ranked; those ranked
/// alike stay in order.
pub open spec fn are_ranked(modes: Seq<CameraMode>, places: Seq<usize>) -> bool {
    &&& places.len() == modes.len()
    &&& forall|k: int| 0 <= k < places.len() ==> (#[trigger] places[k]) < modes.len()
    &&& forall|k: int, l: int|
        0 <= k < l < places.len() ==> {
            let order = mode_order(
                modes[#[trigger] places[k] as int],
                modes[#[trigger] places[l] as int],
            );
            order == Order::Less || (order == Order::Equal && places[k] < places[l])
        }
}

/// Whether a size is among modes.
pub open spec fn has_size(modes: Seq<CameraMode>, mode: CameraMode) -> bool {
    exists|i: int| 0 <= i < modes.len() && (#[trigger] modes[i]).same_size(mode)
}

/// How many modes are tried at most.
pub const TRIED_MODES: usize = 8;

/// The first mode of each size among the first `n`, as many as are tried.
pub open spec fn first_of_each(modes: Seq<CameraMode>, n: nat) -> Seq<CameraMode>
    decreases n,
{
    if n == 0 {
        Seq::empty()
    } else {
        let before = first_of_each(modes, (n - 1) as nat);
        if before.len() < TRIED_MODES && !has_size(before, modes[n - 1]) {
            before.push(modes[n - 1])
        } else {
            before
        }
    }
}

/// The modes that are tried where the camera tells of none that is good enough.
pub open spec fn usual_modes() -> Seq<CameraMode> {
    seq![
        CameraMode { width: 4160, height: 3120, mjpeg: true, frame_rate: 30 },
        CameraMode { width: 3840, height: 2160, mjpeg: true, frame_rate: 30 },
        CameraMode { width: 1920, height: 1080, mjpeg: true, frame_rate: 30 },
        CameraMode { width: 1280, height: 720, mjpeg: true, frame_rate: 30 },
    ]
}

/// Whether modes are those to try: the best of each size, the largest first, or the usual
/// ones where none is good enough.
pub open spec fn are_preferred(modes: Seq<CameraMode>, r: Seq<CameraMode>) -> bool {
    let usable = usable_modes(modes);
    if usable.len() == 0 {
        r == usual_modes()
    } else {
        exists|places: Seq<usize>| #[trigger]
            are_ranked(usable, places) && r == first_of_each(
                places.map_values(|place: usize| usable[place as int]),
                places.len(),
            )
    }
}

fn keep_usable(modes: &Vec<CameraMode>) -> (r: Vec<CameraMode>)
    ensures
        r@ == usable_modes(modes@),
{
    let mut kept: Vec<CameraMode> = Vec::new();
    let mut i: usize = 0;
    proof {
        reveal(Seq::filter);
        assert(kept@ =~= usable_modes(modes@.take(0)));
    }
    while i < modes.len()
        invariant
            i <= modes.len(),
            kept@ == usable_modes(modes@.take(i as int)),
        decreases modes.len() - i,
    {
        proof {
            reveal(Seq::filter);
            assert(modes@.take(i + 1).drop_last() =~= modes@.take(i as int));
        }
        if modes[i].usable() {
            kept.push(modes[i]);
        }
        i = i + 1;
    }
    assert(modes@.take(i as int) =~= modes@);
    kept
}

fn holds_size(modes: &Vec<CameraMode>, mode: CameraMode) -> (r: bool)
    ensures
        r == has_size(modes@, mode),
{
    let mut i: usize = 0;
    while i < modes.len()
        invariant
            i <= modes.len(),
            forall|k: int| 0 <= k < i ==> !(#[trigger] modes@[k]).same_size(mode),
        decreases modes.len() - i,
    {
        if modes[i].width == mode.width && modes[i].height == mode.height {
            assert(modes@[i as int].same_size(mode));
            return true;
        }
        i = i + 1;
    }
    false
}

/// Picks the modes in which the camera is tried, one after the other.
pub fn preferred_formats(modes: &Vec<CameraMode>) -> (r: Vec<CameraMode>)
    ensures
        are_preferred(modes@, r@),
{
    let usable: Vec<CameraMode> = keep_usable(modes);
    let ranking: ModeRanking = ModeRanking {  };
    let places: Vec<usize> = sort_stably(&ranking, &usable);
    assert(are_ranked(usable@, places@)) by {
        assert forall|k: int, l: int| 0 <= k < l < places@.len() implies {
            let order = mode_order(
                usable@[#[trigger] places@[k] as int],
                usable@[#[trigger] places@[l] as int],
            );
            order == Order::Less || (order == Order::Equal && places@[k] < places@[l])
        } by {
            assert(sorts_before(ranking, usable@, places@[k] as int, places@[l] as int));
        }
    }
    let ghost sorted = places@.map_values(|place: usize| usable@[place as int]);
    let mut chosen: Vec<CameraMode> = Vec::new();
    let mut i: usize = 0;
    while i < places.len()
        invariant
            i <= places.len(),
            forall|k: int| 0 <= k < places.len() ==> (#[trigger] places[k]) < usable.len(),
            sorted == places@.map_values(|place: usize| usable@[place as int]),
            chosen@ == first_of_each(sorted, i as nat),
            i > 0 ==> chosen.len() > 0,
        decreases places.len() - i,
    {
        let mode: CameraMode = usable[places[i]];
        assert(sorted[i as int] == mode);
        assert(chosen@.len() == 0 ==> !has_size(chosen@, mode));
        if chosen.len() < TRIED_MODES && !holds_size(&chosen, mode) {
            chosen.push(mode);
        }
        i = i + 1;
    }
    if chosen.len() == 0 {
        chosen.push(CameraMode { width: 4160, height: 3120, mjpeg: true, frame_rate: 30 });
        chosen.push(CameraMode { width: 3840, height: 2160, mjpeg: true, frame_rate: 30 });
        chosen.push(CameraMode { width: 1920, height: 1080, mjpeg: true, frame_rate: 30 });
        chosen.push(CameraMode { width: 1280, height: 720, mjpeg: true, frame_rate: 30 });
        assert(chosen@ =~= usual_modes());
    }
    chosen
}

/// There is always a mode to try, at most eight of them are, and no size is tried twice.
pub proof fn law_modes_are_few_and_distinct(modes: Seq<CameraMode>, r: Seq<CameraMode>)
    requires
        are_preferred(modes, r),
    ensures
        0 < r.len() <= TRIED_MODES,
        forall|i: int, j: int|
            0 <= i < j < r.len() ==> !(#[trigger] r[i]).same_size(#[trigger] r[j]),
{
    let usable = usable_modes(modes);
    if usable.len() > 0 {
        let places = choose|places: Seq<usize>| #[trigger]
            are_ranked(usable, places) && r == first_of_each(
                places.map_values(|place: usize| usable[place as int]),
                places.len(),
            );
        let sorted = places.map_values(|place: usize| usable[place as int]);
        lemma_first_of_each(sorted, places.len());
    }
}

proof fn lemma_first_of_each(modes: Seq<CameraMode>, n: nat)
    ensures
        first_of_each(modes, n).len() <= TRIED_MODES,
        n > 0 ==> first_of_each(modes, n).len() > 0,
        forall|i: int, j: int|
            0 <= i < j < first_of_each(modes, n).len() ==> !(#[trigger] first_of_each(
                modes,
                n,
            )[i]).same_size(#[trigger] first_of_each(modes, n)[j]),
    decreases n,
{
    if n > 0 {
        lemma_first_of_each(modes, (n - 1) as nat);
        let before = first_of_each(modes, (n - 1) as nat);
        if before.len() == 0 {
            assert(!has_size(before, modes[n - 1]));
        }
        let after = first_of_each(modes, n);
        assert forall|i: int, j: int| 0 <= i < j < after.len() implies !(
        #[trigger] after[i]).same_size(#[trigger] after[j]) by {
            if j < before.len() {
                assert(!before[i].same_size(before[j]));
            } else {
                assert(after[i] == before[i]);
            }
        }
    }
}

/// Whether a name is that of the camera that the program is made for.
pub open spec fn is_wanted(name: Seq<char>) -> bool {
    contains_text(text_lowercase(name), "iriscan"@) || contains_text(
        text_lowercase(name),
        "visualizer 7"@,
    )
}

pub fn is_wanted_camera(name: &str) -> (r: bool)
    ensures
        r == is_wanted(name@),
{
    has_name_part(name, "iriscan") || has_name_part(name, "visualizer 7")
}

/// Whether a camera's name in lower case holds a text.
pub fn has_name_part(name: &str, part: &str) -> (r: bool)
    ensures
        r == contains_text(text_lowercase(name@), part@),
{
    has_text(&chars_of(lowercase_text(name).as_str()), &chars_of(part))
}

/// How often the camera is looked for.
pub const SEARCHES: u32 = 8;

/// What follows from looking for the camera once.
#[derive(Debug, Clone, Copy, PartialEq, Eq, Structural)]
pub enum SearchStep {
    Open,
    /// Nobody waits for it any more.
    Stop,
    Wait,
    GiveUp,
}

pub fn search_step(attempt: u32, found: bool, stop_requested: bool) -> (r: SearchStep)
    ensures
        r == if found {
            SearchStep::Open
        } else if stop_requested {
            SearchStep::Stop
        } else if attempt + 1 < SEARCHES {
            SearchStep::Wait
        } else {
            SearchStep::GiveUp
        },
{
    if found {
        SearchStep::Open
    } else if stop_requested {
        SearchStep::Stop
    } else if attempt < SEARCHES - 1 {
        SearchStep::Wait
    } else {
        SearchStep::GiveUp
    }
}

/// Names, one after the other, with a separator.
pub open spec fn listed_names(names: Seq<Seq<char>>, n: nat) -> Seq<char>
    decreases n,
{
    if n == 0 {
        Seq::empty()
    } else if n == 1 {
        names[0]
    } else {
        listed_names(names, (n - 1) as nat) + ", "@ + names[n - 1]
    }
}

/// What is said where the camera was not found.
pub open spec fn missing_words(names: Seq<Seq<char>>) -> Seq<char> {
    if names.len() == 0 {
        "Nie znaleziono żadnej kamery. Podłącz IRIScan Visualizer 7."@
    } else {
        "Nie znaleziono IRIScan Visualizer 7. Dostępne kamery: "@ + listed_names(
            names,
            names.len(),
        )
    }
}

pub fn missing_camera_text(names: &Vec<String>) -> (r: String)
    ensures
        r@ == missing_words(texts(names@)),
{
    if names.len() == 0 {
        return "Nie znaleziono żadnej kamery. Podłącz IRIScan Visualizer 7.".to_owned();
    }
    let ghost models = texts(names@);
    let mut list: String = names[0].clone();
    let mut i: usize = 1;
    while i < names.len()
        invariant
            1 <= i <= names.len(),
            models == texts(names@),
            list@ == listed_names(models, i as nat),
        decreases names.len() - i,
    {
        assert(models[i as int] == names[i as int]@);
        list.append(", ");
        list.append(names[i].as_str());
        i = i + 1;
    }
    joined("Nie znaleziono IRIScan Visualizer 7. Dostępne kamery: ", list.as_str())
}

/// Whether the camera is in use by another program.
pub open spec fn is_busy_error(details: Seq<char>) -> bool {
    contains_text(details, "0xC00D3704"@) || contains_text(
        text_lowercase(details),
        "braku zasobów sprzętowych"@,
    )
}

/// What is said where the camera sends no pictures.
pub open spec fn stream_words(details: Seq<char>) -> Seq<char> {
    if is_busy_error(details) {
        "IRIScan jest używany przez inny program. Zamknij Readiris Visual, Teams, Zoom lub aplikację Aparat, a następnie spróbuj ponownie."@
    } else if details.len() == 0 {
        "Nie udało się uruchomić obrazu z IRIScan Visualizer 7."@
    } else {
        "Nie udało się uruchomić obrazu z IRIScan Visualizer 7: "@ + details
    }
}

pub fn friendly_stream_error(details: &str) -> (r: String)
    ensures
        r@ == stream_words(details@),
{
    let chars: Vec<char> = chars_of(details);
    let lower: Vec<char> = chars_of(lowercase_text(details).as_str());
    if has_text(&chars, &chars_of("0xC00D3704")) || has_text(
        &lower,
        &chars_of("braku zasobów sprzętowych"),
    ) {
        return "IRIScan jest używany przez inny program. Zamknij Readiris Visual, Teams, Zoom lub aplikację Aparat, a następnie spróbuj ponownie.".to_owned();
    }
    if chars.len() == 0 {
        "Nie udało się uruchomić obrazu z IRIScan Visualizer 7.".to_owned()
    } else {
        joined("Nie udało się uruchomić obrazu z IRIScan Visualizer 7: ", details)
    }
}

/// What is said after every mode has failed: the words of the last failure.
pub fn stream_failure(failures: &Vec<String>) -> (r: String)
    ensures
        r@ == stream_words(
            if failures.len() == 0 {
                Seq::empty()
            } else {
                failures@.last()@
            },
        ),
{
    if failures.len() == 0 {
        let nothing: String = String::new();
        assert(nothing@ =~= Seq::<char>::empty());
        friendly_stream_error(nothing.as_str())
    } else {
        friendly_stream_error(failures[failures.len() - 1].as_str())
    }
}

/// Whether a mode under test is no good: no picture came, or too many failed.
pub fn is_unusable(has_frame: bool, failures: u32) -> (r: bool)
    ensures
        r == (!has_frame || failures > 4),
{
    !has_frame || failures > 4
}

/// The colours of the bright pixels in the middle of a picture: their sums, and how many
/// pixels there are.
#[derive(Debug, Clone, Copy, PartialEq, Eq, Structural)]
pub struct Brightness {
    pub red: u64,
    pub green: u64,
    pub blue: u64,
    pub count: u64,
}

/// The sums once a pixel was looked at; only a bright one counts.
pub open spec fn brightness_with(sums: Brightness, red: u8, green: u8, blue: u8) -> Brightness {
    if green > 120 {
        Brightness {
            red: (sums.red + red) as u64,
            green: (sums.green + green) as u64,
            blue: (sums.blue + blue) as u64,
            count: (sums.count + 1) as u64,
        }
    } else {
        sums
    }
}

/// The sums over a row, from `x` on in steps of eight, before `end`.
pub open spec fn row_brightness(
    pixels: Seq<u8>,
    width: int,
    y: int,
    x: int,
    end: int,
    sums: Brightness,
) -> Brightness
    decreases end - x + 8,
{
    if x >= end {
        sums
    } else {
        row_brightness(
            pixels,
            width,
            y,
            x + 8,
            end,
            brightness_with(
                sums,
                byte_at(pixels, width, x, y, 0),
                byte_at(pixels, width, x, y, 1),
                byte_at(pixels, width, x, y, 2),
            ),
        )
    }
}

/// The sums over the rows from `y` on, in steps of eight, before `end`; in each row, the
/// middle third.
pub open spec fn middle_brightness(
    pixels: Seq<u8>,
    width: int,
    y: int,
    end: int,
    sums: Brightness,
) -> Brightness
    decreases end - y + 8,
{
    if y >= end {
        sums
    } else {
        middle_brightness(
            pixels,
            width,
            y + 8,
            end,
            row_brightness(pixels, width, y, width / 3, width * 2 / 3, sums),
        )
    }
}

pub open spec fn no_brightness() -> Brightness {
    Brightness { red: 0, green: 0, blue: 0, count: 0 }
}

/// Measures the colours of a white sheet in the middle of a picture.
pub fn measure_brightness(image: &RgbRaster) -> (r: Brightness)
    requires
        image.wf(),
        image.width <= 0x7fff_ffff,
        image.height <= 0x7fff_ffff,
    ensures
        r == middle_brightness(
            image.pixels@,
            image.width as int,
            image.height as int / 3,
            image.height as int * 2 / 3,
            no_brightness(),
        ),
{
    let width: usize = image.width as usize;
    let height: usize = image.height as usize;
    assert(0 <= width * height) by (nonlinear_arith);
    let ghost goal = middle_brightness(
        image.pixels@,
        width as int,
        height as int / 3,
        height as int * 2 / 3,
        no_brightness(),
    );
    let mut sums: Brightness = Brightness { red: 0, green: 0, blue: 0, count: 0 };
    let mut y: usize = height / 3;
    let end_y: usize = height * 2 / 3;
    let mut rows: u64 = 0;
    while y < end_y
        invariant
            image.wf(),
            width == image.width,
            height == image.height,
            width <= 0x7fff_ffff,
            height <= 0x7fff_ffff,
            width * height <= usize::MAX,
            3 * (width * height) <= usize::MAX,
            end_y == height * 2 / 3,
            y < end_y + 8,
            8 * rows <= y,
            sums.count <= 0x1000_0000 * rows,
            sums.red <= 0xf_f000_0000 * rows,
            sums.green <= 0xf_f000_0000 * rows,
            sums.blue <= 0xf_f000_0000 * rows,
            middle_brightness(image.pixels@, width as int, y as int, end_y as int, sums) == goal,
        decreases end_y + 8 - y,
    {
        let mut x: usize = width / 3;
        let end_x: usize = width * 2 / 3;
        let ghost before = sums;
        let mut seen: u64 = 0;
        while x < end_x
            invariant
                image.wf(),
                width == image.width,
                height == image.height,
                width <= 0x7fff_ffff,
                height <= 0x7fff_ffff,
                3 * (width * height) <= usize::MAX,
                y < end_y <= height,
                rows <= 0x1000_0000,
                end_x == width * 2 / 3,
                x < end_x + 8,
                8 * seen <= x,
                sums.count <= 0x1000_0000 * rows + seen,
                sums.red <= 0xf_f000_0000 * rows + 255 * seen,
                sums.green <= 0xf_f000_0000 * rows + 255 * seen,
                sums.blue <= 0xf_f000_0000 * rows + 255 * seen,
                row_brightness(image.pixels@, width as int, y as int, x as int, end_x as int, sums)
                    == row_brightness(
                    image.pixels@,
                    width as int,
                    y as int,
                    width as int / 3,
                    end_x as int,
                    before,
                ),
            decreases end_x + 8 - x,
        {
            proof {
                assert(y * width + x < width * height) by (nonlinear_arith)
                    requires
                        x < width,
                        y < height,
                ;
                assert(0 <= y * width) by (nonlinear_arith);
                assert(image.pixels@.len() == 3 * (width * height)) by (nonlinear_arith)
                    requires
                        image.pixels@.len() == 3 * (image.width * image.height),
                        width == image.width,
                        height == image.height,
                ;
            }
            let place: usize = 3 * (y * width + x);
            let green: u8 = image.pixels[place + 1];
            if green > 120 {
                sums = Brightness {
                    red: sums.red + image.pixels[place] as u64,
                    green: sums.green + green as u64,
                    blue: sums.blue + image.pixels[place + 2] as u64,
                    count: sums.count + 1,
                };
            }
            x = x + 8;
            seen = seen + 1;
        }
        y = y + 8;
        rows = rows + 1;
    }
    sums
}

} // verus!
