//! The scanning and review screens: what they show, and when a page is taken, shown,
//! corrected or saved.

use vstd::prelude::*;
use crate::autocapture::AutoCapture;
use crate::document::{copy_bytes, CropCorners};
use crate::messages::{page_of_text, page_of_words, text_option};
use crate::scan::{
    has_original, slot_has_editable_original, EntryModel, PageSlot, Scan, ScanModel, SlotModel,
};
use crate::scan_flow::{fallback_corners, fallback_editor_corners};
use crate::text::{decimal, decimal_text};
use crate::workspace::Screen;

verus! {

/// What the screen knows of the camera.
#[derive(Debug)]
pub struct CameraPanel {
    pub ready: bool,
    pub failed: bool,
    pub status: String,
    pub has_preview: bool,
}

#[verifier::ext_equal]
pub struct CameraModel {
    pub ready: bool,
    pub failed: bool,
    pub status: Seq<char>,
    pub has_preview: bool,
}

impl View for CameraPanel {
    type V = CameraModel;

    open spec fn view(&self) -> CameraModel {
        CameraModel {
            ready: self.ready,
            failed: self.failed,
            status: self.status@,
            has_preview: self.has_preview,
        }
    }
}

/// What the camera reports.
#[derive(Debug)]
pub enum CameraNews {
    Ready { device_name: String, width: u32, height: u32 },
    /// A picture of what it sees.
    Preview,
    Broken { error: String },
}

pub open spec fn camera_words(device_name: Seq<char>, width: u32, height: u32) -> Seq<char> {
    device_name + " · "@ + decimal(width as nat) + " × "@ + decimal(height as nat) + " px"@
}

impl CameraPanel {
    /// The camera is being looked for.
    pub fn connecting() -> (r: CameraPanel)
        ensures
            r@ == (CameraModel {
                ready: false,
                failed: false,
                status: "Łączenie z IRIScan Visualizer 7…"@,
                has_preview: false,
            }),
    {
        CameraPanel {
            ready: false,
            failed: false,
            status: "Łączenie z IRIScan Visualizer 7…".to_owned(),
            has_preview: false,
        }
    }

    /// Takes a report of the camera. Pictures are shown only while the preview is; after a
    /// breakdown none is.
    pub fn take_news(&mut self, news: CameraNews, live_preview: bool)
        ensures
            final(self)@ == match news {
                CameraNews::Ready { device_name, width, height } => CameraModel {
                    ready: true,
                    status: camera_words(device_name@, width, height),
                    ..old(self)@
                },
                CameraNews::Preview => CameraModel {
                    has_preview: old(self)@.has_preview || live_preview,
                    ..old(self)@
                },
                CameraNews::Broken { error } => CameraModel {
                    ready: false,
                    failed: true,
                    status: error@,
                    has_preview: false,
                },
            },
    {
        match news {
            CameraNews::Ready { device_name, width, height } => {
                let mut status: String = device_name;
                status.append(" · ");
                status.append(decimal_text(width as u64).as_str());
                status.append(" × ");
                status.append(decimal_text(height as u64).as_str());
                status.append(" px");
                self.ready = true;
                self.status = status;
            },
            CameraNews::Preview => {
                if live_preview {
                    self.has_preview = true;
                }
            },
            CameraNews::Broken { error } => {
                self.ready = false;
                self.failed = true;
                self.has_preview = false;
                self.status = error;
            },
        }
    }
}

/// How many milliseconds lie between two pictures in which the page is looked for.
pub const OVERLAY_MS: u64 = 300;

/// Whether the page is looked for in this picture, given how long ago it last was.
pub fn overlay_is_due(elapsed_ms: Option<u64>) -> (r: bool)
    ensures
        r == (elapsed_ms matches Some(elapsed) ==> elapsed >= OVERLAY_MS),
{
    match elapsed_ms {
        Some(elapsed) => elapsed >= OVERLAY_MS,
        None => true,
    }
}

/// Whether a picture can make the program take a page by itself.
pub fn feeds_autocapture(camera_ready: bool, dialog_open: bool, editor_open: bool) -> (r: bool)
    ensures
        r == (camera_ready && !dialog_open && !editor_open),
{
    camera_ready && !dialog_open && !editor_open
}

/// What becomes of the wish to take a page.
#[derive(Debug)]
pub enum CaptureStep {
    Submit,
    Refuse,
    RefuseSaying(String),
}

pub ghost enum CaptureModel {
    Submit,
    Refuse,
    RefuseSaying(Seq<char>),
}

impl View for CaptureStep {
    type V = CaptureModel;

    open spec fn view(&self) -> CaptureModel {
        match self {
            CaptureStep::Submit => CaptureModel::Submit,
            CaptureStep::Refuse => CaptureModel::Refuse,
            CaptureStep::RefuseSaying(text) => CaptureModel::RefuseSaying(text@),
        }
    }
}

/// Decides whether a page can be taken. Only a user who asked for it is told why not.
pub fn capture_step(
    manual: bool,
    camera_ready: bool,
    has_frame: bool,
    pipeline_runs: bool,
) -> (r: CaptureStep)
    ensures
        r@ == if !camera_ready || !has_frame {
            if manual {
                CaptureModel::RefuseSaying("Poczekaj, aż pojawi się obraz z kamery."@)
            } else {
                CaptureModel::Refuse
            }
        } else if pipeline_runs {
            CaptureModel::Submit
        } else {
            CaptureModel::Refuse
        },
{
    if !camera_ready || !has_frame {
        if manual {
            CaptureStep::RefuseSaying("Poczekaj, aż pojawi się obraz z kamery.".to_owned())
        } else {
            CaptureStep::Refuse
        }
    } else if pipeline_runs {
        CaptureStep::Submit
    } else {
        CaptureStep::Refuse
    }
}

/// A page was handed on to be processed, or there was no room for it. What is to be said
/// comes back.
pub fn capture_submitted(
    scan: &mut Scan,
    autocapture: &mut AutoCapture,
    accepted: bool,
    manual: bool,
) -> (r: Option<String>)
    requires
        old(scan).next_page_id < u64::MAX,
        old(scan).pending_jobs < usize::MAX,
        old(autocapture)@.wf(),
    ensures
        final(scan)@ == if accepted {
            old(scan)@.captured()
        } else {
            old(scan)@
        },
        old(scan)@.wf() ==> final(scan)@.wf(),
        final(autocapture)@.wf(),
        final(autocapture)@ == if accepted && manual {
            old(autocapture)@.manually_captured()
        } else {
            old(autocapture)@
        },
        text_option(r) == if manual && !accepted {
            Some("Poczekaj — przetwarzanie poprzednich stron…"@)
        } else {
            None
        },
{
    if accepted {
        scan.note_captured();
        if manual {
            autocapture.note_manual_capture();
        }
        None
    } else if manual {
        Some("Poczekaj — przetwarzanie poprzednich stron…".to_owned())
    } else {
        None
    }
}

/// What the keys do on the scanning screen: take a page, go to the review.
#[derive(Debug, Clone, Copy, PartialEq, Eq, Structural)]
pub struct HubKeys {
    pub take_page: bool,
    pub review: bool,
}

/// Reads the keys of the scanning screen. They count only while nothing else is open and
/// nothing has the focus.
pub fn hub_keys(
    screen: Screen,
    dialog_open: bool,
    focus_free: bool,
    space: bool,
    enter: bool,
    can_save: bool,
) -> (r: HubKeys)
    ensures
        ({
            let heard = screen == Screen::ScanHub && !dialog_open && focus_free;
            &&& r.take_page == (heard && space)
            &&& r.review == (heard && enter && can_save)
        }),
{
    let heard: bool = screen == Screen::ScanHub && !dialog_open && focus_free;
    HubKeys { take_page: heard && space, review: heard && enter && can_save }
}

/// The label of the button that leads to the review.
pub fn hub_save_label(pending_jobs: usize) -> (r: String)
    ensures
        r@ == if pending_jobs > 0 {
            "Przetwarzanie "@ + decimal(pending_jobs as nat) + " stron…"@
        } else {
            "Przejrzyj i zapisz (Enter)"@
        },
{
    if pending_jobs > 0 {
        let mut text: String = "Przetwarzanie ".to_owned();
        text.append(decimal_text(pending_jobs as u64).as_str());
        text.append(" stron…");
        text
    } else {
        "Przejrzyj i zapisz (Enter)".to_owned()
    }
}

/// The label of the button that saves the document.
pub fn review_save_label(pending_jobs: usize) -> (r: String)
    ensures
        r@ == if pending_jobs > 0 {
            "Przetwarzanie "@ + decimal(pending_jobs as nat) + "…"@
        } else {
            "Zapisz PDF (Enter)"@
        },
{
    if pending_jobs > 0 {
        let mut text: String = "Przetwarzanie ".to_owned();
        text.append(decimal_text(pending_jobs as u64).as_str());
        text.append("…");
        text
    } else {
        "Zapisz PDF (Enter)".to_owned()
    }
}

/// What can be done with the selected page.
#[derive(Debug)]
pub struct PageControls {
    pub label: String,
    pub selected: bool,
    pub can_left: bool,
    pub can_right: bool,
    pub rotatable: bool,
    pub editable: bool,
}

#[verifier::ext_equal]
pub struct ControlsModel {
    pub label: Seq<char>,
    pub selected: bool,
    pub can_left: bool,
    pub can_right: bool,
    pub rotatable: bool,
    pub editable: bool,
}

impl View for PageControls {
    type V = ControlsModel;

    open spec fn view(&self) -> ControlsModel {
        ControlsModel {
            label: self.label@,
            selected: self.selected,
            can_left: self.can_left,
            can_right: self.can_right,
            rotatable: self.rotatable,
            editable: self.editable,
        }
    }
}

/// What can be done with the page at a place.
pub open spec fn controls_of(slots: Seq<EntryModel>, selected: Option<usize>) -> ControlsModel {
    match selected {
        Some(i) if i < slots.len() => ControlsModel {
            label: page_of_words(i as nat, slots.len()),
            selected: true,
            can_left: i > 0,
            can_right: i + 1 < slots.len(),
            rotatable: slots[i as int].slot is Ready,
            editable: has_original(slots[i as int].slot),
        },
        _ => ControlsModel {
            label: "Kliknij miniaturę, aby zaznaczyć stronę"@,
            selected: false,
            can_left: false,
            can_right: false,
            rotatable: false,
            editable: false,
        },
    }
}

/// Shows what can be done with the selected page. A selection past the end is dropped.
pub fn page_controls(scan: &mut Scan) -> (r: PageControls)
    ensures
        r@ == controls_of(old(scan)@.slots, old(scan)@.selected),
        final(scan)@ == (ScanModel {
            selected: match old(scan)@.selected {
                Some(i) if i < old(scan)@.slots.len() => Some(i),
                _ => None,
            },
            ..old(scan)@
        }),
{
    assert(scan@.slots.len() == scan.slots.len());
    match scan.selected_slot {
        Some(i) if i < scan.slots.len() => {
            assert(scan@.slots[i as int] == scan.slots[i as int]@);
            let rotatable: bool = match scan.slots[i].slot {
                PageSlot::Ready(_) => true,
                _ => false,
            };
            PageControls {
                label: page_of_text(i, scan.slots.len()),
                selected: true,
                can_left: i > 0,
                can_right: i < scan.slots.len() - 1,
                rotatable,
                editable: slot_has_editable_original(&scan.slots[i].slot),
            }
        },
        _ => {
            scan.selected_slot = None;
            PageControls {
                label: "Kliknij miniaturę, aby zaznaczyć stronę".to_owned(),
                selected: false,
                can_left: false,
                can_right: false,
                rotatable: false,
                editable: false,
            }
        },
    }
}

/// How a page is shown in the film strip.
#[derive(Debug, Clone, Copy, PartialEq, Eq, Structural)]
pub enum TileKind {
    Picture,
    Busy,
    Warning,
}

/// A page in the film strip.
#[derive(Debug)]
pub struct Tile {
    pub kind: TileKind,
    pub label: String,
    pub selected: bool,
}

pub ghost struct TileModel {
    pub kind: TileKind,
    pub label: Seq<char>,
    pub selected: bool,
}

impl View for Tile {
    type V = TileModel;

    open spec fn view(&self) -> TileModel {
        TileModel { kind: self.kind, label: self.label@, selected: self.selected }
    }
}

pub open spec fn tile_of(slot: SlotModel, index: nat, selected: Option<usize>) -> TileModel {
    let kind = match slot {
        SlotModel::Ready(_) => TileKind::Picture,
        SlotModel::Failed { .. } => TileKind::Warning,
        _ => TileKind::Busy,
    };
    TileModel {
        kind,
        label: if kind == TileKind::Warning {
            decimal(index + 1) + " · Błąd"@
        } else {
            decimal(index + 1)
        },
        selected: selected matches Some(i) && i == index,
    }
}

/// The pages as the film strip shows them, in order.
pub fn film_strip(scan: &Scan) -> (r: Vec<Tile>)
    ensures
        r.len() == scan@.slots.len(),
        forall|i: int|
            0 <= i < r.len() ==> (#[trigger] r[i])@ == tile_of(
                scan@.slots[i].slot,
                i as nat,
                scan@.selected,
            ),
{
    let mut tiles: Vec<Tile> = Vec::new();
    let mut i: usize = 0;
    while i < scan.slots.len()
        invariant
            i <= scan.slots.len(),
            tiles.len() == i,
            forall|k: int|
                0 <= k < i ==> (#[trigger] tiles[k])@ == tile_of(
                    scan@.slots[k].slot,
                    k as nat,
                    scan@.selected,
                ),
        decreases scan.slots.len() - i,
    {
        assert(scan@.slots[i as int] == scan.slots[i as int]@);
        let kind: TileKind = match scan.slots[i].slot {
            PageSlot::Ready(_) => TileKind::Picture,
            PageSlot::Failed { .. } => TileKind::Warning,
            _ => TileKind::Busy,
        };
        let mut label: String = decimal_text(i as u64 + 1);
        if kind == TileKind::Warning {
            label.append(" · Błąd");
        }
        let selected: bool = match scan.selected_slot {
            Some(place) => place == i,
            None => false,
        };
        tiles.push(Tile { kind, label, selected });
        i = i + 1;
    }
    tiles
}

/// Whether the film strip scrolls to its end: a page was added since it was last shown.
pub fn strip_grew(pages: usize, shown_before: usize) -> (r: bool)
    ensures
        r == (pages > shown_before),
{
    pages > shown_before
}

/// The keys pressed on the review screen.
#[derive(Debug, Clone, Copy, PartialEq, Eq, Structural)]
pub struct ReviewKeys {
    pub left: bool,
    pub right: bool,
    pub escape: bool,
    /// Whether the name of the file is being typed.
    pub typing: bool,
}

/// The page that the review starts from: the selected one, or the first.
pub open spec fn reviewed_page(selected: Option<usize>, pages: nat) -> int {
    match selected {
        Some(i) if i < pages => i as int,
        _ => 0,
    }
}

/// The page that the arrow keys lead to. Both pressed at once lead to where the right one
/// leads from there.
pub open spec fn paged(index: int, pages: nat, keys: ReviewKeys) -> int {
    if keys.typing {
        index
    } else {
        let left = if keys.left && index > 0 {
            index - 1
        } else {
            index
        };
        if keys.right && left + 1 < pages {
            left + 1
        } else {
            left
        }
    }
}

/// Reads the keys of the review screen. Says whether the review is left: there is nothing to
/// review, or the user wants to.
pub fn review_keys(scan: &mut Scan, keys: ReviewKeys) -> (r: bool)
    ensures
        ({
            let before = old(scan)@;
            let start = reviewed_page(before.selected, before.slots.len());
            &&& r == (before.slots.len() == 0 || keys.escape)
            &&& final(scan)@ == if before.slots.len() == 0 {
                before
            } else if keys.escape {
                ScanModel { selected: Some(start as usize), ..before }
            } else {
                ScanModel {
                    selected: Some(paged(start, before.slots.len(), keys) as usize),
                    ..before
                }
            }
        }),
{
    assert(scan@.slots.len() == scan.slots.len());
    if scan.slots.len() == 0 {
        return true;
    }
    let mut index: usize = match scan.selected_slot {
        Some(i) if i < scan.slots.len() => i,
        _ => 0,
    };
    scan.selected_slot = Some(index);
    if keys.escape {
        return true;
    }
    if !keys.typing {
        if keys.left && index > 0 {
            index = index - 1;
        }
        if keys.right && index < scan.slots.len() - 1 {
            index = index + 1;
        }
        scan.selected_slot = Some(index);
    }
    false
}

/// What is shown in place of a page that cannot be shown: a title, a detail, and whether
/// something went wrong.
#[derive(Debug)]
pub struct StatusCard {
    pub title: String,
    pub detail: String,
    pub failed: bool,
}

/// What is shown in place of a page; nothing where the page itself can be.
pub fn status_card(slot: &PageSlot) -> (r: Option<StatusCard>)
    ensures
        match slot@ {
            SlotModel::Ready(_) => r is None,
            SlotModel::Processing => {
                &&& r matches Some(card)
                &&& card.title@ == "Przetwarzanie strony…"@
                &&& card.detail@ == "Zapis będzie dostępny po zakończeniu."@
                &&& !card.failed
            },
            SlotModel::Reprocessing { .. } => {
                &&& r matches Some(card)
                &&& card.title@ == "Aktualizowanie kadru…"@
                &&& card.detail@ == "Pełny podgląd odświeży się automatycznie."@
                &&& !card.failed
            },
            SlotModel::Failed { original_jpeg, error, quarter_turns } => {
                &&& r matches Some(card)
                &&& card.title@ == "Nie udało się przygotować strony"@
                &&& card.detail@ == error
                &&& card.failed
            },
        },
{
    match slot {
        PageSlot::Ready(_) => None,
        PageSlot::Processing => Some(
            StatusCard {
                title: "Przetwarzanie strony…".to_owned(),
                detail: "Zapis będzie dostępny po zakończeniu.".to_owned(),
                failed: false,
            },
        ),
        PageSlot::Reprocessing { .. } => Some(
            StatusCard {
                title: "Aktualizowanie kadru…".to_owned(),
                detail: "Pełny podgląd odświeży się automatycznie.".to_owned(),
                failed: false,
            },
        ),
        PageSlot::Failed { original_jpeg: _, error, quarter_turns: _ } => Some(
            StatusCard {
                title: "Nie udało się przygotować strony".to_owned(),
                detail: error.clone(),
                failed: true,
            },
        ),
    }
}

/// Whether the document is saved now: it can be, and either the button was pressed or the
/// enter key, where that is not meant for something else.
pub fn saves_now(
    can_save: bool,
    target_known: bool,
    clicked: bool,
    enter: bool,
    dialog_open: bool,
    typing: bool,
    focus_free: bool,
) -> (r: bool)
    ensures
        r == (can_save && target_known && (clicked || (enter && !dialog_open && (typing
            || focus_free)))),
{
    can_save && target_known && (clicked || (enter && !dialog_open && (typing || focus_free)))
}

/// What the crop of a page can be corrected on.
#[derive(Debug)]
pub enum EditorSource {
    /// The page is not one to be corrected.
    Unavailable,
    /// Its photograph is not there, which is said.
    Missing(String),
    Photograph(Vec<u8>, CropCorners),
}

pub ghost enum SourceModel {
    Unavailable,
    Missing(Seq<char>),
    Photograph(Seq<u8>, CropCorners),
}

impl View for EditorSource {
    type V = SourceModel;

    open spec fn view(&self) -> SourceModel {
        match self {
            EditorSource::Unavailable => SourceModel::Unavailable,
            EditorSource::Missing(text) => SourceModel::Missing(text@),
            EditorSource::Photograph(bytes, corners) => SourceModel::Photograph(bytes@, *corners),
        }
    }
}

/// What the crop of the page at a place can be corrected on: a finished page by its own
/// corners, a failed one by corners near the edge.
pub open spec fn source_at(slots: Seq<EntryModel>, index: nat) -> SourceModel {
    if index >= slots.len() {
        SourceModel::Unavailable
    } else {
        let found = match slots[index as int].slot {
            SlotModel::Ready(data) => Some((data.original_jpeg, data.corners)),
            SlotModel::Failed { original_jpeg, error, quarter_turns } => Some(
                (original_jpeg, fallback_corners()),
            ),
            _ => None,
        };
        match found {
            None => SourceModel::Unavailable,
            Some((bytes, corners)) => if bytes.len() == 0 {
                SourceModel::Missing("Ta strona nie ma zapisanego oryginału (odzyskana sesja)."@)
            } else {
                SourceModel::Photograph(bytes, corners)
            },
        }
    }
}

fn photograph(bytes: &Vec<u8>, corners: CropCorners) -> (r: EditorSource)
    ensures
        r@ == if bytes@.len() == 0 {
            SourceModel::Missing("Ta strona nie ma zapisanego oryginału (odzyskana sesja)."@)
        } else {
            SourceModel::Photograph(bytes@, corners)
        },
{
    if bytes.len() == 0 {
        EditorSource::Missing(
            "Ta strona nie ma zapisanego oryginału (odzyskana sesja).".to_owned(),
        )
    } else {
        EditorSource::Photograph(copy_bytes(bytes), corners)
    }
}

pub fn editor_source(scan: &Scan, index: usize) -> (r: EditorSource)
    ensures
        r@ == source_at(scan@.slots, index as nat),
{
    assert(scan@.slots.len() == scan.slots.len());
    if index >= scan.slots.len() {
        return EditorSource::Unavailable;
    }
    assert(scan@.slots[index as int] == scan.slots[index as int]@);
    match &scan.slots[index].slot {
        PageSlot::Ready(data) => photograph(&data.original_jpeg, data.corners),
        PageSlot::Failed { original_jpeg, error: _, quarter_turns: _ } => photograph(
            original_jpeg,
            fallback_editor_corners(),
        ),
        _ => EditorSource::Unavailable,
    }
}

/// A new crop was to be applied to the page at a place. What is to be said comes back: only
/// that there was no room for the work.
pub fn editor_applied(scan: &mut Scan, index: usize, accepted: bool) -> (r: Option<String>)
    requires
        old(scan).pending_jobs < usize::MAX,
    ensures
        ({
            let before = old(scan)@;
            let open = index < before.slots.len() && (before.slots[index as int].slot is Ready
                || before.slots[index as int].slot is Failed);
            &&& final(scan)@ == if open && accepted {
                before.reprocessing(index as int)
            } else {
                before
            }
            &&& text_option(r) == if open && !accepted {
                Some("Kolejka przetwarzania jest pełna. Spróbuj ponownie."@)
            } else {
                None
            }
        }),
        old(scan)@.wf() ==> final(scan)@.wf(),
{
    assert(scan@.slots.len() == scan.slots.len());
    if index >= scan.slots.len() {
        return None;
    }
    assert(scan@.slots[index as int] == scan.slots[index as int]@);
    match scan.slots[index].slot {
        PageSlot::Ready(_) => {},
        PageSlot::Failed { .. } => {},
        _ => {
            return None;
        },
    }
    if accepted {
        scan.start_reprocess(index);
        None
    } else {
        Some("Kolejka przetwarzania jest pełna. Spróbuj ponownie.".to_owned())
    }
}

} // verus!
