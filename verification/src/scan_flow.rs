//! How a scan begins from pages that are there already, and where the document goes when it
//! is saved.

use vstd::prelude::*;
use crate::atomic_file::{split_extension, stem_of};
use crate::document::{CropCorners, CropPoint, EncodedPage, PageEncoding, PageModel};
use crate::file_actions::{after_try, optional_path, TryOutcome, TryStep, ATTEMPTS};
use crate::pages::{
    decodable_size, decode_page, decoded_size, is_thumbnail_of, may_be_refused, may_fail,
    page_from_decoded, page_outcome, passes, size_mismatch, ScannedPage, STRIP_THUMB_PX,
};
use crate::paths::{DocPath, PathModel};
use crate::raster::{fitted_size, RgbRaster};
use crate::scan::{
    page_ids, writes_page, DataModel, EntryModel, PageData, PageSlot, Scan, ScanModel, SlotEntry,
    SlotModel,
};
use crate::session::{RecoveredModel, RecoveredPage, SessionCommand};
use crate::storage::{is_unique_path, normalized_pdf_stem, pdf_stem, unique_pdf_path};
use crate::text::{lowercase_text, text_lowercase};

verus! {

/// The whole photograph.
pub open spec fn full_frame() -> CropCorners {
    CropCorners {
        top_left: CropPoint { x: 0, y: 0 },
        top_right: CropPoint { x: 0x3f80_0000, y: 0 },
        bottom_right: CropPoint { x: 0x3f80_0000, y: 0x3f80_0000 },
        bottom_left: CropPoint { x: 0, y: 0x3f80_0000 },
    }
}

pub fn full_frame_editor_corners() -> (r: CropCorners)
    ensures
        r == full_frame(),
{
    CropCorners {
        top_left: CropPoint { x: 0, y: 0 },
        top_right: CropPoint { x: 0x3f80_0000, y: 0 },
        bottom_right: CropPoint { x: 0x3f80_0000, y: 0x3f80_0000 },
        bottom_left: CropPoint { x: 0, y: 0x3f80_0000 },
    }
}

/// Six percent in from each edge of the photograph.
pub open spec fn fallback_corners() -> CropCorners {
    CropCorners {
        top_left: CropPoint { x: 0x3d75_c28f, y: 0x3d75_c28f },
        top_right: CropPoint { x: 0x3f70_a3d7, y: 0x3d75_c28f },
        bottom_right: CropPoint { x: 0x3f70_a3d7, y: 0x3f70_a3d7 },
        bottom_left: CropPoint { x: 0x3d75_c28f, y: 0x3f70_a3d7 },
    }
}

pub fn fallback_editor_corners() -> (r: CropCorners)
    ensures
        r == fallback_corners(),
{
    CropCorners {
        top_left: CropPoint { x: 0x3d75_c28f, y: 0x3d75_c28f },
        top_right: CropPoint { x: 0x3f70_a3d7, y: 0x3d75_c28f },
        bottom_right: CropPoint { x: 0x3f70_a3d7, y: 0x3f70_a3d7 },
        bottom_left: CropPoint { x: 0x3d75_c28f, y: 0x3f70_a3d7 },
    }
}

/// The bits of 0.49, the share of a side up to which its first half is used.
pub const UNDER_MIDDLE: u32 = 0x3efa_e148;

/// The bits of 0.51, the share of a side from which on its second half is used.
pub const OVER_MIDDLE: u32 = 0x3f02_8f5c;

/// Where a corner comes to lie that is moved somewhere: in its own quarter of the picture.
/// Shares are not negative, so they are ordered as their bits are.
pub open spec fn in_quarter(index: int, point: CropPoint) -> CropPoint {
    let left = if point.x <= UNDER_MIDDLE { point.x } else { UNDER_MIDDLE };
    let right = if point.x >= OVER_MIDDLE { point.x } else { OVER_MIDDLE };
    let upper = if point.y <= UNDER_MIDDLE { point.y } else { UNDER_MIDDLE };
    let lower = if point.y >= OVER_MIDDLE { point.y } else { OVER_MIDDLE };
    if index == 0 {
        CropPoint { x: left, y: upper }
    } else if index == 1 {
        CropPoint { x: right, y: upper }
    } else if index == 2 {
        CropPoint { x: right, y: lower }
    } else if index == 3 {
        CropPoint { x: left, y: lower }
    } else {
        point
    }
}

/// Keeps a corner that is moved by hand in its own quarter of the picture. Corners are
/// counted clockwise from the top left.
pub fn constrain_editor_corner(index: usize, point: CropPoint) -> (r: CropPoint)
    ensures
        r == in_quarter(index as int, point),
{
    let mut held: CropPoint = point;
    if index < 4 {
        if index == 1 || index == 2 {
            if held.x < OVER_MIDDLE {
                held.x = OVER_MIDDLE;
            }
        } else if held.x > UNDER_MIDDLE {
            held.x = UNDER_MIDDLE;
        }
        if index >= 2 {
            if held.y < OVER_MIDDLE {
                held.y = OVER_MIDDLE;
            }
        } else if held.y > UNDER_MIDDLE {
            held.y = UNDER_MIDDLE;
        }
    }
    held
}

/// Corners that are each in their own quarter never change places: the left ones stay left
/// of the right ones, and the upper ones above the lower ones.
pub proof fn law_corners_never_cross(
    first: CropPoint,
    second: CropPoint,
    third: CropPoint,
    fourth: CropPoint,
)
    ensures
        in_quarter(0, first).x < in_quarter(1, second).x,
        in_quarter(3, fourth).x < in_quarter(2, third).x,
        in_quarter(0, first).y < in_quarter(3, fourth).y,
        in_quarter(1, second).y < in_quarter(2, third).y,
{
}

/// Whether the size of a page was not recorded and is to be read from its bytes.
pub open spec fn size_unknown(page: PageModel) -> bool {
    page.encoding == PageEncoding::Jpeg && (page.width == 0 || page.height == 0)
}

/// A page found again, made of what decoding it gave. Where its size was not recorded,
/// the decoded image tells it.
pub fn recovered_from_decoded(page: EncodedPage, decoded: Result<RgbRaster, String>) -> (r: Result<
    ScannedPage,
    String,
>)
    requires
        decoded matches Ok(image) ==> image.wf(),
    ensures
        match decoded {
            Err(message) => page_outcome(r) == Err::<PageModel, Seq<char>>(message@),
            Ok(image) => if size_unknown(page@) || (image.width == page.width && image.height
                == page.height) {
                &&& page_outcome(r) == Ok::<PageModel, Seq<char>>(
                    PageModel { width: image.width, height: image.height, ..page@ },
                )
                &&& is_thumbnail_of(r->Ok_0.review_image@, image@)
            } else {
                page_outcome(r) == Err::<PageModel, Seq<char>>(size_mismatch())
            },
        },
        r matches Ok(scanned) ==> scanned.has_thumbnail(),
{
    let mut page: EncodedPage = page;
    let unknown: bool = match page.encoding {
        PageEncoding::Jpeg => page.width == 0 || page.height == 0,
        PageEncoding::G4 => false,
    };
    match &decoded {
        Ok(image) => {
            if unknown {
                page.width = image.width;
                page.height = image.height;
            }
        },
        Err(_) => {},
    }
    page_from_decoded(page, decoded)
}

/// What a page found again can become.
pub open spec fn restored_as(recovered: RecoveredModel, slot: SlotModel) -> bool {
    let original = match recovered.original_jpeg {
        Some(bytes) => bytes,
        None => Seq::empty(),
    };
    match slot {
        SlotModel::Ready(data) => {
            &&& recovered.page matches Some(page)
            &&& if size_unknown(page) {
                &&& decoded_size(page.bytes) == Some((data.page.width, data.page.height))
                &&& data.page == (PageModel {
                    width: data.page.width,
                    height: data.page.height,
                    ..page
                })
            } else {
                &&& passes(page)
                &&& data.page == page
            }
            &&& (data.thumbnail.width, data.thumbnail.height) == fitted_size(
                data.page.width,
                data.page.height,
                STRIP_THUMB_PX,
            )
            &&& data.original_jpeg == original
            &&& data.corners == match recovered.corners {
                Some(corners) => corners,
                None => full_frame(),
            }
            &&& data.quarter_turns == recovered.quarter_turns
        },
        SlotModel::Failed { original_jpeg, error, quarter_turns } => {
            &&& original_jpeg == original
            &&& quarter_turns == recovered.quarter_turns
            &&& match recovered.page {
                None => error == "Brak przetworzonego obrazu strony."@,
                Some(page) => if size_unknown(page) {
                    may_fail(page, error)
                } else {
                    !passes(page) && may_be_refused(page, error)
                },
            }
        },
        _ => false,
    }
}

/// Makes a page found again part of the document: finished where its bytes are sound,
/// else failed, but never lost.
pub fn restore_page(recovered: RecoveredPage) -> (r: SlotEntry)
    requires
        recovered.page matches Some(page) ==> decodable_size(page@),
    ensures
        r.id == recovered.id,
        r.revision == 0,
        restored_as(recovered@, r.slot@),
{
    let original_jpeg: Vec<u8> = match recovered.original_jpeg {
        Some(bytes) => bytes,
        None => Vec::new(),
    };
    let ghost original = match recovered@.original_jpeg {
        Some(bytes) => bytes,
        None => Seq::empty(),
    };
    assert(original_jpeg@ =~= original);
    let corners: CropCorners = match recovered.corners {
        Some(corners) => corners,
        None => full_frame_editor_corners(),
    };
    let quarter_turns: u8 = recovered.quarter_turns;
    let slot: PageSlot = match recovered.page {
        None => PageSlot::Failed {
            original_jpeg,
            error: "Brak przetworzonego obrazu strony.".to_owned(),
            quarter_turns,
        },
        Some(page) => {
            let decoded: Result<RgbRaster, String> = decode_page(&page);
            match recovered_from_decoded(page, decoded) {
                Ok(page) => PageSlot::Ready(
                    PageData { page, original_jpeg, corners, quarter_turns },
                ),
                Err(error) => PageSlot::Failed { original_jpeg, error, quarter_turns },
            }
        },
    };
    SlotEntry { id: recovered.id, revision: 0, slot }
}

/// Adds a page found again to the document. Numbers go on above it.
pub fn add_restored(scan: &mut Scan, entry: SlotEntry)
    requires
        entry.id < u64::MAX,
    ensures
        final(scan)@ == (ScanModel {
            slots: old(scan)@.slots.push(entry@),
            next_page_id: if entry.id >= old(scan)@.next_page_id {
                (entry.id + 1) as u64
            } else {
                old(scan)@.next_page_id
            },
            ..old(scan)@
        }),
        old(scan)@.wf() && !page_ids(old(scan)@.slots).contains(entry.id) ==> final(scan)@.wf(),
{
    let ghost before = scan@;
    let ghost added = entry@;
    if entry.id >= scan.next_page_id {
        scan.next_page_id = entry.id + 1;
    }
    scan.slots.push(entry);
    assert(scan@.slots =~= before.slots.push(added));
    proof {
        if before.wf() && !page_ids(before.slots).contains(added.id) {
            let after = scan@.slots;
            assert forall|i: int, j: int| 0 <= i < j < after.len() implies (#[trigger] after[i]).id
                != (#[trigger] after[j]).id by {
                if j == before.slots.len() {
                    assert(page_ids(before.slots)[i] == before.slots[i].id);
                }
            }
        }
    }
}

/// Takes the pages of a document that is edited into the scan, under new numbers. They
/// have no photograph: cropping them again would wear them out. What is to be kept of each
/// comes back.
pub fn import_pages(scan: &mut Scan, pages: Vec<(ScannedPage, u8)>) -> (r: Vec<SessionCommand>)
    requires
        old(scan)@.wf(),
        old(scan)@.next_page_id + pages.len() <= u64::MAX,
    ensures
        final(scan)@ == (ScanModel {
            slots: old(scan)@.slots + imported_slots(pages@, old(scan)@.next_page_id, pages@.len()),
            next_page_id: (old(scan)@.next_page_id + pages.len()) as u64,
            ..old(scan)@
        }),
        final(scan)@.wf(),
        r.len() == pages.len(),
        forall|i: int|
            0 <= i < r.len() ==> writes_page(
                #[trigger] r[i],
                (old(scan)@.next_page_id + i) as u64,
                imported(pages[i]),
            ),
{
    let ghost before = scan@;
    let ghost all = pages@;
    let total: usize = pages.len();
    let mut pages: Vec<(ScannedPage, u8)> = pages;
    let mut commands: Vec<SessionCommand> = Vec::new();
    let mut i: usize = 0;
    assert(scan@.slots =~= before.slots + imported_slots(all, before.next_page_id, 0));
    while i < total
        invariant
            i <= total,
            total == all.len(),
            pages.len() == total - i,
            forall|k: int| 0 <= k < total - i ==> #[trigger] pages@[k] == all[i + k],
            before.wf(),
            before.next_page_id + total <= u64::MAX,
            scan@.next_page_id == before.next_page_id + i,
            scan@.slots == before.slots + imported_slots(all, before.next_page_id, i as nat),
            scan@.selected == before.selected,
            scan@.pending_jobs == before.pending_jobs,
            scan@.editing == before.editing,
            scan@.dirty == before.dirty,
            commands.len() == i,
            forall|k: int|
                0 <= k < i ==> writes_page(
                    #[trigger] commands[k],
                    (before.next_page_id + k) as u64,
                    imported(all[k]),
                ),
        decreases total - i,
    {
        assert(pages@[0] == all[i + 0]);
        let (page, quarter_turns): (ScannedPage, u8) = pages.remove(0);
        let id: u64 = scan.next_page_id;
        let data: PageData = PageData {
            page,
            original_jpeg: Vec::new(),
            corners: full_frame_editor_corners(),
            quarter_turns,
        };
        assert(data@ =~= imported(all[i as int]));
        commands.push(crate::scan::write_command(id, &data));
        let entry: SlotEntry = SlotEntry { id, revision: 0, slot: PageSlot::Ready(data) };
        let ghost slots = scan@.slots;
        scan.next_page_id = scan.next_page_id + 1;
        scan.slots.push(entry);
        proof {
            assert(scan@.slots =~= slots.push(entry@));
            assert(scan@.slots =~= before.slots + imported_slots(
                all,
                before.next_page_id,
                (i + 1) as nat,
            ));
            assert forall|k: int| 0 <= k < total - (i + 1) implies #[trigger] pages@[k] == all[(i + 1)
                + k] by {
                assert(pages@[k] == all[i + (k + 1)]);
            }
        }
        i = i + 1;
    }
    proof {
        lemma_imported_ids(all, before.next_page_id, total as nat);
        let added = imported_slots(all, before.next_page_id, total as nat);
        let after = scan@.slots;
        assert forall|a: int, b: int| 0 <= a < b < after.len() implies (#[trigger] after[a]).id != (
        #[trigger] after[b]).id by {
            let n = before.slots.len();
            if a >= n {
                assert(after[a] == added[a - n] && after[b] == added[b - n]);
            } else if b >= n {
                assert(after[b] == added[b - n]);
            }
        }
        assert forall|a: int| 0 <= a < after.len() implies (#[trigger] after[a]).id
            < scan@.next_page_id by {
            let n = before.slots.len();
            if a >= n {
                assert(after[a] == added[a - n]);
            }
        }
    }
    commands
}

/// A page of a document that is edited.
pub open spec fn imported(page: (ScannedPage, u8)) -> DataModel {
    DataModel {
        page: page.0.model(),
        thumbnail: page.0.review_image@,
        original_jpeg: Seq::empty(),
        corners: full_frame(),
        quarter_turns: page.1,
    }
}

/// The first `n` pages of a document that is edited, numbered from `first` on.
pub open spec fn imported_slots(pages: Seq<(ScannedPage, u8)>, first: u64, n: nat) -> Seq<EntryModel>
    decreases n,
{
    if n == 0 {
        Seq::empty()
    } else {
        imported_slots(pages, first, (n - 1) as nat).push(
            EntryModel {
                id: (first + n - 1) as u64,
                revision: 0,
                slot: SlotModel::Ready(imported(pages[n - 1])),
            },
        )
    }
}

proof fn lemma_imported_ids(pages: Seq<(ScannedPage, u8)>, first: u64, n: nat)
    requires
        first + n <= u64::MAX,
    ensures
        imported_slots(pages, first, n).len() == n,
        forall|i: int|
            0 <= i < n ==> (#[trigger] imported_slots(pages, first, n)[i]).id == first + i,
    decreases n,
{
    if n > 0 {
        lemma_imported_ids(pages, first, (n - 1) as nat);
    }
}

/// How a document is saved.
#[derive(Debug, Clone, Copy, PartialEq, Eq, Structural)]
pub enum SaveMode {
    New,
    Update,
    Copy,
}

/// Where a document is saved, and how.
#[derive(Debug)]
pub struct SavePlan {
    pub path: DocPath,
    pub mode: SaveMode,
}

/// The name of a file without its folder and extension.
pub open spec fn document_stem(path: PathModel) -> Seq<char> {
    match path.file_name() {
        Some(name) => stem_of(name),
        None => Seq::empty(),
    }
}

pub fn stem_of_document(path: &DocPath) -> (r: String)
    ensures
        r@ == document_stem(path@),
{
    match path.file_name() {
        Some(name) => {
            let (stem, _): (String, String) = split_extension(name.as_str());
            stem
        },
        None => {
            let nothing: String = String::new();
            assert(nothing@ =~= Seq::<char>::empty());
            nothing
        },
    }
}

/// Whether a plan is the one for a document: it is updated where it keeps its name, else a
/// new file is made under the first free name.
pub open spec fn is_save_plan<E: Fn(&DocPath) -> bool>(
    exists_at: E,
    folder: Option<PathModel>,
    filename: Seq<char>,
    editing: Option<PathModel>,
    r: Result<SavePlan, String>,
) -> bool {
    match folder {
        None => r matches Err(message) && message@ == "Najpierw wybierz folder docelowy."@,
        Some(folder) => match pdf_stem(filename) {
            Err(problem) => r matches Err(message) && message@ == problem,
            Ok(stem) => if editing is Some && text_lowercase(stem) == text_lowercase(
                document_stem(editing->Some_0),
            ) {
                &&& r matches Ok(plan)
                &&& plan.path@ == editing->Some_0
                &&& plan.mode == SaveMode::Update
            } else {
                saves_anew(
                    exists_at,
                    folder,
                    stem,
                    if editing is Some {
                        SaveMode::Copy
                    } else {
                        SaveMode::New
                    },
                    r,
                )
            },
        },
    }
}

/// Whether a plan makes a new file under the first free name.
pub open spec fn saves_anew<E: Fn(&DocPath) -> bool>(
    exists_at: E,
    folder: PathModel,
    stem: Seq<char>,
    mode: SaveMode,
    r: Result<SavePlan, String>,
) -> bool {
    match r {
        Ok(plan) => plan.mode == mode && is_unique_path(exists_at, folder, stem, Ok(plan.path)),
        Err(message) => is_unique_path(exists_at, folder, stem, Err(message)),
    }
}

/// Where the document goes when it is saved now.
pub fn resolve_save_target<E: Fn(&DocPath) -> bool>(
    folder: &Option<DocPath>,
    filename: &str,
    editing_target: &Option<DocPath>,
    exists_at: &E,
) -> (r: Result<SavePlan, String>)
    requires
        forall|path: &DocPath| #[trigger] call_requires(*exists_at, (path,)),
    ensures
        is_save_plan(
            *exists_at,
            optional_path(*folder),
            filename@,
            optional_path(*editing_target),
            r,
        ),
{
    let folder: &DocPath = match folder {
        Some(folder) => folder,
        None => {
            return Err("Najpierw wybierz folder docelowy.".to_owned());
        },
    };
    let stem: String = match normalized_pdf_stem(filename) {
        Ok(stem) => stem,
        Err(problem) => {
            return Err(problem);
        },
    };
    let mut mode: SaveMode = SaveMode::New;
    if let Some(target) = editing_target {
        let kept: String = stem_of_document(target);
        if lowercase_text(stem.as_str()) == lowercase_text(kept.as_str()) {
            return Ok(SavePlan { path: target.copy(), mode: SaveMode::Update });
        }
        mode = SaveMode::Copy;
    }
    let place: Result<DocPath, String> = unique_pdf_path(folder, stem.as_str(), exists_at);
    match place {
        Ok(path) => Ok(SavePlan { path, mode }),
        Err(message) => Err(message),
    }
}

/// What came of writing a new document to a place.
#[derive(Debug)]
pub enum CommitOutcome {
    Done,
    /// Something stands there by now.
    Taken,
    Failed { error: String },
}

pub open spec fn save_failure(error: Seq<char>) -> Seq<char> {
    "Nie można ukończyć zapisu pliku PDF: "@ + error
}

pub fn pdf_io_error(error: &str) -> (r: String)
    ensures
        r@ == save_failure(error@),
{
    let mut message: String = "Nie można ukończyć zapisu pliku PDF: ".to_owned();
    message.append(error);
    message
}

/// Whether writing to a place ended with an outcome.
pub open spec fn commit_gave<W: Fn(&DocPath) -> CommitOutcome>(
    commit: W,
    place: PathModel,
    outcome: CommitOutcome,
) -> bool {
    exists|path: DocPath| path@ == place && #[trigger] call_ensures(commit, (&path,), outcome)
}

/// How writing a new document can end: at the planned place, or at a free one found after
/// that was taken.
pub open spec fn new_commit_may_end<
    E: Fn(&DocPath) -> bool,
    W: Fn(&DocPath) -> CommitOutcome,
>(
    exists_at: E,
    commit: W,
    folder: PathModel,
    stem: Seq<char>,
    planned: PathModel,
    r: Result<DocPath, String>,
) -> bool {
    match r {
        Ok(path) => {
            &&& commit_gave(commit, path@, CommitOutcome::Done)
            &&& may_be_written(exists_at, commit, folder, stem, planned, path@)
        },
        Err(message) => {
            ||| is_unique_path(exists_at, folder, stem, Err(message)) && commit_gave(
                commit,
                planned,
                CommitOutcome::Taken,
            )
            ||| commit_broke_off(exists_at, commit, folder, stem, planned, message@)
            ||| message@ == "Nie można utworzyć unikalnej nazwy pliku."@ && commit_gave(
                commit,
                planned,
                CommitOutcome::Taken,
            )
        },
    }
}

/// Whether a place was found free after the planned one was taken.
pub open spec fn found_later<E: Fn(&DocPath) -> bool, W: Fn(&DocPath) -> CommitOutcome>(
    exists_at: E,
    commit: W,
    folder: PathModel,
    stem: Seq<char>,
    planned: PathModel,
    place: PathModel,
) -> bool {
    &&& commit_gave(commit, planned, CommitOutcome::Taken)
    &&& exists|path: DocPath|
        path@ == place && #[trigger] is_unique_path(exists_at, folder, stem, Ok(path))
}

/// Whether a new document may be written to a place: the planned one, and another only
/// after that was taken.
pub open spec fn may_be_written<E: Fn(&DocPath) -> bool, W: Fn(&DocPath) -> CommitOutcome>(
    exists_at: E,
    commit: W,
    folder: PathModel,
    stem: Seq<char>,
    planned: PathModel,
    place: PathModel,
) -> bool {
    place == planned || found_later(exists_at, commit, folder, stem, planned, place)
}

/// Whether writing failed at a place where it was due, and this says why.
pub open spec fn commit_broke_off<E: Fn(&DocPath) -> bool, W: Fn(&DocPath) -> CommitOutcome>(
    exists_at: E,
    commit: W,
    folder: PathModel,
    stem: Seq<char>,
    planned: PathModel,
    message: Seq<char>,
) -> bool {
    exists|path: DocPath, error: String| #[trigger]
        call_ensures(commit, (&path,), CommitOutcome::Failed { error }) && may_be_written(
            exists_at,
            commit,
            folder,
            stem,
            planned,
            path@,
        ) && message == save_failure(error@)
}

/// Writes a new document, never over another: where the place is taken meanwhile, the
/// first free one is tried, up to a hundred times.
pub fn commit_pdf_new<E: Fn(&DocPath) -> bool, W: Fn(&DocPath) -> CommitOutcome>(
    folder: &DocPath,
    stem: &str,
    planned: DocPath,
    exists_at: &E,
    commit: &W,
) -> (r: Result<DocPath, String>)
    requires
        forall|path: &DocPath| #[trigger] call_requires(*exists_at, (path,)),
        forall|path: &DocPath|
            may_be_written(*exists_at, *commit, folder@, stem@, planned@, path@)
                ==> #[trigger] call_requires(*commit, (path,)),
    ensures
        new_commit_may_end(*exists_at, *commit, folder@, stem@, planned@, r),
{
    let ghost first = planned@;
    let mut path: DocPath = planned;
    let mut tried: u64 = 0;
    loop
        invariant
            tried < ATTEMPTS,
            first == planned@,
            forall|path: &DocPath| #[trigger] call_requires(*exists_at, (path,)),
            forall|path: &DocPath|
                may_be_written(*exists_at, *commit, folder@, stem@, first, path@)
                    ==> #[trigger] call_requires(*commit, (path,)),
            tried == 0 ==> path@ == first,
            tried > 0 ==> found_later(*exists_at, *commit, folder@, stem@, first, path@),
            tried > 0 ==> commit_gave(*commit, first, CommitOutcome::Taken),
        decreases ATTEMPTS - tried,
    {
        let outcome: CommitOutcome = commit(&path);
        assert(call_ensures(*commit, (&path,), outcome));
        let (came, error): (TryOutcome, String) = match outcome {
            CommitOutcome::Done => {
                assert(commit_gave(*commit, path@, CommitOutcome::Done));
                (TryOutcome::Done, String::new())
            },
            CommitOutcome::Taken => {
                assert(commit_gave(*commit, path@, CommitOutcome::Taken));
                assert(commit_gave(*commit, first, CommitOutcome::Taken));
                (TryOutcome::Taken, String::new())
            },
            CommitOutcome::Failed { error } => (TryOutcome::Failed, error),
        };
        match after_try(tried, came) {
            TryStep::Finish => {
                return Ok(path);
            },
            TryStep::Fail => {
                let message: String = pdf_io_error(error.as_str());
                assert(commit_broke_off(
                    *exists_at,
                    *commit,
                    folder@,
                    stem@,
                    first,
                    message@,
                ));
                return Err(message);
            },
            TryStep::GiveUp => {
                return Err("Nie można utworzyć unikalnej nazwy pliku.".to_owned());
            },
            TryStep::TryNext => {
                let place: Result<DocPath, String> = unique_pdf_path(folder, stem, exists_at);
                match place {
                    Ok(next) => {
                        assert(is_unique_path(*exists_at, folder@, stem@, Ok(next)));
                        assert(found_later(
                            *exists_at,
                            *commit,
                            folder@,
                            stem@,
                            first,
                            next@,
                        ));
                        path = next;
                        tried = tried + 1;
                    },
                    Err(message) => {
                        return Err(message);
                    },
                }
            },
        }
    }
}

/// Whether the document on disk may be replaced: it must still be the version that was
/// opened.
pub fn check_update(expected: Option<u64>, current: u64) -> (r: Result<u64, String>)
    ensures
        match expected {
            None => r is Err && r->Err_0@ == "Brak odcisku pliku źródłowego."@,
            Some(expected) => if expected == current {
                r == Ok::<u64, String>(expected)
            } else {
                r is Err && r->Err_0@
                    == "Plik źródłowy zmienił się poza programem. Zapisz dokument pod inną nazwą, aby nie nadpisać cudzych zmian."@
            },
        },
{
    match expected {
        None => Err("Brak odcisku pliku źródłowego.".to_owned()),
        Some(expected) => {
            if expected == current {
                Ok(expected)
            } else {
                Err(
                    "Plik źródłowy zmienił się poza programem. Zapisz dokument pod inną nazwą, aby nie nadpisać cudzych zmian.".to_owned(),
                )
            }
        },
    }
}

/// What is said once a document is saved.
pub open spec fn saved_words(mode: SaveMode, name: Seq<char>) -> Seq<char> {
    let verb = match mode {
        SaveMode::New => "Zapisano"@,
        SaveMode::Update => "Zaktualizowano"@,
        SaveMode::Copy => "Zapisano kopię"@,
    };
    verb + ": "@ + name
}

pub fn saved_text(mode: SaveMode, name: &str) -> (r: String)
    ensures
        r@ == saved_words(mode, name@),
{
    let mut text: String = match mode {
        SaveMode::New => "Zapisano".to_owned(),
        SaveMode::Update => "Zaktualizowano".to_owned(),
        SaveMode::Copy => "Zapisano kopię".to_owned(),
    };
    text.append(": ");
    text.append(name);
    text
}

} // verus!
