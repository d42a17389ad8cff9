//! From the pages of a scan to the bytes of a document.

use vstd::prelude::*;
use crate::document::EncodedPage;
use crate::file_actions::optional_path;
use crate::paths::{DocPath, PathModel};
use crate::pdf_layout::reads_as_scan;
use crate::pdf_reading::{read_models, ReadPage};
use crate::pdf_writing::{render_pdf, written_models};
use crate::scan::{EntryModel, PageSlot, Scan};
use crate::scan_flow::{is_save_plan, resolve_save_target, SaveMode, SavePlan};

verus! {

/// Whether every page is finished.
pub open spec fn all_ready(slots: Seq<EntryModel>) -> bool {
    forall|i: int| 0 <= i < slots.len() ==> (#[trigger] slots[i]).slot is Ready
}

/// The finished pages with their turns, in order.
pub open spec fn ready_models(slots: Seq<EntryModel>) -> Seq<ReadPage> {
    slots.map_values(
        |entry: EntryModel| (entry.slot->Ready_0.page, entry.slot->Ready_0.quarter_turns),
    )
}

/// Takes the pages of a scan together. They must all be finished.
pub fn ready_pages(scan: &Scan) -> (r: Result<Vec<(EncodedPage, u8)>, String>)
    ensures
        r is Ok == all_ready(scan@.slots),
        r matches Ok(pages) ==> read_models(pages@) == ready_models(scan@.slots),
        r matches Err(message) ==> message@ == "Usuń strony z błędem (⚠) przed zapisem."@,
{
    let ghost slots = scan@.slots;
    let mut pages: Vec<(EncodedPage, u8)> = Vec::new();
    let mut i: usize = 0;
    while i < scan.slots.len()
        invariant
            i <= scan.slots.len(),
            slots == scan@.slots,
            slots.len() == scan.slots.len(),
            pages.len() == i,
            forall|k: int| 0 <= k < i ==> (#[trigger] slots[k]).slot is Ready,
            forall|k: int|
                0 <= k < i ==> ((#[trigger] pages[k]).0@, pages[k].1) == (
                    slots[k].slot->Ready_0.page,
                    slots[k].slot->Ready_0.quarter_turns,
                ),
        decreases scan.slots.len() - i,
    {
        assert(slots[i as int] == scan.slots[i as int]@);
        match &scan.slots[i].slot {
            PageSlot::Ready(data) => {
                pages.push((data.page.encoded(), data.quarter_turns));
            },
            _ => {
                return Err("Usuń strony z błędem (⚠) przed zapisem.".to_owned());
            },
        }
        i = i + 1;
    }
    assert(read_models(pages@) =~= ready_models(slots));
    Ok(pages)
}

/// Renders pages that are held by value.
pub fn render_pages(pages: &Vec<(EncodedPage, u8)>) -> (r: Result<Vec<u8>, String>)
    requires
        3 * pages.len() + 3 < u32::MAX,
    ensures
        pages.len() == 0 ==> (r matches Err(error) && error@
            == "Dokument nie zawiera żadnych stron."@),
        pages.len() > 0 ==> (r matches Ok(bytes) && (bytes@.len() <= u32::MAX ==> reads_as_scan(
            bytes@,
            read_models(pages@),
        ))),
{
    let mut borrowed: Vec<(&EncodedPage, u8)> = Vec::new();
    let mut i: usize = 0;
    while i < pages.len()
        invariant
            i <= pages.len(),
            borrowed.len() == i,
            forall|k: int|
                0 <= k < i ==> (#[trigger] borrowed[k]).0@ == pages[k].0@ && borrowed[k].1
                    == pages[k].1,
        decreases pages.len() - i,
    {
        borrowed.push((&pages[i].0, pages[i].1));
        i = i + 1;
    }
    assert(written_models(borrowed@) =~= read_models(pages@));
    render_pdf(borrowed.as_slice())
}

/// Whether a plan and bytes are those with which a document is saved now, or a message says
/// why it cannot be.
pub open spec fn saves_as<E: Fn(&DocPath) -> bool>(
    exists_at: E,
    folder: Option<PathModel>,
    filename: Seq<char>,
    editing: Option<PathModel>,
    slots: Seq<EntryModel>,
    r: Result<(SavePlan, Vec<u8>), String>,
) -> bool {
    match r {
        Ok((plan, bytes)) => {
            &&& all_ready(slots)
            &&& slots.len() > 0
            &&& is_save_plan(exists_at, folder, filename, editing, Ok(plan))
            &&& bytes@.len() <= u32::MAX ==> reads_as_scan(bytes@, ready_models(slots))
        },
        Err(message) => if !all_ready(slots) {
            message@ == "Usuń strony z błędem (⚠) przed zapisem."@
        } else {
            ||| is_save_plan(exists_at, folder, filename, editing, Err(message))
            ||| slots.len() == 0 && message@ == "Dokument nie zawiera żadnych stron."@
        },
    }
}

/// Prepares the document to be saved: where it goes and the bytes that go there.
pub fn prepare_save<E: Fn(&DocPath) -> bool>(
    scan: &Scan,
    folder: &Option<DocPath>,
    filename: &str,
    exists_at: &E,
) -> (r: Result<(SavePlan, Vec<u8>), String>)
    requires
        forall|path: &DocPath| #[trigger] call_requires(*exists_at, (path,)),
        3 * scan.slots.len() + 3 < u32::MAX,
    ensures
        saves_as(
            *exists_at,
            optional_path(*folder),
            filename@,
            scan@.editing,
            scan@.slots,
            r,
        ),
{
    let pages: Vec<(EncodedPage, u8)> = match ready_pages(scan) {
        Ok(pages) => pages,
        Err(message) => {
            return Err(message);
        },
    };
    assert(scan@.slots.len() == scan.slots.len());
    assert(read_models(pages@).len() == pages.len());
    let planned: Result<SavePlan, String> = resolve_save_target(
        folder,
        filename,
        &scan.editing_target,
        exists_at,
    );
    let plan: SavePlan = match planned {
        Ok(plan) => plan,
        Err(message) => {
            return Err(message);
        },
    };
    match render_pages(&pages) {
        Ok(bytes) => Ok((plan, bytes)),
        Err(message) => Err(message),
    }
}

/// What decides where a document goes.
#[derive(Debug)]
pub struct SaveTargetKey {
    pub filename: String,
    pub folder: Option<DocPath>,
    pub editing_target: Option<DocPath>,
    pub library_revision: u64,
}

#[verifier::ext_equal]
pub struct TargetKeyModel {
    pub filename: Seq<char>,
    pub folder: Option<PathModel>,
    pub editing_target: Option<PathModel>,
    pub library_revision: u64,
}

impl View for SaveTargetKey {
    type V = TargetKeyModel;

    open spec fn view(&self) -> TargetKeyModel {
        TargetKeyModel {
            filename: self.filename@,
            folder: optional_path(self.folder),
            editing_target: optional_path(self.editing_target),
            library_revision: self.library_revision,
        }
    }
}

fn same_optional_path(left: &Option<DocPath>, right: &Option<DocPath>) -> (r: bool)
    ensures
        r == (optional_path(*left) == optional_path(*right)),
{
    match (left, right) {
        (Some(left), Some(right)) => left.same(right),
        (None, None) => true,
        _ => false,
    }
}

impl SaveTargetKey {
    pub fn same(&self, other: &SaveTargetKey) -> (r: bool)
        ensures
            r == (self@ == other@),
    {
        self.filename == other.filename && same_optional_path(&self.folder, &other.folder)
            && same_optional_path(&self.editing_target, &other.editing_target)
            && self.library_revision == other.library_revision
    }
}

/// Where a document goes, as far as anyone can tell.
pub ghost struct PlanModel {
    pub path: PathModel,
    pub mode: SaveMode,
}

pub open spec fn plan_outcome(r: Result<SavePlan, String>) -> Result<PlanModel, Seq<char>> {
    match r {
        Ok(plan) => Ok(PlanModel { path: plan.path@, mode: plan.mode }),
        Err(message) => Err(message@),
    }
}

fn copy_plan(planned: &Result<SavePlan, String>) -> (r: Result<SavePlan, String>)
    ensures
        plan_outcome(r) == plan_outcome(*planned),
{
    match planned {
        Ok(plan) => Ok(SavePlan { path: plan.path.copy(), mode: plan.mode }),
        Err(message) => Err(message.clone()),
    }
}

/// The place found last, so that the disk is asked only when something has changed.
#[derive(Debug)]
pub struct SaveTargetCache {
    pub found: Option<(SaveTargetKey, Result<SavePlan, String>)>,
}

impl SaveTargetCache {
    pub fn empty() -> (r: SaveTargetCache)
        ensures
            r.found is None,
    {
        SaveTargetCache { found: None }
    }

    /// What was found for a key, if that was the last one asked for.
    pub fn lookup(&self, key: &SaveTargetKey) -> (r: Option<Result<SavePlan, String>>)
        ensures
            match self.found {
                Some((known, planned)) => if known@ == key@ {
                    r is Some && plan_outcome(r->Some_0) == plan_outcome(planned)
                } else {
                    r is None
                },
                None => r is None,
            },
    {
        match &self.found {
            Some((known, planned)) => {
                if known.same(key) {
                    Some(copy_plan(planned))
                } else {
                    None
                }
            },
            None => None,
        }
    }

    /// Keeps what was found for a key.
    pub fn store(&mut self, key: SaveTargetKey, planned: &Result<SavePlan, String>)
        ensures
            final(self).found matches Some((known, kept)) && known@ == key@ && plan_outcome(kept)
                == plan_outcome(*planned),
    {
        self.found = Some((key, copy_plan(planned)));
    }
}

} // verus!
