//! The pages of the document being scanned.

use vstd::prelude::*;
use crate::document::{copy_bytes, CropCorners, PageModel};
use crate::pages::ScannedPage;
use crate::paths::{DocPath, PathModel};
use crate::raster::RasterModel;
use crate::session::SessionCommand;
use crate::text::{decimal, decimal_text};

verus! {

/// A finished page with what it was made of.
#[derive(Debug)]
pub struct PageData {
    pub page: ScannedPage,
    pub original_jpeg: Vec<u8>,
    pub corners: CropCorners,
    pub quarter_turns: u8,
}

#[verifier::ext_equal]
pub struct DataModel {
    pub page: PageModel,
    pub thumbnail: RasterModel,
    pub original_jpeg: Seq<u8>,
    pub corners: CropCorners,
    pub quarter_turns: u8,
}

impl View for PageData {
    type V = DataModel;

    open spec fn view(&self) -> DataModel {
        DataModel {
            page: self.page.model(),
            thumbnail: self.page.review_image@,
            original_jpeg: self.original_jpeg@,
            corners: self.corners,
            quarter_turns: self.quarter_turns,
        }
    }
}

/// A page in whatever state it is.
#[derive(Debug)]
pub enum PageSlot {
    /// A photograph is being made into a page.
    Processing,
    Ready(PageData),
    Failed { original_jpeg: Vec<u8>, error: String, quarter_turns: u8 },
    /// A new crop is being applied; what was there before is kept.
    Reprocessing { original_jpeg: Vec<u8>, quarter_turns: u8, previous: Option<PageData> },
}

pub ghost enum SlotModel {
    Processing,
    Ready(DataModel),
    Failed { original_jpeg: Seq<u8>, error: Seq<char>, quarter_turns: u8 },
    Reprocessing { original_jpeg: Seq<u8>, quarter_turns: u8, previous: Option<DataModel> },
}

pub open spec fn data_option(data: Option<PageData>) -> Option<DataModel> {
    match data {
        None => None,
        Some(data) => Some(data@),
    }
}

impl View for PageSlot {
    type V = SlotModel;

    open spec fn view(&self) -> SlotModel {
        match self {
            PageSlot::Processing => SlotModel::Processing,
            PageSlot::Ready(data) => SlotModel::Ready(data@),
            PageSlot::Failed { original_jpeg, error, quarter_turns } => SlotModel::Failed {
                original_jpeg: original_jpeg@,
                error: error@,
                quarter_turns: *quarter_turns,
            },
            PageSlot::Reprocessing { original_jpeg, quarter_turns, previous } =>
                SlotModel::Reprocessing {
                original_jpeg: original_jpeg@,
                quarter_turns: *quarter_turns,
                previous: data_option(*previous),
            },
        }
    }
}

#[derive(Debug)]
pub struct SlotEntry {
    pub id: u64,
    pub revision: u64,
    pub slot: PageSlot,
}

#[verifier::ext_equal]
pub struct EntryModel {
    pub id: u64,
    pub revision: u64,
    pub slot: SlotModel,
}

impl View for SlotEntry {
    type V = EntryModel;

    open spec fn view(&self) -> EntryModel {
        EntryModel { id: self.id, revision: self.revision, slot: self.slot@ }
    }
}

/// The document being scanned or edited.
#[derive(Debug)]
pub struct Scan {
    pub slots: Vec<SlotEntry>,
    pub selected_slot: Option<usize>,
    pub next_page_id: u64,
    pub pending_jobs: usize,
    pub editing_target: Option<DocPath>,
    pub edit_dirty: bool,
}

#[verifier::ext_equal]
pub struct ScanModel {
    pub slots: Seq<EntryModel>,
    pub selected: Option<usize>,
    pub next_page_id: u64,
    pub pending_jobs: usize,
    pub editing: Option<PathModel>,
    pub dirty: bool,
}

pub open spec fn entry_models(slots: Seq<SlotEntry>) -> Seq<EntryModel> {
    slots.map_values(|entry: SlotEntry| entry@)
}

impl View for Scan {
    type V = ScanModel;

    open spec fn view(&self) -> ScanModel {
        ScanModel {
            slots: entry_models(self.slots@),
            selected: self.selected_slot,
            next_page_id: self.next_page_id,
            pending_jobs: self.pending_jobs,
            editing: crate::file_actions::optional_path(self.editing_target),
            dirty: self.edit_dirty,
        }
    }
}

/// Where the page with a number stands, from `i` on; the length where there is none.
pub open spec fn slot_from(slots: Seq<EntryModel>, id: u64, i: int) -> int
    decreases slots.len() - i,
{
    if i >= slots.len() {
        slots.len() as int
    } else if slots[i].id == id {
        i
    } else {
        slot_from(slots, id, i + 1)
    }
}

pub open spec fn slot_of(slots: Seq<EntryModel>, id: u64) -> int {
    slot_from(slots, id, 0)
}

/// Where the page with a number stands that waits for its photograph, from `i` on; the
/// length where there is none.
pub open spec fn waiting_from(slots: Seq<EntryModel>, id: u64, i: int) -> int
    decreases slots.len() - i,
{
    if i >= slots.len() {
        slots.len() as int
    } else if slots[i].id == id && slots[i].slot == SlotModel::Processing {
        i
    } else {
        waiting_from(slots, id, i + 1)
    }
}

pub open spec fn waiting_slot(slots: Seq<EntryModel>, id: u64) -> int {
    waiting_from(slots, id, 0)
}

pub(crate) proof fn lemma_waiting_bounds(slots: Seq<EntryModel>, id: u64, i: int)
    requires
        0 <= i <= slots.len(),
    ensures
        ({
            let found = waiting_from(slots, id, i);
            &&& i <= found <= slots.len()
            &&& found < slots.len() ==> slots[found].id == id && slots[found].slot
                == SlotModel::Processing
        }),
    decreases slots.len() - i,
{
    if i < slots.len() {
        lemma_waiting_bounds(slots, id, i + 1);
    }
}

/// The numbers of the pages, in order.
pub open spec fn page_ids(slots: Seq<EntryModel>) -> Seq<u64> {
    slots.map_values(|entry: EntryModel| entry.id)
}

impl ScanModel {
    /// No number is used twice, and none that is still to be given out.
    pub open spec fn wf(self) -> bool {
        &&& forall|i: int, j: int|
            0 <= i < j < self.slots.len() ==> (#[trigger] self.slots[i]).id != (
            #[trigger] self.slots[j]).id
        &&& forall|i: int| 0 <= i < self.slots.len() ==> (#[trigger] self.slots[i]).id
            < self.next_page_id
    }

    /// The document marked as changed, where it is one that is being edited.
    pub open spec fn touched(self) -> ScanModel {
        ScanModel { dirty: self.dirty || self.editing is Some, ..self }
    }

    /// One job less.
    pub open spec fn job_done(self) -> ScanModel {
        ScanModel {
            pending_jobs: if self.pending_jobs > 0 {
                (self.pending_jobs - 1) as usize
            } else {
                0
            },
            ..self
        }
    }

    /// The document with another page at a place.
    pub open spec fn with_entry(self, i: int, entry: EntryModel) -> ScanModel {
        ScanModel { slots: self.slots.update(i, entry), ..self }
    }

    /// A photograph was taken.
    pub open spec fn captured(self) -> ScanModel {
        ScanModel {
            slots: self.slots.push(
                EntryModel { id: self.next_page_id, revision: 0, slot: SlotModel::Processing },
            ),
            next_page_id: (self.next_page_id + 1) as u64,
            pending_jobs: (self.pending_jobs + 1) as usize,
            ..self
        }.touched()
    }

    /// A photograph became a page. It is taken in only where a page still waits for it.
    pub open spec fn page_ready(self, id: u64, data: DataModel) -> ScanModel {
        let done = self.job_done();
        let i = waiting_slot(self.slots, id);
        if i < self.slots.len() {
            done.with_entry(
                i,
                EntryModel { id, revision: self.slots[i].revision, slot: SlotModel::Ready(data) },
            )
        } else {
            done
        }
    }

    /// A photograph could not be made into a page.
    pub open spec fn page_failed(self, id: u64, original: Seq<u8>, error: Seq<char>) -> ScanModel {
        let done = self.job_done();
        let i = slot_of(self.slots, id);
        if i < self.slots.len() {
            done.with_entry(
                i,
                EntryModel {
                    id,
                    revision: self.slots[i].revision,
                    slot: SlotModel::Failed { original_jpeg: original, error, quarter_turns: 0 },
                },
            )
        } else {
            done
        }
    }

    /// A new crop was applied. The photograph and the turns stay.
    pub open spec fn reprocessed(
        self,
        id: u64,
        page: PageModel,
        thumbnail: RasterModel,
        corners: CropCorners,
    ) -> ScanModel {
        let done = self.job_done();
        let i = slot_of(self.slots, id);
        if i < self.slots.len() {
            match self.slots[i].slot {
                SlotModel::Reprocessing { original_jpeg, quarter_turns, previous } =>
                    done.with_entry(
                    i,
                    EntryModel {
                        id,
                        revision: (self.slots[i].revision + 1) as u64,
                        slot: SlotModel::Ready(
                            DataModel { page, thumbnail, original_jpeg, corners, quarter_turns },
                        ),
                    },
                ),
                _ => done,
            }
        } else {
            done
        }
    }

    /// A new crop could not be applied: the page is as it was before.
    pub open spec fn reprocess_failed(self, id: u64, error: Seq<char>) -> ScanModel {
        let done = self.job_done();
        let i = slot_of(self.slots, id);
        if i < self.slots.len() {
            match self.slots[i].slot {
                SlotModel::Reprocessing { original_jpeg, quarter_turns, previous } =>
                    done.with_entry(
                    i,
                    EntryModel {
                        id,
                        revision: self.slots[i].revision,
                        slot: rolled_back(previous, original_jpeg, quarter_turns, error),
                    },
                ),
                _ => done,
            }
        } else {
            done
        }
    }

    /// A page is being given a new crop; what it was is kept aside.
    pub open spec fn reprocessing(self, i: int) -> ScanModel {
        let entry = self.slots[i];
        let changed = match entry.slot {
            SlotModel::Ready(data) => Some(
                SlotModel::Reprocessing {
                    original_jpeg: data.original_jpeg,
                    quarter_turns: data.quarter_turns,
                    previous: Some(DataModel { original_jpeg: Seq::empty(), ..data }),
                },
            ),
            SlotModel::Failed { original_jpeg, error, quarter_turns } => Some(
                SlotModel::Reprocessing { original_jpeg, quarter_turns, previous: None },
            ),
            _ => None,
        };
        match changed {
            Some(slot) => ScanModel {
                slots: self.slots.update(i, EntryModel { slot, ..entry }),
                pending_jobs: (self.pending_jobs + 1) as usize,
                ..self
            }.touched(),
            None => self,
        }
    }

    /// The page at a place turned by a quarter; nothing but its turns changes.
    pub open spec fn rotated(self, i: int) -> ScanModel {
        let entry = self.slots[i];
        match entry.slot {
            SlotModel::Ready(data) => self.with_entry(
                i,
                EntryModel {
                    id: entry.id,
                    revision: (entry.revision + 1) as u64,
                    slot: SlotModel::Ready(
                        DataModel { quarter_turns: ((data.quarter_turns + 1) % 4) as u8, ..data },
                    ),
                },
            ).touched(),
            _ => self,
        }
    }

    /// The document without the page at a place; the next one is selected.
    pub open spec fn without_page(self, i: int) -> ScanModel {
        let left = self.slots.remove(i);
        ScanModel {
            slots: left,
            selected: if left.len() == 0 {
                None
            } else if i < left.len() {
                Some(i as usize)
            } else {
                Some((left.len() - 1) as usize)
            },
            ..self
        }.touched()
    }

    /// The document with two neighbouring pages swapped; the selection goes along.
    pub open spec fn swapped(self, i: int, j: int) -> ScanModel {
        ScanModel {
            slots: self.slots.update(i, self.slots[j]).update(j, self.slots[i]),
            selected: Some(j as usize),
            ..self
        }.touched()
    }

    /// Whether the document can be saved: every page is finished.
    pub open spec fn savable(self) -> bool {
        &&& self.slots.len() > 0
        &&& self.pending_jobs == 0
        &&& forall|i: int| 0 <= i < self.slots.len() ==> (#[trigger] self.slots[i]).slot is Ready
    }
}

/// What a page was before a crop that failed.
pub open spec fn rolled_back(
    previous: Option<DataModel>,
    original: Seq<u8>,
    quarter_turns: u8,
    error: Seq<char>,
) -> SlotModel {
    match previous {
        Some(previous) => SlotModel::Ready(DataModel { original_jpeg: original, ..previous }),
        None => SlotModel::Failed { original_jpeg: original, error, quarter_turns },
    }
}

/// A crop that fails leaves the page exactly as it was, with its photograph and its
/// thumbnail.
pub proof fn law_failed_crop_restores_the_page(
    before: ScanModel,
    i: int,
    data: DataModel,
    error: Seq<char>,
)
    requires
        before.wf(),
        0 <= i < before.slots.len(),
        before.slots[i].slot == SlotModel::Ready(data),
        before.pending_jobs < usize::MAX,
    ensures
        before.reprocessing(i).reprocess_failed(before.slots[i].id, error).slots == before.slots,
        before.reprocessing(i).reprocess_failed(before.slots[i].id, error).pending_jobs
            == before.pending_jobs,
{
    let during = before.reprocessing(i);
    let id = before.slots[i].id;
    lemma_slot_found(during.slots, id, i);
    let after = during.reprocess_failed(id, error);
    assert(DataModel { original_jpeg: data.original_jpeg, ..DataModel {
        original_jpeg: Seq::empty(),
        ..data
    } } =~= data);
    assert(after.slots =~= before.slots);
}

/// Four quarter turns give the page back as it was.
pub proof fn law_four_turns_change_nothing(before: ScanModel, i: int, data: DataModel)
    requires
        0 <= i < before.slots.len(),
        before.slots[i].slot == SlotModel::Ready(data),
        data.quarter_turns < 4,
        before.slots[i].revision <= u64::MAX - 4,
    ensures
        before.rotated(i).rotated(i).rotated(i).rotated(i).slots[i].slot == before.slots[i].slot,
{
    let after = before.rotated(i).rotated(i).rotated(i).rotated(i);
    assert(after.slots[i].slot->Ready_0 =~= data);
}

/// What happens to one page leaves every other page alone.
pub proof fn law_pages_are_independent(
    before: ScanModel,
    i: int,
    k: int,
    data: DataModel,
    original: Seq<u8>,
    error: Seq<char>,
)
    requires
        before.wf(),
        0 <= i < before.slots.len(),
        0 <= k < before.slots.len(),
        i != k,
    ensures
        before.page_ready(before.slots[i].id, data).slots[k] == before.slots[k],
        before.page_failed(before.slots[i].id, original, error).slots[k] == before.slots[k],
        before.reprocessed(
            before.slots[i].id,
            data.page,
            data.thumbnail,
            data.corners,
        ).slots[k] == before.slots[k],
        before.reprocess_failed(before.slots[i].id, error).slots[k] == before.slots[k],
        before.reprocessing(i).slots[k] == before.slots[k],
        before.rotated(i).slots[k] == before.slots[k],
{
    lemma_slot_found(before.slots, before.slots[i].id, i);
    lemma_waiting_bounds(before.slots, before.slots[i].id, 0);
}

pub proof fn lemma_slot_bounds(slots: Seq<EntryModel>, id: u64, i: int)
    requires
        0 <= i <= slots.len(),
    ensures
        i <= slot_from(slots, id, i) <= slots.len(),
        slot_from(slots, id, i) < slots.len() ==> slots[slot_from(slots, id, i)].id == id,
        slot_from(slots, id, i) == slots.len() ==> forall|k: int|
            i <= k < slots.len() ==> (#[trigger] slots[k]).id != id,
    decreases slots.len() - i,
{
    if i < slots.len() && slots[i].id != id {
        lemma_slot_bounds(slots, id, i + 1);
    }
}

proof fn lemma_slot_found(slots: Seq<EntryModel>, id: u64, i: int)
    requires
        0 <= i < slots.len(),
        slots[i].id == id,
        forall|a: int, b: int|
            0 <= a < b < slots.len() ==> (#[trigger] slots[a]).id != (#[trigger] slots[b]).id,
    ensures
        slot_of(slots, id) == i,
{
    lemma_slot_bounds(slots, id, 0);
    let found = slot_of(slots, id);
    if found < i {
        assert(slots[found].id != slots[i].id);
    } else if found > i && found < slots.len() {
        assert(slots[i].id != slots[found].id);
    }
}

/// The message for a crop that failed.
pub open spec fn crop_failure(had_previous: bool, error: Seq<char>) -> Seq<char> {
    if had_previous {
        "Nie udało się zastosować kadru. Zachowano poprzednią wersję strony: "@ + error
    } else {
        "Nie udało się zastosować kadru. Strona nadal wymaga poprawy: "@ + error
    }
}

pub fn reprocess_failure_message(had_previous: bool, error: &str) -> (r: String)
    ensures
        r@ == crop_failure(had_previous, error@),
{
    let mut message: String = if had_previous {
        "Nie udało się zastosować kadru. Zachowano poprzednią wersję strony: ".to_owned()
    } else {
        "Nie udało się zastosować kadru. Strona nadal wymaga poprawy: ".to_owned()
    };
    message.append(error);
    message
}

/// What a page becomes when a crop fails.
pub fn rollback_reprocessing(
    previous: Option<PageData>,
    original_jpeg: Vec<u8>,
    quarter_turns: u8,
    error: String,
) -> (r: PageSlot)
    ensures
        r@ == rolled_back(data_option(previous), original_jpeg@, quarter_turns, error@),
{
    match previous {
        Some(previous) => {
            let restored: PageData = PageData {
                page: previous.page,
                original_jpeg,
                corners: previous.corners,
                quarter_turns: previous.quarter_turns,
            };
            assert(restored@ =~= DataModel { original_jpeg: original_jpeg@, ..previous@ });
            PageSlot::Ready(restored)
        },
        None => PageSlot::Failed { original_jpeg, error, quarter_turns },
    }
}

/// Whether a page has a photograph that can be cropped anew.
pub open spec fn has_original(slot: SlotModel) -> bool {
    match slot {
        SlotModel::Ready(data) => data.original_jpeg.len() > 0,
        SlotModel::Failed { original_jpeg, error: _, quarter_turns: _ } => original_jpeg.len() > 0,
        _ => false,
    }
}

pub fn slot_has_editable_original(slot: &PageSlot) -> (r: bool)
    ensures
        r == has_original(slot@),
{
    match slot {
        PageSlot::Ready(data) => data.original_jpeg.len() > 0,
        PageSlot::Failed { original_jpeg, error: _, quarter_turns: _ } => original_jpeg.len() > 0,
        _ => false,
    }
}

/// The command that keeps a page of the session.
pub open spec fn writes_page(command: SessionCommand, id: u64, data: DataModel) -> bool {
    match command {
        SessionCommand::WritePage { id: written, page, original_jpeg, corners, quarter_turns } => {
            &&& written == id
            &&& page@ == data.page
            &&& original_jpeg@ == data.original_jpeg
            &&& corners == data.corners
            &&& quarter_turns == data.quarter_turns
        },
        _ => false,
    }
}

pub(crate) fn write_command(id: u64, data: &PageData) -> (r: SessionCommand)
    ensures
        writes_page(r, id, data@),
{
    SessionCommand::WritePage {
        id,
        page: data.page.encoded(),
        original_jpeg: copy_bytes(&data.original_jpeg),
        corners: data.corners,
        quarter_turns: data.quarter_turns,
    }
}

proof fn lemma_replaced(slots: Seq<SlotEntry>, i: int, entry: SlotEntry)
    requires
        0 <= i < slots.len(),
    ensures
        entry_models(slots.remove(i).insert(i, entry)) == entry_models(slots).update(i, entry@),
{
    assert(entry_models(slots.remove(i).insert(i, entry)) =~= entry_models(slots).update(i, entry@));
}

impl Scan {
    /// An empty document. Numbers go on from those already given out.
    pub fn new(next_page_id: u64) -> (r: Scan)
        ensures
            r@ == (ScanModel {
                slots: Seq::empty(),
                selected: None,
                next_page_id,
                pending_jobs: 0,
                editing: None,
                dirty: false,
            }),
            r@.wf(),
    {
        let scan: Scan = Scan {
            slots: Vec::new(),
            selected_slot: None,
            next_page_id,
            pending_jobs: 0,
            editing_target: None,
            edit_dirty: false,
        };
        assert(scan@.slots =~= Seq::<EntryModel>::empty());
        scan
    }

    fn find(&self, id: u64) -> (r: usize)
        ensures
            r == slot_of(self@.slots, id),
            r <= self.slots.len(),
            r < self.slots.len() ==> self.slots[r as int].id == id,
    {
        let ghost slots = self@.slots;
        let mut i: usize = 0;
        while i < self.slots.len()
            invariant
                i <= self.slots.len(),
                slots == self@.slots,
                slot_of(slots, id) == slot_from(slots, id, i as int),
            decreases self.slots.len() - i,
        {
            assert(slots[i as int] == self.slots[i as int]@);
            if self.slots[i].id == id {
                return i;
            }
            i = i + 1;
        }
        i
    }

    fn find_waiting(&self, id: u64) -> (r: usize)
        ensures
            r == waiting_slot(self@.slots, id),
            r <= self.slots.len(),
    {
        let ghost slots = self@.slots;
        let mut i: usize = 0;
        while i < self.slots.len()
            invariant
                i <= self.slots.len(),
                slots == self@.slots,
                waiting_slot(slots, id) == waiting_from(slots, id, i as int),
            decreases self.slots.len() - i,
        {
            assert(slots[i as int] == self.slots[i as int]@);
            if self.slots[i].id == id {
                if let PageSlot::Processing = &self.slots[i].slot {
                    return i;
                }
            }
            i = i + 1;
        }
        i
    }

    fn touch(&mut self)
        ensures
            final(self)@ == old(self)@.touched(),
            final(self).slots == old(self).slots,
    {
        if self.editing_target.is_some() {
            self.edit_dirty = true;
        }
    }

    fn finish_job(&mut self)
        ensures
            final(self)@ == old(self)@.job_done(),
            final(self).slots == old(self).slots,
    {
        self.pending_jobs = self.pending_jobs.saturating_sub(1);
    }

    fn put(&mut self, i: usize, entry: SlotEntry)
        requires
            i <= old(self).slots.len(),
        ensures
            final(self).slots@ == old(self).slots@.insert(i as int, entry),
            final(self)@ == (ScanModel {
                slots: entry_models(old(self).slots@.insert(i as int, entry)),
                ..old(self)@
            }),
    {
        self.slots.insert(i, entry);
    }

    /// A photograph was taken; the number of its page comes back.
    pub fn note_captured(&mut self) -> (r: u64)
        requires
            old(self).next_page_id < u64::MAX,
            old(self).pending_jobs < usize::MAX,
        ensures
            final(self)@ == old(self)@.captured(),
            old(self)@.wf() ==> final(self)@.wf(),
            r == old(self)@.next_page_id,
    {
        let id: u64 = self.next_page_id;
        let ghost before = self@;
        self.next_page_id = self.next_page_id + 1;
        self.slots.push(SlotEntry { id, revision: 0, slot: PageSlot::Processing });
        self.pending_jobs = self.pending_jobs + 1;
        self.touch();
        assert(self@.slots =~= before.captured().slots);
        id
    }

    /// A photograph became a page; what is to be kept of it comes back.
    pub fn page_ready(
        &mut self,
        id: u64,
        page: ScannedPage,
        original_jpeg: Vec<u8>,
        corners: CropCorners,
    ) -> (r: Option<SessionCommand>)
        ensures
            final(self)@ == old(self)@.page_ready(
                id,
                DataModel {
                    page: page.model(),
                    thumbnail: page.review_image@,
                    original_jpeg: original_jpeg@,
                    corners,
                    quarter_turns: 0,
                },
            ),
            old(self)@.wf() ==> final(self)@.wf(),
            r is Some <==> waiting_slot(old(self)@.slots, id) < old(self)@.slots.len(),
            r matches Some(command) ==> writes_page(
                command,
                id,
                DataModel {
                    page: page.model(),
                    thumbnail: page.review_image@,
                    original_jpeg: original_jpeg@,
                    corners,
                    quarter_turns: 0,
                },
            ),
    {
        let ghost before = self@;
        self.finish_job();
        let i: usize = self.find_waiting(id);
        if i >= self.slots.len() {
            return None;
        }
        let ghost all = self.slots@;
        proof {
            lemma_waiting_bounds(before.slots, id, 0);
        }
        assert(before.slots[i as int] == all[i as int]@);
        let old_entry: SlotEntry = self.slots.remove(i);
        let data: PageData = PageData { page, original_jpeg, corners, quarter_turns: 0 };
        let command: SessionCommand = write_command(id, &data);
        let entry: SlotEntry = SlotEntry {
            id,
            revision: old_entry.revision,
            slot: PageSlot::Ready(data),
        };
        proof {
            lemma_replaced(all, i as int, entry);
        }
        self.put(i, entry);
        assert(self@.slots =~= before.slots.update(i as int, entry@));
        Some(command)
    }

    /// A photograph could not be made into a page.
    pub fn page_failed(&mut self, id: u64, original_jpeg: Vec<u8>, error: String)
        ensures
            final(self)@ == old(self)@.page_failed(id, original_jpeg@, error@),
            old(self)@.wf() ==> final(self)@.wf(),
    {
        let ghost before = self@;
        self.finish_job();
        let i: usize = self.find(id);
        if i >= self.slots.len() {
            return;
        }
        let ghost all = self.slots@;
        assert(before.slots[i as int] == all[i as int]@);
        let old_entry: SlotEntry = self.slots.remove(i);
        let entry: SlotEntry = SlotEntry {
            id,
            revision: old_entry.revision,
            slot: PageSlot::Failed { original_jpeg, error, quarter_turns: 0 },
        };
        proof {
            lemma_replaced(all, i as int, entry);
        }
        self.put(i, entry);
        assert(self@.slots =~= before.slots.update(i as int, entry@));
    }

    /// A new crop was applied; what is to be kept of the page comes back.
    pub fn reprocess_done(&mut self, id: u64, page: ScannedPage, corners: CropCorners) -> (r: Option<
        SessionCommand,
    >)
        requires
            forall|i: int|
                0 <= i < old(self)@.slots.len() ==> (#[trigger] old(self)@.slots[i]).revision
                    < u64::MAX,
        ensures
            final(self)@ == old(self)@.reprocessed(
                id,
                page.model(),
                page.review_image@,
                corners,
            ),
            old(self)@.wf() ==> final(self)@.wf(),
            ({
                let i = slot_of(old(self)@.slots, id);
                r is Some <==> i < old(self)@.slots.len()
                    && old(self)@.slots[i].slot is Reprocessing
            }),
            r matches Some(command) ==> {
                let i = slot_of(old(self)@.slots, id);
                writes_page(command, id, final(self)@.slots[i].slot->Ready_0)
            },
    {
        let ghost before = self@;
        self.finish_job();
        let i: usize = self.find(id);
        if i >= self.slots.len() {
            return None;
        }
        let ghost all = self.slots@;
        assert(before.slots[i as int] == all[i as int]@);
        match self.slots[i].slot {
            PageSlot::Reprocessing { .. } => {},
            _ => {
                return None;
            },
        }
        let old_entry: SlotEntry = self.slots.remove(i);
        match old_entry.slot {
            PageSlot::Reprocessing { original_jpeg, quarter_turns, previous: _ } => {
                let data: PageData = PageData { page, original_jpeg, corners, quarter_turns };
                let command: SessionCommand = write_command(id, &data);
                let entry: SlotEntry = SlotEntry {
                    id,
                    revision: old_entry.revision + 1,
                    slot: PageSlot::Ready(data),
                };
                proof {
                    lemma_replaced(all, i as int, entry);
                }
                self.put(i, entry);
                assert(self@.slots =~= before.slots.update(i as int, entry@));
                Some(command)
            },
            _ => None,
        }
    }

    /// A new crop could not be applied; the message for it comes back.
    pub fn reprocess_failed(&mut self, id: u64, error: String) -> (r: Option<String>)
        ensures
            final(self)@ == old(self)@.reprocess_failed(id, error@),
            old(self)@.wf() ==> final(self)@.wf(),
            ({
                let i = slot_of(old(self)@.slots, id);
                r is Some <==> i < old(self)@.slots.len()
                    && old(self)@.slots[i].slot is Reprocessing
            }),
            r matches Some(message) ==> {
                let i = slot_of(old(self)@.slots, id);
                message@ == crop_failure(
                    old(self)@.slots[i].slot->Reprocessing_previous is Some,
                    error@,
                )
            },
    {
        let ghost before = self@;
        self.finish_job();
        let i: usize = self.find(id);
        if i >= self.slots.len() {
            return None;
        }
        let ghost all = self.slots@;
        assert(before.slots[i as int] == all[i as int]@);
        match self.slots[i].slot {
            PageSlot::Reprocessing { .. } => {},
            _ => {
                return None;
            },
        }
        let old_entry: SlotEntry = self.slots.remove(i);
        match old_entry.slot {
            PageSlot::Reprocessing { original_jpeg, quarter_turns, previous } => {
                let message: String = reprocess_failure_message(
                    previous.is_some(),
                    error.as_str(),
                );
                let entry: SlotEntry = SlotEntry {
                    id,
                    revision: old_entry.revision,
                    slot: rollback_reprocessing(previous, original_jpeg, quarter_turns, error),
                };
                proof {
                    lemma_replaced(all, i as int, entry);
                }
                self.put(i, entry);
                assert(self@.slots =~= before.slots.update(i as int, entry@));
                Some(message)
            },
            _ => None,
        }
    }

    /// A page is given a new crop: it waits for it, and what it was is kept aside. Only a
    /// finished page or a failed one can be.
    pub fn start_reprocess(&mut self, i: usize)
        requires
            i < old(self).slots.len(),
            old(self).pending_jobs < usize::MAX,
        ensures
            final(self)@ == old(self)@.reprocessing(i as int),
            old(self)@.wf() ==> final(self)@.wf(),
    {
        let ghost before = self@;
        let ghost all = self.slots@;
        assert(before.slots[i as int] == all[i as int]@);
        match self.slots[i].slot {
            PageSlot::Ready(_) => {},
            PageSlot::Failed { .. } => {},
            _ => {
                return;
            },
        }
        let old_entry: SlotEntry = self.slots.remove(i);
        let slot: PageSlot = match old_entry.slot {
            PageSlot::Ready(data) => {
                let quarter_turns: u8 = data.quarter_turns;
                let kept: PageData = PageData {
                    page: data.page,
                    original_jpeg: Vec::new(),
                    corners: data.corners,
                    quarter_turns,
                };
                assert(kept@ =~= (DataModel { original_jpeg: Seq::empty(), ..data@ }));
                PageSlot::Reprocessing {
                    original_jpeg: data.original_jpeg,
                    quarter_turns,
                    previous: Some(kept),
                }
            },
            PageSlot::Failed { original_jpeg, error: _, quarter_turns } => PageSlot::Reprocessing {
                original_jpeg,
                quarter_turns,
                previous: None,
            },
            other => other,
        };
        let entry: SlotEntry = SlotEntry {
            id: old_entry.id,
            revision: old_entry.revision,
            slot,
        };
        proof {
            lemma_replaced(all, i as int, entry);
        }
        self.put(i, entry);
        self.pending_jobs = self.pending_jobs + 1;
        self.touch();
        assert(self@.slots =~= before.reprocessing(i as int).slots);
    }

    /// Whether the document can be saved.
    pub fn can_save(&self) -> (r: bool)
        ensures
            r == self@.savable(),
    {
        if self.slots.len() == 0 || self.pending_jobs != 0 {
            assert(self@.slots.len() == self.slots.len());
            return false;
        }
        let ghost slots = self@.slots;
        let mut i: usize = 0;
        while i < self.slots.len()
            invariant
                i <= self.slots.len(),
                slots == self@.slots,
                forall|k: int| 0 <= k < i ==> (#[trigger] slots[k]).slot is Ready,
            decreases self.slots.len() - i,
        {
            assert(slots[i as int] == self.slots[i as int]@);
            match self.slots[i].slot {
                PageSlot::Ready(_) => {},
                _ => {
                    return false;
                },
            }
            i = i + 1;
        }
        true
    }

    /// Turns the selected page, if it is finished. What is to be kept comes back. The
    /// bytes of the page never change for it.
    pub fn rotate_selected_page(&mut self) -> (r: Option<SessionCommand>)
        requires
            forall|i: int|
                0 <= i < old(self)@.slots.len() ==> (#[trigger] old(self)@.slots[i]).revision
                    < u64::MAX,
        ensures
            final(self)@ == match old(self).selected_slot {
                Some(i) => if i < old(self)@.slots.len() {
                    old(self)@.rotated(i as int)
                } else {
                    old(self)@
                },
                None => old(self)@,
            },
            old(self)@.wf() ==> final(self)@.wf(),
            r is Some <==> old(self).selected_slot is Some && old(self).selected_slot->Some_0
                < old(self)@.slots.len()
                && old(self)@.slots[old(self).selected_slot->Some_0 as int].slot is Ready,
            r matches Some(command) ==> {
                let i = old(self).selected_slot->Some_0 as int;
                writes_page(command, final(self)@.slots[i].id, final(self)@.slots[i].slot->Ready_0)
            },
    {
        let ghost before = self@;
        let i: usize = match self.selected_slot {
            Some(i) => i,
            None => {
                return None;
            },
        };
        if i >= self.slots.len() {
            assert(self@.slots.len() == self.slots.len());
            return None;
        }
        let ghost all = self.slots@;
        assert(before.slots[i as int] == all[i as int]@);
        match self.slots[i].slot {
            PageSlot::Ready(_) => {},
            _ => {
                return None;
            },
        }
        let old_entry: SlotEntry = self.slots.remove(i);
        match old_entry.slot {
            PageSlot::Ready(data) => {
                let turned: PageData = PageData {
                    page: data.page,
                    original_jpeg: data.original_jpeg,
                    corners: data.corners,
                    quarter_turns: (data.quarter_turns % 4 + 1) % 4,
                };
                let command: SessionCommand = write_command(old_entry.id, &turned);
                let entry: SlotEntry = SlotEntry {
                    id: old_entry.id,
                    revision: old_entry.revision + 1,
                    slot: PageSlot::Ready(turned),
                };
                proof {
                    lemma_replaced(all, i as int, entry);
                }
                self.put(i, entry);
                self.touch();
                assert(self@.slots =~= before.rotated(i as int).slots);
                Some(command)
            },
            _ => None,
        }
    }

    /// The numbers of the pages, in order.
    pub fn ids(&self) -> (r: Vec<u64>)
        ensures
            r@ == page_ids(self@.slots),
    {
        let mut ids: Vec<u64> = Vec::new();
        let mut i: usize = 0;
        while i < self.slots.len()
            invariant
                i <= self.slots.len(),
                ids.len() == i,
                forall|k: int| 0 <= k < i ==> #[trigger] ids[k] == self.slots[k].id,
            decreases self.slots.len() - i,
        {
            ids.push(self.slots[i].id);
            i = i + 1;
        }
        assert(ids@ =~= page_ids(self@.slots));
        ids
    }

    /// Deletes a page by its number. What is to be changed in the session comes back: the
    /// page goes, and the order is written anew.
    pub fn delete_page_by_id(&mut self, id: u64) -> (r: Option<Vec<SessionCommand>>)
        ensures
            ({
                let i = slot_of(old(self)@.slots, id);
                &&& r is Some <==> i < old(self)@.slots.len()
                &&& final(self)@ == if i < old(self)@.slots.len() {
                    old(self)@.without_page(i)
                } else {
                    old(self)@
                }
            }),
            old(self)@.wf() ==> final(self)@.wf(),
            r matches Some(commands) ==> {
                &&& commands.len() == 2
                &&& commands[0] == (SessionCommand::RemovePage { id })
                &&& commands[1] matches SessionCommand::SetOrder { ids }
                &&& ids@ == page_ids(final(self)@.slots)
            },
    {
        let ghost before = self@;
        let i: usize = self.find(id);
        if i >= self.slots.len() {
            assert(self@.slots.len() == self.slots.len());
            return None;
        }
        self.slots.remove(i);
        assert(self@.slots =~= before.slots.remove(i as int));
        self.selected_slot = if self.slots.len() == 0 {
            None
        } else if i < self.slots.len() {
            Some(i)
        } else {
            Some(self.slots.len() - 1)
        };
        self.touch();
        proof {
            let after = self@.slots;
            assert forall|a: int, b: int| before.wf() && 0 <= a < b < after.len() implies (
            #[trigger] after[a]).id
                != (#[trigger] after[b]).id by {
                let x = if a < i {
                    a
                } else {
                    a + 1
                };
                let y = if b < i {
                    b
                } else {
                    b + 1
                };
                assert(after[a] == before.slots[x] && after[b] == before.slots[y]);
            }
            assert forall|a: int| before.wf() && 0 <= a < after.len() implies (
            #[trigger] after[a]).id
                < self.next_page_id by {
                let x = if a < i {
                    a
                } else {
                    a + 1
                };
                assert(after[a] == before.slots[x]);
            }
        }
        let mut commands: Vec<SessionCommand> = Vec::new();
        commands.push(SessionCommand::RemovePage { id });
        commands.push(SessionCommand::SetOrder { ids: self.ids() });
        Some(commands)
    }

    /// The number of the selected page.
    pub fn selected_id(&self) -> (r: Option<u64>)
        ensures
            r == match self@.selected {
                Some(i) => if i < self@.slots.len() {
                    Some(self@.slots[i as int].id)
                } else {
                    None
                },
                None => None,
            },
    {
        match self.selected_slot {
            Some(i) => {
                if i < self.slots.len() {
                    Some(self.slots[i].id)
                } else {
                    None
                }
            },
            None => None,
        }
    }

    /// Moves the selected page one place to the left or to the right, where there is one.
    pub fn move_selected_page(&mut self, right: bool) -> (r: Option<SessionCommand>)
        ensures
            ({
                let n = old(self)@.slots.len();
                let i = old(self).selected_slot->Some_0 as int;
                let j = if right {
                    i + 1
                } else {
                    i - 1
                };
                let possible = old(self).selected_slot is Some && i < n && 0 <= j < n;
                &&& r is Some <==> possible
                &&& final(self)@ == if possible {
                    old(self)@.swapped(i, j)
                } else {
                    old(self)@
                }
            }),
            old(self)@.wf() ==> final(self)@.wf(),
            r matches Some(command) ==> {
                &&& command matches SessionCommand::SetOrder { ids }
                &&& ids@ == page_ids(final(self)@.slots)
            },
    {
        let ghost before = self@;
        assert(self@.slots.len() == self.slots.len());
        let i: usize = match self.selected_slot {
            Some(i) => i,
            None => {
                return None;
            },
        };
        if i >= self.slots.len() || (right && i + 1 >= self.slots.len()) || (!right && i == 0) {
            return None;
        }
        let first: usize = if right {
            i
        } else {
            i - 1
        };
        let ghost all = self.slots@;
        let entry: SlotEntry = self.slots.remove(first);
        self.slots.insert(first + 1, entry);
        let target: usize = if right {
            i + 1
        } else {
            i - 1
        };
        self.selected_slot = Some(target);
        self.touch();
        proof {
            assert(self@.slots =~= before.swapped(i as int, target as int).slots);
            let after = self@.slots;
            assert forall|a: int, b: int| before.wf() && 0 <= a < b < after.len() implies (
            #[trigger] after[a]).id
                != (#[trigger] after[b]).id by {
                let x = if a == i {
                    target as int
                } else if a == target {
                    i as int
                } else {
                    a
                };
                let y = if b == i {
                    target as int
                } else if b == target {
                    i as int
                } else {
                    b
                };
                assert(after[a] == before.slots[x] && after[b] == before.slots[y]);
                if x < y {
                    assert(before.slots[x].id != before.slots[y].id);
                } else {
                    assert(before.slots[y].id != before.slots[x].id);
                }
            }
        }
        Some(SessionCommand::SetOrder { ids: self.ids() })
    }
}

/// What becomes of a page when the worker that was making it is gone.
pub open spec fn after_crash(slot: SlotModel) -> SlotModel {
    match slot {
        SlotModel::Processing => SlotModel::Failed {
            original_jpeg: Seq::empty(),
            error: "Przetwarzanie tej strony uległo awarii. Usuń ją i zeskanuj ponownie."@,
            quarter_turns: 0,
        },
        SlotModel::Reprocessing { original_jpeg, quarter_turns, previous } => rolled_back(
            previous,
            original_jpeg,
            quarter_turns,
            "Przetwarzanie kadru uległo awarii."@,
        ),
        other => other,
    }
}

/// Whether a page is waiting for the worker.
pub open spec fn is_waiting(slot: SlotModel) -> bool {
    slot is Processing || slot is Reprocessing
}

/// How many of the first `n` pages wait for the worker.
pub open spec fn waiting_count(slots: Seq<EntryModel>, n: nat) -> nat
    decreases n,
{
    if n == 0 {
        0
    } else {
        waiting_count(slots, (n - 1) as nat) + if is_waiting(slots[n - 1].slot) {
            1nat
        } else {
            0nat
        }
    }
}

impl ScanModel {
    /// The worker is gone: every page that waited for it is shown as failed or put back.
    pub open spec fn recovered(self) -> ScanModel {
        ScanModel {
            slots: Seq::new(
                self.slots.len(),
                |i: int|
                    EntryModel { slot: after_crash(self.slots[i].slot), ..self.slots[i] },
            ),
            pending_jobs: 0,
            ..self
        }
    }
}

/// A crash of the worker leaves finished pages as they are, and no page waiting.
pub proof fn law_crash_spares_finished_pages(scan: ScanModel, i: int)
    requires
        0 <= i < scan.slots.len(),
    ensures
        scan.slots[i].slot is Ready ==> scan.recovered().slots[i] == scan.slots[i],
        !is_waiting(scan.recovered().slots[i].slot),
        scan.recovered().slots.len() == scan.slots.len(),
        scan.recovered().slots[i].id == scan.slots[i].id,
{
}

/// What is said after a crash of the worker.
pub open spec fn crash_message(lost: nat) -> Seq<char> {
    if lost > 0 {
        "Moduł przetwarzania stron uległ awarii i został uruchomiony ponownie. Dotknięte strony ("@
            + decimal(lost)
            + ") oznaczono symbolem ⚠. Wcześniej zeskanowane strony są bezpieczne."@
    } else {
        "Moduł przetwarzania stron uległ awarii i został uruchomiony ponownie."@
    }
}

fn slot_after_crash(slot: PageSlot) -> (r: (PageSlot, bool))
    ensures
        r.0@ == after_crash(slot@),
        r.1 == is_waiting(slot@),
{
    match slot {
        PageSlot::Processing => {
            let failed: PageSlot = PageSlot::Failed {
                original_jpeg: Vec::new(),
                error: "Przetwarzanie tej strony uległo awarii. Usuń ją i zeskanuj ponownie.".to_owned(),
                quarter_turns: 0,
            };
            assert(failed@->Failed_original_jpeg =~= Seq::<u8>::empty());
            (failed, true)
        },
        PageSlot::Reprocessing { original_jpeg, quarter_turns, previous } => (
            rollback_reprocessing(
                previous,
                original_jpeg,
                quarter_turns,
                "Przetwarzanie kadru uległo awarii.".to_owned(),
            ),
            true,
        ),
        other => (other, false),
    }
}

impl Scan {
    /// The worker is gone with the jobs it had. The pages it was making become visible
    /// failures or what they were before; the message comes back.
    pub fn recover_dead_pipeline(&mut self) -> (r: String)
        ensures
            final(self)@ == old(self)@.recovered(),
            old(self)@.wf() ==> final(self)@.wf(),
            r@ == crash_message(waiting_count(old(self)@.slots, old(self)@.slots.len())),
    {
        let ghost before = self@;
        let ghost all = self.slots@;
        let ghost target = before.recovered().slots;
        let mut lost: u64 = 0;
        let mut done: Vec<SlotEntry> = Vec::new();
        let total: usize = self.slots.len();
        let mut i: usize = 0;
        while i < total
            invariant
                i <= total,
                total == all.len(),
                self.slots.len() == total - i,
                forall|k: int| 0 <= k < total - i ==> #[trigger] self.slots@[k] == all[i + k],
                before.slots == entry_models(all),
                target == before.recovered().slots,
                done.len() == i,
                forall|k: int| 0 <= k < i ==> (#[trigger] done[k])@ == target[k],
                lost == waiting_count(before.slots, i as nat),
                lost <= i,
                self.selected_slot == old(self).selected_slot,
                self.next_page_id == old(self).next_page_id,
                self.editing_target == old(self).editing_target,
                self.edit_dirty == old(self).edit_dirty,
            decreases total - i,
        {
            assert(self.slots@[0] == all[i + 0]);
            let entry: SlotEntry = self.slots.remove(0);
            assert(before.slots[i as int] == entry@);
            let (slot, was_waiting): (PageSlot, bool) = slot_after_crash(entry.slot);
            if was_waiting {
                lost = lost + 1;
            }
            let changed: SlotEntry = SlotEntry { id: entry.id, revision: entry.revision, slot };
            assert(changed@ =~= target[i as int]);
            done.push(changed);
            assert forall|k: int| 0 <= k < total - (i + 1) implies #[trigger] self.slots@[k] == all[(i
                + 1) + k] by {
                assert(self.slots@[k] == all[i + (k + 1)]);
            }
            i = i + 1;
        }
        self.slots = done;
        self.pending_jobs = 0;
        assert(self@.slots =~= target);
        proof {
            let after = self@.slots;
            assert forall|a: int, b: int| before.wf() && 0 <= a < b < after.len() implies (
            #[trigger] after[a]).id
                != (#[trigger] after[b]).id by {
                assert(before.slots[a].id != before.slots[b].id);
            }
            assert forall|a: int| before.wf() && 0 <= a < after.len() implies (
            #[trigger] after[a]).id
                < self.next_page_id by {
                assert(before.slots[a].id < before.next_page_id);
            }
        }
        if lost > 0 {
            let mut message: String =
                "Moduł przetwarzania stron uległ awarii i został uruchomiony ponownie. Dotknięte strony (".to_owned();
            message.append(decimal_text(lost).as_str());
            message.append(") oznaczono symbolem ⚠. Wcześniej zeskanowane strony są bezpieczne.");
            message
        } else {
            "Moduł przetwarzania stron uległ awarii i został uruchomiony ponownie.".to_owned()
        }
    }
}

} // verus!
