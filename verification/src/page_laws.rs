//! What working on the pages of a scan does to their list.

use vstd::prelude::*;
use crate::scan::{EntryModel, ScanModel, SlotModel};

verus! {

/// A picture that is taken becomes the last page, with a number of its own, and is worked on;
/// the pages before it stay.
pub proof fn law_new_page_comes_last(before: ScanModel, i: int)
    requires
        before.wf(),
        before.next_page_id < u64::MAX,
        before.pending_jobs < usize::MAX,
        0 <= i < before.slots.len(),
    ensures
        before.captured().slots.len() == before.slots.len() + 1,
        before.captured().slots[i] == before.slots[i],
        before.captured().slots.last().slot is Processing,
        before.captured().slots.last().id != before.slots[i].id,
        before.captured().pending_jobs == before.pending_jobs + 1,
        before.captured().wf(),
{
}

/// A page that is removed is gone, those before it stay where they are and those behind it
/// move up by one; one of the pages that are left is selected.
pub proof fn law_removed_page_closes_the_gap(before: ScanModel, i: int, k: int)
    requires
        0 <= i < before.slots.len(),
        before.slots.len() <= usize::MAX,
        0 <= k < before.slots.len(),
    ensures
        before.without_page(i).slots.len() == before.slots.len() - 1,
        k < i ==> before.without_page(i).slots[k] == before.slots[k],
        k > i ==> before.without_page(i).slots[k - 1] == before.slots[k],
        before.slots.len() == 1 ==> before.without_page(i).selected is None,
        before.slots.len() > 1 && i < before.slots.len() - 1 ==> before.without_page(i).selected
            == Some(i as usize),
        before.slots.len() > 1 && i == before.slots.len() - 1 ==> before.without_page(i).selected
            == Some((i - 1) as usize),
{
}

/// Two pages that change places do so and nothing else moves; the one that was moved stays
/// selected; to swap them once more is to take it back.
pub proof fn law_swapped_pages_change_places(before: ScanModel, i: int, j: int, k: int)
    requires
        0 <= i < before.slots.len(),
        0 <= j < before.slots.len(),
        0 <= k < before.slots.len(),
        before.slots.len() <= usize::MAX,
    ensures
        before.swapped(i, j).slots.len() == before.slots.len(),
        before.swapped(i, j).slots[i] == before.slots[j],
        before.swapped(i, j).slots[j] == before.slots[i],
        k != i && k != j ==> before.swapped(i, j).slots[k] == before.slots[k],
        before.swapped(i, j).selected == Some(j as usize),
        before.swapped(i, j).swapped(i, j).slots == before.slots,
{
    assert(before.swapped(i, j).swapped(i, j).slots =~= before.slots);
}

/// To turn a page adds a quarter turn, and nothing of its picture changes.
pub proof fn law_turned_page_keeps_its_picture(before: ScanModel, i: int)
    requires
        0 <= i < before.slots.len(),
        before.slots[i].slot is Ready,
        before.slots[i].slot->Ready_0.quarter_turns < 4,
        before.slots[i].revision < u64::MAX,
    ensures
        ({
            let old_page = before.slots[i].slot->Ready_0;
            let after = before.rotated(i).slots[i];
            &&& after.slot is Ready
            &&& after.slot->Ready_0.page == old_page.page
            &&& after.slot->Ready_0.original_jpeg == old_page.original_jpeg
            &&& after.slot->Ready_0.corners == old_page.corners
            &&& old_page.quarter_turns < 3 ==> after.slot->Ready_0.quarter_turns
                == old_page.quarter_turns + 1
            &&& old_page.quarter_turns == 3 ==> after.slot->Ready_0.quarter_turns == 0
            &&& after.id == before.slots[i].id
            &&& after.revision > before.slots[i].revision
        }),
{
}

/// A document that is edited counts as changed once a page of it is taken, removed, moved or
/// turned; a new one never does.
pub proof fn law_edited_document_is_changed(before: ScanModel, i: int, j: int)
    requires
        0 <= i < before.slots.len(),
        0 <= j < before.slots.len(),
        before.slots[i].slot is Ready,
    ensures
        before.editing is Some ==> before.captured().dirty && before.without_page(i).dirty
            && before.swapped(i, j).dirty && before.rotated(i).dirty && before.reprocessing(
            i,
        ).dirty,
        before.editing is None && !before.dirty ==> !before.captured().dirty
            && !before.without_page(i).dirty && !before.swapped(i, j).dirty && !before.rotated(
            i,
        ).dirty,
{
}

/// A scan can be saved exactly where it has a page, all its pages are ready and nothing is
/// being worked on.
pub proof fn law_only_ready_pages_are_saved(scan: ScanModel, entry: EntryModel)
    requires
        scan.slots.contains(entry),
        scan.savable(),
    ensures
        entry.slot is Ready,
        !(entry.slot is Failed),
        scan.pending_jobs == 0,
        !scan.captured().savable(),
{
    let i = choose|i: int| 0 <= i < scan.slots.len() && scan.slots[i] == entry;
    assert(scan.slots[i].slot is Ready);
    let after = scan.captured();
    assert(after.slots[scan.slots.len() as int].slot == SlotModel::Processing);
}

} // verus!
