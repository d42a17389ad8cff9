//! What is known of the library, kept up to date as documents and folders change.

use vstd::prelude::*;
use crate::library::LibrarySnapshot;
use crate::library_view::pdf_option;
use crate::order::{sort_stably, sorts_before, text_order, Order};
use crate::paths::{path_models, DocPath, PathModel};
use crate::storage::{
    folder_models, lemma_pdf_models_push, pdf_models, FolderInfo, FolderModel, LowercaseEntry,
    LowercaseRanking, PdfInfo, PdfModel,
};
use crate::text::{chars_of, lowercase_text, text_lowercase};

verus! {

/// Whether a path is in a list.
pub open spec fn lists(paths: Seq<PathModel>, path: PathModel) -> bool {
    exists|i: int| 0 <= i < paths.len() && #[trigger] paths[i] == path
}

pub fn is_listed(paths: &Vec<DocPath>, path: &DocPath) -> (r: bool)
    ensures
        r == lists(path_models(paths@), path@),
{
    let ghost models = path_models(paths@);
    let mut i: usize = 0;
    while i < paths.len()
        invariant
            i <= paths.len(),
            models == path_models(paths@),
            forall|k: int| 0 <= k < i ==> #[trigger] models[k] != path@,
        decreases paths.len() - i,
    {
        assert(models[i as int] == paths[i as int]@);
        if paths[i].same(path) {
            return true;
        }
        i = i + 1;
    }
    false
}

/// The documents of a folder, in order.
pub open spec fn pdfs_in(pdfs: Seq<PdfModel>, folder: PathModel) -> Seq<PdfModel> {
    pdfs.filter(|pdf: PdfModel| pdf.folder_path == folder)
}

/// The documents that are not among some paths.
pub open spec fn pdfs_except(pdfs: Seq<PdfModel>, gone: Seq<PathModel>) -> Seq<PdfModel> {
    pdfs.filter(|pdf: PdfModel| !lists(gone, pdf.path))
}

/// Picks the documents of a folder.
pub fn folder_pdfs(pdfs: &Vec<PdfInfo>, folder: &DocPath) -> (r: Vec<PdfInfo>)
    ensures
        pdf_models(r@) == pdfs_in(pdf_models(pdfs@), folder@),
{
    let ghost models = pdf_models(pdfs@);
    let mut found: Vec<PdfInfo> = Vec::new();
    let mut i: usize = 0;
    proof {
        reveal(Seq::filter);
        assert(pdf_models(found@) =~= pdfs_in(models.take(0), folder@));
    }
    while i < pdfs.len()
        invariant
            i <= pdfs.len(),
            models == pdf_models(pdfs@),
            pdf_models(found@) == pdfs_in(models.take(i as int), folder@),
        decreases pdfs.len() - i,
    {
        proof {
            reveal(Seq::filter);
            assert(models.take(i + 1).drop_last() =~= models.take(i as int));
            assert(models.take(i + 1).last() == pdfs[i as int]@);
        }
        if pdfs[i].folder_path.same(folder) {
            let copy: PdfInfo = pdfs[i].copy();
            proof {
                lemma_pdf_models_push(found@, copy);
            }
            found.push(copy);
        }
        i = i + 1;
    }
    assert(models.take(i as int) =~= models);
    found
}

fn keep_except(pdfs: &Vec<PdfInfo>, gone: &Vec<DocPath>) -> (r: Vec<PdfInfo>)
    ensures
        pdf_models(r@) == pdfs_except(pdf_models(pdfs@), path_models(gone@)),
{
    let ghost models = pdf_models(pdfs@);
    let ghost places = path_models(gone@);
    let mut kept: Vec<PdfInfo> = Vec::new();
    let mut i: usize = 0;
    proof {
        reveal(Seq::filter);
        assert(pdf_models(kept@) =~= pdfs_except(models.take(0), places));
    }
    while i < pdfs.len()
        invariant
            i <= pdfs.len(),
            models == pdf_models(pdfs@),
            places == path_models(gone@),
            pdf_models(kept@) == pdfs_except(models.take(i as int), places),
        decreases pdfs.len() - i,
    {
        proof {
            reveal(Seq::filter);
            assert(models.take(i + 1).drop_last() =~= models.take(i as int));
            assert(models.take(i + 1).last() == pdfs[i as int]@);
        }
        if !is_listed(gone, &pdfs[i].path) {
            let copy: PdfInfo = pdfs[i].copy();
            proof {
                lemma_pdf_models_push(kept@, copy);
            }
            kept.push(copy);
        }
        i = i + 1;
    }
    assert(models.take(i as int) =~= models);
    kept
}

/// The documents once some are gone and others have come. One that comes takes the place
/// of any at its path; one that could not be read is left out.
pub open spec fn updated_pdfs(
    pdfs: Seq<PdfModel>,
    removed: Seq<PathModel>,
    added: Seq<Option<PdfModel>>,
    n: nat,
) -> Seq<PdfModel>
    decreases n,
{
    if n == 0 {
        pdfs_except(pdfs, removed)
    } else {
        let before = updated_pdfs(pdfs, removed, added, (n - 1) as nat);
        match added[n - 1] {
            None => before,
            Some(pdf) => pdfs_except(before, seq![pdf.path]).push(pdf),
        }
    }
}

pub open spec fn pdf_options(pdfs: Seq<Option<PdfInfo>>) -> Seq<Option<PdfModel>> {
    pdfs.map_values(|pdf: Option<PdfInfo>| pdf_option(pdf))
}

/// The documents and folders of the library after documents were moved, saved or removed.
pub open spec fn files_updated(
    folders: Seq<FolderModel>,
    pdfs: Seq<PdfModel>,
    removed: Seq<PathModel>,
    added: Seq<Option<PdfModel>>,
) -> (Seq<FolderModel>, Seq<PdfModel>) {
    if removed.len() == 0 && added.len() == 0 {
        (folders, pdfs)
    } else {
        let now = updated_pdfs(pdfs, removed, added, added.len());
        (recounted(folders, now), now)
    }
}

/// The folders with the number of their documents brought up to date.
pub open spec fn recounted(folders: Seq<FolderModel>, pdfs: Seq<PdfModel>) -> Seq<FolderModel> {
    folders.map_values(
        |folder: FolderModel|
            FolderModel { pdf_count: pdfs_in(pdfs, folder.path).len() as usize, ..folder },
    )
}

proof fn lemma_folder_models_push(list: Seq<FolderInfo>, folder: FolderInfo)
    ensures
        folder_models(list.push(folder)) == folder_models(list).push(folder@),
{
    assert(folder_models(list.push(folder)) =~= folder_models(list).push(folder@));
}

fn recount(folders: &Vec<FolderInfo>, pdfs: &Vec<PdfInfo>) -> (r: Vec<FolderInfo>)
    ensures
        folder_models(r@) == recounted(folder_models(folders@), pdf_models(pdfs@)),
{
    let ghost models = folder_models(folders@);
    let ghost all = pdf_models(pdfs@);
    let mut counted: Vec<FolderInfo> = Vec::new();
    let mut i: usize = 0;
    assert(folder_models(counted@) =~= recounted(models, all).take(0));
    while i < folders.len()
        invariant
            i <= folders.len(),
            models == folder_models(folders@),
            all == pdf_models(pdfs@),
            folder_models(counted@) == recounted(models, all).take(i as int),
        decreases folders.len() - i,
    {
        let inside: Vec<PdfInfo> = folder_pdfs(pdfs, &folders[i].path);
        assert(models[i as int] == folders[i as int]@);
        assert(pdf_models(inside@).len() == inside.len());
        let folder: FolderInfo = FolderInfo {
            name: folders[i].name.clone(),
            path: folders[i].path.copy(),
            pdf_count: inside.len(),
            modified_secs: folders[i].modified_secs,
        };
        proof {
            lemma_folder_models_push(counted@, folder);
            assert(folder@ =~= recounted(models, all)[i as int]);
            assert(recounted(models, all).take(i + 1) =~= recounted(models, all).take(
                i as int,
            ).push(folder@));
        }
        counted.push(folder);
        i = i + 1;
    }
    assert(recounted(models, all).take(i as int) =~= recounted(models, all));
    counted
}

/// Brings the library up to date after documents were moved, saved or removed, without
/// reading it again. For each that comes `added` holds what was read of it, if anything.
pub fn update_snapshot_files(
    snapshot: &mut LibrarySnapshot,
    removed: &Vec<DocPath>,
    added: &Vec<Option<PdfInfo>>,
)
    ensures
        final(snapshot).root@ == old(snapshot).root@,
        (folder_models(final(snapshot).folders@), pdf_models(final(snapshot).pdfs@))
            == files_updated(
            folder_models(old(snapshot).folders@),
            pdf_models(old(snapshot).pdfs@),
            path_models(removed@),
            pdf_options(added@),
        ),
{
    if removed.len() == 0 && added.len() == 0 {
        return ;
    }
    let ghost before = pdf_models(snapshot.pdfs@);
    let ghost gone = path_models(removed@);
    let ghost new = pdf_options(added@);
    let mut pdfs: Vec<PdfInfo> = keep_except(&snapshot.pdfs, removed);
    let mut i: usize = 0;
    while i < added.len()
        invariant
            i <= added.len(),
            gone == path_models(removed@),
            new == pdf_options(added@),
            pdf_models(pdfs@) == updated_pdfs(before, gone, new, i as nat),
        decreases added.len() - i,
    {
        assert(new[i as int] == pdf_option(added[i as int]));
        if let Some(pdf) = &added[i] {
            let mut same_place: Vec<DocPath> = Vec::new();
            same_place.push(pdf.path.copy());
            assert(path_models(same_place@) =~= seq![pdf@.path]);
            pdfs = keep_except(&pdfs, &same_place);
            let copy: PdfInfo = pdf.copy();
            proof {
                lemma_pdf_models_push(pdfs@, copy);
            }
            pdfs.push(copy);
        }
        i = i + 1;
    }
    snapshot.folders = recount(&snapshot.folders, &pdfs);
    snapshot.pdfs = pdfs;
}

/// A document once its folder has been renamed.
pub open spec fn pdf_in_renamed(
    pdf: PdfModel,
    previous: PathModel,
    renamed: FolderModel,
) -> PdfModel {
    if pdf.folder_path != previous {
        pdf
    } else {
        PdfModel {
            path: if pdf.path.is_under(previous) {
                pdf.path.rebased(previous, renamed.path)
            } else {
                pdf.path
            },
            folder_path: renamed.path,
            folder_name: renamed.name,
            ..pdf
        }
    }
}

/// The folders once one of them has been renamed.
pub open spec fn folders_renamed(
    folders: Seq<FolderModel>,
    previous: PathModel,
    renamed: FolderModel,
) -> Seq<FolderModel> {
    folders.map_values(
        |folder: FolderModel|
            if folder.path == previous {
                renamed
            } else {
                folder
            },
    )
}

/// The documents once a folder has been renamed.
pub open spec fn pdfs_renamed(
    pdfs: Seq<PdfModel>,
    previous: PathModel,
    renamed: FolderModel,
) -> Seq<PdfModel> {
    pdfs.map_values(|pdf: PdfModel| pdf_in_renamed(pdf, previous, renamed))
}

/// Brings the library up to date after a folder was renamed.
pub fn update_snapshot_folder(
    snapshot: &mut LibrarySnapshot,
    previous: &DocPath,
    renamed: &FolderInfo,
)
    ensures
        final(snapshot).root@ == old(snapshot).root@,
        folder_models(final(snapshot).folders@) == folders_renamed(
            folder_models(old(snapshot).folders@),
            previous@,
            renamed@,
        ),
        pdf_models(final(snapshot).pdfs@) == pdfs_renamed(
            pdf_models(old(snapshot).pdfs@),
            previous@,
            renamed@,
        ),
{
    let ghost old_folders = folder_models(snapshot.folders@);
    let ghost old_pdfs = pdf_models(snapshot.pdfs@);
    let ghost new_folders = folders_renamed(old_folders, previous@, renamed@);
    let ghost new_pdfs = pdfs_renamed(old_pdfs, previous@, renamed@);
    let mut folders: Vec<FolderInfo> = Vec::new();
    let mut i: usize = 0;
    while i < snapshot.folders.len()
        invariant
            i <= snapshot.folders.len(),
            old_folders == folder_models(snapshot.folders@),
            new_folders.len() == old_folders.len(),
            forall|k: int|
                0 <= k < old_folders.len() ==> #[trigger] new_folders[k] == if old_folders[k].path
                    == previous@ {
                    renamed@
                } else {
                    old_folders[k]
                },
            folders.len() == i,
            forall|k: int| 0 <= k < i ==> (#[trigger] folders[k])@ == new_folders[k],
        decreases snapshot.folders.len() - i,
    {
        assert(old_folders[i as int] == snapshot.folders[i as int]@);
        if snapshot.folders[i].path.same(previous) {
            folders.push(renamed.copy());
        } else {
            folders.push(snapshot.folders[i].copy());
        }
        i = i + 1;
    }
    assert(folder_models(folders@) =~= new_folders);
    let mut pdfs: Vec<PdfInfo> = Vec::new();
    let mut j: usize = 0;
    while j < snapshot.pdfs.len()
        invariant
            j <= snapshot.pdfs.len(),
            old_pdfs == pdf_models(snapshot.pdfs@),
            new_pdfs.len() == old_pdfs.len(),
            forall|k: int|
                0 <= k < old_pdfs.len() ==> #[trigger] new_pdfs[k] == pdf_in_renamed(
                    old_pdfs[k],
                    previous@,
                    renamed@,
                ),
            pdfs.len() == j,
            forall|k: int| 0 <= k < j ==> (#[trigger] pdfs[k])@ == new_pdfs[k],
        decreases snapshot.pdfs.len() - j,
    {
        let pdf: &PdfInfo = &snapshot.pdfs[j];
        assert(old_pdfs[j as int] == pdf@);
        if pdf.folder_path.same(previous) {
            let path: DocPath = match pdf.path.rebase(previous, &renamed.path) {
                Some(path) => path,
                None => pdf.path.copy(),
            };
            pdfs.push(
                PdfInfo {
                    name: pdf.name.clone(),
                    path,
                    folder_name: renamed.name.clone(),
                    folder_path: renamed.path.copy(),
                    size_bytes: pdf.size_bytes,
                    modified_secs: pdf.modified_secs,
                },
            );
        } else {
            pdfs.push(pdf.copy());
        }
        j = j + 1;
    }
    assert(pdf_models(pdfs@) =~= new_pdfs);
    snapshot.folders = folders;
    snapshot.pdfs = pdfs;
}

/// The folders that are not at a path.
pub open spec fn folders_except(folders: Seq<FolderModel>, path: PathModel) -> Seq<FolderModel> {
    folders.filter(|folder: FolderModel| folder.path != path)
}

/// Whether places list every folder once, by its name in lower case.
pub open spec fn are_folder_places(folders: Seq<FolderModel>, places: Seq<usize>) -> bool {
    &&& places.len() == folders.len()
    &&& forall|k: int| 0 <= k < places.len() ==> (#[trigger] places[k]) < folders.len()
    &&& forall|k: int, l: int|
        0 <= k < l < places.len() ==> {
            let order = text_order(
                text_lowercase(folders[#[trigger] places[k] as int].name),
                text_lowercase(folders[#[trigger] places[l] as int].name),
            );
            order == Order::Less || (order == Order::Equal && places[k] < places[l])
        }
}

/// Whether a list is another one sorted by name in lower case.
pub open spec fn is_folder_listing(before: Seq<FolderModel>, after: Seq<FolderModel>) -> bool {
    exists|places: Seq<usize>| #[trigger]
        are_folder_places(before, places) && after == places.map_values(
            |place: usize| before[place as int],
        )
}

fn sort_by_lowercase(folders: Vec<FolderInfo>) -> (r: Vec<FolderInfo>)
    ensures
        is_folder_listing(folder_models(folders@), folder_models(r@)),
{
    let ghost models = folder_models(folders@);
    let mut keys: Vec<LowercaseEntry> = Vec::new();
    let mut i: usize = 0;
    while i < folders.len()
        invariant
            i <= folders.len(),
            models == folder_models(folders@),
            keys.len() == i,
            forall|k: int|
                0 <= k < i ==> (#[trigger] keys[k]).lower@ == text_lowercase(models[k].name),
        decreases folders.len() - i,
    {
        assert(models[i as int] == folders[i as int]@);
        let lower: String = lowercase_text(folders[i].name.as_str());
        keys.push(LowercaseEntry { lower: chars_of(lower.as_str()) });
        i = i + 1;
    }
    let ranking: LowercaseRanking = LowercaseRanking {  };
    let places: Vec<usize> = sort_stably(&ranking, &keys);
    let ghost sorted = places@.map_values(|place: usize| models[place as int]);
    assert(are_folder_places(models, places@)) by {
        assert forall|k: int, l: int| 0 <= k < l < places@.len() implies {
            let order = text_order(
                text_lowercase(models[#[trigger] places@[k] as int].name),
                text_lowercase(models[#[trigger] places@[l] as int].name),
            );
            order == Order::Less || (order == Order::Equal && places@[k] < places@[l])
        } by {
            assert(sorts_before(
                ranking,
                keys@,
                places@[k] as int,
                places@[l] as int,
            ));
        }
    }
    let mut result: Vec<FolderInfo> = Vec::new();
    let mut j: usize = 0;
    while j < places.len()
        invariant
            j <= places.len(),
            models == folder_models(folders@),
            sorted == places@.map_values(|place: usize| models[place as int]),
            forall|k: int| 0 <= k < places.len() ==> (#[trigger] places[k]) < folders.len(),
            result.len() == j,
            forall|k: int| 0 <= k < j ==> (#[trigger] result[k])@ == sorted[k],
        decreases places.len() - j,
    {
        assert(models[places[j as int] as int] == folders[places[j as int] as int]@);
        result.push(folders[places[j]].copy());
        j = j + 1;
    }
    assert(folder_models(result@) =~= sorted);
    result
}

/// Adds a folder to what is known of the library, in place of any at its path.
pub fn upsert_snapshot_folder(snapshot: &mut LibrarySnapshot, folder: &FolderInfo)
    ensures
        final(snapshot).root@ == old(snapshot).root@,
        pdf_models(final(snapshot).pdfs@) == pdf_models(old(snapshot).pdfs@),
        is_folder_listing(
            folders_except(folder_models(old(snapshot).folders@), folder@.path).push(folder@),
            folder_models(final(snapshot).folders@),
        ),
{
    let ghost models = folder_models(snapshot.folders@);
    let mut kept: Vec<FolderInfo> = Vec::new();
    let mut i: usize = 0;
    proof {
        reveal(Seq::filter);
        assert(folder_models(kept@) =~= folders_except(models.take(0), folder@.path));
    }
    while i < snapshot.folders.len()
        invariant
            i <= snapshot.folders.len(),
            models == folder_models(snapshot.folders@),
            folder_models(kept@) == folders_except(models.take(i as int), folder@.path),
        decreases snapshot.folders.len() - i,
    {
        proof {
            reveal(Seq::filter);
            assert(models.take(i + 1).drop_last() =~= models.take(i as int));
            assert(models.take(i + 1).last() == snapshot.folders[i as int]@);
        }
        if !snapshot.folders[i].path.same(&folder.path) {
            let copy: FolderInfo = snapshot.folders[i].copy();
            proof {
                lemma_folder_models_push(kept@, copy);
            }
            kept.push(copy);
        }
        i = i + 1;
    }
    assert(models.take(i as int) =~= models);
    let copy: FolderInfo = folder.copy();
    proof {
        lemma_folder_models_push(kept@, copy);
    }
    kept.push(copy);
    snapshot.folders = sort_by_lowercase(kept);
}

} // verus!
