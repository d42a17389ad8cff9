//! What the library shows, what is selected in it, and what the user asks for.

use vstd::prelude::*;
use crate::file_actions::optional_path;
use crate::library::{
    found_pdfs, is_sorted_from, search_and_sort, LibrarySnapshot, SortMode,
};
use crate::path_set::PathSet;
use crate::paths::{path_models, DocPath, PathModel};
use crate::storage::{folder_models, pdf_models, FolderInfo, FolderModel, PdfInfo, PdfModel};
use crate::text::{chars_of, trim, trimmed};

verus! {

/// The parts of the library.
#[derive(Debug, Clone, Copy, PartialEq, Eq, Structural)]
pub enum LibrarySection {
    Home,
    All,
    Recent,
}

impl Default for LibrarySection {
    fn default() -> (r: LibrarySection)
        ensures
            r == LibrarySection::Home,
    {
        LibrarySection::Home
    }
}

/// What the user asks the program to do.
#[derive(Debug)]
pub enum LibraryAction {
    ChangeSection(LibrarySection),
    SelectFolder(DocPath),
    RenameFolder(DocPath),
    NewFolder,
    NewScan(Option<DocPath>),
    Refresh,
    Open(DocPath),
    Edit(DocPath),
    Rename(DocPath),
    Move(Vec<DocPath>),
    Recycle(Vec<DocPath>),
    OpenFolderInExplorer(DocPath),
    OpenSettings,
}

pub ghost enum ActionModel {
    ChangeSection(LibrarySection),
    SelectFolder(PathModel),
    RenameFolder(PathModel),
    NewFolder,
    NewScan(Option<PathModel>),
    Refresh,
    Open(PathModel),
    Edit(PathModel),
    Rename(PathModel),
    Move(Seq<PathModel>),
    Recycle(Seq<PathModel>),
    OpenFolderInExplorer(PathModel),
    OpenSettings,
}

impl View for LibraryAction {
    type V = ActionModel;

    open spec fn view(&self) -> ActionModel {
        match self {
            LibraryAction::ChangeSection(section) => ActionModel::ChangeSection(*section),
            LibraryAction::SelectFolder(path) => ActionModel::SelectFolder(path@),
            LibraryAction::RenameFolder(path) => ActionModel::RenameFolder(path@),
            LibraryAction::NewFolder => ActionModel::NewFolder,
            LibraryAction::NewScan(path) => ActionModel::NewScan(optional_path(*path)),
            LibraryAction::Refresh => ActionModel::Refresh,
            LibraryAction::Open(path) => ActionModel::Open(path@),
            LibraryAction::Edit(path) => ActionModel::Edit(path@),
            LibraryAction::Rename(path) => ActionModel::Rename(path@),
            LibraryAction::Move(paths) => ActionModel::Move(path_models(paths@)),
            LibraryAction::Recycle(paths) => ActionModel::Recycle(path_models(paths@)),
            LibraryAction::OpenFolderInExplorer(path) => ActionModel::OpenFolderInExplorer(path@),
            LibraryAction::OpenSettings => ActionModel::OpenSettings,
        }
    }
}

pub open spec fn action_models(actions: Seq<LibraryAction>) -> Seq<ActionModel> {
    actions.map_values(|action: LibraryAction| action@)
}

/// What decides which documents are shown.
#[derive(Debug)]
pub struct VisibleCacheKey {
    pub snapshot_revision: u64,
    pub query: String,
    pub sort: SortMode,
    pub section: LibrarySection,
    pub folder_scope: Option<DocPath>,
    pub recent_documents: Vec<DocPath>,
}

#[verifier::ext_equal]
pub struct KeyModel {
    pub snapshot_revision: u64,
    pub query: Seq<char>,
    pub sort: SortMode,
    pub section: LibrarySection,
    pub folder_scope: Option<PathModel>,
    pub recent_documents: Seq<PathModel>,
}

impl View for VisibleCacheKey {
    type V = KeyModel;

    open spec fn view(&self) -> KeyModel {
        KeyModel {
            snapshot_revision: self.snapshot_revision,
            query: self.query@,
            sort: self.sort,
            section: self.section,
            folder_scope: optional_path(self.folder_scope),
            recent_documents: path_models(self.recent_documents@),
        }
    }
}

/// Whether a query asks for nothing.
pub open spec fn is_blank(query: Seq<char>) -> bool {
    trimmed(query).len() == 0
}

fn asks_nothing(query: &str) -> (r: bool)
    ensures
        r == is_blank(query@),
{
    trim(&chars_of(query)).len() == 0
}

/// How many documents the first page shows.
pub const HOME_DOCUMENTS: usize = 12;

/// How many opened documents are remembered.
pub const RECENT_DOCUMENTS: usize = 50;

/// The first document at a path, from place `i` on.
pub open spec fn pdf_at_from(pdfs: Seq<PdfModel>, path: PathModel, i: int) -> Option<PdfModel>
    decreases pdfs.len() - i,
{
    if i >= pdfs.len() {
        None
    } else if pdfs[i].path == path {
        Some(pdfs[i])
    } else {
        pdf_at_from(pdfs, path, i + 1)
    }
}

/// The document at a path.
pub open spec fn pdf_at(pdfs: Seq<PdfModel>, path: PathModel) -> Option<PdfModel> {
    pdf_at_from(pdfs, path, 0)
}

/// The documents at paths, in the order of the paths, at most `limit` of them, among the
/// first `n` paths.
pub open spec fn pdfs_at(
    pdfs: Seq<PdfModel>,
    paths: Seq<PathModel>,
    limit: nat,
    n: nat,
) -> Seq<PdfModel>
    decreases n,
{
    if n == 0 {
        Seq::empty()
    } else {
        let before = pdfs_at(pdfs, paths, limit, (n - 1) as nat);
        match pdf_at(pdfs, paths[n - 1]) {
            Some(pdf) => if before.len() < limit {
                before.push(pdf)
            } else {
                before
            },
            None => before,
        }
    }
}

/// Finds a document of the library.
pub fn find_pdf(pdfs: &Vec<PdfInfo>, path: &DocPath) -> (r: Option<PdfInfo>)
    ensures
        pdf_option(r) == pdf_at(pdf_models(pdfs@), path@),
{
    let ghost models = pdf_models(pdfs@);
    let mut i: usize = 0;
    while i < pdfs.len()
        invariant
            i <= pdfs.len(),
            models == pdf_models(pdfs@),
            pdf_at(models, path@) == pdf_at_from(models, path@, i as int),
        decreases pdfs.len() - i,
    {
        assert(models[i as int] == pdfs[i as int]@);
        if pdfs[i].path.same(path) {
            return Some(pdfs[i].copy());
        }
        i = i + 1;
    }
    None
}

pub open spec fn pdf_option(pdf: Option<PdfInfo>) -> Option<PdfModel> {
    match pdf {
        None => None,
        Some(pdf) => Some(pdf@),
    }
}

/// Whether documents are those that a key asks for.
pub open spec fn are_visible(pdfs: Seq<PdfModel>, key: KeyModel, shown: Seq<PdfModel>) -> bool {
    if !is_blank(key.query) || key.folder_scope is Some {
        is_sorted_from(
            found_pdfs(
                pdfs,
                if is_blank(key.query) {
                    Seq::empty()
                } else {
                    key.query
                },
                key.folder_scope,
            ),
            shown,
            key.sort,
            key.sort.starts_ascending(),
        )
    } else {
        match key.section {
            LibrarySection::All => is_sorted_from(
                found_pdfs(pdfs, Seq::empty(), None),
                shown,
                key.sort,
                key.sort.starts_ascending(),
            ),
            LibrarySection::Home => are_newest(pdfs, shown),
            LibrarySection::Recent => shown == pdfs_at(
                pdfs,
                key.recent_documents,
                RECENT_DOCUMENTS as nat,
                key.recent_documents.len(),
            ),
        }
    }
}

/// Whether documents are the newest ones, as many as the first page shows.
pub open spec fn are_newest(pdfs: Seq<PdfModel>, shown: Seq<PdfModel>) -> bool {
    exists|all: Seq<PdfModel>| #[trigger]
        is_sorted_from(found_pdfs(pdfs, Seq::empty(), None), all, SortMode::Modified, false)
            && shown == first_of(all, HOME_DOCUMENTS as nat)
}

/// The first documents of a list.
pub open spec fn first_of(pdfs: Seq<PdfModel>, n: nat) -> Seq<PdfModel> {
    if pdfs.len() <= n {
        pdfs
    } else {
        pdfs.take(n as int)
    }
}

fn recent_pdfs(pdfs: &Vec<PdfInfo>, paths: &Vec<DocPath>) -> (r: Vec<PdfInfo>)
    ensures
        pdf_models(r@) == pdfs_at(
            pdf_models(pdfs@),
            path_models(paths@),
            RECENT_DOCUMENTS as nat,
            paths@.len(),
        ),
{
    let ghost models = pdf_models(pdfs@);
    let ghost places = path_models(paths@);
    let mut found: Vec<PdfInfo> = Vec::new();
    let mut i: usize = 0;
    assert(pdf_models(found@) =~= Seq::<PdfModel>::empty());
    while i < paths.len()
        invariant
            i <= paths.len(),
            models == pdf_models(pdfs@),
            places == path_models(paths@),
            pdf_models(found@) == pdfs_at(models, places, RECENT_DOCUMENTS as nat, i as nat),
        decreases paths.len() - i,
    {
        assert(places[i as int] == paths[i as int]@);
        if let Some(pdf) = find_pdf(pdfs, &paths[i]) {
            assert(pdf_models(found@).len() == found.len());
            if found.len() < RECENT_DOCUMENTS {
                proof {
                    crate::storage::lemma_pdf_models_push(found@, pdf);
                }
                found.push(pdf);
            }
        }
        i = i + 1;
    }
    found
}

/// The documents that a key asks for. Inside a folder a search stays in that folder.
pub fn visible_documents_for_key(snapshot: &LibrarySnapshot, key: &VisibleCacheKey) -> (r: Vec<
    PdfInfo,
>)
    ensures
        are_visible(pdf_models(snapshot.pdfs@), key@, pdf_models(r@)),
{
    let ascending: bool = key.sort.default_ascending();
    proof {
        reveal_strlit("");
        assert(""@ =~= Seq::<char>::empty());
    }
    if !asks_nothing(key.query.as_str()) {
        return search_and_sort(
            snapshot,
            key.query.as_str(),
            key.sort,
            ascending,
            &key.folder_scope,
        );
    }
    if key.folder_scope.is_some() {
        return search_and_sort(snapshot, "", key.sort, ascending, &key.folder_scope);
    }
    match key.section {
        LibrarySection::All => search_and_sort(snapshot, "", key.sort, ascending, &None),
        LibrarySection::Home => {
            let mut newest: Vec<PdfInfo> = search_and_sort(
                snapshot,
                "",
                SortMode::Modified,
                false,
                &None,
            );
            let ghost all = pdf_models(newest@);
            if newest.len() > HOME_DOCUMENTS {
                newest.truncate(HOME_DOCUMENTS);
            }
            assert(pdf_models(newest@) =~= first_of(all, HOME_DOCUMENTS as nat));
            assert(are_newest(pdf_models(snapshot.pdfs@), pdf_models(newest@)));
            newest
        },
        LibrarySection::Recent => recent_pdfs(&snapshot.pdfs, &key.recent_documents),
    }
}

/// Whether a folder is one of the library's.
pub open spec fn is_known_folder(folders: Seq<FolderModel>, path: PathModel) -> bool {
    exists|i: int| 0 <= i < folders.len() && (#[trigger] folders[i]).path == path
}

fn knows_folder(folders: &Vec<FolderInfo>, path: &DocPath) -> (r: bool)
    ensures
        r == is_known_folder(folder_models(folders@), path@),
{
    let ghost models = folder_models(folders@);
    let mut i: usize = 0;
    while i < folders.len()
        invariant
            i <= folders.len(),
            models == folder_models(folders@),
            forall|k: int| 0 <= k < i ==> (#[trigger] models[k]).path != path@,
        decreases folders.len() - i,
    {
        assert(models[i as int] == folders[i as int]@);
        if folders[i].path.same(path) {
            return true;
        }
        i = i + 1;
    }
    false
}

/// Where a new scan goes: the folder in view, else the preferred one, else the only one
/// there is. The library itself is never it.
pub open spec fn scan_target(
    folders: Seq<FolderModel>,
    root: PathModel,
    selected: Option<PathModel>,
    preferred: Option<PathModel>,
) -> Option<PathModel> {
    if selected is Some && selected->Some_0 != root && is_known_folder(folders, selected->Some_0) {
        selected
    } else if preferred is Some && is_known_folder(folders, preferred->Some_0) {
        preferred
    } else if selected is None && folders.len() == 1 {
        Some(folders[0].path)
    } else {
        None
    }
}

pub fn scan_destination(input: LibraryViewInput<'_>) -> (r: Option<DocPath>)
    ensures
        optional_path(r) == scan_target(
            folder_models(input.snapshot.folders@),
            input.library_root@,
            optional_path(*input.selected_folder),
            optional_path(*input.preferred_scan_folder),
        ),
{
    let snapshot: &LibrarySnapshot = input.snapshot;
    let library_root: &DocPath = input.library_root;
    let selected_folder: &Option<DocPath> = input.selected_folder;
    let preferred_scan_folder: &Option<DocPath> = input.preferred_scan_folder;
    if let Some(selected) = selected_folder {
        if !selected.same(library_root) && knows_folder(&snapshot.folders, selected) {
            return Some(selected.copy());
        }
    }
    if let Some(preferred) = preferred_scan_folder {
        if knows_folder(&snapshot.folders, preferred) {
            return Some(preferred.copy());
        }
    }
    if selected_folder.is_none() && snapshot.folders.len() == 1 {
        assert(folder_models(snapshot.folders@)[0] == snapshot.folders[0]@);
        Some(snapshot.folders[0].path.copy())
    } else {
        None
    }
}

/// A scan only ever goes into a folder of the library, and into its root only if that
/// were one of its own folders.
pub proof fn law_scan_goes_into_a_known_folder(
    folders: Seq<FolderModel>,
    root: PathModel,
    selected: Option<PathModel>,
    preferred: Option<PathModel>,
)
    ensures
        scan_target(folders, root, selected, preferred) matches Some(target) ==> is_known_folder(
            folders,
            target,
        ),
        !is_known_folder(folders, root) ==> scan_target(folders, root, selected, preferred)
            != Some(root),
{
    if folders.len() == 1 {
        assert(is_known_folder(folders, folders[0].path));
    }
}

/// What the library view remembers.
#[derive(Debug)]
pub struct LibraryViewState {
    pub section: LibrarySection,
    pub query: String,
    pub sort: SortMode,
    pub selected: PathSet,
    pub anchor: Option<DocPath>,
    pub search_focus_requested: bool,
    pub selection_revision: u64,
    pub visible_cache_key: Option<VisibleCacheKey>,
    pub visible_documents: Vec<PdfInfo>,
}

impl Default for LibraryViewState {
    fn default() -> (r: LibraryViewState)
        ensures
            r.wf(),
            r.section == LibrarySection::Home,
            r.query@ == Seq::<char>::empty(),
            r.sort == SortMode::Modified,
            r.selection() == SelectionModel::empty(),
            !r.search_focus_requested,
            r.selection_revision == 0,
            r.visible_cache_key is None,
            r.visible_documents@.len() == 0,
    {
        LibraryViewState {
            section: LibrarySection::Home,
            query: String::new(),
            sort: SortMode::Modified,
            selected: PathSet::new(),
            anchor: None,
            search_focus_requested: false,
            selection_revision: 0,
            visible_cache_key: None,
            visible_documents: Vec::new(),
        }
    }
}

/// What the library screen is drawn from.
#[derive(Debug, Clone, Copy)]
pub struct LibraryViewInput<'a> {
    pub snapshot: &'a LibrarySnapshot,
    pub snapshot_revision: u64,
    pub recent_documents: &'a Vec<DocPath>,
    pub selected_folder: &'a Option<DocPath>,
    pub preferred_scan_folder: &'a Option<DocPath>,
    pub library_root: &'a DocPath,
    pub loading: bool,
    pub keyboard_enabled: bool,
}

impl<'a> LibraryViewInput<'a> {
    pub open spec fn pdfs(self) -> Seq<PdfModel> {
        pdf_models(self.snapshot.pdfs@)
    }

    /// What decides which documents are shown.
    pub open spec fn key(self, state: LibraryViewState) -> KeyModel {
        KeyModel {
            snapshot_revision: self.snapshot_revision,
            query: state.query@,
            sort: state.sort,
            section: state.section,
            folder_scope: optional_path(*self.selected_folder),
            recent_documents: path_models(self.recent_documents@),
        }
    }
}

/// What is selected, and from where a range is drawn.
#[verifier::ext_equal]
pub struct SelectionModel {
    pub selected: Set<PathModel>,
    pub anchor: Option<PathModel>,
}

impl SelectionModel {
    pub open spec fn empty() -> SelectionModel {
        SelectionModel { selected: Set::empty(), anchor: None }
    }

    pub open spec fn only(path: PathModel) -> SelectionModel {
        SelectionModel { selected: Set::empty().insert(path), anchor: Some(path) }
    }

    /// The selection once a document has moved.
    pub open spec fn replaced(self, source: PathModel, destination: PathModel) -> SelectionModel {
        SelectionModel {
            selected: if self.selected.contains(source) {
                self.selected.remove(source).insert(destination)
            } else {
                self.selected
            },
            anchor: if self.anchor == Some(source) {
                Some(destination)
            } else {
                self.anchor
            },
        }
    }

    /// The selection once the documents below a folder, among the first `n` of a list,
    /// have moved with it.
    pub open spec fn rebased(
        self,
        list: Seq<PathModel>,
        source: PathModel,
        destination: PathModel,
        n: nat,
    ) -> SelectionModel
        decreases n,
    {
        if n == 0 {
            self
        } else {
            let before = self.rebased(list, source, destination, (n - 1) as nat);
            let path = list[n - 1];
            if path.is_under(source) {
                before.replaced(path, path.rebased(source, destination))
            } else {
                before
            }
        }
    }

    /// The selection without documents that are gone, among the first `n` of a list.
    pub open spec fn without(self, paths: Seq<PathModel>, n: nat) -> SelectionModel
        decreases n,
    {
        if n == 0 {
            self
        } else {
            let before = self.without(paths, (n - 1) as nat);
            SelectionModel {
                selected: before.selected.remove(paths[n - 1]),
                anchor: if before.anchor == Some(paths[n - 1]) {
                    None
                } else {
                    before.anchor
                },
            }
        }
    }
}

/// The places of the documents from `i` up to `n`.
pub open spec fn places(pdfs: Seq<PdfModel>, i: int, n: int) -> Set<PathModel>
    decreases n - i,
{
    if n <= i {
        Set::empty()
    } else {
        places(pdfs, i, n - 1).insert(pdfs[n - 1].path)
    }
}

/// Where the first document at a path stands, from `i` on; the length where none does.
pub open spec fn position_from(pdfs: Seq<PdfModel>, path: PathModel, i: int) -> int
    decreases pdfs.len() - i,
{
    if i >= pdfs.len() {
        pdfs.len() as int
    } else if pdfs[i].path == path {
        i
    } else {
        position_from(pdfs, path, i + 1)
    }
}

/// From where a range is drawn to a document: the anchor, where it is in the list.
pub open spec fn range_start(pdfs: Seq<PdfModel>, anchor: Option<PathModel>, clicked: int) -> int {
    match anchor {
        Some(path) => if position_from(pdfs, path, 0) < pdfs.len() {
            position_from(pdfs, path, 0)
        } else {
            clicked
        },
        None => clicked,
    }
}

/// The selection of a range.
pub open spec fn range_selection(
    pdfs: Seq<PdfModel>,
    anchor: Option<PathModel>,
    clicked: int,
) -> SelectionModel {
    let start = range_start(pdfs, anchor, clicked);
    SelectionModel {
        selected: if start <= clicked {
            places(pdfs, start, clicked + 1)
        } else {
            places(pdfs, clicked, start + 1)
        },
        anchor: Some(pdfs[start].path),
    }
}

/// The selection once all the documents shown are ticked, or none of them.
pub open spec fn visible_selection(
    selection: SelectionModel,
    pdfs: Seq<PdfModel>,
    ticked: bool,
) -> SelectionModel {
    let shown = places(pdfs, 0, pdfs.len() as int);
    if ticked {
        SelectionModel {
            selected: selection.selected.union(shown),
            anchor: if pdfs.len() == 0 {
                None
            } else {
                Some(pdfs[0].path)
            },
        }
    } else {
        SelectionModel {
            selected: selection.selected.difference(shown),
            anchor: if selection.anchor is Some && shown.contains(selection.anchor->Some_0) {
                None
            } else {
                selection.anchor
            },
        }
    }
}

/// Ticking and unticking what is shown leaves the rest of the selection as it was.
pub proof fn law_hidden_selection_is_kept(
    selection: SelectionModel,
    pdfs: Seq<PdfModel>,
    path: PathModel,
)
    requires
        !places(pdfs, 0, pdfs.len() as int).contains(path),
    ensures
        visible_selection(selection, pdfs, true).selected.contains(path)
            == selection.selected.contains(path),
        visible_selection(selection, pdfs, false).selected.contains(path)
            == selection.selected.contains(path),
        visible_selection(visible_selection(selection, pdfs, true), pdfs, false).selected
            == visible_selection(selection, pdfs, false).selected,
{
    let both = visible_selection(visible_selection(selection, pdfs, true), pdfs, false);
    assert(both.selected =~= visible_selection(selection, pdfs, false).selected);
}

/// How a document was clicked.
#[derive(Debug, Clone, Copy, PartialEq, Eq, Structural)]
pub enum Click {
    Plain,
    /// With the key that adds to the selection or takes from it.
    Toggle,
    /// With the key that draws a range.
    Range,
    Double,
}

/// The selection after a click on a document.
pub open spec fn clicked_selection(
    selection: SelectionModel,
    pdfs: Seq<PdfModel>,
    index: int,
    click: Click,
) -> SelectionModel {
    let path = pdfs[index].path;
    match click {
        Click::Plain => SelectionModel::only(path),
        Click::Double => SelectionModel::only(path),
        Click::Range => range_selection(pdfs, selection.anchor, index),
        Click::Toggle => SelectionModel {
            selected: if selection.selected.contains(path) {
                selection.selected.remove(path)
            } else {
                selection.selected.insert(path)
            },
            anchor: Some(path),
        },
    }
}

/// The selection after a tick at a document.
pub open spec fn ticked_selection(
    selection: SelectionModel,
    path: PathModel,
    ticked: bool,
) -> SelectionModel {
    if ticked {
        SelectionModel { selected: selection.selected.insert(path), anchor: Some(path) }
    } else {
        SelectionModel { selected: selection.selected.remove(path), anchor: selection.anchor }
    }
}

/// The selection in a library of these documents: what is gone is selected no more.
pub open spec fn surviving_selection(
    selection: SelectionModel,
    pdfs: Seq<PdfModel>,
) -> SelectionModel {
    let left = selection.selected.intersect(places(pdfs, 0, pdfs.len() as int));
    SelectionModel {
        selected: left,
        anchor: if selection.anchor is Some && left.contains(selection.anchor->Some_0) {
            selection.anchor
        } else {
            None
        },
    }
}

fn position_of(pdfs: &Vec<PdfInfo>, path: &DocPath) -> (r: usize)
    ensures
        r == position_from(pdf_models(pdfs@), path@, 0),
{
    let ghost models = pdf_models(pdfs@);
    let mut i: usize = 0;
    while i < pdfs.len()
        invariant
            i <= pdfs.len(),
            models == pdf_models(pdfs@),
            position_from(models, path@, 0) == position_from(models, path@, i as int),
        decreases pdfs.len() - i,
    {
        assert(models[i as int] == pdfs[i as int]@);
        if pdfs[i].path.same(path) {
            return i;
        }
        i = i + 1;
    }
    i
}

proof fn lemma_places_contains(pdfs: Seq<PdfModel>, path: PathModel, i: int, n: int)
    requires
        0 <= i <= n <= pdfs.len(),
    ensures
        places(pdfs, i, n).contains(path) <==> exists|k: int|
            i <= k < n && (#[trigger] pdfs[k]).path == path,
    decreases n - i,
{
    if i < n {
        lemma_places_contains(pdfs, path, i, n - 1);
        if places(pdfs, i, n).contains(path) && path != pdfs[n - 1].path {
            let k = choose|k: int| i <= k < n - 1 && (#[trigger] pdfs[k]).path == path;
            assert(pdfs[k].path == path);
        }
    }
}

proof fn lemma_position(pdfs: Seq<PdfModel>, path: PathModel, i: int)
    requires
        0 <= i <= pdfs.len(),
    ensures
        i <= position_from(pdfs, path, i) <= pdfs.len(),
        position_from(pdfs, path, i) < pdfs.len() <==> exists|k: int|
            i <= k < pdfs.len() && (#[trigger] pdfs[k]).path == path,
    decreases pdfs.len() - i,
{
    if i < pdfs.len() && pdfs[i].path != path {
        lemma_position(pdfs, path, i + 1);
        if position_from(pdfs, path, i) < pdfs.len() {
            let k = choose|k: int| i + 1 <= k < pdfs.len() && (#[trigger] pdfs[k]).path == path;
            assert(pdfs[k].path == path);
        }
    }
}

fn add_places(set: &mut PathSet, pdfs: &Vec<PdfInfo>, start: usize, end: usize)
    requires
        old(set).wf(),
        start <= end <= pdfs.len(),
    ensures
        final(set).wf(),
        final(set)@ == old(set)@.union(places(pdf_models(pdfs@), start as int, end as int)),
{
    let ghost models = pdf_models(pdfs@);
    let ghost before = set@;
    let mut i: usize = start;
    assert(set@ =~= before.union(places(models, start as int, start as int)));
    while i < end
        invariant
            start <= i <= end <= pdfs.len(),
            models == pdf_models(pdfs@),
            set.wf(),
            set@ == before.union(places(models, start as int, i as int)),
        decreases end - i,
    {
        assert(models[i as int] == pdfs[i as int]@);
        set.insert(pdfs[i].path.copy());
        assert(set@ =~= before.union(places(models, start as int, i + 1)));
        i = i + 1;
    }
}

impl LibraryViewState {
    /// What is selected.
    pub open spec fn selection(self) -> SelectionModel {
        SelectionModel { selected: self.selected@, anchor: optional_path(self.anchor) }
    }

    pub open spec fn wf(self) -> bool {
        self.selected.wf()
    }

    /// Whether only the selection can differ from an earlier state.
    pub open spec fn same_but_selection(self, before: LibraryViewState) -> bool {
        &&& self.section == before.section
        &&& self.query@ == before.query@
        &&& self.sort == before.sort
        &&& self.search_focus_requested == before.search_focus_requested
        &&& self.selection_revision == before.selection_revision
        &&& self.visible_cache_key == before.visible_cache_key
        &&& self.visible_documents == before.visible_documents
    }

    pub fn selected_paths(&self) -> (r: Vec<DocPath>)
        ensures
            path_models(r@) == self.selected.listed(),
    {
        self.selected.list()
    }

    pub fn clear_selection(&mut self)
        ensures
            final(self).wf(),
            final(self).selection() == SelectionModel::empty(),
            final(self).same_but_selection(*old(self)),
    {
        self.selected.clear();
        self.anchor = None;
    }

    pub fn select_only(&mut self, path: DocPath)
        ensures
            final(self).wf(),
            final(self).selection() == SelectionModel::only(path@),
            final(self).same_but_selection(*old(self)),
    {
        self.selected.clear();
        self.selected.insert(path.copy());
        self.anchor = Some(path);
    }

    /// A document has moved: the selection moves with it.
    pub fn replace_path(&mut self, source: &DocPath, destination: &DocPath)
        requires
            old(self).wf(),
        ensures
            final(self).wf(),
            final(self).selection() == old(self).selection().replaced(source@, destination@),
            final(self).same_but_selection(*old(self)),
    {
        if self.selected.remove(source) {
            self.selected.insert(destination.copy());
        } else {
            assert(old(self).selected@.remove(source@) =~= old(self).selected@);
        }
        let moved: bool = match &self.anchor {
            Some(anchor) => anchor.same(source),
            None => false,
        };
        if moved {
            self.anchor = Some(destination.copy());
        }
    }

    /// Documents are gone: they are selected no more.
    pub fn remove_paths(&mut self, paths: &Vec<DocPath>)
        requires
            old(self).wf(),
        ensures
            final(self).wf(),
            final(self).selection() == old(self).selection().without(
                path_models(paths@),
                paths@.len(),
            ),
            final(self).same_but_selection(*old(self)),
    {
        let ghost models = path_models(paths@);
        let ghost before = self.selection();
        let mut i: usize = 0;
        while i < paths.len()
            invariant
                i <= paths.len(),
                models == path_models(paths@),
                self.wf(),
                self.selection() == before.without(models, i as nat),
                self.same_but_selection(*old(self)),
            decreases paths.len() - i,
        {
            assert(models[i as int] == paths[i as int]@);
            self.selected.remove(&paths[i]);
            let gone: bool = match &self.anchor {
                Some(anchor) => anchor.same(&paths[i]),
                None => false,
            };
            if gone {
                self.anchor = None;
            }
            i = i + 1;
        }
    }

    /// A folder has moved: what is selected below it moves with it.
    pub fn replace_prefix(&mut self, source: &DocPath, destination: &DocPath)
        requires
            old(self).wf(),
        ensures
            final(self).wf(),
            final(self).selection() == old(self).selection().rebased(
                old(self).selected.listed(),
                source@,
                destination@,
                old(self).selected.listed().len(),
            ),
            final(self).same_but_selection(*old(self)),
    {
        let list: Vec<DocPath> = self.selected.list();
        let ghost models = path_models(list@);
        let ghost before = self.selection();
        let mut i: usize = 0;
        while i < list.len()
            invariant
                i <= list.len(),
                models == path_models(list@),
                self.wf(),
                self.selection() == before.rebased(models, source@, destination@, i as nat),
                self.same_but_selection(*old(self)),
            decreases list.len() - i,
        {
            assert(models[i as int] == list[i as int]@);
            if let Some(moved) = list[i].rebase(source, destination) {
                self.replace_path(&list[i], &moved);
            }
            i = i + 1;
        }
    }

    /// The library was read again: what is gone is selected no more.
    pub fn keep_surviving(&mut self, pdfs: &Vec<PdfInfo>, revision: u64)
        requires
            old(self).wf(),
        ensures
            final(self).wf(),
            final(self).selection() == if old(self).selection_revision != revision {
                surviving_selection(old(self).selection(), pdf_models(pdfs@))
            } else {
                old(self).selection()
            },
            final(self).selection_revision == revision,
            final(self).section == old(self).section,
            final(self).query@ == old(self).query@,
            final(self).sort == old(self).sort,
            final(self).search_focus_requested == old(self).search_focus_requested,
            final(self).visible_cache_key == old(self).visible_cache_key,
            final(self).visible_documents == old(self).visible_documents,
    {
        if self.selection_revision == revision {
            return;
        }
        let ghost models = pdf_models(pdfs@);
        let ghost shown = places(models, 0, models.len() as int);
        let list: Vec<DocPath> = self.selected.list();
        let ghost listed = path_models(list@);
        let ghost before = self.selected@;
        let mut kept: PathSet = PathSet::new();
        let mut i: usize = 0;
        assert(kept@ =~= shown.intersect(listed.take(0).to_set()));
        while i < list.len()
            invariant
                i <= list.len(),
                models == pdf_models(pdfs@),
                shown == places(models, 0, models.len() as int),
                listed == path_models(list@),
                kept.wf(),
                kept@ == shown.intersect(listed.take(i as int).to_set()),
            decreases list.len() - i,
        {
            let path: &DocPath = &list[i];
            assert(listed[i as int] == path@);
            let at: usize = position_of(pdfs, path);
            let ghost earlier = kept@;
            proof {
                lemma_position(models, path@, 0);
                lemma_places_contains(models, path@, 0, models.len() as int);
            }
            if at < pdfs.len() {
                kept.insert(path.copy());
            }
            proof {
                assert(listed.take(i + 1) =~= listed.take(i as int).push(path@));
                assert forall|p: PathModel| kept@.contains(p) <==> shown.intersect(
                    listed.take(i + 1).to_set(),
                ).contains(p) by {
                    lemma_push_has(listed.take(i as int), path@, p);
                    assert(earlier.contains(p) <==> shown.intersect(
                        listed.take(i as int).to_set(),
                    ).contains(p));
                }
                assert(kept@ =~= shown.intersect(listed.take(i + 1).to_set()));
            }
            i = i + 1;
        }
        proof {
            assert(listed.take(i as int) =~= listed);
            self.selected.lemma_listed();
            assert(kept@ =~= before.intersect(shown));
        }
        self.selected = kept;
        let lost: bool = match &self.anchor {
            Some(anchor) => !self.selected.contains(anchor),
            None => false,
        };
        if lost {
            self.anchor = None;
        }
        self.selection_revision = revision;
    }

    /// Ticks all the documents shown, or none of them.
    pub fn set_visible_selection(&mut self, documents: &Vec<PdfInfo>, ticked: bool)
        requires
            old(self).wf(),
        ensures
            final(self).wf(),
            final(self).selection() == visible_selection(
                old(self).selection(),
                pdf_models(documents@),
                ticked,
            ),
            final(self).same_but_selection(*old(self)),
    {
        let ghost models = pdf_models(documents@);
        let ghost shown = places(models, 0, models.len() as int);
        if ticked {
            add_places(&mut self.selected, documents, 0, documents.len());
            self.anchor = if documents.len() == 0 {
                None
            } else {
                assert(models[0] == documents[0]@);
                Some(documents[0].path.copy())
            };
        } else {
            let ghost before = self.selected@;
            let mut i: usize = 0;
            assert(self.selected@ =~= before.difference(places(models, 0, 0)));
            while i < documents.len()
                invariant
                    i <= documents.len(),
                    models == pdf_models(documents@),
                    self.wf(),
                    self.selected@ == before.difference(places(models, 0, i as int)),
                    self.anchor == old(self).anchor,
                    self.same_but_selection(*old(self)),
                decreases documents.len() - i,
            {
                assert(models[i as int] == documents[i as int]@);
                self.selected.remove(&documents[i].path);
                assert(self.selected@ =~= before.difference(places(models, 0, i + 1)));
                i = i + 1;
            }
            let hidden: bool = match &self.anchor {
                Some(anchor) => {
                    proof {
                        lemma_position(models, anchor@, 0);
                        lemma_places_contains(models, anchor@, 0, models.len() as int);
                    }
                    position_of(documents, anchor) < documents.len()
                },
                None => false,
            };
            if hidden {
                self.anchor = None;
            }
        }
    }

    /// Selects from the anchor to a document.
    pub fn select_range(&mut self, documents: &Vec<PdfInfo>, clicked: usize)
        requires
            clicked < documents.len(),
        ensures
            final(self).wf(),
            final(self).selection() == range_selection(
                pdf_models(documents@),
                optional_path(old(self).anchor),
                clicked as int,
            ),
            final(self).same_but_selection(*old(self)),
    {
        let ghost models = pdf_models(documents@);
        let start: usize = match &self.anchor {
            Some(anchor) => {
                proof {
                    lemma_position(models, anchor@, 0);
                }
                let at: usize = position_of(documents, anchor);
                if at < documents.len() {
                    at
                } else {
                    clicked
                }
            },
            None => clicked,
        };
        self.selected.clear();
        if start <= clicked {
            add_places(&mut self.selected, documents, start, clicked + 1);
        } else {
            add_places(&mut self.selected, documents, clicked, start + 1);
        }
        assert(models[start as int] == documents[start as int]@);
        self.anchor = Some(documents[start].path.copy());
        assert(self.selection() =~= range_selection(
            models,
            optional_path(old(self).anchor),
            clicked as int,
        ));
    }

    /// A document was clicked. A double click asks to open it.
    pub fn click_document(&mut self, documents: &Vec<PdfInfo>, index: usize, click: Click) -> (r:
        Option<LibraryAction>)
        requires
            old(self).wf(),
            index < documents.len(),
        ensures
            final(self).wf(),
            final(self).selection() == clicked_selection(
                old(self).selection(),
                pdf_models(documents@),
                index as int,
                click,
            ),
            final(self).same_but_selection(*old(self)),
            r is Some <==> click == Click::Double,
            r matches Some(action) ==> action@ == ActionModel::Open(documents[index as int]@.path),
    {
        let path: DocPath = documents[index].path.copy();
        assert(pdf_models(documents@)[index as int] == documents[index as int]@);
        match click {
            Click::Plain => {
                self.select_only(path);
                None
            },
            Click::Double => {
                self.select_only(path.copy());
                Some(LibraryAction::Open(path))
            },
            Click::Range => {
                self.select_range(documents, index);
                None
            },
            Click::Toggle => {
                if !self.selected.remove(&path) {
                    assert(old(self).selected@.remove(path@) =~= old(self).selected@);
                    self.selected.insert(path.copy());
                }
                self.anchor = Some(path);
                None
            },
        }
    }

    /// A document was ticked or unticked.
    pub fn tick_document(&mut self, path: &DocPath, ticked: bool)
        requires
            old(self).wf(),
        ensures
            final(self).wf(),
            final(self).selection() == ticked_selection(old(self).selection(), path@, ticked),
            final(self).same_but_selection(*old(self)),
    {
        if ticked {
            self.selected.insert(path.copy());
            self.anchor = Some(path.copy());
        } else {
            self.selected.remove(path);
        }
    }
}

proof fn lemma_push_has(list: Seq<PathModel>, added: PathModel, path: PathModel)
    ensures
        list.push(added).contains(path) <==> list.contains(path) || path == added,
{
    if list.contains(path) {
        let k = choose|k: int| 0 <= k < list.len() && list[k] == path;
        assert(list.push(added)[k] == path);
    }
    if path == added {
        assert(list.push(added)[list.len() as int] == path);
    }
}

} // verus!
