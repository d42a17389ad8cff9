//! What the parts of the library screen say and offer.

use vstd::prelude::*;
use crate::file_actions::optional_path;
use crate::library::{LibrarySnapshot, SortMode};
use crate::library_view::{
    action_models, are_visible, find_pdf, is_blank, pdf_at, places, surviving_selection,
    visible_documents_for_key, ActionModel, KeyModel, LibraryAction, LibrarySection,
    LibraryViewInput, LibraryViewState, SelectionModel, VisibleCacheKey,
};
use crate::natural::{char_lists, search_chars, search_text, split_words, words};
use crate::paths::{copy_paths, path_models, DocPath, PathModel};
use crate::storage::{pdf_models, PdfInfo, PdfModel};
use crate::text::{chars_of, contains_text, decimal, decimal_text, has_text, trim};

verus! {

fn asks_nothing(query: &str) -> (r: bool)
    ensures
        r == is_blank(query@),
{
    trim(&chars_of(query)).len() == 0
}

/// The keys that were pressed for the library.
#[derive(Debug, Clone, Copy, PartialEq, Eq, Structural)]
pub struct LibraryKeys {
    pub find: bool,
    pub select_all: bool,
    pub escape: bool,
    pub enter: bool,
    pub rename: bool,
    pub delete: bool,
}

/// The selection of all the documents shown.
pub open spec fn all_selected(pdfs: Seq<PdfModel>) -> SelectionModel {
    SelectionModel {
        selected: places(pdfs, 0, pdfs.len() as int),
        anchor: if pdfs.len() == 0 {
            None
        } else {
            Some(pdfs[0].path)
        },
    }
}

/// The selection after keys.
pub open spec fn selection_after_keys(
    selection: SelectionModel,
    query: Seq<char>,
    pdfs: Seq<PdfModel>,
    search_has_focus: bool,
    keys: LibraryKeys,
) -> SelectionModel {
    if keys.escape && query.len() == 0 {
        SelectionModel::empty()
    } else if keys.select_all && !search_has_focus {
        all_selected(pdfs)
    } else {
        selection
    }
}

impl LibraryViewState {
    /// Takes keys in: search, select all, and escape, which first clears the query and
    /// only then the selection.
    pub fn handle_keyboard(
        &mut self,
        enabled: bool,
        search_has_focus: bool,
        keys: LibraryKeys,
        documents: &Vec<PdfInfo>,
    )
        requires
            old(self).wf(),
        ensures
            final(self).wf(),
            final(self).selection() == if enabled {
                selection_after_keys(
                    old(self).selection(),
                    old(self).query@,
                    pdf_models(documents@),
                    search_has_focus,
                    keys,
                )
            } else {
                old(self).selection()
            },
            final(self).query@ == if enabled && keys.escape {
                Seq::<char>::empty()
            } else {
                old(self).query@
            },
            final(self).search_focus_requested == (old(self).search_focus_requested || (enabled
                && keys.find)),
            final(self).section == old(self).section,
            final(self).sort == old(self).sort,
            final(self).selection_revision == old(self).selection_revision,
            final(self).visible_cache_key == old(self).visible_cache_key,
            final(self).visible_documents == old(self).visible_documents,
    {
        if !enabled {
            return;
        }
        if keys.find {
            self.search_focus_requested = true;
        }
        if keys.select_all && !search_has_focus {
            self.clear_selection();
            self.set_visible_selection(documents, true);
            assert(self.selection() =~= all_selected(pdf_models(documents@)));
        }
        if keys.escape {
            let blank: bool = chars_of(self.query.as_str()).len() == 0;
            if !blank {
                self.query = String::new();
            } else {
                self.clear_selection();
                assert(self.query@ =~= Seq::<char>::empty());
            }
        }
    }

    /// What keys ask for. Enter opens only what is selected, never what happens to be
    /// first in the list.
    pub fn keyboard_actions(&self, enabled: bool, something_focused: bool, keys: LibraryKeys) -> (r:
        Vec<LibraryAction>)
        ensures
            action_models(r@) == if enabled && !something_focused {
                key_actions(self.selected.listed(), keys)
            } else {
                Seq::<ActionModel>::empty()
            },
    {
        let mut actions: Vec<LibraryAction> = Vec::new();
        assert(action_models(actions@) =~= Seq::<ActionModel>::empty());
        if !enabled || something_focused {
            return actions;
        }
        let selected: Vec<DocPath> = self.selected_paths();
        let ghost listed = self.selected.listed();
        assert(listed.len() == selected.len());
        if keys.enter && selected.len() > 0 {
            assert(listed[0] == selected[0]@);
            actions.push(LibraryAction::Open(selected[0].copy()));
        }
        if keys.rename && selected.len() == 1 {
            assert(listed[0] == selected[0]@);
            actions.push(LibraryAction::Rename(selected[0].copy()));
        }
        if keys.delete && selected.len() > 0 {
            actions.push(LibraryAction::Recycle(selected));
        }
        assert(action_models(actions@) =~= key_actions(listed, keys));
        actions
    }

    /// Goes to a part of the library; the query and the selection are dropped.
    pub fn choose_section(&mut self, section: LibrarySection) -> (r: LibraryAction)
        ensures
            final(self).wf(),
            final(self).section == section,
            final(self).query@.len() == 0,
            final(self).selection() == SelectionModel::empty(),
            final(self).sort == old(self).sort,
            final(self).selection_revision == old(self).selection_revision,
            final(self).visible_cache_key == old(self).visible_cache_key,
            final(self).visible_documents == old(self).visible_documents,
            r@ == ActionModel::ChangeSection(section),
    {
        self.section = section;
        self.query = String::new();
        self.clear_selection();
        LibraryAction::ChangeSection(section)
    }

    /// Goes into a folder; the query and the selection are dropped.
    pub fn choose_folder(&mut self, folder: &DocPath) -> (r: LibraryAction)
        ensures
            final(self).wf(),
            final(self).section == LibrarySection::All,
            final(self).query@.len() == 0,
            final(self).selection() == SelectionModel::empty(),
            final(self).sort == old(self).sort,
            final(self).selection_revision == old(self).selection_revision,
            final(self).visible_cache_key == old(self).visible_cache_key,
            final(self).visible_documents == old(self).visible_documents,
            r@ == ActionModel::SelectFolder(folder@),
    {
        self.section = LibrarySection::All;
        self.query = String::new();
        self.clear_selection();
        LibraryAction::SelectFolder(folder.copy())
    }

    /// Whether the documents kept are those that the key kept asks for.
    pub open spec fn cache_fits(self, pdfs: Seq<PdfModel>, revision: u64) -> bool {
        self.visible_cache_key matches Some(key) ==> key.snapshot_revision == revision
            ==> are_visible(pdfs, key@, pdf_models(self.visible_documents@))
    }

    /// Brings the documents shown up to date; they are looked up again only where what
    /// decides them has changed.
    pub fn refresh_visible_cache(
        &mut self,
        snapshot: &LibrarySnapshot,
        snapshot_revision: u64,
        selected_folder: &Option<DocPath>,
        recent_documents: &Vec<DocPath>,
    )
        requires
            old(self).wf(),
            old(self).cache_fits(pdf_models(snapshot.pdfs@), snapshot_revision),
        ensures
            final(self).wf(),
            final(self).cache_fits(pdf_models(snapshot.pdfs@), snapshot_revision),
            are_visible(
                pdf_models(snapshot.pdfs@),
                KeyModel {
                    snapshot_revision,
                    query: old(self).query@,
                    sort: old(self).sort,
                    section: old(self).section,
                    folder_scope: optional_path(*selected_folder),
                    recent_documents: path_models(recent_documents@),
                },
                pdf_models(final(self).visible_documents@),
            ),
            final(self).selection() == old(self).selection(),
            final(self).query@ == old(self).query@,
            final(self).sort == old(self).sort,
            final(self).section == old(self).section,
            final(self).search_focus_requested == old(self).search_focus_requested,
            final(self).selection_revision == old(self).selection_revision,
    {
        let key: VisibleCacheKey = VisibleCacheKey {
            snapshot_revision,
            query: self.query.clone(),
            sort: self.sort,
            section: self.section,
            folder_scope: match selected_folder {
                Some(folder) => Some(folder.copy()),
                None => None,
            },
            recent_documents: copy_paths(recent_documents),
        };
        let current: bool = match &self.visible_cache_key {
            Some(kept) => same_key(kept, &key),
            None => false,
        };
        if current {
            return;
        }
        self.visible_documents = visible_documents_for_key(snapshot, &key);
        self.visible_cache_key = Some(key);
    }
}

/// Brings the view up to date before it is drawn: what is gone is selected no more, and the
/// documents shown are those that are asked for.
pub fn begin_view(state: &mut LibraryViewState, input: LibraryViewInput<'_>)
    requires
        old(state).wf(),
        old(state).cache_fits(input.pdfs(), input.snapshot_revision),
    ensures
        final(state).wf(),
        final(state).cache_fits(input.pdfs(), input.snapshot_revision),
        final(state).selection() == if old(state).selection_revision != input.snapshot_revision {
            surviving_selection(old(state).selection(), input.pdfs())
        } else {
            old(state).selection()
        },
        are_visible(
            input.pdfs(),
            input.key(*old(state)),
            pdf_models(final(state).visible_documents@),
        ),
        final(state).selection_revision == input.snapshot_revision,
        final(state).query@ == old(state).query@,
        final(state).sort == old(state).sort,
        final(state).section == old(state).section,
        final(state).search_focus_requested == old(state).search_focus_requested,
{
    state.keep_surviving(&input.snapshot.pdfs, input.snapshot_revision);
    state.refresh_visible_cache(
        input.snapshot,
        input.snapshot_revision,
        input.selected_folder,
        input.recent_documents,
    );
}

fn same_key(left: &VisibleCacheKey, right: &VisibleCacheKey) -> (r: bool)
    ensures
        r ==> left@ == right@,
        r <== left@ == right@,
{
    if left.snapshot_revision != right.snapshot_revision || left.query != right.query || left.sort
        != right.sort || left.section != right.section {
        return false;
    }
    let same_folder: bool = match (&left.folder_scope, &right.folder_scope) {
        (Some(a), Some(b)) => a.same(b),
        (None, None) => true,
        _ => false,
    };
    same_folder && crate::paths::same_paths(&left.recent_documents, &right.recent_documents)
}

/// What keys ask for, of the documents selected.
pub open spec fn key_actions(selected: Seq<PathModel>, keys: LibraryKeys) -> Seq<ActionModel> {
    let open = if keys.enter && selected.len() > 0 {
        seq![ActionModel::Open(selected[0])]
    } else {
        Seq::empty()
    };
    let rename = if keys.rename && selected.len() == 1 {
        seq![ActionModel::Rename(selected[0])]
    } else {
        Seq::empty()
    };
    let recycle = if keys.delete && selected.len() > 0 {
        seq![ActionModel::Recycle(selected)]
    } else {
        Seq::empty()
    };
    open + rename + recycle
}

/// The heading over the list.
pub open spec fn list_heading(
    query: Seq<char>,
    found: nat,
    folder: Option<PathModel>,
    root: PathModel,
    section: LibrarySection,
) -> Seq<char> {
    if !is_blank(query) {
        "Wyniki wyszukiwania ("@ + decimal(found) + ")"@
    } else {
        match folder {
            Some(path) => if path == root {
                "Główna lokalizacja"@
            } else {
                match path.file_name() {
                    Some(name) => name,
                    None => "Folder"@,
                }
            },
            None => match section {
                LibrarySection::Home => "Ostatnio dodane"@,
                LibrarySection::All => "Wszystkie dokumenty"@,
                LibrarySection::Recent => "Ostatnio otwierane"@,
            },
        }
    }
}

pub fn list_title(
    query: &str,
    found: usize,
    selected_folder: &Option<DocPath>,
    library_root: &DocPath,
    section: LibrarySection,
) -> (r: String)
    ensures
        r@ == list_heading(
            query@,
            found as nat,
            optional_path(*selected_folder),
            library_root@,
            section,
        ),
{
    if !asks_nothing(query) {
        let mut title: String = "Wyniki wyszukiwania (".to_owned();
        title.append(decimal_text(found as u64).as_str());
        title.append(")");
        return title;
    }
    match selected_folder {
        Some(folder) => {
            if folder.same(library_root) {
                "Główna lokalizacja".to_owned()
            } else {
                match folder.file_name() {
                    Some(name) => name,
                    None => "Folder".to_owned(),
                }
            }
        },
        None => match section {
            LibrarySection::Home => "Ostatnio dodane".to_owned(),
            LibrarySection::All => "Wszystkie dokumenty".to_owned(),
            LibrarySection::Recent => "Ostatnio otwierane".to_owned(),
        },
    }
}

/// Whether the order of the list can be chosen.
pub fn shows_sort(query: &str, in_folder: bool, section: LibrarySection) -> (r: bool)
    ensures
        r == (!is_blank(query@) || in_folder || section == LibrarySection::All),
{
    !asks_nothing(query) || in_folder || section == LibrarySection::All
}

/// What the list shows.
#[derive(Debug, Clone, Copy, PartialEq, Eq, Structural)]
pub enum ListBody {
    Loading,
    NothingOpened,
    NoDocuments,
    NoResults,
    Rows,
}

pub open spec fn body_shown(
    loading: bool,
    library_len: nat,
    shown_len: nat,
    query: Seq<char>,
    section: LibrarySection,
    in_folder: bool,
) -> ListBody {
    if loading && library_len == 0 {
        ListBody::Loading
    } else if shown_len > 0 {
        ListBody::Rows
    } else if !is_blank(query) {
        ListBody::NoResults
    } else if section == LibrarySection::Recent && !in_folder {
        ListBody::NothingOpened
    } else {
        ListBody::NoDocuments
    }
}

pub fn list_body(
    loading: bool,
    library_len: usize,
    shown_len: usize,
    query: &str,
    section: LibrarySection,
    in_folder: bool,
) -> (r: ListBody)
    ensures
        r == body_shown(
            loading,
            library_len as nat,
            shown_len as nat,
            query@,
            section,
            in_folder,
        ),
{
    if loading && library_len == 0 {
        ListBody::Loading
    } else if shown_len > 0 {
        ListBody::Rows
    } else if !asks_nothing(query) {
        ListBody::NoResults
    } else if section == LibrarySection::Recent && !in_folder {
        ListBody::NothingOpened
    } else {
        ListBody::NoDocuments
    }
}

impl ListBody {
    pub open spec fn words_of(self) -> (Seq<char>, Seq<char>) {
        match self {
            ListBody::Loading => ("Wczytywanie biblioteki…"@, ""@),
            ListBody::NothingOpened => (
                "Brak ostatnio otwieranych dokumentów"@,
                "Tutaj pojawią się pliki otwarte z biblioteki."@,
            ),
            ListBody::NoDocuments => (
                "Brak dokumentów"@,
                "Zeskanuj dokument albo wybierz inny folder."@,
            ),
            ListBody::NoResults => (
                "Brak wyników"@,
                "Zmień wyszukiwaną frazę lub wyczyść pole wyszukiwania."@,
            ),
            ListBody::Rows => (""@, ""@),
        }
    }

    /// The words shown in place of rows.
    pub fn words(self) -> (r: (&'static str, &'static str))
        ensures
            (r.0@, r.1@) == self.words_of(),
    {
        match self {
            ListBody::Loading => ("Wczytywanie biblioteki…", ""),
            ListBody::NothingOpened => (
                "Brak ostatnio otwieranych dokumentów",
                "Tutaj pojawią się pliki otwarte z biblioteki.",
            ),
            ListBody::NoDocuments => (
                "Brak dokumentów",
                "Zeskanuj dokument albo wybierz inny folder.",
            ),
            ListBody::NoResults => (
                "Brak wyników",
                "Zmień wyszukiwaną frazę lub wyczyść pole wyszukiwania.",
            ),
            ListBody::Rows => ("", ""),
        }
    }
}

/// How many of the first `n` paths are not among the documents shown.
pub open spec fn hidden_among(
    paths: Seq<PathModel>,
    pdfs: Seq<PdfModel>,
    n: nat,
) -> nat
    decreases n,
{
    if n == 0 {
        0
    } else {
        hidden_among(paths, pdfs, (n - 1) as nat) + if pdf_at(pdfs, paths[n - 1]) is None {
            1nat
        } else {
            0nat
        }
    }
}

/// What is said of the selection.
pub open spec fn selection_text(total: nat, hidden: nat) -> Seq<char> {
    if hidden == 0 {
        "Wybrano: "@ + decimal(total)
    } else {
        "Wybrano: "@ + decimal(total) + " (poza widokiem: "@ + decimal(hidden) + ")"@
    }
}

/// Says how many documents are selected, and how many of them are out of sight.
pub fn selected_label(selected: &Vec<DocPath>, documents: &Vec<PdfInfo>) -> (r: String)
    ensures
        r@ == selection_text(
            selected@.len(),
            hidden_among(path_models(selected@), pdf_models(documents@), selected@.len()),
        ),
{
    let ghost paths = path_models(selected@);
    let ghost models = pdf_models(documents@);
    let mut hidden: u64 = 0;
    let mut i: usize = 0;
    while i < selected.len()
        invariant
            i <= selected.len(),
            paths == path_models(selected@),
            models == pdf_models(documents@),
            hidden == hidden_among(paths, models, i as nat),
            hidden <= i,
        decreases selected.len() - i,
    {
        assert(paths[i as int] == selected[i as int]@);
        if find_pdf(documents, &selected[i]).is_none() {
            hidden = hidden + 1;
        }
        i = i + 1;
    }
    let mut label: String = "Wybrano: ".to_owned();
    label.append(decimal_text(selected.len() as u64).as_str());
    if hidden != 0 {
        label.append(" (poza widokiem: ");
        label.append(decimal_text(hidden).as_str());
        label.append(")");
    }
    label
}

/// What the panel beside the list shows.
#[derive(Debug)]
pub enum DetailsContent {
    Nothing,
    Many(usize),
    One(PdfInfo),
    /// The one document selected is not in the library any more.
    Gone,
}

pub open spec fn shows_details(
    selected: Seq<PathModel>,
    pdfs: Seq<PdfModel>,
    content: DetailsContent,
) -> bool {
    if selected.len() == 0 {
        content is Nothing
    } else if selected.len() > 1 {
        content matches DetailsContent::Many(n) && n == selected.len()
    } else {
        match pdf_at(pdfs, selected[0]) {
            Some(pdf) => content matches DetailsContent::One(shown) && shown@ == pdf,
            None => content is Gone,
        }
    }
}

pub fn details_content(state: &LibraryViewState, pdfs: &Vec<PdfInfo>) -> (r: DetailsContent)
    ensures
        shows_details(state.selected.listed(), pdf_models(pdfs@), r),
{
    match state.selected.first() {
        None => DetailsContent::Nothing,
        Some(path) => {
            if state.selected.len() > 1 {
                DetailsContent::Many(state.selected.len())
            } else {
                match find_pdf(pdfs, &path) {
                    Some(pdf) => DetailsContent::One(pdf),
                    None => DetailsContent::Gone,
                }
            }
        },
    }
}

/// Whether all the documents shown are selected.
pub fn all_visible_selected(state: &LibraryViewState, documents: &Vec<PdfInfo>) -> (r: bool)
    requires
        state.wf(),
    ensures
        r == forall|i: int|
            0 <= i < documents.len() ==> state.selected@.contains(
                (#[trigger] documents[i])@.path,
            ),
{
    let mut i: usize = 0;
    while i < documents.len()
        invariant
            i <= documents.len(),
            state.wf(),
            forall|k: int|
                0 <= k < i ==> state.selected@.contains((#[trigger] documents[k])@.path),
        decreases documents.len() - i,
    {
        if !state.selected.contains(&documents[i].path) {
            assert(!state.selected@.contains(documents[i as int]@.path));
            return false;
        }
        i = i + 1;
    }
    true
}

/// Whether a folder is listed under a query: its name holds every word of it.
pub open spec fn folder_found(name: Seq<char>, query: Seq<char>) -> bool {
    forall|i: int|
        0 <= i < words(search_text(query)).len() ==> contains_text(
            search_text(name),
            #[trigger] words(search_text(query))[i],
        )
}

pub fn folder_matches(name: &str, query: &str) -> (r: bool)
    ensures
        r == folder_found(name@, query@),
{
    let tokens: Vec<Vec<char>> = split_words(&search_chars(&chars_of(query)));
    let haystack: Vec<char> = search_chars(&chars_of(name));
    let ghost wanted = words(search_text(query@));
    assert(char_lists(tokens@).len() == tokens.len());
    let mut i: usize = 0;
    while i < tokens.len()
        invariant
            i <= tokens.len(),
            tokens.len() == wanted.len(),
            wanted == words(search_text(query@)),
            char_lists(tokens@) == wanted,
            haystack@ == search_text(name@),
            forall|k: int| 0 <= k < i ==> contains_text(haystack@, #[trigger] wanted[k]),
        decreases tokens.len() - i,
    {
        assert(wanted[i as int] == tokens[i as int]@);
        if !has_text(&haystack, &tokens[i]) {
            return false;
        }
        i = i + 1;
    }
    true
}

/// Whether it is said that no folder matches.
pub fn says_no_folder(shown: usize, query: &str) -> (r: bool)
    ensures
        r == (shown == 0 && !is_blank(query@)),
{
    shown == 0 && !asks_nothing(query)
}

pub open spec fn sort_words(sort: SortMode) -> Seq<char> {
    match sort {
        SortMode::Modified => "Najnowsze"@,
        SortMode::Name => "Nazwa A–Z"@,
        SortMode::Folder => "Folder"@,
        SortMode::Size => "Największe"@,
    }
}

pub fn sort_label(sort: SortMode) -> (r: &'static str)
    ensures
        r@ == sort_words(sort),
{
    match sort {
        SortMode::Modified => "Najnowsze",
        SortMode::Name => "Nazwa A–Z",
        SortMode::Folder => "Folder",
        SortMode::Size => "Największe",
    }
}

/// What the card says of the place of the library: its name and its path, or the path
/// alone where it has no name.
pub open spec fn location_words(root: PathModel, full_path: Seq<char>, compact: bool) -> Seq<char> {
    if compact {
        "Lokalizacja  ·  "@ + full_path
    } else {
        match root.file_name() {
            Some(name) if !is_blank(name) && name != full_path => name + "  ·  "@ + full_path,
            _ => full_path,
        }
    }
}

pub fn location_text(library_root: &DocPath, full_path: &str, compact: bool) -> (r: String)
    ensures
        r@ == location_words(library_root@, full_path@, compact),
{
    if compact {
        let mut text: String = "Lokalizacja  ·  ".to_owned();
        text.append(full_path);
        return text;
    }
    match library_root.file_name() {
        None => full_path.to_owned(),
        Some(name) => {
            if asks_nothing(name.as_str()) || name == full_path.to_owned() {
                full_path.to_owned()
            } else {
                let mut text: String = name;
                text.append("  ·  ");
                text.append(full_path);
                text
            }
        },
    }
}

} // verus!
