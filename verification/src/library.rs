//! The index of the document library: sorting, searching and refreshing it.

use vstd::prelude::*;
use crate::natural::{
    char_lists, compare_names, compare_natural, law_name_order_is_total,
    lemma_natural_order_consistent, lowers_ascii, name_order, natural_order, search_chars,
    search_text, spaces_ascii, split_words, words,
};
use crate::order::{
    compare_chars, compare_u64, consistent, int_order, lemma_text_order_consistent,
    lemma_text_order_mirror, sort_stably, sorts_before, text_order, Order, Ranking,
};
use crate::paths::{
    lemma_path_order_mirror, lemma_path_order_transitive, path_order, DocPath, PathModel,
};
use crate::storage::{
    folder_models, lemma_pdf_models_push, pdf_models, FolderInfo, FolderModel, PdfInfo, PdfModel,
};
use crate::text::{chars_of, contains_text, has_text};

verus! {

/// Everything that the index knows of the library at one moment.
#[derive(Debug)]
pub struct LibrarySnapshot {
    pub root: DocPath,
    pub folders: Vec<FolderInfo>,
    pub pdfs: Vec<PdfInfo>,
}

/// By what the documents are sorted.
#[derive(Debug, Clone, Copy, PartialEq, Eq, Structural)]
pub enum SortMode {
    Modified,
    Name,
    Folder,
    Size,
}

impl Default for SortMode {
    fn default() -> (r: SortMode)
        ensures
            r == SortMode::Modified,
    {
        SortMode::Modified
    }
}

impl SortMode {
    /// Texts run from A to Z, dates from the newest, sizes from the largest.
    pub open spec fn starts_ascending(self) -> bool {
        self == SortMode::Name || self == SortMode::Folder
    }

    /// The direction users expect when first picking a column: texts A→Z,
    /// dates newest-first, sizes largest-first.
    pub fn default_ascending(self) -> (r: bool)
        ensures
            r == self.starts_ascending(),
    {
        match self {
            SortMode::Name => true,
            SortMode::Folder => true,
            SortMode::Modified => false,
            SortMode::Size => false,
        }
    }
}

/// What sorting looks at in a document.
#[verifier::ext_equal]
pub struct SortKey {
    pub name_key: Seq<char>,
    pub name: Seq<char>,
    pub folder_key: Seq<char>,
    pub folder: Seq<char>,
    pub path: PathModel,
    pub size: u64,
    pub modified: u64,
}

pub open spec fn sort_key(pdf: PdfModel) -> SortKey {
    SortKey {
        name_key: search_text(pdf.name),
        name: pdf.name,
        folder_key: search_text(pdf.folder_name),
        folder: pdf.folder_name,
        path: pdf.path,
        size: pdf.size_bytes,
        modified: pdf.modified_secs,
    }
}

pub open spec fn key_name_order(a: SortKey, b: SortKey) -> Order {
    natural_order(a.name_key, b.name_key).chained(text_order(a.name, b.name))
}

pub open spec fn key_folder_order(a: SortKey, b: SortKey) -> Order {
    natural_order(a.folder_key, b.folder_key).chained(text_order(a.folder, b.folder))
}

/// The order by the chosen column alone, ascending.
pub open spec fn primary_order(mode: SortMode, a: SortKey, b: SortKey) -> Order {
    match mode {
        SortMode::Modified => int_order(a.modified as int, b.modified as int),
        SortMode::Name => key_name_order(a, b),
        SortMode::Folder => key_folder_order(a, b),
        SortMode::Size => int_order(a.size as int, b.size as int),
    }
}

/// The order among documents that tie in the chosen column.
pub open spec fn tie_order(mode: SortMode, a: SortKey, b: SortKey) -> Order {
    let named = match mode {
        SortMode::Modified => key_name_order(a, b).chained(key_folder_order(a, b)),
        SortMode::Size => key_name_order(a, b).chained(key_folder_order(a, b)),
        SortMode::Name => key_folder_order(a, b),
        SortMode::Folder => key_name_order(a, b),
    };
    named.chained(path_order(a.path, b.path))
}

pub open spec fn key_order(mode: SortMode, ascending: bool, a: SortKey, b: SortKey) -> Order {
    let primary = primary_order(mode, a, b);
    (if ascending {
        primary
    } else {
        primary.mirrored()
    }).chained(tie_order(mode, a, b))
}

/// The order of two documents in a sorted list.
pub open spec fn pdf_order(mode: SortMode, ascending: bool, a: PdfModel, b: PdfModel) -> Order {
    key_order(mode, ascending, sort_key(a), sort_key(b))
}

/// The direction flips only the chosen column: documents that differ in it
/// change their order, documents that tie in it keep theirs.
pub proof fn law_direction_flips_primary_only(mode: SortMode, a: PdfModel, b: PdfModel)
    ensures
        primary_order(mode, sort_key(a), sort_key(b)) != Order::Equal ==> pdf_order(
            mode,
            false,
            a,
            b,
        ) == pdf_order(mode, true, a, b).mirrored(),
        primary_order(mode, sort_key(a), sort_key(b)) == Order::Equal ==> pdf_order(
            mode,
            false,
            a,
            b,
        ) == pdf_order(mode, true, a, b),
{
}

proof fn lemma_key_order_mirror(mode: SortMode, ascending: bool, a: SortKey, b: SortKey)
    ensures
        key_order(mode, ascending, b, a) == key_order(mode, ascending, a, b).mirrored(),
{
    crate::natural::law_natural_order_mirror(a.name_key, b.name_key);
    crate::natural::law_natural_order_mirror(a.folder_key, b.folder_key);
    lemma_text_order_mirror(a.name, b.name);
    lemma_text_order_mirror(a.folder, b.folder);
    lemma_path_order_mirror(a.path, b.path);
}

proof fn lemma_path_order_consistent(a: PathModel, b: PathModel, c: PathModel)
    ensures
        consistent(path_order(a, b), path_order(b, c), path_order(a, c)),
{
    lemma_path_order_mirror(a, b);
    lemma_path_order_mirror(b, c);
    lemma_path_order_mirror(a, c);
    if path_order(a, b) != Order::Greater && path_order(b, c) != Order::Greater {
        lemma_path_order_transitive(a, b, c);
    }
    if path_order(a, b) != Order::Less && path_order(b, c) != Order::Less {
        lemma_path_order_transitive(c, b, a);
    }
    if path_order(a, b) == Order::Equal {
        if path_order(b, c) != Order::Greater {
            if path_order(a, c) == Order::Equal {
            } else if path_order(b, c) == Order::Equal {
                lemma_path_order_transitive(c, b, a);
            }
        }
    }
}

proof fn lemma_chained_consistent(
    ab: Order,
    bc: Order,
    ac: Order,
    ab2: Order,
    bc2: Order,
    ac2: Order,
)
    requires
        consistent(ab, bc, ac),
        consistent(ab2, bc2, ac2),
    ensures
        consistent(ab.chained(ab2), bc.chained(bc2), ac.chained(ac2)),
        consistent(ab.mirrored(), bc.mirrored(), ac.mirrored()),
{
}

proof fn lemma_key_name_consistent(a: SortKey, b: SortKey, c: SortKey)
    ensures
        consistent(key_name_order(a, b), key_name_order(b, c), key_name_order(a, c)),
{
    lemma_natural_order_consistent(a.name_key, b.name_key, c.name_key);
    lemma_text_order_consistent(a.name, b.name, c.name);
    lemma_chained_consistent(
        natural_order(a.name_key, b.name_key),
        natural_order(b.name_key, c.name_key),
        natural_order(a.name_key, c.name_key),
        text_order(a.name, b.name),
        text_order(b.name, c.name),
        text_order(a.name, c.name),
    );
}

proof fn lemma_key_folder_consistent(a: SortKey, b: SortKey, c: SortKey)
    ensures
        consistent(key_folder_order(a, b), key_folder_order(b, c), key_folder_order(a, c)),
{
    lemma_natural_order_consistent(a.folder_key, b.folder_key, c.folder_key);
    lemma_text_order_consistent(a.folder, b.folder, c.folder);
    lemma_chained_consistent(
        natural_order(a.folder_key, b.folder_key),
        natural_order(b.folder_key, c.folder_key),
        natural_order(a.folder_key, c.folder_key),
        text_order(a.folder, b.folder),
        text_order(b.folder, c.folder),
        text_order(a.folder, c.folder),
    );
}

proof fn lemma_tie_consistent(mode: SortMode, a: SortKey, b: SortKey, c: SortKey)
    ensures
        consistent(tie_order(mode, a, b), tie_order(mode, b, c), tie_order(mode, a, c)),
{
    let name = (key_name_order(a, b), key_name_order(b, c), key_name_order(a, c));
    let folder = (key_folder_order(a, b), key_folder_order(b, c), key_folder_order(a, c));
    let path = (path_order(a.path, b.path), path_order(b.path, c.path), path_order(a.path, c.path));
    lemma_key_name_consistent(a, b, c);
    lemma_key_folder_consistent(a, b, c);
    lemma_path_order_consistent(a.path, b.path, c.path);
    lemma_chained_consistent(name.0, name.1, name.2, folder.0, folder.1, folder.2);
    match mode {
        SortMode::Name => {
            lemma_chained_consistent(folder.0, folder.1, folder.2, path.0, path.1, path.2);
        },
        SortMode::Folder => {
            lemma_chained_consistent(name.0, name.1, name.2, path.0, path.1, path.2);
        },
        _ => {
            lemma_chained_consistent(
                name.0.chained(folder.0),
                name.1.chained(folder.1),
                name.2.chained(folder.2),
                path.0,
                path.1,
                path.2,
            );
        },
    }
}

proof fn lemma_key_order_transitive(
    mode: SortMode,
    ascending: bool,
    a: SortKey,
    b: SortKey,
    c: SortKey,
)
    ensures
        consistent(
            key_order(mode, ascending, a, b),
            key_order(mode, ascending, b, c),
            key_order(mode, ascending, a, c),
        ),
{
    let primary = (
        primary_order(mode, a, b),
        primary_order(mode, b, c),
        primary_order(mode, a, c),
    );
    let tie = (tie_order(mode, a, b), tie_order(mode, b, c), tie_order(mode, a, c));
    assert(consistent(primary.0, primary.1, primary.2)) by {
        lemma_key_name_consistent(a, b, c);
        lemma_key_folder_consistent(a, b, c);
    }
    assert(consistent(tie.0, tie.1, tie.2)) by {
        lemma_tie_consistent(mode, a, b, c);
    }
    lemma_chained_consistent(primary.0, primary.1, primary.2, tie.0, tie.1, tie.2);
    lemma_chained_consistent(
        primary.0.mirrored(),
        primary.1.mirrored(),
        primary.2.mirrored(),
        tie.0,
        tie.1,
        tie.2,
    );
}

struct SortEntry {
    name_key: Vec<char>,
    name: Vec<char>,
    folder_key: Vec<char>,
    folder: Vec<char>,
    path: DocPath,
    size: u64,
    modified: u64,
}

impl View for SortEntry {
    type V = SortKey;

    closed spec fn view(&self) -> SortKey {
        SortKey {
            name_key: self.name_key@,
            name: self.name@,
            folder_key: self.folder_key@,
            folder: self.folder@,
            path: self.path@,
            size: self.size,
            modified: self.modified,
        }
    }
}

impl SortEntry {
    fn of(pdf: &PdfInfo) -> (r: SortEntry)
        ensures
            r@ == sort_key(pdf@),
    {
        let name: Vec<char> = chars_of(&pdf.name);
        let folder: Vec<char> = chars_of(&pdf.folder_name);
        SortEntry {
            name_key: search_chars(&name),
            name,
            folder_key: search_chars(&folder),
            folder,
            path: pdf.path.copy(),
            size: pdf.size_bytes,
            modified: pdf.modified_secs,
        }
    }

    fn by_name(&self, other: &SortEntry) -> (r: Order)
        ensures
            r == key_name_order(self@, other@),
    {
        let first: Order = compare_natural(&self.name_key, &other.name_key);
        match first {
            Order::Equal => compare_chars(&self.name, &other.name),
            _ => first,
        }
    }

    fn by_folder(&self, other: &SortEntry) -> (r: Order)
        ensures
            r == key_folder_order(self@, other@),
    {
        let first: Order = compare_natural(&self.folder_key, &other.folder_key);
        match first {
            Order::Equal => compare_chars(&self.folder, &other.folder),
            _ => first,
        }
    }
}

struct PdfRanking {
    mode: SortMode,
    ascending: bool,
}

impl Ranking<SortEntry> for PdfRanking {
    closed spec fn order(&self, a: &SortEntry, b: &SortEntry) -> Order {
        key_order(self.mode, self.ascending, a@, b@)
    }

    proof fn order_mirror(&self, a: &SortEntry, b: &SortEntry) {
        lemma_key_order_mirror(self.mode, self.ascending, a@, b@);
    }

    proof fn order_transitive(&self, a: &SortEntry, b: &SortEntry, c: &SortEntry) {
        lemma_key_order_transitive(self.mode, self.ascending, a@, b@, c@);
    }

    fn compare(&self, a: &SortEntry, b: &SortEntry) -> (r: Order) {
        let ascending_order: Order = match self.mode {
            SortMode::Modified => compare_u64(a.modified, b.modified),
            SortMode::Name => a.by_name(b),
            SortMode::Folder => a.by_folder(b),
            SortMode::Size => compare_u64(a.size, b.size),
        };
        let primary: Order = if self.ascending {
            ascending_order
        } else {
            ascending_order.mirror()
        };
        match primary {
            Order::Equal => {},
            _ => {
                return primary;
            },
        }
        let tie: Order = match self.mode {
            SortMode::Name => a.by_folder(b),
            SortMode::Folder => a.by_name(b),
            _ => {
                let by_name: Order = a.by_name(b);
                match by_name {
                    Order::Equal => a.by_folder(b),
                    _ => by_name,
                }
            },
        };
        match tie {
            Order::Equal => a.path.order(&b.path),
            _ => tie,
        }
    }
}

/// Two documents compared the other way round rank the other way round.
pub proof fn lemma_pdf_order_mirror(mode: SortMode, ascending: bool, a: PdfModel, b: PdfModel)
    ensures
        pdf_order(mode, ascending, b, a) == pdf_order(mode, ascending, a, b).mirrored(),
{
    lemma_key_order_mirror(mode, ascending, sort_key(a), sort_key(b));
}

/// Whether document `i` comes before document `j` in the sorted list: the order
/// says so, or they tie and `i` stood earlier.
pub open spec fn pdf_sorts_before(
    pdfs: Seq<PdfModel>,
    mode: SortMode,
    ascending: bool,
    i: int,
    j: int,
) -> bool {
    let order = pdf_order(mode, ascending, pdfs[i], pdfs[j]);
    order == Order::Less || (order == Order::Equal && i < j)
}

/// Whether `places` lists every document of `pdfs` once, in sorted order.
pub open spec fn sorting_places(
    pdfs: Seq<PdfModel>,
    mode: SortMode,
    ascending: bool,
    places: Seq<usize>,
) -> bool {
    &&& places.len() == pdfs.len()
    &&& forall|k: int| 0 <= k < places.len() ==> (#[trigger] places[k]) < pdfs.len()
    &&& forall|k: int, l: int|
        0 <= k < l < places.len() ==> pdf_sorts_before(
            pdfs,
            mode,
            ascending,
            #[trigger] places[k] as int,
            #[trigger] places[l] as int,
        )
}

pub open spec fn rearranged(pdfs: Seq<PdfModel>, places: Seq<usize>) -> Seq<PdfModel> {
    places.map_values(|place: usize| pdfs[place as int])
}

/// Whether `after` is `before` sorted stably.
pub open spec fn is_sorted_from(
    before: Seq<PdfModel>,
    after: Seq<PdfModel>,
    mode: SortMode,
    ascending: bool,
) -> bool {
    exists|places: Seq<usize>| #[trigger]
        sorting_places(before, mode, ascending, places) && after == rearranged(before, places)
}

/// A sorted list is in order: no document comes after one that it precedes.
pub proof fn law_sorted_list_is_ordered(
    before: Seq<PdfModel>,
    after: Seq<PdfModel>,
    mode: SortMode,
    ascending: bool,
)
    requires
        is_sorted_from(before, after, mode, ascending),
    ensures
        after.len() == before.len(),
        forall|k: int, l: int|
            0 <= k < l < after.len() ==> pdf_order(
                mode,
                ascending,
                #[trigger] after[k],
                #[trigger] after[l],
            ) != Order::Greater,
{
    let places = choose|places: Seq<usize>| #[trigger]
        sorting_places(before, mode, ascending, places) && after == rearranged(before, places);
    assert forall|k: int, l: int| 0 <= k < l < after.len() implies pdf_order(
        mode,
        ascending,
        #[trigger] after[k],
        #[trigger] after[l],
    ) != Order::Greater by {
        assert(pdf_sorts_before(before, mode, ascending, places[k] as int, places[l] as int));
    }
}

/// Sorts documents stably.
///
/// `ascending` flips only the primary key; tie-breakers always run in their
/// natural ascending order so reversing a sort never scrambles equal rows.
pub fn sort_pdfs(pdfs: &mut Vec<PdfInfo>, sort_mode: SortMode, ascending: bool)
    ensures
        is_sorted_from(pdf_models(old(pdfs)@), pdf_models(final(pdfs)@), sort_mode, ascending),
{
    let ghost before = pdf_models(pdfs@);
    let mut entries: Vec<SortEntry> = Vec::new();
    let mut i: usize = 0;
    while i < pdfs.len()
        invariant
            i <= pdfs.len(),
            before == pdf_models(pdfs@),
            entries.len() == i,
            forall|k: int| 0 <= k < i ==> (#[trigger] entries[k])@ == sort_key(before[k]),
        decreases pdfs.len() - i,
    {
        entries.push(SortEntry::of(&pdfs[i]));
        i = i + 1;
    }
    let ranking: PdfRanking = PdfRanking { mode: sort_mode, ascending };
    let places: Vec<usize> = sort_stably(&ranking, &entries);
    proof {
        assert forall|k: int, l: int| 0 <= k < l < places.len() implies pdf_sorts_before(
            before,
            sort_mode,
            ascending,
            #[trigger] places@[k] as int,
            #[trigger] places@[l] as int,
        ) by {
            assert(sorts_before(ranking, entries@, places@[k] as int, places@[l] as int));
            assert(entries[places@[k] as int]@ == sort_key(before[places@[k] as int]));
            assert(entries[places@[l] as int]@ == sort_key(before[places@[l] as int]));
        }
        assert(sorting_places(before, sort_mode, ascending, places@));
    }
    let mut sorted: Vec<PdfInfo> = Vec::new();
    let mut j: usize = 0;
    while j < places.len()
        invariant
            j <= places.len(),
            before == pdf_models(pdfs@),
            sorting_places(before, sort_mode, ascending, places@),
            pdf_models(sorted@) == rearranged(before, places@).take(j as int),
        decreases places.len() - j,
    {
        let place: usize = places[j];
        let next: PdfInfo = pdfs[place].copy();
        proof {
            lemma_pdf_models_push(sorted@, next);
        }
        sorted.push(next);
        j = j + 1;
        assert(pdf_models(sorted@) =~= rearranged(before, places@).take(j as int));
    }
    assert(rearranged(before, places@).take(j as int) =~= rearranged(before, places@));
    *pdfs = sorted;
}

/// Whether a document is in the searched folder, where one is given, and its
/// name and folder name together contain every word of the query.
pub open spec fn search_finds(
    pdf: PdfModel,
    query: Seq<char>,
    folder_scope: Option<PathModel>,
) -> bool {
    &&& folder_scope matches Some(folder) ==> pdf.folder_path == folder
    &&& forall|i: int|
        0 <= i < words(search_text(query)).len() ==> contains_text(
            search_text(pdf.name + " "@ + pdf.folder_name),
            #[trigger] words(search_text(query))[i],
        )
}

fn search_matches(pdf: &PdfInfo, tokens: &Vec<Vec<char>>) -> (r: bool)
    ensures
        r == forall|i: int|
            0 <= i < tokens.len() ==> contains_text(
                search_text(pdf@.name + " "@ + pdf@.folder_name),
                #[trigger] char_lists(tokens@)[i],
            ),
{
    if tokens.len() == 0 {
        return true;
    }
    let mut joined: String = pdf.name.clone();
    joined.append(" ");
    joined.append(&pdf.folder_name);
    let haystack: Vec<char> = search_chars(&chars_of(&joined));
    let mut i: usize = 0;
    while i < tokens.len()
        invariant
            i <= tokens.len(),
            haystack@ == search_text(pdf@.name + " "@ + pdf@.folder_name),
            forall|k: int|
                0 <= k < i ==> contains_text(haystack@, #[trigger] char_lists(tokens@)[k]),
        decreases tokens.len() - i,
    {
        if !has_text(&haystack, &tokens[i]) {
            assert(!contains_text(haystack@, char_lists(tokens@)[i as int]));
            return false;
        }
        i = i + 1;
    }
    true
}

fn in_scope(pdf: &PdfInfo, folder_scope: &Option<DocPath>) -> (r: bool)
    ensures
        r == (scope_model(*folder_scope) matches Some(folder) ==> pdf@.folder_path == folder),
{
    match folder_scope {
        None => true,
        Some(folder) => pdf.folder_path.same(folder),
    }
}

/// What an optional path says.
pub open spec fn scope_model(folder_scope: Option<DocPath>) -> Option<PathModel> {
    match folder_scope {
        Some(folder) => Some(folder@),
        None => None,
    }
}

/// The documents of a list that a search finds, in their order.
pub open spec fn found_pdfs(
    pdfs: Seq<PdfModel>,
    query: Seq<char>,
    folder_scope: Option<PathModel>,
) -> Seq<PdfModel> {
    pdfs.filter(|pdf: PdfModel| search_finds(pdf, query, folder_scope))
}

/// Searches the library and sorts what was found.
pub fn search_and_sort(
    snapshot: &LibrarySnapshot,
    query: &str,
    sort_mode: SortMode,
    ascending: bool,
    folder_scope: &Option<DocPath>,
) -> (r: Vec<PdfInfo>)
    ensures
        is_sorted_from(
            found_pdfs(pdf_models(snapshot.pdfs@), query@, scope_model(*folder_scope)),
            pdf_models(r@),
            sort_mode,
            ascending,
        ),
        lowers_ascii(query@),
        spaces_ascii(search_text(query@)),
{
    let tokens: Vec<Vec<char>> = split_words(&search_chars(&chars_of(query)));
    let ghost pdfs = pdf_models(snapshot.pdfs@);
    let ghost keep = |pdf: PdfModel| search_finds(pdf, query@, scope_model(*folder_scope));
    let mut result: Vec<PdfInfo> = Vec::new();
    let mut i: usize = 0;
    proof {
        assert(pdfs.take(0) =~= Seq::<PdfModel>::empty());
        reveal(Seq::filter);
        assert(pdf_models(result@) =~= pdfs.take(0).filter(keep));
    }
    while i < snapshot.pdfs.len()
        invariant
            i <= snapshot.pdfs.len(),
            pdfs == pdf_models(snapshot.pdfs@),
            keep == (|pdf: PdfModel| search_finds(pdf, query@, scope_model(*folder_scope))),
            char_lists(tokens@) == words(search_text(query@)),
            pdf_models(result@) == pdfs.take(i as int).filter(keep),
        decreases snapshot.pdfs.len() - i,
    {
        let pdf: &PdfInfo = &snapshot.pdfs[i];
        let found: bool = in_scope(pdf, folder_scope) && search_matches(pdf, &tokens);
        assert(found == keep(pdf@)) by {
            assert(char_lists(tokens@).len() == tokens.len());
        }
        proof {
            reveal(Seq::filter);
            assert(pdfs.take(i + 1).drop_last() =~= pdfs.take(i as int));
            assert(pdfs.take(i + 1).last() == pdf@);
        }
        if found {
            let copy: PdfInfo = pdf.copy();
            proof {
                lemma_pdf_models_push(result@, copy);
            }
            result.push(copy);
        }
        i = i + 1;
    }
    assert(pdfs.take(i as int) =~= pdfs);
    sort_pdfs(&mut result, sort_mode, ascending);
    result
}

struct FolderRanking {}

impl Ranking<FolderInfo> for FolderRanking {
    closed spec fn order(&self, a: &FolderInfo, b: &FolderInfo) -> Order {
        name_order(a@.name, b@.name)
    }

    proof fn order_mirror(&self, a: &FolderInfo, b: &FolderInfo) {
        law_name_order_is_total(a@.name, b@.name, b@.name);
    }

    proof fn order_transitive(&self, a: &FolderInfo, b: &FolderInfo, c: &FolderInfo) {
        law_name_order_is_total(a@.name, b@.name, c@.name);
        law_name_order_is_total(b@.name, c@.name, a@.name);
        law_name_order_is_total(c@.name, a@.name, b@.name);
        law_name_order_is_total(a@.name, c@.name, b@.name);
    }

    fn compare(&self, a: &FolderInfo, b: &FolderInfo) -> (r: Order) {
        compare_names(&chars_of(&a.name), &chars_of(&b.name))
    }
}

/// Whether `places` lists every folder once, by name, folders of one name in
/// the order in which they stood.
pub open spec fn folder_places(folders: Seq<FolderModel>, places: Seq<usize>) -> bool {
    &&& places.len() == folders.len()
    &&& forall|k: int| 0 <= k < places.len() ==> (#[trigger] places[k]) < folders.len()
    &&& forall|k: int, l: int|
        0 <= k < l < places.len() ==> {
            let order = name_order(
                folders[#[trigger] places[k] as int].name,
                folders[#[trigger] places[l] as int].name,
            );
            order == Order::Less || (order == Order::Equal && places[k] < places[l])
        }
}

/// Whether `after` holds the folders of `before` sorted by name.
pub open spec fn folders_sorted_from(before: Seq<FolderModel>, after: Seq<FolderModel>) -> bool {
    exists|places: Seq<usize>| #[trigger]
        folder_places(before, places) && after == places.map_values(
            |place: usize| before[place as int],
        )
}

/// Sorts folders by name in natural order.
pub fn sort_folders(folders: &Vec<FolderInfo>) -> (r: Vec<FolderInfo>)
    ensures
        folders_sorted_from(folder_models(folders@), folder_models(r@)),
{
    let ghost before = folder_models(folders@);
    let ranking: FolderRanking = FolderRanking {  };
    let places: Vec<usize> = sort_stably(&ranking, folders);
    proof {
        assert forall|k: int, l: int| 0 <= k < l < places.len() implies {
            let order = name_order(
                before[#[trigger] places@[k] as int].name,
                before[#[trigger] places@[l] as int].name,
            );
            order == Order::Less || (order == Order::Equal && places@[k] < places@[l])
        } by {
            assert(sorts_before(ranking, folders@, places@[k] as int, places@[l] as int));
        }
        assert(folder_places(before, places@));
    }
    let ghost after = places@.map_values(|place: usize| before[place as int]);
    let mut sorted: Vec<FolderInfo> = Vec::new();
    let mut j: usize = 0;
    while j < places.len()
        invariant
            j <= places.len(),
            before == folder_models(folders@),
            folder_places(before, places@),
            after == places@.map_values(|place: usize| before[place as int]),
            folder_models(sorted@) == after.take(j as int),
        decreases places.len() - j,
    {
        let place: usize = places[j];
        let next: FolderInfo = folders[place].copy();
        assert(folder_models(sorted@.push(next)) =~= folder_models(sorted@).push(next@));
        sorted.push(next);
        j = j + 1;
        assert(folder_models(sorted@) =~= after.take(j as int));
    }
    assert(after.take(j as int) =~= after);
    sorted
}

/// Makes the index of a library from what its folders hold.
pub fn scan_library(
    root: &DocPath,
    metadata: Result<(Vec<FolderInfo>, Vec<PdfInfo>), String>,
) -> (r: Result<LibrarySnapshot, String>)
    ensures
        match metadata {
            Err(error) => r == Err::<LibrarySnapshot, String>(error),
            Ok((folders, pdfs)) => r matches Ok(snapshot) && {
                &&& snapshot.root@ == root@
                &&& folders_sorted_from(folder_models(folders@), folder_models(snapshot.folders@))
                &&& is_sorted_from(
                    pdf_models(pdfs@),
                    pdf_models(snapshot.pdfs@),
                    SortMode::Name,
                    true,
                )
            },
        },
{
    match metadata {
        Err(error) => Err(error),
        Ok((folders, pdfs)) => {
            let sorted_folders: Vec<FolderInfo> = sort_folders(&folders);
            let mut sorted_pdfs: Vec<PdfInfo> = pdfs;
            sort_pdfs(&mut sorted_pdfs, SortMode::Name, true);
            Ok(LibrarySnapshot { root: root.copy(), folders: sorted_folders, pdfs: sorted_pdfs })
        },
    }
}

/// What the indexing thread reports.
#[derive(Debug)]
pub enum LibraryEvent {
    Refreshed { generation: u64, snapshot: LibrarySnapshot },
    Failed { generation: u64, error: String },
}

impl LibraryEvent {
    pub open spec fn tag(self) -> u64 {
        match self {
            LibraryEvent::Refreshed { generation, .. } => generation,
            LibraryEvent::Failed { generation, .. } => generation,
        }
    }

    /// The request that this event answers.
    pub fn generation(&self) -> (r: u64)
        ensures
            r == self.tag(),
    {
        match self {
            LibraryEvent::Refreshed { generation, .. } => *generation,
            LibraryEvent::Failed { generation, .. } => *generation,
        }
    }
}

/// The event that answers a request for a refresh.
pub fn refresh_event(generation: u64, scan: Result<LibrarySnapshot, String>) -> (r: LibraryEvent)
    ensures
        r == match scan {
            Ok(snapshot) => LibraryEvent::Refreshed { generation, snapshot },
            Err(error) => LibraryEvent::Failed { generation, error },
        },
{
    match scan {
        Ok(snapshot) => LibraryEvent::Refreshed { generation, snapshot },
        Err(error) => LibraryEvent::Failed { generation, error },
    }
}

/// The numbering of refresh requests.
///
/// Refreshes are tagged with a monotonically increasing generation. Only an
/// event for the most recently requested generation is used, so a slow scan can
/// never replace a newer library root.
#[derive(Debug)]
pub struct RefreshRequests {
    pub next_generation: u64,
    pub latest_requested_generation: u64,
}

impl RefreshRequests {
    /// Before any request.
    pub fn start() -> (r: RefreshRequests)
        ensures
            r.next_generation == 1,
            r.latest_requested_generation == 0,
    {
        RefreshRequests { next_generation: 1, latest_requested_generation: 0 }
    }

    /// Takes the generation for a request about to be sent.
    pub fn take_generation(&mut self) -> (r: u64)
        ensures
            r == old(self).next_generation,
            final(self).next_generation == if old(self).next_generation == u64::MAX {
                u64::MAX
            } else {
                (old(self).next_generation + 1) as u64
            },
            final(self).latest_requested_generation == old(self).latest_requested_generation,
    {
        let generation: u64 = self.next_generation;
        self.next_generation = self.next_generation.saturating_add(1);
        generation
    }

    /// Notes whether the request with this generation reached the indexing thread.
    pub fn note_sent(&mut self, generation: u64, sent: bool) -> (r: Result<u64, String>)
        ensures
            final(self).next_generation == old(self).next_generation,
            sent ==> r == Ok::<u64, String>(generation)
                && final(self).latest_requested_generation == generation,
            !sent ==> final(self).latest_requested_generation == old(
                self,
            ).latest_requested_generation && (r matches Err(error) && error@
                == "Indeks biblioteki został zatrzymany."@),
    {
        if sent {
            self.latest_requested_generation = generation;
            Ok(generation)
        } else {
            Err("Indeks biblioteki został zatrzymany.".to_owned())
        }
    }

    /// The answer to the latest request among the events that came in, if there is
    /// one; answers to older requests are dropped.
    pub fn try_recv_latest(&self, events: Vec<LibraryEvent>) -> (r: Option<LibraryEvent>)
        ensures
            r == latest_event(self.latest_requested_generation, events@),
    {
        let mut remaining: Vec<LibraryEvent> = events;
        loop
            invariant
                latest_event(self.latest_requested_generation, events@) == latest_event(
                    self.latest_requested_generation,
                    remaining@,
                ),
            decreases remaining.len(),
        {
            match remaining.pop() {
                None => {
                    return None;
                },
                Some(event) => {
                    if event.generation() == self.latest_requested_generation {
                        return Some(event);
                    }
                },
            }
        }
    }
}

/// The last event that answers the latest request.
pub open spec fn latest_event(latest: u64, events: Seq<LibraryEvent>) -> Option<LibraryEvent>
    decreases events.len(),
{
    if events.len() == 0 {
        None
    } else if events.last().tag() == latest {
        Some(events.last())
    } else {
        latest_event(latest, events.drop_last())
    }
}

/// Whatever events come in, an answer to an older request is never used.
pub proof fn law_stale_scan_is_never_used(latest: u64, events: Seq<LibraryEvent>)
    ensures
        latest_event(latest, events) matches Some(event) ==> event.tag() == latest
            && events.contains(event),
    decreases events.len(),
{
    if events.len() > 0 {
        law_stale_scan_is_never_used(latest, events.drop_last());
        if events.last().tag() == latest {
            assert(events.contains(events.last()));
        } else if let Some(event) = latest_event(latest, events.drop_last()) {
            let i = choose|i: int|
                0 <= i < events.drop_last().len() && events.drop_last()[i] == event;
            assert(events[i] == event);
        }
    }
}

/// A request waiting for the indexing thread.
#[derive(Debug)]
pub enum WorkerCommand {
    Refresh { generation: u64, root: DocPath },
    Stop,
}

/// What to scan out of a request and those that queued behind it: the newest
/// request, or nothing where the thread is told to stop.
pub fn coalesce(command: WorkerCommand, queued: Vec<WorkerCommand>) -> (r: Option<(u64, DocPath)>)
    ensures
        r is None <==> command is Stop || exists|i: int|
            0 <= i < queued.len() && (#[trigger] queued[i]) is Stop,
        r matches Some((generation, root)) ==> {
            let last = if queued.len() == 0 {
                command
            } else {
                queued@.last()
            };
            last matches WorkerCommand::Refresh { generation: g, root: p } && generation == g
                && root@ == p@
        },
{
    let mut pending: (u64, DocPath) = match command {
        WorkerCommand::Refresh { generation, root } => (generation, root),
        WorkerCommand::Stop => {
            return None;
        },
    };
    let mut i: usize = 0;
    while i < queued.len()
        invariant
            i <= queued.len(),
            command is Refresh,
            forall|k: int| 0 <= k < i ==> (#[trigger] queued[k]) is Refresh,
            ({
                let last = if i == 0 {
                    command
                } else {
                    queued[i - 1]
                };
                last matches WorkerCommand::Refresh { generation: g, root: p } && pending.0 == g
                    && pending.1@ == p@
            }),
        decreases queued.len() - i,
    {
        match &queued[i] {
            WorkerCommand::Refresh { generation, root } => {
                pending = (*generation, root.copy());
            },
            WorkerCommand::Stop => {
                assert(queued[i as int] is Stop);
                return None;
            },
        }
        i = i + 1;
    }
    Some(pending)
}

} // verus!
