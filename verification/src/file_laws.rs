//! Which names a file may have, where a new one goes, and which files and folders are listed
//! and found.

use vstd::prelude::*;
use crate::library::{
    found_pdfs, scope_model, search_and_sort, search_finds, LibrarySnapshot, SortMode,
};
use crate::name_laws::{
    comes_before, is_core_of, is_solid, law_one_core_only, law_text_is_found_inside,
    law_texts_go_by_the_first_difference,
};
use crate::natural::{first_word, search_text, words};
use crate::order::lemma_text_order_equal;
use crate::paths::{DocPath, PathModel};
use crate::search_laws::{is_listed, lemma_places_cover};
use crate::series_laws::{is_pdf_ending, lemma_ending};
use crate::sort_laws::{is_rearranged_by, law_sorting_keeps_the_documents};
use crate::storage::{
    are_library_pdfs, before_dot, display_name, entry_pdf, entry_pdfs, first_unread,
    folder_models, found_at, has_pdf_extension, is_device_name, is_first_free, is_forbidden,
    is_library_folder, is_listing, is_part_of, is_unique_path, library_folders, list_pdfs,
    lowercase_places, pdf_candidate, pdf_models, pdf_stem, scan_library_metadata, unique_pdf_path,
    uppercased, validate_windows_name, DirectoryEntry, EntryKind, FolderInfo, FolderModel,
    LibraryEntry, PdfInfo, PdfModel,
};
use crate::text::{ascii_upper, contains_text, decimal, text_lowercase, trimmed_start, white_space};

verus! {

/// Whether a character may stand in the name of a file on Windows.
pub open spec fn may_stand_in_a_name(c: char) -> bool {
    &&& c as int >= 0x20
    &&& c as int != 0x7f
    &&& !(0x80 <= c as int <= 0x9f)
    &&& c != '/' && c != '\\' && c != ':' && c != '*' && c != '?'
    &&& c != '"' && c != '<' && c != '>' && c != '|'
}

/// Whether a character is a letter, small or capital.
pub open spec fn is_letter(c: char, capital: char, small: char) -> bool {
    c == capital || c == small
}

/// Whether a name, whatever its case, is that of a device of Windows.
pub open spec fn names_a_device(head: Seq<char>) -> bool {
    ||| {
        &&& head.len() == 3
        &&& {
            ||| is_letter(head[0], 'C', 'c') && is_letter(head[1], 'O', 'o') && is_letter(
                head[2],
                'N',
                'n',
            )
            ||| is_letter(head[0], 'P', 'p') && is_letter(head[1], 'R', 'r') && is_letter(
                head[2],
                'N',
                'n',
            )
            ||| is_letter(head[0], 'A', 'a') && is_letter(head[1], 'U', 'u') && is_letter(
                head[2],
                'X',
                'x',
            )
            ||| is_letter(head[0], 'N', 'n') && is_letter(head[1], 'U', 'u') && is_letter(
                head[2],
                'L',
                'l',
            )
        }
    }
    ||| {
        &&& head.len() == 4
        &&& {
            ||| is_letter(head[0], 'C', 'c') && is_letter(head[1], 'O', 'o') && is_letter(
                head[2],
                'M',
                'm',
            )
            ||| is_letter(head[0], 'L', 'l') && is_letter(head[1], 'P', 'p') && is_letter(
                head[2],
                'T',
                't',
            )
        }
        &&& 49 <= head[3] as int <= 57 || head[3] == '¹' || head[3] == '²' || head[3] == '³'
    }
}

/// Whether the first `n` characters of a name are all of it, or all that stands before its
/// first dot.
pub open spec fn is_head_of(name: Seq<char>, n: int) -> bool {
    &&& 0 <= n <= name.len()
    &&& n < name.len() ==> name[n] == '.'
    &&& forall|i: int| 0 <= i < n ==> #[trigger] name[i] != '.'
}

/// Whether a name may be given to a file on Windows.
pub open spec fn may_be_a_name(name: Seq<char>) -> bool {
    &&& name.len() > 0
    &&& name.last() != '.' && name.last() != ' '
    &&& forall|i: int| 0 <= i < name.len() ==> may_stand_in_a_name(#[trigger] name[i])
    &&& forall|n: int| #[trigger] is_head_of(name, n) ==> !names_a_device(name.take(n))
}

proof fn lemma_head(name: Seq<char>) -> (n: int)
    ensures
        is_head_of(name, n),
        before_dot(name) == name.take(n),
    decreases name.len(),
{
    if name.len() == 0 || name[0] == '.' {
        assert(name.take(0) =~= before_dot(name));
        0
    } else {
        let n = lemma_head(name.drop_first());
        assert forall|i: int| 0 <= i < n + 1 implies #[trigger] name[i] != '.' by {
            if i > 0 {
                assert(name.drop_first()[i - 1] == name[i]);
            }
        }
        if n + 1 < name.len() {
            assert(name.drop_first()[n] == name[n + 1]);
        }
        assert(before_dot(name) =~= name.take(n + 1));
        n + 1
    }
}

proof fn lemma_device(head: Seq<char>)
    ensures
        is_device_name(uppercased(head)) == names_a_device(head),
{
    reveal_strlit("CON");
    reveal_strlit("PRN");
    reveal_strlit("AUX");
    reveal_strlit("NUL");
    reveal_strlit("COM");
    reveal_strlit("LPT");
    reveal_strlit("COM¹");
    reveal_strlit("COM²");
    reveal_strlit("COM³");
    reveal_strlit("LPT¹");
    reveal_strlit("LPT²");
    reveal_strlit("LPT³");
    let up = uppercased(head);
    assert(up.len() == head.len());
    if head.len() == 3 {
        assert(up[0] == ascii_upper(head[0]) && up[1] == ascii_upper(head[1]) && up[2]
            == ascii_upper(head[2]));
        assert(up == "CON"@ <==> up[0] == 'C' && up[1] == 'O' && up[2] == 'N') by {
            if up[0] == 'C' && up[1] == 'O' && up[2] == 'N' {
                assert(up =~= "CON"@);
            }
        }
        assert(up == "PRN"@ <==> up[0] == 'P' && up[1] == 'R' && up[2] == 'N') by {
            if up[0] == 'P' && up[1] == 'R' && up[2] == 'N' {
                assert(up =~= "PRN"@);
            }
        }
        assert(up == "AUX"@ <==> up[0] == 'A' && up[1] == 'U' && up[2] == 'X') by {
            if up[0] == 'A' && up[1] == 'U' && up[2] == 'X' {
                assert(up =~= "AUX"@);
            }
        }
        assert(up == "NUL"@ <==> up[0] == 'N' && up[1] == 'U' && up[2] == 'L') by {
            if up[0] == 'N' && up[1] == 'U' && up[2] == 'L' {
                assert(up =~= "NUL"@);
            }
        }
    } else if head.len() == 4 {
        assert(up[0] == ascii_upper(head[0]) && up[1] == ascii_upper(head[1]) && up[2]
            == ascii_upper(head[2]) && up[3] == ascii_upper(head[3]));
        let front = up.take(3);
        assert(front == "COM"@ <==> up[0] == 'C' && up[1] == 'O' && up[2] == 'M') by {
            assert(front[0] == up[0] && front[1] == up[1] && front[2] == up[2]);
            if up[0] == 'C' && up[1] == 'O' && up[2] == 'M' {
                assert(front =~= "COM"@);
            }
        }
        assert(front == "LPT"@ <==> up[0] == 'L' && up[1] == 'P' && up[2] == 'T') by {
            assert(front[0] == up[0] && front[1] == up[1] && front[2] == up[2]);
            if up[0] == 'L' && up[1] == 'P' && up[2] == 'T' {
                assert(front =~= "LPT"@);
            }
        }
        lemma_four(up, "COM¹"@);
        lemma_four(up, "COM²"@);
        lemma_four(up, "COM³"@);
        lemma_four(up, "LPT¹"@);
        lemma_four(up, "LPT²"@);
        lemma_four(up, "LPT³"@);
    }
}

proof fn lemma_four(text: Seq<char>, other: Seq<char>)
    requires
        text.len() == 4,
        other.len() == 4,
    ensures
        text == other <==> text[0] == other[0] && text[1] == other[1] && text[2] == other[2]
            && text[3] == other[3],
{
    if text[0] == other[0] && text[1] == other[1] && text[2] == other[2] && text[3] == other[3] {
        assert(text =~= other);
    }
}

proof fn lemma_head_of_uppercased(name: Seq<char>, n: int)
    requires
        is_head_of(name, n),
    ensures
        before_dot(uppercased(name)) == uppercased(name.take(n)),
{
    let up = uppercased(name);
    let m = lemma_head(up);
    assert forall|i: int| 0 <= i < name.len() implies (#[trigger] up[i] == '.') == (name[i]
        == '.') by {
        assert(up[i] == ascii_upper(name[i]));
    }
    if m < n {
        assert(name[m] != '.');
        assert(up[m] == '.');
    }
    if n < m {
        assert(up[n] != '.');
        assert(name[n] == '.');
    }
    assert(up.take(m) =~= uppercased(name.take(n)));
}

proof fn lemma_name_fits(name: Seq<char>)
    ensures
        crate::storage::name_problem(name) is None <==> may_be_a_name(name),
{
    let n = lemma_head(name);
    lemma_head_of_uppercased(name, n);
    lemma_device(name.take(n));
    assert forall|i: int| 0 <= i < name.len() implies is_forbidden(#[trigger] name[i])
        == !may_stand_in_a_name(name[i]) by {}
    assert forall|m: int| #[trigger] is_head_of(name, m) implies m == n by {
        if m < n {
            assert(name[m] != '.');
        } else if n < m {
            assert(name[n] != '.');
        }
    }
}

/// A name is taken, without the white space round it, exactly where Windows can give it to a
/// file; a refusal begins with what the name is for.
pub proof fn law_name_is_taken_where_it_fits(
    requested: &str,
    label: &str,
    core: Seq<char>,
    before: int,
    r: Result<String, String>,
)
    requires
        is_core_of(requested@, core, before),
        call_ensures(validate_windows_name, (requested, label), r),
    ensures
        r is Ok <==> may_be_a_name(core),
        r matches Ok(name) ==> name@ == core,
        r matches Err(message) ==> exists|problem: Seq<char>| message@ == #[trigger] (label@
            + problem),
{
    law_one_core_only(requested@, core, before);
    lemma_name_fits(core);
}

/// Whether a name is that of a PDF file: something, and the ending behind it.
pub open spec fn is_pdf_file_name(name: Seq<char>) -> bool {
    name.len() > 4 && is_pdf_ending(name.skip(name.len() - 4))
}

/// A name is that of a PDF file by its ending, in small letters or capital ones, with
/// something before it.
pub proof fn law_pdf_is_told_by_its_ending(name: &str, r: bool)
    requires
        call_ensures(has_pdf_extension, (name,), r),
    ensures
        r == is_pdf_file_name(name@),
{
    if name@.len() > 4 {
        lemma_ending(name@.skip(name@.len() - 4));
    }
}

/// The name of a new file with a stem: the stem alone, or with a number from 2 on.
pub open spec fn is_new_name(name: Seq<char>, stem: Seq<char>, number: nat) -> bool {
    ||| number == 1 && name == stem + seq!['.', 'p', 'd', 'f']
    ||| number >= 2 && name == stem + seq![' ', '('] + decimal(number) + seq![
        ')',
        '.',
        'p',
        'd',
        'f',
    ]
}

proof fn lemma_candidate(stem: Seq<char>, k: nat)
    ensures
        is_new_name(pdf_candidate(stem, k), stem, k + 1),
{
    reveal_strlit(".pdf");
    reveal_strlit(" (");
    reveal_strlit(").pdf");
    assert(".pdf"@ =~= seq!['.', 'p', 'd', 'f']);
    assert(" ("@ =~= seq![' ', '(']);
    assert(").pdf"@ =~= seq![')', '.', 'p', 'd', 'f']);
}

/// Whether a file of some name stands in a folder.
pub open spec fn is_taken<F: Fn(&DocPath) -> bool>(
    exists_at: F,
    folder: PathModel,
    name: Seq<char>,
) -> bool {
    found_at(exists_at, PathModel { anchor: folder.anchor, parts: folder.parts.push(name) })
}

/// Whether a path is a free place in a folder for a new file with this stem, under the least
/// number that is free.
pub open spec fn is_new_place<F: Fn(&DocPath) -> bool>(
    exists_at: F,
    folder: PathModel,
    stem: Seq<char>,
    path: PathModel,
    number: nat,
) -> bool {
    &&& 1 <= number <= 9_999
    &&& path.anchor == folder.anchor
    &&& path.parts.len() == folder.parts.len() + 1
    &&& path.parts.drop_last() == folder.parts
    &&& is_new_name(path.parts.last(), stem, number)
    &&& forall|name: Seq<char>, less: nat|
        1 <= less < number && #[trigger] is_new_name(name, stem, less) ==> is_taken(
            exists_at,
            folder,
            name,
        )
}

/// A new document goes into its folder, under its stem or the first number behind it that is
/// not taken; nothing stands at its place. Only where all of them are taken is there none.
pub proof fn law_new_document_goes_to_a_free_place<F: Fn(&DocPath) -> bool>(
    folder: &DocPath,
    requested: &str,
    exists_at: &F,
    stem: Seq<char>,
    r: Result<DocPath, String>,
)
    requires
        pdf_stem(requested@) == Ok::<Seq<char>, Seq<char>>(stem),
        call_ensures(unique_pdf_path::<F>, (folder, requested, exists_at), r),
    ensures
        r matches Ok(path) ==> call_ensures(*exists_at, (&path,), false) && exists|number: nat|
            is_new_place(*exists_at, folder@, stem, path@, number),
        r is Err ==> forall|name: Seq<char>, number: nat|
            1 <= number <= 9_999 && #[trigger] is_new_name(name, stem, number) ==> is_taken(
                *exists_at,
                folder@,
                name,
            ),
{
    assert(is_unique_path(*exists_at, folder@, requested@, r));
    match r {
        Ok(path) => {
            let k = choose|k: nat| is_first_free(*exists_at, folder@, stem, k, path@);
            lemma_candidate(stem, k);
            assert(path@.parts.drop_last() =~= folder@.parts);
            assert forall|name: Seq<char>, less: nat|
                1 <= less < k + 1 && #[trigger] is_new_name(name, stem, less) implies is_taken(
                *exists_at,
                folder@,
                name,
            ) by {
                lemma_candidate(stem, (less - 1) as nat);
                assert(name == pdf_candidate(stem, (less - 1) as nat));
            }
            assert(is_new_place(*exists_at, folder@, stem, path@, k + 1));
        },
        Err(_) => {
            assert forall|j: nat| j < 9_999 implies found_at(
                *exists_at,
                folder@.join(#[trigger] pdf_candidate(stem, j)),
            ) by {}
            assert forall|name: Seq<char>, number: nat|
                1 <= number <= 9_999 && #[trigger] is_new_name(name, stem, number) implies is_taken(
                *exists_at,
                folder@,
                name,
            ) by {
                lemma_candidate(stem, (number - 1) as nat);
                assert(name == pdf_candidate(stem, (number - 1) as nat));
                assert(found_at(
                    *exists_at,
                    folder@.join(pdf_candidate(stem, (number - 1) as nat)),
                ));
            }
        },
    }
}

/// Whether an entry of a folder is a PDF file that is shown: not one whose name begins with a
/// dot.
pub open spec fn is_shown_pdf(entry: DirectoryEntry) -> bool {
    &&& entry.kind == EntryKind::File
    &&& is_pdf_file_name(entry.name@)
    &&& entry.name@[0] != '.'
}

/// Whether an entry of the library is a folder that is shown.
pub open spec fn is_shown_folder(entry: DirectoryEntry) -> bool {
    &&& entry.kind == EntryKind::Folder
    &&& entry.name@.len() > 0 ==> entry.name@[0] != '.'
}

/// Whether a document is listed for an entry of a folder, with the facts of both.
pub open spec fn is_listed_for(
    pdf: PdfModel,
    entry: DirectoryEntry,
    folder_name: Seq<char>,
    folder: PathModel,
) -> bool {
    &&& is_shown_pdf(entry)
    &&& pdf.name == entry.name@
    &&& pdf.path == entry.path@
    &&& pdf.folder_name == folder_name
    &&& pdf.folder_path == folder
    &&& pdf.size_bytes == entry.size_bytes
    &&& pdf.modified_secs == entry.modified_secs
}

/// How many of the entries are PDF files that are shown.
pub open spec fn how_many_shown(entries: Seq<DirectoryEntry>) -> nat
    decreases entries.len(),
{
    if entries.len() == 0 {
        0
    } else {
        how_many_shown(entries.drop_last()) + if is_shown_pdf(entries.last()) {
            1nat
        } else {
            0nat
        }
    }
}

/// Whether a document stands for one of the entries.
pub open spec fn stands_for_one(
    pdf: PdfModel,
    entries: Seq<DirectoryEntry>,
    folder_name: Seq<char>,
    folder: PathModel,
) -> bool {
    exists|i: int|
        0 <= i < entries.len() && is_listed_for(pdf, #[trigger] entries[i], folder_name, folder)
}

proof fn lemma_shown(entry: DirectoryEntry, folder_name: Seq<char>, folder: PathModel)
    ensures
        entry_pdf(entry, folder_name, folder) is Some <==> is_shown_pdf(entry),
        entry_pdf(entry, folder_name, folder) matches Some(pdf) ==> is_listed_for(
            pdf,
            entry,
            folder_name,
            folder,
        ),
        is_library_folder(entry) <==> is_shown_folder(entry),
{
    if entry.name@.len() > 4 {
        lemma_ending(entry.name@.skip(entry.name@.len() - 4));
    }
}

proof fn lemma_entries_shown(
    entries: Seq<DirectoryEntry>,
    folder_name: Seq<char>,
    folder: PathModel,
)
    ensures
        entry_pdfs(entries, folder_name, folder).len() == how_many_shown(entries),
        forall|pdf: PdfModel| #[trigger]
            entry_pdfs(entries, folder_name, folder).contains(pdf) <==> stands_for_one(
                pdf,
                entries,
                folder_name,
                folder,
            ),
    decreases entries.len(),
{
    let found = entry_pdfs(entries, folder_name, folder);
    if entries.len() > 0 {
        let init = entries.drop_last();
        let before = entry_pdfs(init, folder_name, folder);
        lemma_entries_shown(init, folder_name, folder);
        lemma_shown(entries.last(), folder_name, folder);
        assert forall|pdf: PdfModel| #[trigger] found.contains(pdf) <==> stands_for_one(
            pdf,
            entries,
            folder_name,
            folder,
        ) by {
            if found.contains(pdf) {
                let k = choose|k: int| 0 <= k < found.len() && found[k] == pdf;
                if k < before.len() {
                    assert(before[k] == pdf);
                    assert(before.contains(pdf));
                    let i = choose|i: int|
                        0 <= i < init.len() && is_listed_for(
                            pdf,
                            #[trigger] init[i],
                            folder_name,
                            folder,
                        );
                    assert(entries[i] == init[i]);
                } else {
                    assert(is_listed_for(
                        pdf,
                        entries[entries.len() - 1],
                        folder_name,
                        folder,
                    ));
                }
            }
            if stands_for_one(pdf, entries, folder_name, folder) {
                let i = choose|i: int|
                    0 <= i < entries.len() && is_listed_for(
                        pdf,
                        #[trigger] entries[i],
                        folder_name,
                        folder,
                    );
                if i < init.len() {
                    assert(init[i] == entries[i]);
                    assert(stands_for_one(pdf, init, folder_name, folder));
                    assert(before.contains(pdf));
                    let k = choose|k: int| 0 <= k < before.len() && before[k] == pdf;
                    assert(found[k] == pdf);
                } else {
                    let last = entry_pdf(entries.last(), folder_name, folder)->Some_0;
                    assert(last == pdf);
                    assert(found[before.len() as int] == pdf);
                }
            }
        }
    }
}

proof fn lemma_listing(found: Seq<PdfModel>, listed: Seq<PdfModel>) -> (places: Seq<usize>)
    requires
        is_listing(found, listed),
    ensures
        is_rearranged_by(found, listed, places),
        lowercase_places(found, places),
        forall|pdf: PdfModel| #[trigger] listed.contains(pdf) <==> found.contains(pdf),
{
    let places = choose|places: Seq<usize>| #[trigger]
        lowercase_places(found, places) && listed == places.map_values(
            |place: usize| found[place as int],
        );
    assert forall|k: int, l: int| 0 <= k < l < places.len() implies #[trigger] places[k]
        != #[trigger] places[l] by {
        let name = text_lowercase(found[places[k] as int].name);
        lemma_text_order_equal(name, name);
    }
    lemma_places_cover(places, found.len());
    assert forall|pdf: PdfModel| #[trigger] listed.contains(pdf) <==> found.contains(pdf) by {
        if listed.contains(pdf) {
            let k = choose|k: int| 0 <= k < listed.len() && listed[k] == pdf;
            assert(found[places[k] as int] == pdf);
        }
        if found.contains(pdf) {
            let i = choose|i: int| 0 <= i < found.len() && found[i] == pdf;
            assert(is_listed(places, i));
            let k = choose|k: int| 0 <= k < places.len() && #[trigger] places[k] == i;
            assert(listed[k] == pdf);
        }
    }
    places
}

/// The list of a folder holds its PDF files that are shown and nothing else, each once, in
/// the order of their names in lower case.
pub proof fn law_folder_lists_its_shown_documents(
    folder: &DocPath,
    entries: &Vec<DirectoryEntry>,
    r: Vec<PdfInfo>,
    pdf: PdfModel,
)
    requires
        call_ensures(list_pdfs, (folder, entries), r),
    ensures
        r@.len() == how_many_shown(entries@),
        pdf_models(r@).contains(pdf) <==> stands_for_one(
            pdf,
            entries@,
            display_name(folder@),
            folder@,
        ),
        forall|k: int, l: int, at: int|
            0 <= k < l < r@.len() ==> !#[trigger] comes_before(
                text_lowercase(pdf_models(r@)[l].name),
                text_lowercase(pdf_models(r@)[k].name),
                at,
            ),
{
    let found = entry_pdfs(entries@, display_name(folder@), folder@);
    let listed = pdf_models(r@);
    lemma_entries_shown(entries@, display_name(folder@), folder@);
    let places = lemma_listing(found, listed);
    assert forall|k: int, l: int, at: int| 0 <= k < l < r@.len() implies !#[trigger] comes_before(
        text_lowercase(listed[l].name),
        text_lowercase(listed[k].name),
        at,
    ) by {
        let first = text_lowercase(listed[k].name);
        let second = text_lowercase(listed[l].name);
        assert(listed[k] == found[places[k] as int]);
        assert(listed[l] == found[places[l] as int]);
        if comes_before(second, first, at) {
            law_texts_go_by_the_first_difference(second, first, at);
        }
    }
}

/// Whether a document stands for an entry of the library: a file in it, or one in a folder
/// of it.
pub open spec fn stands_in_library(pdf: PdfModel, child: LibraryEntry, root: PathModel) -> bool {
    ||| is_listed_for(pdf, child.entry, display_name(root), root)
    ||| is_shown_folder(child.entry) && child.contents is Ok && stands_for_one(
        pdf,
        child.contents->Ok_0@,
        display_name(child.entry.path@),
        child.entry.path@,
    )
}

/// Whether a folder stands for an entry of the library, with the facts of both.
pub open spec fn is_folder_for(folder: FolderModel, child: LibraryEntry) -> bool {
    &&& is_shown_folder(child.entry)
    &&& folder.name == child.entry.name@
    &&& folder.path == child.entry.path@
    &&& folder.modified_secs == child.entry.modified_secs
    &&& child.contents is Ok
    &&& folder.pdf_count == how_many_shown(child.contents->Ok_0@)
}

pub open spec fn in_library(pdf: PdfModel, entries: Seq<LibraryEntry>, root: PathModel) -> bool {
    exists|i: int| 0 <= i < entries.len() && stands_in_library(pdf, #[trigger] entries[i], root)
}

pub open spec fn is_folder_of(folder: FolderModel, entries: Seq<LibraryEntry>) -> bool {
    exists|i: int| 0 <= i < entries.len() && is_folder_for(folder, #[trigger] entries[i])
}

proof fn lemma_part(child: LibraryEntry, root: PathModel, part: Seq<PdfModel>)
    requires
        is_part_of(child, root, part),
    ensures
        forall|pdf: PdfModel| #[trigger]
            part.contains(pdf) <==> stands_in_library(pdf, child, root),
{
    lemma_shown(child.entry, display_name(root), root);
    if is_library_folder(child.entry) {
        let inner = child.contents->Ok_0@;
        let name = display_name(child.entry.path@);
        lemma_entries_shown(inner, name, child.entry.path@);
        let places = lemma_listing(entry_pdfs(inner, name, child.entry.path@), part);
    } else {
        match entry_pdf(child.entry, display_name(root), root) {
            Some(only) => {
                assert forall|pdf: PdfModel| #[trigger] part.contains(pdf) <==> stands_in_library(
                    pdf,
                    child,
                    root,
                ) by {
                    assert(part[0] == only);
                    if stands_in_library(pdf, child, root) {
                        assert(pdf == only);
                    }
                }
            },
            None => {},
        }
    }
}

proof fn lemma_library_pdfs(entries: Seq<LibraryEntry>, root: PathModel, pdfs: Seq<PdfModel>)
    requires
        are_library_pdfs(entries, root, pdfs),
    ensures
        forall|pdf: PdfModel| #[trigger]
            pdfs.contains(pdf) <==> in_library(pdf, entries, root),
    decreases entries.len(),
{
    if entries.len() > 0 {
        let init = entries.drop_last();
        let (before, part) = choose|before: Seq<PdfModel>, part: Seq<PdfModel>|
            {
                &&& #[trigger] (before + part) == pdfs
                &&& are_library_pdfs(entries.drop_last(), root, before)
                &&& is_part_of(entries.last(), root, part)
            };
        lemma_library_pdfs(init, root, before);
        lemma_part(entries.last(), root, part);
        assert forall|pdf: PdfModel| #[trigger] pdfs.contains(pdf) <==> in_library(
            pdf,
            entries,
            root,
        ) by {
            if pdfs.contains(pdf) {
                let k = choose|k: int| 0 <= k < pdfs.len() && pdfs[k] == pdf;
                if k < before.len() {
                    assert(before[k] == pdf);
                    assert(before.contains(pdf));
                    let i = choose|i: int|
                        0 <= i < init.len() && stands_in_library(pdf, #[trigger] init[i], root);
                    assert(entries[i] == init[i]);
                } else {
                    assert(part[k - before.len()] == pdf);
                    assert(part.contains(pdf));
                    assert(stands_in_library(pdf, entries[entries.len() - 1], root));
                }
            }
            if in_library(pdf, entries, root) {
                let i = choose|i: int|
                    0 <= i < entries.len() && stands_in_library(pdf, #[trigger] entries[i], root);
                if i < init.len() {
                    assert(init[i] == entries[i]);
                    assert(in_library(pdf, init, root));
                    assert(before.contains(pdf));
                    let k = choose|k: int| 0 <= k < before.len() && before[k] == pdf;
                    assert(pdfs[k] == pdf);
                } else {
                    assert(part.contains(pdf));
                    let k = choose|k: int| 0 <= k < part.len() && part[k] == pdf;
                    assert(pdfs[before.len() + k] == pdf);
                }
            }
        }
    }
}

proof fn lemma_library_folders(entries: Seq<LibraryEntry>)
    ensures
        forall|folder: FolderModel| #[trigger]
            library_folders(entries).contains(folder) <==> is_folder_of(folder, entries),
    decreases entries.len(),
{
    let found = library_folders(entries);
    if entries.len() > 0 {
        let init = entries.drop_last();
        let before = library_folders(init);
        let child = entries.last();
        lemma_library_folders(init);
        lemma_shown(child.entry, Seq::empty(), child.entry.path@);
        if child.contents is Ok {
            let inner = child.contents->Ok_0@;
            lemma_entries_shown(inner, display_name(child.entry.path@), child.entry.path@);
            lemma_shown_fit(inner);
            assert(child.contents->Ok_0.len() == inner.len());
        }
        assert forall|folder: FolderModel| #[trigger] found.contains(folder) <==> is_folder_of(
            folder,
            entries,
        ) by {
            if found.contains(folder) {
                let k = choose|k: int| 0 <= k < found.len() && found[k] == folder;
                if k < before.len() {
                    assert(before[k] == folder);
                    assert(before.contains(folder));
                    let i = choose|i: int|
                        0 <= i < init.len() && is_folder_for(folder, #[trigger] init[i]);
                    assert(entries[i] == init[i]);
                } else {
                    assert(is_folder_for(folder, entries[entries.len() - 1]));
                }
            }
            if is_folder_of(folder, entries) {
                let i = choose|i: int|
                    0 <= i < entries.len() && is_folder_for(folder, #[trigger] entries[i]);
                if i < init.len() {
                    assert(init[i] == entries[i]);
                    assert(is_folder_of(folder, init));
                    assert(before.contains(folder));
                    let k = choose|k: int| 0 <= k < before.len() && before[k] == folder;
                    assert(found[k] == folder);
                } else {
                    assert(found[before.len() as int] == folder);
                }
            }
        }
    }
}

proof fn lemma_shown_fit(entries: Seq<DirectoryEntry>)
    ensures
        how_many_shown(entries) <= entries.len(),
    decreases entries.len(),
{
    if entries.len() > 0 {
        lemma_shown_fit(entries.drop_last());
    }
}

proof fn lemma_first_unread(entries: Seq<LibraryEntry>)
    ensures
        first_unread(entries) is None <==> forall|i: int|
            0 <= i < entries.len() && is_shown_folder((#[trigger] entries[i]).entry)
                ==> entries[i].contents is Ok,
        first_unread(entries) matches Some(error) ==> exists|i: int|
            {
                &&& 0 <= i < entries.len()
                &&& is_shown_folder((#[trigger] entries[i]).entry)
                &&& entries[i].contents matches Err(message) && message@ == error
            },
    decreases entries.len(),
{
    if entries.len() > 0 {
        let init = entries.drop_last();
        lemma_first_unread(init);
        lemma_shown(entries.last().entry, Seq::empty(), entries.last().entry.path@);
        assert(forall|i: int| 0 <= i < init.len() ==> #[trigger] init[i] == entries[i]);
        assert(entries.last() == entries[entries.len() - 1]);
        if first_unread(init) is Some {
            let error = first_unread(init)->Some_0;
            let i = choose|i: int|
                {
                    &&& 0 <= i < init.len()
                    &&& is_shown_folder((#[trigger] init[i]).entry)
                    &&& init[i].contents matches Err(message) && message@ == error
                };
            assert(entries[i] == init[i]);
        } else if first_unread(entries) is None {
            assert forall|i: int|
                0 <= i < entries.len() && is_shown_folder(
                    (#[trigger] entries[i]).entry,
                ) implies entries[i].contents is Ok by {
                if i < init.len() {
                    assert(init[i] == entries[i]);
                }
            }
        }
    }
}

/// The library lists the folders in it that are shown, with the number of documents in each,
/// and the documents in it and in them; it is read exactly where all those folders can be.
pub proof fn law_library_lists_what_is_shown(
    root: &DocPath,
    entries: &Vec<LibraryEntry>,
    r: Result<(Vec<FolderInfo>, Vec<PdfInfo>), String>,
    folder: FolderModel,
    pdf: PdfModel,
)
    requires
        call_ensures(scan_library_metadata, (root, entries), r),
    ensures
        r is Ok <==> forall|i: int|
            0 <= i < entries@.len() && is_shown_folder((#[trigger] entries@[i]).entry)
                ==> entries@[i].contents is Ok,
        r matches Ok((folders, pdfs)) ==> (folder_models(folders@).contains(folder)
            <==> is_folder_of(folder, entries@)) && (pdf_models(pdfs@).contains(pdf) <==> in_library(
            pdf,
            entries@,
            root@,
        )),
        r matches Err(error) ==> exists|i: int|
            {
                &&& 0 <= i < entries@.len()
                &&& is_shown_folder((#[trigger] entries@[i]).entry)
                &&& entries@[i].contents matches Err(message) && message@ == error@
            },
{
    lemma_first_unread(entries@);
    match r {
        Ok((folders, pdfs)) => {
            lemma_library_folders(entries@);
            lemma_library_pdfs(entries@, root@, pdf_models(pdfs@));
        },
        Err(_) => {},
    }
}

/// Whether a word stands in a text at a place: a part without white space that white space or
/// the end of the text bounds on either side.
pub open spec fn is_word_of(text: Seq<char>, word: Seq<char>, at: int) -> bool {
    &&& word.len() > 0
    &&& is_solid(word)
    &&& 0 <= at
    &&& at + word.len() <= text.len()
    &&& text.subrange(at, at + word.len()) == word
    &&& at > 0 ==> white_space(text[at - 1])
    &&& at + word.len() < text.len() ==> white_space(text[at + word.len()])
}

pub open spec fn has_word(text: Seq<char>, word: Seq<char>) -> bool {
    exists|at: int| is_word_of(text, word, at)
}

proof fn lemma_first_word_bounds(text: Seq<char>)
    ensures
        first_word(text).len() <= text.len(),
        first_word(text) == text.take(first_word(text).len() as int),
        is_solid(first_word(text)),
        first_word(text).len() < text.len() ==> white_space(text[first_word(text).len() as int]),
    decreases text.len(),
{
    let word = first_word(text);
    if text.len() > 0 && !white_space(text[0]) {
        let rest = text.drop_first();
        lemma_first_word_bounds(rest);
        let k = first_word(rest).len() as int;
        assert(word =~= text.take(k + 1)) by {
            assert forall|i: int| 0 < i < word.len() implies word[i] == text[i] by {
                assert(word[i] == first_word(rest)[i - 1]);
                assert(first_word(rest)[i - 1] == rest.take(k)[i - 1]);
            }
        }
        assert forall|i: int| 0 <= i < word.len() implies !white_space(#[trigger] word[i]) by {
            if i > 0 {
                assert(word[i] == first_word(rest)[i - 1]);
            }
        }
        if k + 1 < text.len() {
            assert(rest[k] == text[k + 1]);
        }
    } else {
        assert(word =~= text.take(0));
    }
}

proof fn lemma_words_are_parts(text: Seq<char>, word: Seq<char>)
    ensures
        words(text).contains(word) <==> has_word(text, word),
    decreases text.len(),
{
    let before = crate::name_laws::lemma_start_trimmed(text);
    let rest = trimmed_start(text);
    if rest.len() == 0 {
        assert(words(text).len() == 0);
        if has_word(text, word) {
            let at = choose|at: int| is_word_of(text, word, at);
            assert(text.subrange(at, at + word.len())[0] == text[at]);
            assert(text.take(before)[at] == text[at]);
        }
    } else {
        let first = first_word(rest);
        lemma_first_word_bounds(rest);
        let k = first.len() as int;
        assert(rest[0] == text[before]);
        assert(k > 0) by {
            assert(!white_space(rest[0]));
        }
        let tail = rest.skip(k);
        lemma_words_are_parts(tail, word);
        assert(words(text) == seq![first] + words(tail));
        let whole = words(text);
        assert forall|i: int| 0 <= i < tail.len() implies #[trigger] tail[i] == text[before + k
            + i] by {}
        assert(tail.len() > 0 ==> white_space(tail[0]));
        if whole.contains(word) {
            let n = choose|n: int| 0 <= n < whole.len() && whole[n] == word;
            if n == 0 {
                assert(text.subrange(before, before + k) =~= first);
                if before > 0 {
                    assert(text.take(before)[before - 1] == text[before - 1]);
                }
                if before + k < text.len() {
                    assert(rest[k] == text[before + k]);
                }
                assert(is_word_of(text, word, before));
            } else {
                assert(words(tail)[n - 1] == word);
                assert(words(tail).contains(word));
                let at = choose|at: int| is_word_of(tail, word, at);
                if at == 0 {
                    assert(tail.subrange(at, at + word.len())[0] == tail[0]);
                }
                assert(text.subrange(before + k + at, before + k + at + word.len()) =~= word) by {
                    assert forall|i: int| 0 <= i < word.len() implies text[before + k + at + i]
                        == word[i] by {
                        assert(tail.subrange(at, at + word.len())[i] == tail[at + i]);
                    }
                }
                assert(tail[at - 1] == text[before + k + at - 1]);
                assert(is_word_of(text, word, before + k + at));
            }
        }
        if has_word(text, word) {
            let at = choose|at: int| is_word_of(text, word, at);
            assert forall|i: int| 0 <= i < word.len() implies word[i] == text[at + i] by {
                assert(text.subrange(at, at + word.len())[i] == text[at + i]);
            }
            assert(!white_space(word[0]));
            if at < before {
                assert(text.take(before)[at] == text[at]);
            } else if at == before {
                if word.len() < k {
                    assert(first[word.len() as int] == rest[word.len() as int]);
                    assert(rest[word.len() as int] == text[at + word.len()]);
                } else if k < word.len() {
                    assert(rest[k] == text[at + k]);
                    assert(word[k] == text[at + k]);
                }
                assert(word =~= first) by {
                    assert forall|i: int| 0 <= i < k implies word[i] == first[i] by {
                        assert(first[i] == rest[i]);
                    }
                }
                assert(whole[0] == word);
            } else if at < before + k {
                assert(first[at - 1 - before] == rest[at - 1 - before]);
            } else {
                let from = at - before - k;
                if from == 0 {
                    assert(tail[0] == text[at]);
                }
                assert(tail[from - 1] == text[at - 1]);
                assert(tail.subrange(from, from + word.len()) =~= word);
                if from + word.len() < tail.len() {
                    assert(tail[from + word.len()] == text[at + word.len()]);
                }
                assert(is_word_of(tail, word, from));
                assert(words(tail).contains(word));
                let n = choose|n: int| 0 <= n < words(tail).len() && words(tail)[n] == word;
                assert(whole[n + 1] == word);
            }
        }
    }
}

/// Whether a word stands somewhere in the name of a document or of its folder, as they are
/// looked up.
pub open spec fn shows_word(pdf: PdfModel, word: Seq<char>) -> bool {
    exists|before: Seq<char>, after: Seq<char>|
        search_text(pdf.name + seq![' '] + pdf.folder_name) == #[trigger] (before + word + after)
}

/// A search finds the documents of the library that lie in the folder searched, or anywhere
/// where none is given, and whose names show every word of the query; nothing else.
pub proof fn law_search_finds_by_every_word(
    snapshot: &LibrarySnapshot,
    query: &str,
    mode: SortMode,
    ascending: bool,
    folder_scope: &Option<DocPath>,
    r: Vec<PdfInfo>,
    pdf: PdfModel,
)
    requires
        call_ensures(search_and_sort, (snapshot, query, mode, ascending, folder_scope), r),
    ensures
        pdf_models(r@).contains(pdf) <==> pdf_models(snapshot.pdfs@).contains(pdf) && (
        folder_scope matches Some(folder) ==> pdf.folder_path == folder@) && forall|word: Seq<char>|
            #[trigger] has_word(search_text(query@), word) ==> shows_word(pdf, word),
{
    let pdfs = pdf_models(snapshot.pdfs@);
    let scope = scope_model(*folder_scope);
    let keep = |pdf: PdfModel| search_finds(pdf, query@, scope);
    let found = found_pdfs(pdfs, query@, scope);
    let listed = pdf_models(r@);
    let asked = search_text(query@);
    law_sorting_keeps_the_documents(found, listed, mode, ascending);
    let places = choose|places: Seq<usize>| #[trigger] is_rearranged_by(found, listed, places);
    assert(listed.contains(pdf) <==> found.contains(pdf)) by {
        if listed.contains(pdf) {
            let k = choose|k: int| 0 <= k < listed.len() && listed[k] == pdf;
            assert(listed[k] == found[places[k] as int]);
        }
        if found.contains(pdf) {
            let i = choose|i: int| 0 <= i < found.len() && found[i] == pdf;
            assert(is_listed(places, i));
            let k = choose|k: int| 0 <= k < places.len() && #[trigger] places[k] == i;
            assert(listed[k] == pdf);
        }
    }
    lemma_kept(pdfs, keep, pdf);
    reveal_strlit(" ");
    assert(" "@ =~= seq![' ']);
    let shown = search_text(pdf.name + " "@ + pdf.folder_name);
    if search_finds(pdf, query@, scope) {
        assert forall|word: Seq<char>| #[trigger] has_word(asked, word) implies shows_word(
            pdf,
            word,
        ) by {
            lemma_words_are_parts(asked, word);
            let i = choose|i: int| 0 <= i < words(asked).len() && words(asked)[i] == word;
            assert(contains_text(shown, words(asked)[i]));
            law_text_is_found_inside(shown, word);
        }
    }
    if forall|word: Seq<char>| #[trigger] has_word(asked, word) ==> shows_word(pdf, word) {
        assert forall|i: int| 0 <= i < words(asked).len() implies contains_text(
            shown,
            #[trigger] words(asked)[i],
        ) by {
            let word = words(asked)[i];
            assert(words(asked).contains(word));
            lemma_words_are_parts(asked, word);
            assert(has_word(asked, word));
            law_text_is_found_inside(shown, word);
        }
    }
}

proof fn lemma_kept(pdfs: Seq<PdfModel>, keep: spec_fn(PdfModel) -> bool, pdf: PdfModel)
    ensures
        pdfs.filter(keep).contains(pdf) <==> pdfs.contains(pdf) && keep(pdf),
    decreases pdfs.len(),
{
    reveal(Seq::filter);
    let kept = pdfs.filter(keep);
    if pdfs.len() > 0 {
        let init = pdfs.drop_last();
        let before = init.filter(keep);
        lemma_kept(init, keep, pdf);
        if kept.contains(pdf) {
            let k = choose|k: int| 0 <= k < kept.len() && kept[k] == pdf;
            if k < before.len() {
                assert(before[k] == pdf);
                let i = choose|i: int| 0 <= i < init.len() && init[i] == pdf;
                assert(pdfs[i] == pdf);
            } else {
                assert(pdfs[pdfs.len() - 1] == pdf);
            }
        }
        if pdfs.contains(pdf) && keep(pdf) {
            let i = choose|i: int| 0 <= i < pdfs.len() && pdfs[i] == pdf;
            if i < init.len() {
                assert(init[i] == pdf);
                let k = choose|k: int| 0 <= k < before.len() && before[k] == pdf;
                assert(kept[k] == pdf);
            } else {
                assert(kept[before.len() as int] == pdf);
            }
        }
    }
}

} // verus!
