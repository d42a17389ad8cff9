//! The names of the files in which a session is kept.

use vstd::prelude::*;
use crate::text::{
    all_digits, chars_of, copy_range, decimal, decimal_text, ends_with, has_suffix,
    law_parse_undoes_decimal, lemma_decimal_value, parse_u64, parsed_u64,
};

verus! {

/// What a file of a page holds.
#[derive(Debug, Clone, Copy, PartialEq, Eq, Structural)]
pub enum SessionFileKind {
    Page,
    Original,
    Metadata,
}

/// The four files that a page can have.
#[derive(Debug, Clone, Copy, PartialEq, Eq, Structural)]
pub enum PageFile {
    Jpeg,
    G4,
    Original,
    Metadata,
}

impl PageFile {
    pub open spec fn suffix(self) -> Seq<char> {
        match self {
            PageFile::Jpeg => ".jpg"@,
            PageFile::G4 => ".g4"@,
            PageFile::Original => ".original.jpg"@,
            PageFile::Metadata => ".crop.ron"@,
        }
    }

    pub open spec fn kind_of(self) -> SessionFileKind {
        match self {
            PageFile::Jpeg => SessionFileKind::Page,
            PageFile::G4 => SessionFileKind::Page,
            PageFile::Original => SessionFileKind::Original,
            PageFile::Metadata => SessionFileKind::Metadata,
        }
    }

    pub fn kind(self) -> (r: SessionFileKind)
        ensures
            r == self.kind_of(),
    {
        match self {
            PageFile::Jpeg => SessionFileKind::Page,
            PageFile::G4 => SessionFileKind::Page,
            PageFile::Original => SessionFileKind::Original,
            PageFile::Metadata => SessionFileKind::Metadata,
        }
    }
}

/// The part of a name that tells page and revision. The first files had no revision.
pub open spec fn name_head(id: u64, revision: Option<u64>) -> Seq<char> {
    match revision {
        None => decimal(id as nat),
        Some(revision) => decimal(id as nat) + ".r"@ + decimal(revision as nat),
    }
}

/// The name of a file of a page.
pub open spec fn file_name(id: u64, revision: Option<u64>, file: PageFile) -> Seq<char> {
    name_head(id, revision) + file.suffix()
}

/// The name of the manifest.
pub open spec fn manifest_name() -> Seq<char> {
    "manifest.ron"@
}

pub fn page_file_name(id: u64, revision: Option<u64>, file: PageFile) -> (r: String)
    ensures
        r@ == file_name(id, revision, file),
{
    let mut name: String = decimal_text(id);
    if let Some(revision) = revision {
        name.append(".r");
        name.append(decimal_text(revision).as_str());
    }
    match file {
        PageFile::Jpeg => name.append(".jpg"),
        PageFile::G4 => name.append(".g4"),
        PageFile::Original => name.append(".original.jpg"),
        PageFile::Metadata => name.append(".crop.ron"),
    }
    name
}

/// Which file a name can belong to, by its ending.
pub open spec fn file_by_suffix(name: Seq<char>) -> Option<PageFile> {
    if ends_with(name, PageFile::Original.suffix()) {
        Some(PageFile::Original)
    } else if ends_with(name, PageFile::Metadata.suffix()) {
        Some(PageFile::Metadata)
    } else if ends_with(name, PageFile::G4.suffix()) {
        Some(PageFile::G4)
    } else if ends_with(name, PageFile::Jpeg.suffix()) {
        Some(PageFile::Jpeg)
    } else {
        None
    }
}

/// Whether a revision mark begins here.
pub open spec fn is_mark(head: Seq<char>, at: int) -> bool {
    0 <= at && at + 1 < head.len() && head[at] == '.' && head[at + 1] == 'r'
}

/// The first revision mark from a place on; the length where there is none.
pub open spec fn first_mark(head: Seq<char>, at: int) -> int
    decreases head.len() - at,
{
    if at + 1 >= head.len() {
        head.len() as int
    } else if is_mark(head, at) {
        at
    } else {
        first_mark(head, at + 1)
    }
}

/// The page and revision that a head tells.
pub open spec fn parsed_head(head: Seq<char>) -> Option<(u64, Option<u64>)> {
    let mark = first_mark(head, 0);
    if mark == head.len() {
        match parsed_u64(head) {
            None => None,
            Some(id) => Some((id, None)),
        }
    } else {
        match (parsed_u64(head.take(mark)), parsed_u64(head.skip(mark + 2))) {
            (Some(id), Some(revision)) => Some((id, Some(revision))),
            _ => None,
        }
    }
}

/// What a file name tells.
pub open spec fn parsed_name(name: Seq<char>) -> Option<(u64, Option<u64>, PageFile)> {
    match file_by_suffix(name) {
        None => None,
        Some(file) => match parsed_head(name.take(name.len() - file.suffix().len())) {
            None => None,
            Some((id, revision)) => Some((id, revision, file)),
        },
    }
}

fn find_mark(head: &Vec<char>) -> (r: usize)
    ensures
        r == first_mark(head@, 0),
        r <= head.len(),
        r < head.len() ==> is_mark(head@, r as int),
{
    let mut at: usize = 0;
    while at < head.len() && at + 1 < head.len()
        invariant
            at <= head.len(),
            first_mark(head@, 0) == first_mark(head@, at as int),
        decreases head.len() - at,
    {
        if head[at] == '.' && head[at + 1] == 'r' {
            return at;
        }
        at = at + 1;
    }
    head.len()
}

fn parse_head(head: &Vec<char>) -> (r: Option<(u64, Option<u64>)>)
    ensures
        r == parsed_head(head@),
{
    let mark: usize = find_mark(head);
    if mark == head.len() {
        match parse_u64(head) {
            None => None,
            Some(id) => Some((id, None)),
        }
    } else {
        let id_part: Vec<char> = copy_range(head, 0, mark);
        let revision_part: Vec<char> = copy_range(head, mark + 2, head.len());
        assert(id_part@ =~= head@.take(mark as int));
        assert(revision_part@ =~= head@.skip(mark + 2));
        match parse_u64(&revision_part) {
            None => None,
            Some(revision) => match parse_u64(&id_part) {
                None => None,
                Some(id) => Some((id, Some(revision))),
            },
        }
    }
}

/// What kind of file of which page and revision a name belongs to.
pub fn parse_session_file_name(name: &str) -> (r: Option<(u64, Option<u64>, SessionFileKind)>)
    ensures
        r == match parsed_name(name@) {
            None => None,
            Some((id, revision, file)) => Some((id, revision, file.kind_of())),
        },
{
    let chars: Vec<char> = chars_of(name);
    let (file, tail): (PageFile, Vec<char>) = if has_suffix(&chars, &chars_of(".original.jpg")) {
        (PageFile::Original, chars_of(".original.jpg"))
    } else if has_suffix(&chars, &chars_of(".crop.ron")) {
        (PageFile::Metadata, chars_of(".crop.ron"))
    } else if has_suffix(&chars, &chars_of(".g4")) {
        (PageFile::G4, chars_of(".g4"))
    } else if has_suffix(&chars, &chars_of(".jpg")) {
        (PageFile::Jpeg, chars_of(".jpg"))
    } else {
        return None;
    };
    let head: Vec<char> = copy_range(&chars, 0, chars.len() - tail.len());
    assert(head@ =~= name@.take(name@.len() - file.suffix().len()));
    match parse_head(&head) {
        None => None,
        Some((id, revision)) => Some((id, revision, file.kind())),
    }
}

proof fn lemma_no_mark_in_digits(head: Seq<char>, upto: int, at: int)
    requires
        0 <= at <= upto <= head.len(),
        all_digits(head.take(upto)),
    ensures
        upto == head.len() ==> first_mark(head, at) == head.len(),
        is_mark(head, upto) ==> first_mark(head, at) == upto,
    decreases upto - at,
{
    if at < upto {
        assert(head[at] == head.take(upto)[at]);
        if at + 1 < head.len() {
            lemma_no_mark_in_digits(head, upto, at + 1);
        }
    }
}

proof fn lemma_head_is_read_back(id: u64, revision: Option<u64>)
    ensures
        parsed_head(name_head(id, revision)) == Some((id, revision)),
{
    let head = name_head(id, revision);
    let digits = decimal(id as nat);
    lemma_decimal_value(id as nat);
    law_parse_undoes_decimal(id);
    match revision {
        None => {
            assert(head.take(digits.len() as int) =~= digits);
            lemma_no_mark_in_digits(head, digits.len() as int, 0);
        },
        Some(number) => {
            reveal_strlit(".r");
            assert(".r"@.len() == 2);
            assert(".r"@[0] == '.' && ".r"@[1] == 'r');
            lemma_decimal_value(number as nat);
            law_parse_undoes_decimal(number);
            assert(head.take(digits.len() as int) =~= digits);
            assert(is_mark(head, digits.len() as int));
            lemma_no_mark_in_digits(head, digits.len() as int, 0);
            assert(head.skip(digits.len() as int + 2) =~= decimal(number as nat));
        },
    }
}

/// Heads end in a digit.
proof fn lemma_head_ends_in_digit(id: u64, revision: Option<u64>)
    ensures
        name_head(id, revision).len() > 0,
        crate::text::is_digit(name_head(id, revision).last()),
{
    lemma_decimal_value(id as nat);
    let digits = decimal(id as nat);
    assert(crate::text::is_digit(digits[digits.len() - 1]));
    if let Some(number) = revision {
        lemma_decimal_value(number as nat);
        let tail = decimal(number as nat);
        assert(crate::text::is_digit(tail[tail.len() - 1]));
        assert(name_head(id, revision).last() == tail[tail.len() - 1]);
    }
}

/// A file name tells exactly the page, the revision and the file that it was made for.
/// So no two files of a session share a name.
pub proof fn law_file_name_is_read_back(id: u64, revision: Option<u64>, file: PageFile)
    ensures
        parsed_name(file_name(id, revision, file)) == Some((id, revision, file)),
{
    let head = name_head(id, revision);
    let name = file_name(id, revision, file);
    lemma_head_is_read_back(id, revision);
    lemma_head_ends_in_digit(id, revision);
    lemma_suffixes();
    assert(name.take(name.len() - file.suffix().len()) =~= head);
    assert(name.skip(name.len() - file.suffix().len()) =~= file.suffix());
    let n = name.len() as int;
    assert(name[n - file.suffix().len() - 1] == head.last());
    assert(name.last() == file.suffix().last());
    assert(file_by_suffix(name) == Some(file)) by {
        match file {
            PageFile::Original => {
                assert(ends_with(name, PageFile::Original.suffix()));
            },
            PageFile::Metadata => {
                assert(name[n - 1] == 'n');
                lemma_not_suffix(name, PageFile::Original.suffix(), 12);
                assert(ends_with(name, PageFile::Metadata.suffix()));
            },
            PageFile::G4 => {
                assert(name[n - 1] == '4');
                lemma_not_suffix(name, PageFile::Original.suffix(), 12);
                lemma_not_suffix(name, PageFile::Metadata.suffix(), 8);
                assert(ends_with(name, PageFile::G4.suffix()));
            },
            PageFile::Jpeg => {
                assert(name[n - 1] == 'g');
                assert(crate::text::is_digit(name[n - 5]));
                lemma_not_suffix(name, PageFile::Original.suffix(), 8);
                lemma_not_suffix(name, PageFile::Metadata.suffix(), 8);
                lemma_not_suffix(name, PageFile::G4.suffix(), 2);
                assert(ends_with(name, PageFile::Jpeg.suffix()));
            },
        }
    }
}

proof fn lemma_not_suffix(name: Seq<char>, suffix: Seq<char>, at: int)
    requires
        0 <= at < suffix.len(),
        name.len() < suffix.len() || name[name.len() - suffix.len() + at] != suffix[at],
    ensures
        !ends_with(name, suffix),
{
    if name.len() >= suffix.len() && ends_with(name, suffix) {
        assert(name.skip(name.len() - suffix.len())[at] == suffix[at]);
    }
}

proof fn lemma_suffixes()
    ensures
        PageFile::Jpeg.suffix().len() == 4,
        PageFile::Jpeg.suffix()[3] == 'g',
        PageFile::G4.suffix().len() == 3,
        PageFile::G4.suffix()[2] == '4',
        PageFile::Original.suffix().len() == 13,
        PageFile::Original.suffix()[8] == 'l',
        PageFile::Original.suffix()[12] == 'g',
        PageFile::Metadata.suffix().len() == 9,
        PageFile::Metadata.suffix()[8] == 'n',
{
    reveal_strlit(".jpg");
    reveal_strlit(".g4");
    reveal_strlit(".original.jpg");
    reveal_strlit(".crop.ron");
    assert(".jpg"@.len() == 4 && ".jpg"@[3] == 'g');
    assert(".g4"@.len() == 3 && ".g4"@[2] == '4');
    assert(".original.jpg"@.len() == 13);
    assert(".original.jpg"@[8] == 'l' && ".original.jpg"@[12] == 'g');
    assert(".crop.ron"@.len() == 9 && ".crop.ron"@[8] == 'n');
}

/// No file of a page is named like the manifest.
pub proof fn law_manifest_is_no_page_file(id: u64, revision: Option<u64>, file: PageFile)
    ensures
        file_name(id, revision, file) != manifest_name(),
{
    law_file_name_is_read_back(id, revision, file);
    lemma_suffixes();
    reveal_strlit("manifest.ron");
    let name = "manifest.ron"@;
    assert(name.len() == 12);
    assert(name[11] == 'n' && name[7] == 't');
    reveal_strlit(".crop.ron");
    assert(".crop.ron"@[4] == 'p');
    lemma_not_suffix(name, PageFile::Original.suffix(), 12);
    lemma_not_suffix(name, PageFile::Metadata.suffix(), 4);
    lemma_not_suffix(name, PageFile::G4.suffix(), 2);
    lemma_not_suffix(name, PageFile::Jpeg.suffix(), 3);
    assert(parsed_name(name) is None);
}

} // verus!
