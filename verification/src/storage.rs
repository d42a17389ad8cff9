//! Names and records of the files and folders in the document library.

use vstd::prelude::*;
use crate::order::{
    compare_chars, compare_u64, compare_usize, int_order, lemma_text_order_equal,
    lemma_text_order_mirror, lemma_text_order_transitive, sort_stably, sorts_before, text_order,
    Order, Ranking,
};
use crate::paths::{DocPath, PathModel};
use crate::text::{
    ascii_upper, chars_of, copy_range, decimal, decimal_chars, digits_value,
    equal_ignoring_ascii_case, is_ascii_digit, is_digit, lowercase_text, parse_u64, same_chars,
    same_ignoring_ascii_case, text_lowercase, text_of, to_ascii_upper, trim, trimmed,
};

verus! {

/// A folder of the library.
#[derive(Debug)]
pub struct FolderInfo {
    pub name: String,
    pub path: DocPath,
    pub pdf_count: usize,
    pub modified_secs: u64,
}

/// What a folder record says.
#[verifier::ext_equal]
pub struct FolderModel {
    pub name: Seq<char>,
    pub path: PathModel,
    pub pdf_count: usize,
    pub modified_secs: u64,
}

impl Clone for FolderInfo {
    fn clone(&self) -> (r: FolderInfo)
        ensures
            r@ == self@,
    {
        self.copy()
    }
}

impl View for FolderInfo {
    type V = FolderModel;

    open spec fn view(&self) -> FolderModel {
        FolderModel {
            name: self.name@,
            path: self.path@,
            pdf_count: self.pdf_count,
            modified_secs: self.modified_secs,
        }
    }
}

impl FolderInfo {
    pub fn copy(&self) -> (r: FolderInfo)
        ensures
            r@ == self@,
    {
        FolderInfo {
            name: self.name.clone(),
            path: self.path.copy(),
            pdf_count: self.pdf_count,
            modified_secs: self.modified_secs,
        }
    }
}

/// A PDF document of the library.
#[derive(Debug)]
pub struct PdfInfo {
    pub name: String,
    pub path: DocPath,
    pub folder_name: String,
    pub folder_path: DocPath,
    pub size_bytes: u64,
    pub modified_secs: u64,
}

/// What a document record says.
#[verifier::ext_equal]
pub struct PdfModel {
    pub name: Seq<char>,
    pub path: PathModel,
    pub folder_name: Seq<char>,
    pub folder_path: PathModel,
    pub size_bytes: u64,
    pub modified_secs: u64,
}

impl Clone for PdfInfo {
    fn clone(&self) -> (r: PdfInfo)
        ensures
            r@ == self@,
    {
        self.copy()
    }
}

impl View for PdfInfo {
    type V = PdfModel;

    open spec fn view(&self) -> PdfModel {
        PdfModel {
            name: self.name@,
            path: self.path@,
            folder_name: self.folder_name@,
            folder_path: self.folder_path@,
            size_bytes: self.size_bytes,
            modified_secs: self.modified_secs,
        }
    }
}

impl PdfInfo {
    pub fn copy(&self) -> (r: PdfInfo)
        ensures
            r@ == self@,
    {
        PdfInfo {
            name: self.name.clone(),
            path: self.path.copy(),
            folder_name: self.folder_name.clone(),
            folder_path: self.folder_path.copy(),
            size_bytes: self.size_bytes,
            modified_secs: self.modified_secs,
        }
    }
}

/// What each record in a list of documents says.
pub open spec fn pdf_models(list: Seq<PdfInfo>) -> Seq<PdfModel> {
    list.map_values(|pdf: PdfInfo| pdf@)
}

/// What each record in a list of folders says.
pub open spec fn folder_models(list: Seq<FolderInfo>) -> Seq<FolderModel> {
    list.map_values(|folder: FolderInfo| folder@)
}

pub proof fn lemma_pdf_models_push(list: Seq<PdfInfo>, pdf: PdfInfo)
    ensures
        pdf_models(list.push(pdf)) == pdf_models(list).push(pdf@),
{
    assert(pdf_models(list.push(pdf)) =~= pdf_models(list).push(pdf@));
}

/// Why a file or folder cannot have a name.
#[derive(Debug, Clone, Copy, PartialEq, Eq, Structural)]
pub enum NameProblem {
    Empty,
    TrailingDotOrSpace,
    ForbiddenCharacter,
    Reserved,
}

/// A control character, or one that Windows keeps out of file names.
pub open spec fn is_forbidden(c: char) -> bool {
    ||| c as int <= 0x1f
    ||| 0x7f <= c as int <= 0x9f
    ||| c == '<'
    ||| c == '>'
    ||| c == ':'
    ||| c == '"'
    ||| c == '/'
    ||| c == '\\'
    ||| c == '|'
    ||| c == '?'
    ||| c == '*'
}

/// The part of a text before its first dot.
pub open spec fn before_dot(text: Seq<char>) -> Seq<char>
    decreases text.len(),
{
    if text.len() == 0 || text[0] == '.' {
        Seq::empty()
    } else {
        seq![text[0]] + before_dot(text.drop_first())
    }
}

/// Whether a name without extension, in upper case, belongs to a Windows device.
pub open spec fn is_device_name(stem: Seq<char>) -> bool {
    ||| stem == "CON"@
    ||| stem == "PRN"@
    ||| stem == "AUX"@
    ||| stem == "NUL"@
    ||| stem == "COM¹"@
    ||| stem == "COM²"@
    ||| stem == "COM³"@
    ||| stem == "LPT¹"@
    ||| stem == "LPT²"@
    ||| stem == "LPT³"@
    ||| {
        &&& stem.len() == 4
        &&& stem.take(3) == "COM"@ || stem.take(3) == "LPT"@
        &&& is_digit(stem[3])
        &&& stem[3] != '0'
    }
}

pub open spec fn uppercased(text: Seq<char>) -> Seq<char> {
    text.map_values(|c: char| ascii_upper(c))
}

/// The first objection that Windows has to a name.
pub open spec fn name_problem(name: Seq<char>) -> Option<NameProblem> {
    if name.len() == 0 {
        Some(NameProblem::Empty)
    } else if name.last() == '.' || name.last() == ' ' {
        Some(NameProblem::TrailingDotOrSpace)
    } else if exists|i: int| 0 <= i < name.len() && is_forbidden(#[trigger] name[i]) {
        Some(NameProblem::ForbiddenCharacter)
    } else if is_device_name(before_dot(uppercased(name))) {
        Some(NameProblem::Reserved)
    } else {
        None
    }
}

/// How a problem is put to the user, after the label of the field.
pub open spec fn problem_text(problem: NameProblem) -> Seq<char> {
    match problem {
        NameProblem::Empty => " nie może być pusta."@,
        NameProblem::TrailingDotOrSpace => " nie może kończyć się kropką ani spacją."@,
        NameProblem::ForbiddenCharacter => " zawiera niedozwolony znak."@,
        NameProblem::Reserved => " jest zarezerwowana przez system Windows."@,
    }
}

/// What checking a requested name gives: the trimmed name, or what is wrong with it.
pub open spec fn checked_name(requested: Seq<char>, label: Seq<char>) -> Result<
    Seq<char>,
    Seq<char>,
> {
    match name_problem(trimmed(requested)) {
        None => Ok(trimmed(requested)),
        Some(problem) => Err(label + problem_text(problem)),
    }
}

/// A result of texts, seen as characters.
pub open spec fn text_result(r: Result<String, String>) -> Result<Seq<char>, Seq<char>> {
    match r {
        Ok(text) => Ok(text@),
        Err(error) => Err(error@),
    }
}

fn forbidden(c: char) -> (r: bool)
    ensures
        r == is_forbidden(c),
{
    c <= '\u{1f}' || ('\u{7f}' <= c && c <= '\u{9f}') || c == '<' || c == '>' || c == ':' || c
        == '"' || c == '/' || c == '\\' || c == '|' || c == '?' || c == '*'
}

fn has_forbidden(name: &Vec<char>) -> (r: bool)
    ensures
        r == exists|i: int| 0 <= i < name.len() && is_forbidden(#[trigger] name@[i]),
{
    let mut i: usize = 0;
    while i < name.len()
        invariant
            i <= name.len(),
            forall|k: int| 0 <= k < i ==> !is_forbidden(#[trigger] name@[k]),
        decreases name.len() - i,
    {
        let c: char = name[i];
        if forbidden(c) {
            assert(is_forbidden(name@[i as int]));
            return true;
        }
        i = i + 1;
    }
    false
}

proof fn lemma_before_dot(text: Seq<char>, end: int)
    requires
        0 <= end <= text.len(),
        forall|i: int| 0 <= i < end ==> text[i] != '.',
        end == text.len() || text[end] == '.',
    ensures
        before_dot(text) == text.take(end),
    decreases end,
{
    if end > 0 {
        lemma_before_dot(text.drop_first(), end - 1);
        assert(text.take(end) =~= seq![text[0]] + text.drop_first().take(end - 1));
    } else {
        assert(text.take(0) =~= Seq::<char>::empty());
    }
}

/// The part of a name before its first dot, in ASCII upper case.
fn upper_stem(name: &Vec<char>) -> (r: Vec<char>)
    ensures
        r@ == before_dot(uppercased(name@)),
{
    let ghost upper = uppercased(name@);
    let mut stem: Vec<char> = Vec::new();
    let mut i: usize = 0;
    while i < name.len()
        invariant_except_break
            stem@ == upper.take(i as int),
        invariant
            i <= name.len(),
            upper == uppercased(name@),
            forall|k: int| 0 <= k < i ==> upper[k] != '.',
        ensures
            stem@ == upper.take(i as int),
            i == name.len() || upper[i as int] == '.',
        decreases name.len() - i,
    {
        let c: char = to_ascii_upper(name[i]);
        assert(c == upper[i as int]);
        if c == '.' {
            break;
        }
        stem.push(c);
        i = i + 1;
        assert(stem@ =~= upper.take(i as int));
    }
    proof {
        lemma_before_dot(upper, i as int);
    }
    stem
}

fn device_name(stem: &Vec<char>) -> (r: bool)
    ensures
        r == is_device_name(stem@),
{
    if same_chars(stem, &chars_of("CON")) || same_chars(stem, &chars_of("PRN")) || same_chars(
        stem,
        &chars_of("AUX"),
    ) || same_chars(stem, &chars_of("NUL")) || same_chars(stem, &chars_of("COM¹")) || same_chars(
        stem,
        &chars_of("COM²"),
    ) || same_chars(stem, &chars_of("COM³")) || same_chars(stem, &chars_of("LPT¹")) || same_chars(
        stem,
        &chars_of("LPT²"),
    ) || same_chars(stem, &chars_of("LPT³")) {
        return true;
    }
    if stem.len() != 4 {
        return false;
    }
    let port: Vec<char> = copy_range(stem, 0, 3);
    assert(port@ =~= stem@.take(3));
    let number: char = stem[3];
    (same_chars(&port, &chars_of("COM")) || same_chars(&port, &chars_of("LPT")))
        && is_ascii_digit(number) && number != '0'
}

fn find_name_problem(name: &Vec<char>) -> (r: Option<NameProblem>)
    ensures
        r == name_problem(name@),
{
    if name.len() == 0 {
        return Some(NameProblem::Empty);
    }
    let last: char = name[name.len() - 1];
    if last == '.' || last == ' ' {
        return Some(NameProblem::TrailingDotOrSpace);
    }
    if has_forbidden(name) {
        return Some(NameProblem::ForbiddenCharacter);
    }
    let stem: Vec<char> = upper_stem(name);
    if device_name(&stem) {
        return Some(NameProblem::Reserved);
    }
    None
}

fn describe_problem(problem: NameProblem) -> (r: String)
    ensures
        r@ == problem_text(problem),
{
    match problem {
        NameProblem::Empty => " nie może być pusta.".to_owned(),
        NameProblem::TrailingDotOrSpace => " nie może kończyć się kropką ani spacją.".to_owned(),
        NameProblem::ForbiddenCharacter => " zawiera niedozwolony znak.".to_owned(),
        NameProblem::Reserved => " jest zarezerwowana przez system Windows.".to_owned(),
    }
}

/// Checks that Windows accepts a name and gives it back without the white
/// space around it. `label` names the field in the error text.
pub fn validate_windows_name(requested_name: &str, label: &str) -> (r: Result<String, String>)
    ensures
        text_result(r) == checked_name(requested_name@, label@),
{
    let name: Vec<char> = trim(&chars_of(requested_name));
    match find_name_problem(&name) {
        None => Ok(text_of(&name)),
        Some(problem) => {
            let mut message: String = label.to_owned();
            message.append(&describe_problem(problem));
            Err(message)
        },
    }
}

/// A file name without a final `.pdf`, in whatever case it is written.
pub open spec fn without_pdf(name: Seq<char>) -> Seq<char> {
    if name.len() >= 4 && equal_ignoring_ascii_case(name.skip(name.len() - 4), ".pdf"@) {
        name.take(name.len() - 4)
    } else {
        name
    }
}

/// Removes a final `.pdf`.
fn strip_pdf(name: &Vec<char>) -> (r: Vec<char>)
    ensures
        r@ == without_pdf(name@),
{
    if name.len() < 4 {
        return copy_whole(name);
    }
    let at: usize = name.len() - 4;
    let tail: Vec<char> = copy_range(name, at, name.len());
    assert(tail@ =~= name@.skip(at as int));
    if same_ignoring_ascii_case(&tail, &chars_of(".pdf")) {
        let stem: Vec<char> = copy_range(name, 0, at);
        assert(stem@ =~= name@.take(at as int));
        stem
    } else {
        copy_whole(name)
    }
}

fn copy_whole(name: &Vec<char>) -> (r: Vec<char>)
    ensures
        r@ == name@,
{
    let whole: Vec<char> = copy_range(name, 0, name.len());
    assert(whole@ =~= name@);
    whole
}

/// What a requested document name gives: the checked name without `.pdf`.
pub open spec fn pdf_stem(requested: Seq<char>) -> Result<Seq<char>, Seq<char>> {
    checked_name(without_pdf(trimmed(requested)), "Nazwa pliku"@)
}

/// Checks a requested document name and removes its `.pdf`.
pub fn normalized_pdf_stem(requested_name: &str) -> (r: Result<String, String>)
    ensures
        text_result(r) == pdf_stem(requested_name@),
{
    let raw: Vec<char> = trim(&chars_of(requested_name));
    let stem: Vec<char> = strip_pdf(&raw);
    validate_windows_name(&text_of(&stem), "Nazwa pliku")
}

/// Whether a file name has the extension `pdf`. A dot at the very start begins a
/// hidden name and no extension.
pub open spec fn is_pdf_name(name: Seq<char>) -> bool {
    name.len() >= 5 && equal_ignoring_ascii_case(name.skip(name.len() - 4), ".pdf"@)
}

/// Whether a file name has the extension `pdf`, in whatever case.
pub fn has_pdf_extension(name: &str) -> (r: bool)
    ensures
        r == is_pdf_name(name@),
{
    let chars: Vec<char> = chars_of(name);
    if chars.len() < 5 {
        return false;
    }
    let tail: Vec<char> = copy_range(&chars, chars.len() - 4, chars.len());
    assert(tail@ =~= name@.skip(name@.len() - 4));
    same_ignoring_ascii_case(&tail, &chars_of(".pdf"))
}

/// The name that a document gets when `k` names before it were taken:
/// `X.pdf`, then `X (2).pdf`, `X (3).pdf` and so on.
pub open spec fn pdf_candidate(stem: Seq<char>, k: nat) -> Seq<char> {
    if k == 0 {
        stem + ".pdf"@
    } else {
        stem + " ("@ + decimal(k + 1) + ").pdf"@
    }
}

/// How many names are tried before giving up.
pub const MAX_CANDIDATES: u64 = 9999;

/// Whether the probe has answered that something exists at a place.
pub open spec fn found_at<F: Fn(&DocPath) -> bool>(probe: F, place: PathModel) -> bool {
    exists|path: DocPath| path@ == place && #[trigger] call_ensures(probe, (&path,), true)
}

/// Whether a place is that of the `k`-th name, and every name before was taken.
pub open spec fn is_first_free<F: Fn(&DocPath) -> bool>(
    probe: F,
    folder: PathModel,
    stem: Seq<char>,
    k: nat,
    place: PathModel,
) -> bool {
    &&& k < MAX_CANDIDATES
    &&& place == folder.join(pdf_candidate(stem, k))
    &&& forall|j: nat| j < k ==> found_at(probe, folder.join(#[trigger] pdf_candidate(stem, j)))
}

/// Whether the probe has answered that a path is free, and that every earlier
/// candidate for the name is taken.
pub open spec fn is_first_free_place<F: Fn(&DocPath) -> bool>(
    probe: F,
    folder: PathModel,
    stem: Seq<char>,
    path: DocPath,
) -> bool {
    &&& call_ensures(probe, (&path,), false)
    &&& exists|k: nat| is_first_free(probe, folder, stem, k, path@)
}

fn candidate_path(folder: &DocPath, stem: &str, k: u64) -> (r: DocPath)
    requires
        k < MAX_CANDIDATES,
    ensures
        r@ == folder@.join(pdf_candidate(stem@, k as nat)),
{
    let mut name: String = stem.to_owned();
    if k == 0 {
        name.append(".pdf");
    } else {
        name.append(" (");
        name.append(&text_of(&decimal_chars(k + 1)));
        name.append(").pdf");
    }
    folder.join(&name)
}

/// Whether a result is the first free place for a document of a name, or the message
/// for a name that is refused or whose every candidate is taken.
pub open spec fn is_unique_path<F: Fn(&DocPath) -> bool>(
    probe: F,
    folder: PathModel,
    requested_name: Seq<char>,
    r: Result<DocPath, String>,
) -> bool {
    match pdf_stem(requested_name) {
        Err(problem) => r matches Err(error) && error@ == problem,
        Ok(stem) => match r {
            Ok(path) => is_first_free_place(probe, folder, stem, path),
            Err(error) => {
                &&& error@ == "Nie można utworzyć unikalnej nazwy pliku."@
                &&& forall|j: nat|
                    j < MAX_CANDIDATES ==> found_at(
                        probe,
                        folder.join(#[trigger] pdf_candidate(stem, j)),
                    )
            },
        },
    }
}

/// The first free place in a folder for a document of the requested name.
/// `exists_at` tells whether there is something at a place already.
pub fn unique_pdf_path<F: Fn(&DocPath) -> bool>(
    folder: &DocPath,
    requested_name: &str,
    exists_at: &F,
) -> (r: Result<DocPath, String>)
    requires
        forall|path: &DocPath| #[trigger] call_requires(*exists_at, (path,)),
    ensures
        is_unique_path(*exists_at, folder@, requested_name@, r),
{
    let stem: String = match normalized_pdf_stem(requested_name) {
        Ok(stem) => stem,
        Err(error) => {
            return Err(error);
        },
    };
    let mut k: u64 = 0;
    while k < MAX_CANDIDATES
        invariant
            k <= MAX_CANDIDATES,
            pdf_stem(requested_name@) == Ok::<Seq<char>, Seq<char>>(stem@),
            forall|path: &DocPath| #[trigger] call_requires(*exists_at, (path,)),
            forall|j: nat|
                j < k ==> found_at(*exists_at, folder@.join(#[trigger] pdf_candidate(stem@, j))),
        decreases MAX_CANDIDATES - k,
    {
        let candidate: DocPath = candidate_path(folder, &stem, k);
        let taken: bool = exists_at(&candidate);
        if !taken {
            assert(is_first_free(*exists_at, folder@, stem@, k as nat, candidate@));
            assert(is_first_free_place(*exists_at, folder@, stem@, candidate));
            return Ok(candidate);
        }
        k = k + 1;
    }
    Err("Nie można utworzyć unikalnej nazwy pliku.".to_owned())
}

/// The position from which a text consists of digits to its end.
pub open spec fn digits_start(text: Seq<char>) -> int
    decreases text.len(),
{
    if text.len() == 0 || !is_digit(text.last()) {
        text.len() as int
    } else {
        digits_start(text.drop_last())
    }
}

/// A document name that ends in a number: what stands before it, and its digits.
#[verifier::ext_equal]
pub struct NumberedName {
    pub prefix: Seq<char>,
    pub digits: Seq<char>,
}

/// The number at the end of a document name, where there is one that has a successor.
pub open spec fn numbered_name(name: Seq<char>) -> Option<NumberedName> {
    let stem = without_pdf(name);
    let at = digits_start(stem);
    let digits = stem.skip(at);
    if digits.len() == 0 || digits_value(digits) >= u64::MAX {
        None
    } else {
        Some(NumberedName { prefix: stem.take(at), digits })
    }
}

/// What the names of one series share: the prefix without regard to case, and
/// how many digits the number has.
#[verifier::ext_equal]
pub struct SeriesKey {
    pub prefix: Seq<char>,
    pub width: nat,
}

pub open spec fn series_key(name: Seq<char>) -> Option<SeriesKey> {
    match numbered_name(name) {
        None => None,
        Some(numbered) => Some(
            SeriesKey { prefix: text_lowercase(numbered.prefix), width: numbered.digits.len() },
        ),
    }
}

/// What is known of a series: how many documents it has, its highest number,
/// the prefix as that document writes it, and when it last changed.
#[verifier::ext_equal]
pub struct Series {
    pub prefix: Seq<char>,
    pub count: nat,
    pub highest: nat,
    pub latest: u64,
}

/// A series with one more document.
pub open spec fn series_with(series: Option<Series>, numbered: NumberedName, modified: u64) -> Series {
    let number = digits_value(numbered.digits);
    match series {
        None => Series {
            prefix: numbered.prefix,
            count: 1,
            highest: number,
            latest: modified,
        },
        Some(series) => {
            let replaces = number > series.highest || (number == series.highest && modified
                >= series.latest);
            Series {
                prefix: if replaces { numbered.prefix } else { series.prefix },
                count: series.count + 1,
                highest: if replaces { number } else { series.highest },
                latest: if modified > series.latest { modified } else { series.latest },
            }
        },
    }
}

/// The series with the given key among some documents.
pub open spec fn series_of(pdfs: Seq<PdfModel>, key: SeriesKey) -> Option<Series>
    decreases pdfs.len(),
{
    if pdfs.len() == 0 {
        None
    } else {
        let before = series_of(pdfs.drop_last(), key);
        if series_key(pdfs.last().name) == Some(key) {
            Some(
                series_with(
                    before,
                    numbered_name(pdfs.last().name).unwrap(),
                    pdfs.last().modified_secs,
                ),
            )
        } else {
            before
        }
    }
}

/// Which of two series is the stronger: the one with more documents, then the
/// higher number, then the later change, then the later prefix, then the wider number.
pub open spec fn series_strength(
    left_key: SeriesKey,
    left: Series,
    right_key: SeriesKey,
    right: Series,
) -> Order {
    int_order(left.count as int, right.count as int).chained(
        int_order(left.highest as int, right.highest as int),
    ).chained(int_order(left.latest as int, right.latest as int)).chained(
        text_order(left_key.prefix, right_key.prefix),
    ).chained(int_order(left_key.width as int, right_key.width as int))
}

/// A series is established once it has two documents.
pub open spec fn is_established(pdfs: Seq<PdfModel>, key: SeriesKey) -> bool {
    series_of(pdfs, key) matches Some(series) && series.count >= 2
}

pub open spec fn is_strongest(pdfs: Seq<PdfModel>, key: SeriesKey) -> bool {
    &&& is_established(pdfs, key)
    &&& forall|other: SeriesKey| #[trigger]
        is_established(pdfs, other) ==> series_strength(
            other,
            series_of(pdfs, other).unwrap(),
            key,
            series_of(pdfs, key).unwrap(),
        ) != Order::Greater
}

/// A number with zeros in front, to a least width.
pub open spec fn padded(n: nat, width: nat) -> Seq<char> {
    let digits = decimal(n);
    if digits.len() < width {
        Seq::new((width - digits.len()) as nat, |i: int| '0') + digits
    } else {
        digits
    }
}

/// The name that continues a series.
pub open spec fn next_in_series(key: SeriesKey, series: Series) -> Seq<char> {
    series.prefix + padded(series.highest + 1, key.width)
}

/// The name suggested where no series is established.
pub open spec fn fallback_name(folder_name: Seq<char>) -> Seq<char> {
    if trimmed(folder_name).len() == 0 {
        "Dokument"@
    } else {
        trimmed(folder_name)
    }
}

struct Sequence {
    lower: Vec<char>,
    width: usize,
    prefix: Vec<char>,
    count: usize,
    highest: u64,
    latest: u64,
}

impl Sequence {
    spec fn key(self) -> SeriesKey {
        SeriesKey { prefix: self.lower@, width: self.width as nat }
    }

    spec fn series(self) -> Series {
        Series {
            prefix: self.prefix@,
            count: self.count as nat,
            highest: self.highest as nat,
            latest: self.latest,
        }
    }
}

/// The sequences hold every series among the documents, each once.
spec fn collects(sequences: Seq<Sequence>, pdfs: Seq<PdfModel>) -> bool {
    &&& forall|j: int|
        0 <= j < sequences.len() ==> series_of(pdfs, (#[trigger] sequences[j]).key()) == Some(
            sequences[j].series(),
        )
    &&& forall|key: SeriesKey| #[trigger]
        series_of(pdfs, key) is Some ==> exists|j: int|
            0 <= j < sequences.len() && (#[trigger] sequences[j]).key() == key
    &&& forall|j: int| 0 <= j < sequences.len() ==> (#[trigger] sequences[j]).count <= pdfs.len()
    &&& forall|j: int|
        0 <= j < sequences.len() ==> (#[trigger] sequences[j]).highest < u64::MAX
    &&& forall|j: int, k: int|
        0 <= j < k < sequences.len() ==> (#[trigger] sequences[j]).key() != (
        #[trigger] sequences[k]).key()
}

proof fn lemma_digits_start(text: Seq<char>, at: int)
    requires
        0 <= at <= text.len(),
        forall|i: int| at <= i < text.len() ==> is_digit(#[trigger] text[i]),
        at == 0 || !is_digit(text[at - 1]),
    ensures
        digits_start(text) == at,
    decreases text.len(),
{
    if at < text.len() {
        lemma_digits_start(text.drop_last(), at);
    }
}

/// Splits a document name before the number that ends it.
fn split_number(name: &str) -> (r: Option<(Vec<char>, usize, u64)>)
    ensures
        match r {
            None => numbered_name(name@) is None,
            Some((prefix, width, number)) => numbered_name(name@) matches Some(numbered) && {
                &&& prefix@ == numbered.prefix
                &&& width == numbered.digits.len()
                &&& number == digits_value(numbered.digits)
                &&& number < u64::MAX
            },
        },
{
    let stem: Vec<char> = strip_pdf(&chars_of(name));
    let mut at: usize = stem.len();
    while at > 0 && is_ascii_digit(stem[at - 1])
        invariant
            at <= stem.len(),
            forall|i: int| at <= i < stem.len() ==> is_digit(#[trigger] stem@[i]),
        decreases at,
    {
        at = at - 1;
    }
    proof {
        lemma_digits_start(stem@, at as int);
    }
    if at == stem.len() {
        return None;
    }
    let digits: Vec<char> = copy_range(&stem, at, stem.len());
    assert(digits@ =~= stem@.skip(at as int));
    assert(is_digit(digits@[0]));
    match parse_u64(&digits) {
        None => None,
        Some(number) => {
            if number == u64::MAX {
                None
            } else {
                let prefix: Vec<char> = copy_range(&stem, 0, at);
                assert(prefix@ =~= stem@.take(at as int));
                Some((prefix, stem.len() - at, number))
            }
        },
    }
}

fn find_sequence(sequences: &Vec<Sequence>, lower: &Vec<char>, width: usize) -> (r: Option<usize>)
    ensures
        match r {
            Some(j) => j < sequences.len() && sequences[j as int].key() == (SeriesKey {
                prefix: lower@,
                width: width as nat,
            }),
            None => forall|j: int|
                0 <= j < sequences.len() ==> (#[trigger] sequences[j]).key() != (SeriesKey {
                    prefix: lower@,
                    width: width as nat,
                }),
        },
{
    let mut j: usize = 0;
    while j < sequences.len()
        invariant
            j <= sequences.len(),
            forall|k: int|
                0 <= k < j ==> (#[trigger] sequences[k]).key() != (SeriesKey {
                    prefix: lower@,
                    width: width as nat,
                }),
        decreases sequences.len() - j,
    {
        if sequences[j].width == width && same_chars(&sequences[j].lower, lower) {
            return Some(j);
        }
        j = j + 1;
    }
    None
}

proof fn lemma_series_step(pdfs: Seq<PdfModel>, pdf: PdfModel, key: SeriesKey)
    ensures
        series_of(pdfs.push(pdf), key) == if series_key(pdf.name) == Some(key) {
            Some(
                series_with(
                    series_of(pdfs, key),
                    numbered_name(pdf.name).unwrap(),
                    pdf.modified_secs,
                ),
            )
        } else {
            series_of(pdfs, key)
        },
{
    assert(pdfs.push(pdf).drop_last() =~= pdfs);
}

fn add_document(sequences: &mut Vec<Sequence>, pdf: &PdfInfo, Ghost(pdfs): Ghost<Seq<PdfModel>>)
    requires
        collects(old(sequences)@, pdfs),
        pdfs.len() < usize::MAX,
    ensures
        collects(final(sequences)@, pdfs.push(pdf@)),
{
    proof {
        assert forall|key: SeriesKey| true implies #[trigger] series_of(pdfs.push(pdf@), key)
            == if series_key(pdf@.name) == Some(key) {
            Some(
                series_with(
                    series_of(pdfs, key),
                    numbered_name(pdf@.name).unwrap(),
                    pdf@.modified_secs,
                ),
            )
        } else {
            series_of(pdfs, key)
        } by {
            lemma_series_step(pdfs, pdf@, key);
        }
    }
    let ghost before = sequences@;
    match split_number(&pdf.name) {
        None => {},
        Some((prefix, width, number)) => {
            let lower: Vec<char> = chars_of(&lowercase_text(&text_of(&prefix)));
            let ghost key = SeriesKey { prefix: lower@, width: width as nat };
            assert(series_key(pdf@.name) == Some(key));
            match find_sequence(sequences, &lower, width) {
                None => {
                    assert(series_of(pdfs, key) is None);
                    sequences.push(
                        Sequence {
                            lower,
                            width,
                            prefix,
                            count: 1,
                            highest: number,
                            latest: pdf.modified_secs,
                        },
                    );
                    proof {
                        assert forall|other: SeriesKey| #[trigger]
                            series_of(pdfs.push(pdf@), other) is Some implies exists|j: int|
                            0 <= j < sequences.len() && (#[trigger] sequences@[j]).key() == other by {
                            if other == key {
                                assert(sequences@[before.len() as int].key() == key);
                            } else {
                                let j = choose|j: int|
                                    0 <= j < before.len() && (#[trigger] before[j]).key() == other;
                                assert(sequences@[j].key() == other);
                            }
                        }
                    }
                },
                Some(j) => {
                    let old_sequence: &Sequence = &sequences[j];
                    let replaces: bool = number > old_sequence.highest || (number
                        == old_sequence.highest && pdf.modified_secs >= old_sequence.latest);
                    let updated: Sequence = Sequence {
                        lower,
                        width,
                        prefix: if replaces { prefix } else { copy_whole(&old_sequence.prefix) },
                        count: old_sequence.count + 1,
                        highest: if replaces { number } else { old_sequence.highest },
                        latest: if pdf.modified_secs > old_sequence.latest {
                            pdf.modified_secs
                        } else {
                            old_sequence.latest
                        },
                    };
                    sequences.set(j, updated);
                    proof {
                        assert(sequences@[j as int].key() == key);
                        assert forall|other: SeriesKey| #[trigger]
                            series_of(pdfs.push(pdf@), other) is Some implies exists|l: int|
                            0 <= l < sequences.len() && (#[trigger] sequences@[l]).key() == other by {
                            let l = choose|l: int|
                                0 <= l < before.len() && (#[trigger] before[l]).key() == other;
                            assert(sequences@[l].key() == other);
                        }
                        assert forall|l: int| 0 <= l < sequences.len() implies series_of(
                            pdfs.push(pdf@),
                            (#[trigger] sequences@[l]).key(),
                        ) == Some(sequences@[l].series()) by {
                            if l != j {
                                assert(sequences@[l] == before[l]);
                                if l < j {
                                    assert(before[l].key() != before[j as int].key());
                                } else {
                                    assert(before[j as int].key() != before[l].key());
                                }
                            } else {
                                assert(series_of(pdfs, before[j as int].key()) == Some(
                                    before[j as int].series(),
                                ));
                            }
                        }
                        assert forall|a: int, b: int| 0 <= a < b < sequences.len() implies (
                        #[trigger] sequences@[a]).key() != (#[trigger] sequences@[b]).key() by {
                            assert(before[a].key() != before[b].key());
                        }
                    }
                },
            }
        },
    }
}

proof fn lemma_strength_transitive(
    a_key: SeriesKey,
    a: Series,
    b_key: SeriesKey,
    b: Series,
    c_key: SeriesKey,
    c: Series,
)
    requires
        series_strength(a_key, a, b_key, b) != Order::Greater,
        series_strength(b_key, b, c_key, c) != Order::Greater,
    ensures
        series_strength(a_key, a, c_key, c) != Order::Greater,
{
    lemma_text_order_equal(a_key.prefix, b_key.prefix);
    lemma_text_order_equal(b_key.prefix, c_key.prefix);
    lemma_text_order_equal(a_key.prefix, c_key.prefix);
    if text_order(a_key.prefix, b_key.prefix) != Order::Greater && text_order(
        b_key.prefix,
        c_key.prefix,
    ) != Order::Greater {
        lemma_text_order_transitive(a_key.prefix, b_key.prefix, c_key.prefix);
    }
}

fn compare_strength(left: &Sequence, right: &Sequence) -> (r: Order)
    ensures
        r == series_strength(left.key(), left.series(), right.key(), right.series()),
{
    let by_count: Order = compare_usize(left.count, right.count);
    if by_count != Order::Equal {
        return by_count;
    }
    let by_highest: Order = compare_u64(left.highest, right.highest);
    if by_highest != Order::Equal {
        return by_highest;
    }
    let by_latest: Order = compare_u64(left.latest, right.latest);
    if by_latest != Order::Equal {
        return by_latest;
    }
    let by_prefix: Order = compare_chars(&left.lower, &right.lower);
    if by_prefix != Order::Equal {
        return by_prefix;
    }
    compare_usize(left.width, right.width)
}

fn strongest_sequence(sequences: &Vec<Sequence>, Ghost(pdfs): Ghost<Seq<PdfModel>>) -> (r: Option<
    usize,
>)
    requires
        collects(sequences@, pdfs),
    ensures
        match r {
            Some(j) => j < sequences.len() && is_strongest(pdfs, sequences[j as int].key()),
            None => forall|key: SeriesKey| !#[trigger] is_established(pdfs, key),
        },
{
    let mut best: Option<usize> = None;
    let mut i: usize = 0;
    while i < sequences.len()
        invariant
            i <= sequences.len(),
            collects(sequences@, pdfs),
            match best {
                Some(j) => {
                    &&& j < i
                    &&& sequences[j as int].count >= 2
                    &&& forall|k: int|
                        0 <= k < i && (#[trigger] sequences[k]).count >= 2 ==> series_strength(
                            sequences[k].key(),
                            sequences[k].series(),
                            sequences[j as int].key(),
                            sequences[j as int].series(),
                        ) != Order::Greater
                },
                None => forall|k: int| 0 <= k < i ==> (#[trigger] sequences[k]).count < 2,
            },
        decreases sequences.len() - i,
    {
        if sequences[i].count >= 2 {
            match best {
                None => {
                    best = Some(i);
                    proof {
                        lemma_text_order_equal(sequences[i as int].lower@, sequences[i as int].lower@);
                    }
                },
                Some(j) => {
                    let order: Order = compare_strength(&sequences[j], &sequences[i]);
                    if order != Order::Greater {
                        proof {
                            lemma_text_order_equal(
                                sequences[i as int].lower@,
                                sequences[i as int].lower@,
                            );
                            assert forall|k: int|
                                0 <= k < i + 1 && (#[trigger] sequences[k]).count >= 2 implies series_strength(
                                sequences[k].key(),
                                sequences[k].series(),
                                sequences[i as int].key(),
                                sequences[i as int].series(),
                            ) != Order::Greater by {
                                if k < i {
                                    lemma_strength_transitive(
                                        sequences[k].key(),
                                        sequences[k].series(),
                                        sequences[j as int].key(),
                                        sequences[j as int].series(),
                                        sequences[i as int].key(),
                                        sequences[i as int].series(),
                                    );
                                }
                            }
                        }
                        best = Some(i);
                    } else {
                        proof {
                            lemma_strength_mirror(
                                sequences[j as int].key(),
                                sequences[j as int].series(),
                                sequences[i as int].key(),
                                sequences[i as int].series(),
                            );
                        }
                    }
                },
            }
        }
        i = i + 1;
    }
    proof {
        assert forall|key: SeriesKey| #[trigger] is_established(pdfs, key) implies exists|k: int|
            0 <= k < sequences.len() && (#[trigger] sequences[k]).key() == key
                && sequences[k].count >= 2 by {
            let k = choose|k: int| 0 <= k < sequences.len() && (#[trigger] sequences[k]).key() == key;
            assert(sequences[k].series().count >= 2);
        }
        if let Some(j) = best {
            let key = sequences[j as int].key();
            assert(series_of(pdfs, key) == Some(sequences[j as int].series()));
            assert forall|other: SeriesKey| #[trigger] is_established(pdfs, other) implies series_strength(
                other,
                series_of(pdfs, other).unwrap(),
                key,
                series_of(pdfs, key).unwrap(),
            ) != Order::Greater by {
                let k = choose|k: int|
                    0 <= k < sequences.len() && (#[trigger] sequences[k]).key() == other
                        && sequences[k].count >= 2;
            }
        }
    }
    best
}

proof fn lemma_strength_mirror(a_key: SeriesKey, a: Series, b_key: SeriesKey, b: Series)
    ensures
        series_strength(b_key, b, a_key, a) == series_strength(a_key, a, b_key, b).mirrored(),
{
    lemma_text_order_mirror(a_key.prefix, b_key.prefix);
}

fn padded_chars(n: u64, width: usize) -> (r: Vec<char>)
    ensures
        r@ == padded(n as nat, width as nat),
{
    let digits: Vec<char> = decimal_chars(n);
    if digits.len() >= width {
        return digits;
    }
    let zeros: usize = width - digits.len();
    let mut result: Vec<char> = Vec::new();
    let mut i: usize = 0;
    while i < zeros
        invariant
            i <= zeros,
            result@ == Seq::new(i as nat, |i: int| '0'),
        decreases zeros - i,
    {
        result.push('0');
        i = i + 1;
        assert(result@ =~= Seq::new(i as nat, |i: int| '0'));
    }
    let mut digits: Vec<char> = digits;
    result.append(&mut digits);
    result
}

/// Whether a name is the one to offer next: the next of the strongest series, or one made of
/// the folder's name where there is no series.
pub open spec fn is_next_name(pdfs: Seq<PdfModel>, folder_name: Seq<char>, name: Seq<char>) -> bool {
    ||| exists|key: SeriesKey| #[trigger]
        is_strongest(pdfs, key) && name == next_in_series(key, series_of(pdfs, key).unwrap())
    ||| {
        &&& forall|key: SeriesKey| !#[trigger] is_established(pdfs, key)
        &&& name == fallback_name(folder_name)
    }
}

/// Suggests the next filename stem for the strongest trailing-number series.
///
/// A folder containing `A01.pdf`, `A02.pdf`, and `A09.pdf` therefore yields
/// `A10`. Series are grouped by a case-insensitive prefix and digit width, so
/// an unrelated one-off filename such as `Raport2025.pdf` does not normally
/// displace an established sequence. If no series is established, the
/// trimmed folder name is returned unchanged.
pub fn next_sequence_name(existing: &Vec<PdfInfo>, fallback_folder_name: &str) -> (r: String)
    ensures
        is_next_name(pdf_models(existing@), fallback_folder_name@, r@),
{
    let ghost pdfs = pdf_models(existing@);
    let mut sequences: Vec<Sequence> = Vec::new();
    let mut i: usize = 0;
    assert(pdfs.take(0) =~= Seq::<PdfModel>::empty());
    while i < existing.len()
        invariant
            i <= existing.len(),
            pdfs == pdf_models(existing@),
            collects(sequences@, pdfs.take(i as int)),
        decreases existing.len() - i,
    {
        add_document(&mut sequences, &existing[i], Ghost(pdfs.take(i as int)));
        assert(pdfs.take(i as int).push(existing[i as int]@) =~= pdfs.take(i + 1));
        i = i + 1;
    }
    assert(pdfs.take(i as int) =~= pdfs);
    match strongest_sequence(&sequences, Ghost(pdfs)) {
        Some(j) => {
            let sequence: &Sequence = &sequences[j];
            let mut name: Vec<char> = copy_whole(&sequence.prefix);
            let mut number: Vec<char> = padded_chars(sequence.highest + 1, sequence.width);
            name.append(&mut number);
            assert(is_strongest(pdfs, sequences[j as int].key()));
            text_of(&name)
        },
        None => {
            let fallback: Vec<char> = trim(&chars_of(fallback_folder_name));
            if fallback.len() == 0 {
                "Dokument".to_owned()
            } else {
                text_of(&fallback)
            }
        },
    }
}

/// What makes a series strong, whatever its documents are called.
spec fn series_facts(series: Option<Series>) -> Option<(nat, nat, u64)> {
    match series {
        Some(series) => Some((series.count, series.highest, series.latest)),
        None => None,
    }
}

/// What one more document makes of a series' facts.
spec fn facts_with(facts: Option<(nat, nat, u64)>, pdf: PdfModel, key: SeriesKey) -> Option<
    (nat, nat, u64),
> {
    if series_key(pdf.name) == Some(key) {
        let number = digits_value(numbered_name(pdf.name).unwrap().digits);
        match facts {
            None => Some((1, number, pdf.modified_secs)),
            Some((count, highest, latest)) => Some(
                (
                    count + 1,
                    if number > highest { number } else { highest },
                    if pdf.modified_secs > latest { pdf.modified_secs } else { latest },
                ),
            ),
        }
    } else {
        facts
    }
}

proof fn lemma_facts_step(pdfs: Seq<PdfModel>, key: SeriesKey)
    requires
        pdfs.len() > 0,
    ensures
        series_facts(series_of(pdfs, key)) == facts_with(
            series_facts(series_of(pdfs.drop_last(), key)),
            pdfs.last(),
            key,
        ),
{
}

/// It makes no difference to a series' facts which of its documents came last.
proof fn lemma_facts_of_removed(pdfs: Seq<PdfModel>, i: int, key: SeriesKey)
    requires
        0 <= i < pdfs.len(),
    ensures
        series_facts(series_of(pdfs, key)) == facts_with(
            series_facts(series_of(pdfs.remove(i), key)),
            pdfs[i],
            key,
        ),
    decreases pdfs.len(),
{
    lemma_facts_step(pdfs, key);
    if i == pdfs.len() - 1 {
        assert(pdfs.remove(i) =~= pdfs.drop_last());
    } else {
        let init = pdfs.drop_last();
        lemma_facts_of_removed(init, i, key);
        assert(pdfs.remove(i).drop_last() =~= init.remove(i));
        assert(pdfs.remove(i).last() == pdfs.last());
        lemma_facts_step(pdfs.remove(i), key);
    }
}

proof fn lemma_facts_of_permuted(pdfs: Seq<PdfModel>, other: Seq<PdfModel>, key: SeriesKey)
    requires
        pdfs.to_multiset() == other.to_multiset(),
    ensures
        series_facts(series_of(pdfs, key)) == series_facts(series_of(other, key)),
    decreases pdfs.len(),
{
    pdfs.to_multiset_ensures();
    other.to_multiset_ensures();
    if pdfs.len() > 0 {
        let last = pdfs.last();
        assert(pdfs.contains(last));
        assert(pdfs.to_multiset().count(last) > 0);
        assert(other.contains(last));
        let i = choose|i: int| 0 <= i < other.len() && other[i] == last;
        assert(pdfs.remove(pdfs.len() - 1) =~= pdfs.drop_last());
        assert(pdfs.remove(pdfs.len() - 1).to_multiset() =~= pdfs.to_multiset().remove(last));
        assert(other.remove(i).to_multiset() =~= other.to_multiset().remove(last));
        lemma_facts_of_permuted(pdfs.drop_last(), other.remove(i), key);
        lemma_facts_step(pdfs, key);
        lemma_facts_of_removed(other, i, key);
    } else {
        assert(other =~= pdfs);
    }
}

proof fn lemma_series_prefix(pdfs: Seq<PdfModel>, key: SeriesKey)
    ensures
        series_of(pdfs, key) matches Some(series) ==> text_lowercase(series.prefix) == key.prefix,
    decreases pdfs.len(),
{
    if pdfs.len() > 0 {
        lemma_series_prefix(pdfs.drop_last(), key);
    }
}

/// Whether two names are one but for the case in which their first part is written.
pub open spec fn differ_in_case_only(name: Seq<char>, other: Seq<char>) -> bool {
    exists|prefix: Seq<char>, other_prefix: Seq<char>, rest: Seq<char>|
        text_lowercase(prefix) == text_lowercase(other_prefix) && name == #[trigger] (prefix + rest)
            && other == #[trigger] (other_prefix + rest)
}

/// The name offered next does not hang on the order in which the documents are listed, but
/// for the case in which the series is written.
pub proof fn law_next_name_ignores_the_order(
    pdfs: Seq<PdfModel>,
    other: Seq<PdfModel>,
    folder_name: Seq<char>,
    name: Seq<char>,
    other_name: Seq<char>,
)
    requires
        pdfs.to_multiset() == other.to_multiset(),
        is_next_name(pdfs, folder_name, name),
        is_next_name(other, folder_name, other_name),
    ensures
        differ_in_case_only(name, other_name),
{
    assert forall|key: SeriesKey| #[trigger] is_established(pdfs, key) == is_established(
        other,
        key,
    ) by {
        lemma_facts_of_permuted(pdfs, other, key);
    }
    if exists|key: SeriesKey| #[trigger] is_established(pdfs, key) {
        let established = choose|key: SeriesKey| #[trigger] is_established(pdfs, key);
        assert(is_established(other, established));
        let key = choose|key: SeriesKey| #[trigger]
            is_strongest(pdfs, key) && name == next_in_series(key, series_of(pdfs, key).unwrap());
        let other_key = choose|key: SeriesKey| #[trigger]
            is_strongest(other, key) && other_name == next_in_series(
                key,
                series_of(other, key).unwrap(),
            );
        assert(is_established(other, key));
        assert(is_established(pdfs, other_key));
        lemma_facts_of_permuted(pdfs, other, key);
        lemma_facts_of_permuted(pdfs, other, other_key);
        let mine = series_of(pdfs, key).unwrap();
        let theirs = series_of(pdfs, other_key).unwrap();
        lemma_strength_mirror(other_key, theirs, key, mine);
        lemma_text_order_equal(key.prefix, other_key.prefix);
        lemma_text_order_equal(other_key.prefix, key.prefix);
        assert(series_strength(other_key, theirs, key, mine) == Order::Equal);
        assert(key =~= other_key);
        lemma_series_prefix(pdfs, key);
        lemma_series_prefix(other, key);
        let rest = padded(mine.highest + 1, key.width);
        assert(name == mine.prefix + rest);
        assert(other_name == series_of(other, key).unwrap().prefix + rest);
    } else {
        let nothing = Seq::<char>::empty();
        assert forall|key: SeriesKey| !is_strongest(pdfs, key) && !#[trigger] is_strongest(
            other,
            key,
        ) by {
            assert(is_established(pdfs, key) == is_established(other, key));
        }
        assert forall|key: SeriesKey| !#[trigger] is_strongest(pdfs, key) by {
            assert(!is_established(pdfs, key));
        }
        assert(name =~= name + nothing);
        assert(other_name =~= other_name + nothing);
        assert(name == other_name);
    }
}

/// What kind of thing a directory entry is.
#[derive(Debug, Clone, Copy, PartialEq, Eq, Structural)]
pub enum EntryKind {
    File,
    Folder,
    Other,
}

/// A directory entry as the file system reports it. Size and time are zero
/// where they cannot be read.
#[derive(Debug)]
pub struct DirectoryEntry {
    pub name: String,
    pub path: DocPath,
    pub kind: EntryKind,
    pub size_bytes: u64,
    pub modified_secs: u64,
}

/// Names that begin with a dot are this program's own recovery and lock files,
/// never documents or folders of the library.
pub open spec fn is_hidden_name(name: Seq<char>) -> bool {
    name.len() > 0 && name[0] == '.'
}

pub fn is_hidden(name: &str) -> (r: bool)
    ensures
        r == is_hidden_name(name@),
{
    let chars: Vec<char> = chars_of(name);
    chars.len() > 0 && chars[0] == '.'
}

/// The document that a directory entry is, if it is one.
pub open spec fn entry_pdf(
    entry: DirectoryEntry,
    folder_name: Seq<char>,
    folder: PathModel,
) -> Option<PdfModel> {
    if entry.kind == EntryKind::File && is_pdf_name(entry.name@) && !is_hidden_name(entry.name@) {
        Some(
            PdfModel {
                name: entry.name@,
                path: entry.path@,
                folder_name,
                folder_path: folder,
                size_bytes: entry.size_bytes,
                modified_secs: entry.modified_secs,
            },
        )
    } else {
        None
    }
}

pub fn pdf_info_from_entry(entry: &DirectoryEntry, folder_name: &str, folder_path: &DocPath) -> (r:
    Option<PdfInfo>)
    ensures
        r is Some == entry_pdf(*entry, folder_name@, folder_path@) is Some,
        r matches Some(pdf) ==> Some(pdf@) == entry_pdf(*entry, folder_name@, folder_path@),
{
    if entry.kind != EntryKind::File || !has_pdf_extension(&entry.name) || is_hidden(&entry.name) {
        return None;
    }
    Some(
        PdfInfo {
            name: entry.name.clone(),
            path: entry.path.copy(),
            folder_name: folder_name.to_owned(),
            folder_path: folder_path.copy(),
            size_bytes: entry.size_bytes,
            modified_secs: entry.modified_secs,
        },
    )
}

/// The documents among some directory entries, in their order.
pub open spec fn entry_pdfs(
    entries: Seq<DirectoryEntry>,
    folder_name: Seq<char>,
    folder: PathModel,
) -> Seq<PdfModel>
    decreases entries.len(),
{
    if entries.len() == 0 {
        Seq::empty()
    } else {
        let before = entry_pdfs(entries.drop_last(), folder_name, folder);
        match entry_pdf(entries.last(), folder_name, folder) {
            Some(pdf) => before.push(pdf),
            None => before,
        }
    }
}

/// The name that a folder is known by: its last part, or nothing for an anchor.
pub open spec fn display_name(folder: PathModel) -> Seq<char> {
    match folder.file_name() {
        Some(name) => name,
        None => Seq::empty(),
    }
}

fn name_of(folder: &DocPath) -> (r: String)
    ensures
        r@ == display_name(folder@),
{
    match folder.file_name() {
        Some(name) => name,
        None => String::new(),
    }
}

fn pdfs_among(entries: &Vec<DirectoryEntry>, folder_name: &str, folder: &DocPath) -> (r: Vec<
    PdfInfo,
>)
    ensures
        pdf_models(r@) == entry_pdfs(entries@, folder_name@, folder@),
{
    let mut files: Vec<PdfInfo> = Vec::new();
    let mut i: usize = 0;
    assert(entries@.take(0) =~= Seq::<DirectoryEntry>::empty());
    assert(pdf_models(files@) =~= Seq::<PdfModel>::empty());
    while i < entries.len()
        invariant
            i <= entries.len(),
            pdf_models(files@) == entry_pdfs(entries@.take(i as int), folder_name@, folder@),
        decreases entries.len() - i,
    {
        assert(entries@.take(i + 1).drop_last() =~= entries@.take(i as int));
        assert(entries@.take(i + 1).last() == entries@[i as int]);
        match pdf_info_from_entry(&entries[i], folder_name, folder) {
            Some(pdf) => {
                proof {
                    lemma_pdf_models_push(files@, pdf);
                }
                files.push(pdf);
            },
            None => {},
        }
        i = i + 1;
    }
    assert(entries@.take(i as int) =~= entries@);
    files
}

/// Ranks names in lower case.
pub struct LowercaseRanking {}

/// A name in lower case, as it is ranked.
pub struct LowercaseEntry {
    pub lower: Vec<char>,
}

impl Ranking<LowercaseEntry> for LowercaseRanking {
    open spec fn order(&self, a: &LowercaseEntry, b: &LowercaseEntry) -> Order {
        text_order(a.lower@, b.lower@)
    }

    proof fn order_mirror(&self, a: &LowercaseEntry, b: &LowercaseEntry) {
        lemma_text_order_mirror(a.lower@, b.lower@);
    }

    proof fn order_transitive(&self, a: &LowercaseEntry, b: &LowercaseEntry, c: &LowercaseEntry) {
        lemma_text_order_transitive(a.lower@, b.lower@, c.lower@);
    }

    fn compare(&self, a: &LowercaseEntry, b: &LowercaseEntry) -> (r: Order) {
        compare_chars(&a.lower, &b.lower)
    }
}

/// Whether `places` lists every document once, by its name in lower case.
pub open spec fn lowercase_places(pdfs: Seq<PdfModel>, places: Seq<usize>) -> bool {
    &&& places.len() == pdfs.len()
    &&& forall|k: int| 0 <= k < places.len() ==> (#[trigger] places[k]) < pdfs.len()
    &&& forall|k: int, l: int|
        0 <= k < l < places.len() ==> {
            let order = text_order(
                text_lowercase(pdfs[#[trigger] places[k] as int].name),
                text_lowercase(pdfs[#[trigger] places[l] as int].name),
            );
            order == Order::Less || (order == Order::Equal && places[k] < places[l])
        }
}

/// Lists the documents among the entries of a folder, by name in lower case.
pub fn list_pdfs(folder: &DocPath, entries: &Vec<DirectoryEntry>) -> (r: Vec<PdfInfo>)
    ensures
        is_listing(entry_pdfs(entries@, display_name(folder@), folder@), pdf_models(r@)),
{
    let folder_name: String = name_of(folder);
    let files: Vec<PdfInfo> = pdfs_among(entries, &folder_name, folder);
    let ghost found = pdf_models(files@);
    let mut keys: Vec<LowercaseEntry> = Vec::new();
    let mut i: usize = 0;
    while i < files.len()
        invariant
            i <= files.len(),
            found == pdf_models(files@),
            keys.len() == i,
            forall|k: int|
                0 <= k < i ==> (#[trigger] keys[k]).lower@ == text_lowercase(found[k].name),
        decreases files.len() - i,
    {
        keys.push(LowercaseEntry { lower: chars_of(&lowercase_text(&files[i].name)) });
        i = i + 1;
    }
    let ranking: LowercaseRanking = LowercaseRanking {  };
    let places: Vec<usize> = sort_stably(&ranking, &keys);
    proof {
        assert forall|k: int, l: int| 0 <= k < l < places.len() implies {
            let order = text_order(
                text_lowercase(found[#[trigger] places@[k] as int].name),
                text_lowercase(found[#[trigger] places@[l] as int].name),
            );
            order == Order::Less || (order == Order::Equal && places@[k] < places@[l])
        } by {
            assert(sorts_before(ranking, keys@, places@[k] as int, places@[l] as int));
            assert(keys[places@[k] as int].lower@ == text_lowercase(found[places@[k] as int].name));
            assert(keys[places@[l] as int].lower@ == text_lowercase(found[places@[l] as int].name));
        }
        assert(lowercase_places(found, places@));
    }
    let ghost after = places@.map_values(|place: usize| found[place as int]);
    let mut sorted: Vec<PdfInfo> = Vec::new();
    let mut j: usize = 0;
    while j < places.len()
        invariant
            j <= places.len(),
            found == pdf_models(files@),
            lowercase_places(found, places@),
            after == places@.map_values(|place: usize| found[place as int]),
            pdf_models(sorted@) == after.take(j as int),
        decreases places.len() - j,
    {
        let place: usize = places[j];
        let next: PdfInfo = files[place].copy();
        proof {
            lemma_pdf_models_push(sorted@, next);
        }
        sorted.push(next);
        j = j + 1;
        assert(pdf_models(sorted@) =~= after.take(j as int));
    }
    assert(after.take(j as int) =~= after);
    sorted
}

/// A direct child of the library root: its entry, and for a folder what was
/// read of its contents.
#[derive(Debug)]
pub struct LibraryEntry {
    pub entry: DirectoryEntry,
    pub contents: Result<Vec<DirectoryEntry>, String>,
}

/// Whether an entry of the library root is one of its folders.
pub open spec fn is_library_folder(entry: DirectoryEntry) -> bool {
    entry.kind == EntryKind::Folder && !is_hidden_name(entry.name@)
}

/// Whether an entry of the library root is a folder to read.
pub fn is_listed_folder(entry: &DirectoryEntry) -> (r: bool)
    ensures
        r == is_library_folder(*entry),
{
    entry.kind == EntryKind::Folder && !is_hidden(&entry.name)
}

/// The error of the first library folder that could not be read.
pub open spec fn first_unread(entries: Seq<LibraryEntry>) -> Option<Seq<char>>
    decreases entries.len(),
{
    if entries.len() == 0 {
        None
    } else {
        match first_unread(entries.drop_last()) {
            Some(error) => Some(error),
            None => if is_library_folder(entries.last().entry) {
                match entries.last().contents {
                    Ok(_) => None,
                    Err(error) => Some(error@),
                }
            } else {
                None
            },
        }
    }
}

/// The folders of the library, in the order of their entries.
pub open spec fn library_folders(entries: Seq<LibraryEntry>) -> Seq<FolderModel>
    decreases entries.len(),
{
    if entries.len() == 0 {
        Seq::empty()
    } else {
        let before = library_folders(entries.drop_last());
        let child = entries.last();
        if is_library_folder(child.entry) && child.contents is Ok {
            before.push(
                FolderModel {
                    name: child.entry.name@,
                    path: child.entry.path@,
                    pdf_count: entry_pdfs(
                        child.contents->Ok_0@,
                        display_name(child.entry.path@),
                        child.entry.path@,
                    ).len() as usize,
                    modified_secs: child.entry.modified_secs,
                },
            )
        } else {
            before
        }
    }
}

/// Whether `listed` holds the documents `found`, by name in lower case.
pub open spec fn is_listing(found: Seq<PdfModel>, listed: Seq<PdfModel>) -> bool {
    exists|places: Seq<usize>| #[trigger]
        lowercase_places(found, places) && listed == places.map_values(
            |place: usize| found[place as int],
        )
}

/// Whether `pdfs` are the documents that one entry of the library root brings:
/// those of a folder, or the entry itself.
pub open spec fn is_part_of(child: LibraryEntry, root: PathModel, pdfs: Seq<PdfModel>) -> bool {
    if is_library_folder(child.entry) {
        child.contents matches Ok(inner) && is_listing(
            entry_pdfs(inner@, display_name(child.entry.path@), child.entry.path@),
            pdfs,
        )
    } else {
        match entry_pdf(child.entry, display_name(root), root) {
            Some(pdf) => pdfs == seq![pdf],
            None => pdfs.len() == 0,
        }
    }
}

/// Whether `pdfs` are the documents of a library, entry after entry.
pub open spec fn are_library_pdfs(
    entries: Seq<LibraryEntry>,
    root: PathModel,
    pdfs: Seq<PdfModel>,
) -> bool
    decreases entries.len(),
{
    if entries.len() == 0 {
        pdfs.len() == 0
    } else {
        exists|before: Seq<PdfModel>, part: Seq<PdfModel>|
            {
                &&& #[trigger] (before + part) == pdfs
                &&& are_library_pdfs(entries.drop_last(), root, before)
                &&& is_part_of(entries.last(), root, part)
            }
    }
}

proof fn lemma_library_pdfs_step(
    entries: Seq<LibraryEntry>,
    root: PathModel,
    before: Seq<PdfModel>,
    part: Seq<PdfModel>,
)
    requires
        entries.len() > 0,
        are_library_pdfs(entries.drop_last(), root, before),
        is_part_of(entries.last(), root, part),
    ensures
        are_library_pdfs(entries, root, before + part),
{
}

/// Lists the folders of a library and every document in its root and in its
/// direct child folders. Nested folders are not looked at.
pub fn scan_library_metadata(root: &DocPath, entries: &Vec<LibraryEntry>) -> (r: Result<
    (Vec<FolderInfo>, Vec<PdfInfo>),
    String,
>)
    ensures
        match first_unread(entries@) {
            Some(problem) => r matches Err(error) && error@ == problem,
            None => r matches Ok((folders, pdfs)) && folder_models(folders@) == library_folders(
                entries@,
            ) && are_library_pdfs(entries@, root@, pdf_models(pdfs@)),
        },
{
    let root_name: String = name_of(root);
    let mut folders: Vec<FolderInfo> = Vec::new();
    let mut pdfs: Vec<PdfInfo> = Vec::new();
    let mut i: usize = 0;
    assert(entries@.take(0) =~= Seq::<LibraryEntry>::empty());
    assert(folder_models(folders@) =~= Seq::<FolderModel>::empty());
    while i < entries.len()
        invariant
            i <= entries.len(),
            root_name@ == display_name(root@),
            first_unread(entries@.take(i as int)) is None,
            folder_models(folders@) == library_folders(entries@.take(i as int)),
            are_library_pdfs(entries@.take(i as int), root@, pdf_models(pdfs@)),
        decreases entries.len() - i,
    {
        let ghost upto = entries@.take(i + 1);
        assert(upto.drop_last() =~= entries@.take(i as int));
        assert(upto.last() == entries@[i as int]);
        let child: &LibraryEntry = &entries[i];
        let ghost before = pdfs@;
        let mut part: Vec<PdfInfo> = if is_listed_folder(&child.entry) {
            match &child.contents {
                Err(error) => {
                    let copy: String = error.clone();
                    proof {
                        lemma_first_unread(entries@, i + 1);
                    }
                    return Err(copy);
                },
                Ok(inner) => {
                    let listed: Vec<PdfInfo> = list_pdfs(&child.entry.path, inner);
                    assert(pdf_models(listed@).len() == listed.len());
                    let folder: FolderInfo = FolderInfo {
                        name: child.entry.name.clone(),
                        path: child.entry.path.copy(),
                        pdf_count: listed.len(),
                        modified_secs: child.entry.modified_secs,
                    };
                    assert(folder_models(folders@.push(folder)) =~= folder_models(folders@).push(
                        folder@,
                    ));
                    folders.push(folder);
                    listed
                },
            }
        } else {
            let mut single: Vec<PdfInfo> = Vec::new();
            match pdf_info_from_entry(&child.entry, &root_name, root) {
                Some(pdf) => {
                    single.push(pdf);
                    assert(pdf_models(single@) =~= seq![pdf@]);
                },
                None => {},
            }
            single
        };
        let ghost added = part@;
        assert(is_part_of(entries@[i as int], root@, pdf_models(added)));
        pdfs.append(&mut part);
        proof {
            lemma_library_pdfs_step(upto, root@, pdf_models(before), pdf_models(added));
            assert(pdf_models(pdfs@) =~= pdf_models(before) + pdf_models(added));
        }
        i = i + 1;
    }
    assert(entries@.take(i as int) =~= entries@);
    Ok((folders, pdfs))
}

proof fn lemma_first_unread(entries: Seq<LibraryEntry>, n: int)
    requires
        0 <= n <= entries.len(),
        first_unread(entries.take(n)) is Some,
    ensures
        first_unread(entries) == first_unread(entries.take(n)),
    decreases entries.len() - n,
{
    if n < entries.len() {
        assert(entries.take(n + 1).drop_last() =~= entries.take(n));
        lemma_first_unread(entries, n + 1);
    } else {
        assert(entries.take(n) =~= entries);
    }
}

} // verus!
