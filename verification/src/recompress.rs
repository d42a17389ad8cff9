//! Turning the colour documents of a library into black-and-white ones, in place.
//!
//! A document that the program did not make is never touched, and a new version takes the
//! place of the old one only after it was read back with the same pages.

use vstd::prelude::*;
use crate::bilevel::MAX_G4_WIDTH;
use crate::document::{ColorMode, EncodedPage, PageEncoding, PageModel};
use crate::formatting::{fine_megabytes, format_fine_megabytes, format_megabytes, megabytes};
use crate::messages::joined;
use crate::pages::{
    decodable_size, decode_page, decoded_size, is_bilevel_page, is_decodable, may_fail, may_show,
    page_from_encoded, page_from_image, page_outcome, passes, ScannedPage,
};
use crate::pdf_layout::reads_as_scan;
use crate::pdf_reading::{
    extract_pdf_pages, pdf_problem_text, is_read_as, read_models, PdfProblemKind, ReadPage,
};
use crate::raster::RgbRaster;
use crate::saving::render_pages;
use crate::storage::{has_pdf_extension, is_hidden, is_hidden_name, is_pdf_name};
use crate::text::{decimal, decimal_text};

verus! {

/// What became of a run over a library.
#[derive(Debug, PartialEq, Eq, Structural)]
pub struct Summary {
    pub converted: usize,
    pub already_bilevel: usize,
    pub skipped_foreign: usize,
    pub failed: usize,
    pub bytes_before: u64,
    pub bytes_after: u64,
}

impl Default for Summary {
    fn default() -> (r: Summary)
        ensures
            r == (Summary {
                converted: 0,
                already_bilevel: 0,
                skipped_foreign: 0,
                failed: 0,
                bytes_before: 0,
                bytes_after: 0,
            }),
    {
        Summary {
            converted: 0,
            already_bilevel: 0,
            skipped_foreign: 0,
            failed: 0,
            bytes_before: 0,
            bytes_after: 0,
        }
    }
}

/// What becomes of an entry of a folder that is searched for documents.
#[derive(Debug, Clone, Copy, PartialEq, Eq, Structural)]
pub enum EntryRole {
    Skipped,
    Searched,
    Document,
}

/// Tells what becomes of an entry. Hidden ones are the program's own and are passed over.
pub fn entry_role(name: &str, is_folder: bool) -> (r: EntryRole)
    ensures
        r == if is_hidden_name(name@) {
            EntryRole::Skipped
        } else if is_folder {
            EntryRole::Searched
        } else if is_pdf_name(name@) {
            EntryRole::Document
        } else {
            EntryRole::Skipped
        },
{
    if is_hidden(name) {
        EntryRole::Skipped
    } else if is_folder {
        EntryRole::Searched
    } else if has_pdf_extension(name) {
        EntryRole::Document
    } else {
        EntryRole::Skipped
    }
}

/// The first line of the log.
pub fn start_line(documents: usize, root: &str) -> (r: String)
    ensures
        r@ == "Kompresja: "@ + decimal(documents as nat) + " plików PDF w "@ + root@,
{
    let mut text: String = "Kompresja: ".to_owned();
    text.append(decimal_text(documents as u64).as_str());
    text.append(" plików PDF w ");
    text.append(root);
    text
}

/// The only line of the log where the folder cannot be read.
pub fn unreadable_line(root: &str, error: &str) -> (r: String)
    ensures
        r@ == "BŁĄD: nie można odczytać folderu "@ + root@ + ": "@ + error@,
{
    let mut text: String = "BŁĄD: nie można odczytać folderu ".to_owned();
    text.append(root);
    text.append(": ");
    text.append(error);
    text
}

/// What became of one document.
#[derive(Debug)]
pub enum Outcome {
    Converted { pages: usize, before: u64, after: u64 },
    AlreadyBilevel,
    Foreign { reason: String },
}

/// Whether the counts of a summary can take in one more document.
pub open spec fn has_room(summary: Summary, outcome: Result<Outcome, String>) -> bool {
    match outcome {
        Ok(Outcome::Converted { pages, before, after }) => summary.converted < usize::MAX
            && summary.bytes_before + before <= u64::MAX && summary.bytes_after + after
            <= u64::MAX,
        Ok(Outcome::AlreadyBilevel) => summary.already_bilevel < usize::MAX,
        Ok(Outcome::Foreign { .. }) => summary.skipped_foreign < usize::MAX,
        Err(_) => summary.failed < usize::MAX,
    }
}

/// A summary with one more document.
pub open spec fn counted(summary: Summary, outcome: Result<Outcome, String>) -> Summary {
    match outcome {
        Ok(Outcome::Converted { pages, before, after }) => Summary {
            converted: (summary.converted + 1) as usize,
            bytes_before: (summary.bytes_before + before) as u64,
            bytes_after: (summary.bytes_after + after) as u64,
            ..summary
        },
        Ok(Outcome::AlreadyBilevel) => Summary {
            already_bilevel: (summary.already_bilevel + 1) as usize,
            ..summary
        },
        Ok(Outcome::Foreign { .. }) => Summary {
            skipped_foreign: (summary.skipped_foreign + 1) as usize,
            ..summary
        },
        Err(_) => Summary { failed: (summary.failed + 1) as usize, ..summary },
    }
}

impl Summary {
    /// Counts one more document.
    pub fn count(&mut self, outcome: &Result<Outcome, String>)
        requires
            has_room(*old(self), *outcome),
        ensures
            *final(self) == counted(*old(self), *outcome),
    {
        match outcome {
            Ok(Outcome::Converted { pages: _, before, after }) => {
                self.converted = self.converted + 1;
                self.bytes_before = self.bytes_before + *before;
                self.bytes_after = self.bytes_after + *after;
            },
            Ok(Outcome::AlreadyBilevel) => {
                self.already_bilevel = self.already_bilevel + 1;
            },
            Ok(Outcome::Foreign { .. }) => {
                self.skipped_foreign = self.skipped_foreign + 1;
            },
            Err(_) => {
                self.failed = self.failed + 1;
            },
        }
    }

    /// Counts one more document, unless its size would run over, and tells so. The line of
    /// the log comes with it.
    pub fn note(&mut self, name: &str, outcome: &Result<Outcome, String>) -> (r: (String, bool))
        ensures
            r.0@ == outcome_words(name@, *outcome),
            r.1 == has_room(*old(self), *outcome),
            *final(self) == if r.1 {
                counted(*old(self), *outcome)
            } else {
                *old(self)
            },
    {
        let line: String = outcome_line(name, outcome);
        let fits: bool = match outcome {
            Ok(Outcome::Converted { pages: _, before, after }) => self.converted < usize::MAX
                && self.bytes_before <= u64::MAX - *before && self.bytes_after <= u64::MAX - *after,
            Ok(Outcome::AlreadyBilevel) => self.already_bilevel < usize::MAX,
            Ok(Outcome::Foreign { .. }) => self.skipped_foreign < usize::MAX,
            Err(_) => self.failed < usize::MAX,
        };
        if fits {
            self.count(outcome);
        }
        (line, fits)
    }

    /// How the program ends: with one where a document failed.
    pub fn exit_code(&self) -> (r: i32)
        ensures
            r == if self.failed > 0 {
                1i32
            } else {
                0i32
            },
    {
        if self.failed > 0 {
            1
        } else {
            0
        }
    }

    /// The last line of the log.
    pub fn total_line(&self) -> (r: String)
        ensures
            r@ == total_words(*self),
    {
        let mut text: String = "RAZEM: przekonwertowano ".to_owned();
        text.append(decimal_text(self.converted as u64).as_str());
        text.append(" · już czarno-białe ");
        text.append(decimal_text(self.already_bilevel as u64).as_str());
        text.append(" · pominięto (obce) ");
        text.append(decimal_text(self.skipped_foreign as u64).as_str());
        text.append(" · błędy ");
        text.append(decimal_text(self.failed as u64).as_str());
        text.append(" · ");
        text.append(format_megabytes(self.bytes_before).as_str());
        text.append(" MB → ");
        text.append(format_megabytes(self.bytes_after).as_str());
        text.append(" MB");
        text
    }
}

pub open spec fn total_words(summary: Summary) -> Seq<char> {
    "RAZEM: przekonwertowano "@ + decimal(summary.converted as nat) + " · już czarno-białe "@
        + decimal(summary.already_bilevel as nat) + " · pominięto (obce) "@ + decimal(
        summary.skipped_foreign as nat,
    ) + " · błędy "@ + decimal(summary.failed as nat) + " · "@ + megabytes(summary.bytes_before)
        + " MB → "@ + megabytes(summary.bytes_after) + " MB"@
}

/// The line of the log for one document.
pub open spec fn outcome_words(name: Seq<char>, outcome: Result<Outcome, String>) -> Seq<char> {
    match outcome {
        Ok(Outcome::Converted { pages, before, after }) => name + ": "@ + megabytes(before)
            + " MB → "@ + fine_megabytes(after) + " MB ("@ + decimal(pages as nat) + " stron)"@,
        Ok(Outcome::AlreadyBilevel) => name + ": już czarno-biały, bez zmian"@,
        Ok(Outcome::Foreign { reason }) => name + ": POMINIĘTO — "@ + reason@,
        Err(error) => name + ": BŁĄD — "@ + error@,
    }
}

pub fn outcome_line(name: &str, outcome: &Result<Outcome, String>) -> (r: String)
    ensures
        r@ == outcome_words(name@, *outcome),
{
    let mut text: String = name.to_owned();
    match outcome {
        Ok(Outcome::Converted { pages, before, after }) => {
            text.append(": ");
            text.append(format_megabytes(*before).as_str());
            text.append(" MB → ");
            text.append(format_fine_megabytes(*after).as_str());
            text.append(" MB (");
            text.append(decimal_text(*pages as u64).as_str());
            text.append(" stron)");
        },
        Ok(Outcome::AlreadyBilevel) => {
            text.append(": już czarno-biały, bez zmian");
        },
        Ok(Outcome::Foreign { reason }) => {
            text.append(": POMINIĘTO — ");
            text.append(reason.as_str());
        },
        Err(error) => {
            text.append(": BŁĄD — ");
            text.append(error.as_str());
        },
    }
    text
}

/// The summary over the first `n` documents.
pub open spec fn counted_all(outcomes: Seq<Result<Outcome, String>>, n: nat) -> Summary
    decreases n,
{
    if n == 0 {
        Summary {
            converted: 0,
            already_bilevel: 0,
            skipped_foreign: 0,
            failed: 0,
            bytes_before: 0,
            bytes_after: 0,
        }
    } else {
        counted(counted_all(outcomes, (n - 1) as nat), outcomes[n - 1])
    }
}

/// Whether every document can be counted.
pub open spec fn all_have_room(outcomes: Seq<Result<Outcome, String>>) -> bool {
    forall|n: nat|
        n < outcomes.len() ==> has_room(#[trigger] counted_all(outcomes, n), outcomes[n as int])
}

/// Sums up a run over documents, given how each is called and what became of it. The lines
/// of the log come back with the summary.
pub fn run_over(names: &Vec<String>, outcomes: &Vec<Result<Outcome, String>>) -> (r: (
    Summary,
    Vec<String>,
))
    requires
        names.len() == outcomes.len(),
        all_have_room(outcomes@),
    ensures
        r.0 == counted_all(outcomes@, outcomes@.len()),
        r.1.len() == outcomes.len(),
        forall|i: int|
            0 <= i < outcomes.len() ==> (#[trigger] r.1[i])@ == outcome_words(
                names[i]@,
                outcomes[i],
            ),
{
    let mut summary: Summary = Summary::default();
    let mut lines: Vec<String> = Vec::new();
    let mut i: usize = 0;
    while i < outcomes.len()
        invariant
            i <= outcomes.len(),
            names.len() == outcomes.len(),
            all_have_room(outcomes@),
            summary == counted_all(outcomes@, i as nat),
            lines.len() == i,
            forall|k: int|
                0 <= k < i ==> (#[trigger] lines[k])@ == outcome_words(names[k]@, outcomes[k]),
        decreases outcomes.len() - i,
    {
        assert(has_room(counted_all(outcomes@, i as nat), outcomes@[i as int]));
        summary.count(&outcomes[i]);
        lines.push(outcome_line(names[i].as_str(), &outcomes[i]));
        i = i + 1;
    }
    (summary, lines)
}

/// Whether all pages are black and white already.
pub open spec fn all_bilevel(pages: Seq<ReadPage>) -> bool {
    forall|i: int| 0 <= i < pages.len() ==> (#[trigger] pages[i]).0.encoding == PageEncoding::G4
}

fn are_all_bilevel(pages: &Vec<(EncodedPage, u8)>) -> (r: bool)
    ensures
        r == all_bilevel(read_models(pages@)),
{
    let ghost models = read_models(pages@);
    let mut i: usize = 0;
    while i < pages.len()
        invariant
            i <= pages.len(),
            models == read_models(pages@),
            forall|k: int|
                0 <= k < i ==> (#[trigger] models[k]).0.encoding == PageEncoding::G4,
        decreases pages.len() - i,
    {
        assert(models[i as int].0 == pages[i as int].0@);
        match pages[i].0.encoding {
            PageEncoding::G4 => {},
            PageEncoding::Jpeg => {
                return false;
            },
        }
        i = i + 1;
    }
    true
}

/// Whether a page is what a colour page became: its picture in black and white.
pub open spec fn is_rebinarized(page: PageModel, new: PageModel) -> bool {
    exists|image: RgbRaster| #[trigger]
        may_show(page, image) && is_bilevel_page(image.pixels@, image.width, image.height, new)
}

/// Whether a page is wider than a black-and-white page can be.
pub open spec fn is_too_wide(page: PageModel) -> bool {
    match page.encoding {
        PageEncoding::Jpeg => decoded_size(page.bytes) matches Some(size) && size.0
            > MAX_G4_WIDTH,
        PageEncoding::G4 => page.width > MAX_G4_WIDTH,
    }
}

/// What is said of a page that is wider than a black-and-white page can be.
pub open spec fn too_wide() -> Seq<char> {
    "Strona jest zbyt szeroka dla zapisu czarno-białego."@
}

/// Makes a page black and white out of what decoding it gave.
pub fn rebinarize_decoded(decoded: Result<RgbRaster, String>) -> (r: Result<ScannedPage, String>)
    requires
        decoded matches Ok(image) ==> image.wf(),
    ensures
        match decoded {
            Err(message) => page_outcome(r) == Err::<PageModel, Seq<char>>(message@),
            Ok(image) => if image.width > MAX_G4_WIDTH {
                page_outcome(r) == Err::<PageModel, Seq<char>>(too_wide())
            } else {
                &&& r is Ok
                &&& is_bilevel_page(image.pixels@, image.width, image.height, r->Ok_0.model())
            },
        },
        r matches Ok(new) ==> new.has_thumbnail(),
{
    match decoded {
        Err(message) => Err(message),
        Ok(image) => {
            if image.width > MAX_G4_WIDTH {
                return Err("Strona jest zbyt szeroka dla zapisu czarno-białego.".to_owned());
            }
            page_from_image(&image, ColorMode::BlackWhite)
        },
    }
}

/// Makes a colour page black and white.
pub fn rebinarize_page(page: &EncodedPage) -> (r: Result<ScannedPage, String>)
    requires
        decodable_size(page@),
    ensures
        match r {
            Ok(new) => {
                &&& !is_too_wide(page@)
                &&& is_rebinarized(page@, new.model())
                &&& new.has_thumbnail()
            },
            Err(message) => {
                ||| may_fail(page@, message@)
                ||| is_too_wide(page@) && message@ == too_wide()
            },
        },
{
    let decoded: Result<RgbRaster, String> = decode_page(page);
    proof {
        if decoded is Ok {
            assert(may_show(page@, decoded->Ok_0));
        }
    }
    rebinarize_decoded(decoded)
}

/// Whether a page can be made black and white, or is and can be read.
pub open spec fn converts(page: PageModel) -> bool {
    match page.encoding {
        PageEncoding::G4 => passes(page),
        PageEncoding::Jpeg => decoded_size(page.bytes) is Some && !is_too_wide(page),
    }
}

/// Whether a page is what another became: a black-and-white one stays as it is.
pub open spec fn is_converted(page: PageModel, new: PageModel) -> bool {
    match page.encoding {
        PageEncoding::G4 => new == page,
        PageEncoding::Jpeg => is_rebinarized(page, new),
    }
}

/// Whether a page that cannot be converted may be refused with a message.
pub open spec fn conversion_may_fail(page: PageModel, message: Seq<char>) -> bool {
    ||| may_fail(page, message)
    ||| page.encoding == PageEncoding::Jpeg && is_too_wide(page) && message == too_wide()
}

fn convert_page(page: &EncodedPage) -> (r: Result<ScannedPage, String>)
    requires
        decodable_size(page@),
    ensures
        r is Ok == converts(page@),
        match r {
            Ok(new) => is_converted(page@, new.model()) && new.has_thumbnail(),
            Err(message) => conversion_may_fail(page@, message@),
        },
{
    match page.encoding {
        PageEncoding::G4 => page_from_encoded(page.copy()),
        PageEncoding::Jpeg => rebinarize_page(page),
    }
}

/// Whether pages are what others became, each with its turns.
pub open spec fn are_converted(pages: Seq<ReadPage>, new: Seq<ReadPage>) -> bool {
    &&& new.len() == pages.len()
    &&& forall|i: int|
        0 <= i < pages.len() ==> {
            &&& converts((#[trigger] pages[i]).0)
            &&& is_converted(pages[i].0, new[i].0)
            &&& new[i].1 == pages[i].1
        }
}

/// Whether a message is that of the first page that cannot be converted.
pub open spec fn first_may_fail(pages: Seq<ReadPage>, message: Seq<char>) -> bool {
    exists|i: int| #[trigger] fails_first(pages, i) && conversion_may_fail(pages[i].0, message)
}

/// Whether a page cannot be converted, and all before it can.
pub open spec fn fails_first(pages: Seq<ReadPage>, i: int) -> bool {
    &&& 0 <= i < pages.len()
    &&& !converts(pages[i].0)
    &&& forall|k: int| 0 <= k < i ==> converts((#[trigger] pages[k]).0)
}

/// Makes the colour pages of a document black and white. The first page that cannot be
/// converted ends it.
pub fn convert_pages(pages: &Vec<(EncodedPage, u8)>) -> (r: Result<Vec<(EncodedPage, u8)>, String>)
    requires
        forall|i: int| 0 <= i < pages.len() ==> decodable_size((#[trigger] pages[i]).0@),
    ensures
        match r {
            Ok(new) => are_converted(read_models(pages@), read_models(new@)),
            Err(message) => first_may_fail(read_models(pages@), message@),
        },
{
    let ghost models = read_models(pages@);
    let mut new: Vec<(EncodedPage, u8)> = Vec::new();
    let mut i: usize = 0;
    while i < pages.len()
        invariant
            i <= pages.len(),
            models == read_models(pages@),
            forall|i: int| 0 <= i < pages.len() ==> decodable_size((#[trigger] pages[i]).0@),
            new.len() == i,
            forall|k: int|
                0 <= k < i ==> {
                    &&& converts((#[trigger] models[k]).0)
                    &&& is_converted(models[k].0, new[k].0@)
                    &&& new[k].1 == models[k].1
                },
        decreases pages.len() - i,
    {
        assert(models[i as int] == (pages[i as int].0@, pages[i as int].1));
        match convert_page(&pages[i].0) {
            Ok(page) => {
                new.push((page.encoded(), pages[i].1));
            },
            Err(message) => {
                assert(fails_first(models, i as int));
                return Err(message);
            },
        }
        i = i + 1;
    }
    Ok(new)
}

/// The fewest bytes that a black-and-white page can have.
pub const SMALLEST_STREAM: usize = 16;

/// Whether a page read back stands for another: black and white, turned and sized alike.
pub open spec fn stands_for(new: ReadPage, old_page: ReadPage) -> bool {
    &&& new.0.encoding == PageEncoding::G4
    &&& new.1 == old_page.1
    &&& new.0.width == old_page.0.width
    &&& new.0.height == old_page.0.height
    &&& new.0.bytes.len() >= SMALLEST_STREAM
}

/// Whether all pages read back stand for the pages of the old document.
pub open spec fn all_stand_for(new: Seq<ReadPage>, old_pages: Seq<ReadPage>) -> bool {
    &&& new.len() == old_pages.len()
    &&& forall|i: int| 0 <= i < new.len() ==> stands_for(#[trigger] new[i], old_pages[i])
}

/// What is wrong with a document read back: the number of its pages, or the first page that
/// does not stand for the old one.
pub open spec fn mismatch_words(
    new: Seq<ReadPage>,
    old_pages: Seq<ReadPage>,
    message: Seq<char>,
) -> bool {
    if new.len() != old_pages.len() {
        message == "weryfikacja: "@ + decimal(new.len()) + " stron zamiast "@ + decimal(
            old_pages.len(),
        )
    } else {
        exists|i: int| #[trigger] is_first_mismatch(new, old_pages, i) && message
            == "weryfikacja: strona "@ + decimal((i + 1) as nat) + " nie zgadza się"@
    }
}

pub open spec fn is_first_mismatch(new: Seq<ReadPage>, old_pages: Seq<ReadPage>, i: int) -> bool {
    &&& 0 <= i < new.len()
    &&& !stands_for(new[i], old_pages[i])
    &&& forall|k: int| 0 <= k < i ==> stands_for(#[trigger] new[k], old_pages[k])
}

/// What is said of pages that were read back, held against those of the old document.
pub open spec fn is_verdict(
    reread: Seq<ReadPage>,
    old_pages: Seq<ReadPage>,
    r: Result<(), String>,
) -> bool {
    &&& r is Ok == all_stand_for(reread, old_pages)
    &&& r matches Err(message) ==> mismatch_words(reread, old_pages, message@)
}

/// What is said of a new document, held against the pages of the old one.
pub open spec fn is_document_verdict(
    outcome: Result<Seq<ReadPage>, PdfProblemKind>,
    old_pages: Seq<ReadPage>,
    r: Result<(), String>,
) -> bool {
    match outcome {
        Err(kind) => r is Err && has_problem(kind, r->Err_0@),
        Ok(reread) => is_verdict(reread, old_pages, r),
    }
}

/// Checks a new document against the pages of the old one: it must read back with as many
/// pages, each black and white, turned and sized like the old one.
pub fn verify(bytes: &[u8], original: &Vec<(EncodedPage, u8)>) -> (r: Result<(), String>)
    ensures
        exists|outcome: Result<Seq<ReadPage>, PdfProblemKind>| #[trigger]
            is_read_as(bytes@, outcome) && is_document_verdict(
                outcome,
                read_models(original@),
                r,
            ),
{
    match extract_pdf_pages(bytes) {
        Ok(pages) => {
            let ghost outcome = Ok::<Seq<ReadPage>, PdfProblemKind>(read_models(pages@));
            assert(is_read_as(bytes@, outcome));
            verify_pages(&pages, original)
        },
        Err(problem) => {
            let ghost outcome = Err::<Seq<ReadPage>, PdfProblemKind>(problem.kind);
            assert(is_read_as(bytes@, outcome));
            let text: String = problem.message();
            let message: String = joined(
                "weryfikacja nowego PDF nie powiodła się: ",
                text.as_str(),
            );
            assert(is_told_problem(problem.kind, problem.detail@, message@));
            Err(message)
        },
    }
}

/// Checks pages that were read back against those of the old document.
pub fn verify_pages(
    reread: &Vec<(EncodedPage, u8)>,
    original: &Vec<(EncodedPage, u8)>,
) -> (r: Result<(), String>)
    ensures
        is_verdict(read_models(reread@), read_models(original@), r),
{
    let ghost old_models = read_models(original@);
    let ghost new_models = read_models(reread@);
    if reread.len() != original.len() {
        let mut text: String = "weryfikacja: ".to_owned();
        text.append(decimal_text(reread.len() as u64).as_str());
        text.append(" stron zamiast ");
        text.append(decimal_text(original.len() as u64).as_str());
        return Err(text);
    }
    let mut i: usize = 0;
    while i < reread.len()
        invariant
            i <= reread.len(),
            reread.len() == original.len(),
            old_models == read_models(original@),
            new_models == read_models(reread@),
            forall|k: int| 0 <= k < i ==> stands_for(#[trigger] new_models[k], old_models[k]),
        decreases reread.len() - i,
    {
        let new: &(EncodedPage, u8) = &reread[i];
        let known: &(EncodedPage, u8) = &original[i];
        assert(new_models[i as int] == (new.0@, new.1));
        assert(old_models[i as int] == (known.0@, known.1));
        let bilevel: bool = match new.0.encoding {
            PageEncoding::G4 => true,
            PageEncoding::Jpeg => false,
        };
        if !bilevel || new.1 != known.1 || new.0.width != known.0.width || new.0.height
            != known.0.height || new.0.bytes.len() < SMALLEST_STREAM {
            let mut text: String = "weryfikacja: strona ".to_owned();
            text.append(decimal_text(i as u64 + 1).as_str());
            text.append(" nie zgadza się");
            assert(is_first_mismatch(new_models, old_models, i as int));
            return Err(text);
        }
        i = i + 1;
    }
    Ok(())
}

/// Whether a message says of a new document that it cannot be read, and why.
pub open spec fn has_problem(kind: PdfProblemKind, message: Seq<char>) -> bool {
    exists|detail: Seq<char>| #[trigger] is_told_problem(kind, detail, message)
}

pub open spec fn is_told_problem(
    kind: PdfProblemKind,
    detail: Seq<char>,
    message: Seq<char>,
) -> bool {
    message == "weryfikacja nowego PDF nie powiodła się: "@ + (pdf_problem_text(kind) + detail)
}

/// The most pages that a new document can number its objects for.
pub const MOST_PAGES: usize = 1_431_655_763;

/// What a document becomes.
#[derive(Debug)]
pub enum Recompressed {
    /// The bytes of the new version, and how many pages it has.
    Converted { bytes: Vec<u8>, pages: usize },
    AlreadyBilevel,
    Foreign { reason: String },
}

fn are_decodable(pages: &Vec<(EncodedPage, u8)>) -> (r: bool)
    ensures
        r ==> forall|i: int| 0 <= i < pages.len() ==> decodable_size((#[trigger] pages[i]).0@),
        !r ==> exists|i: int| 0 <= i < pages.len() && !decodable_size((#[trigger] pages[i]).0@),
{
    let mut i: usize = 0;
    while i < pages.len()
        invariant
            i <= pages.len(),
            forall|k: int| 0 <= k < i ==> decodable_size((#[trigger] pages[k]).0@),
        decreases pages.len() - i,
    {
        if !is_decodable(&pages[i].0) {
            return false;
        }
        i = i + 1;
    }
    true
}

/// The message for a document with a page that is too large to be held.
pub open spec fn too_large() -> Seq<char> {
    "Dokument ma zbyt dużą stronę."@
}

/// Whether a file was written for pages: it holds them.
pub open spec fn is_written_for(file: Seq<u8>, pages: Seq<ReadPage>) -> bool {
    file.len() <= u32::MAX ==> reads_as_scan(file, pages)
}

/// Whether a file was read back as a new version of a document.
pub open spec fn is_version_of(file: Seq<u8>, old_pages: Seq<ReadPage>) -> bool {
    exists|reread: Seq<ReadPage>| #[trigger]
        all_stand_for(reread, old_pages) && is_read_as(
            file,
            Ok::<Seq<ReadPage>, PdfProblemKind>(reread),
        )
}

/// What is said of a file that was not read back as a new version of a document.
pub open spec fn is_told_of(file: Seq<u8>, old_pages: Seq<ReadPage>, message: Seq<char>) -> bool {
    exists|outcome: Result<Seq<ReadPage>, PdfProblemKind>| #[trigger]
        is_read_as(file, outcome) && match outcome {
            Err(kind) => has_problem(kind, message),
            Ok(reread) => !all_stand_for(reread, old_pages) && mismatch_words(
                reread,
                old_pages,
                message,
            ),
        }
}

/// Writes the pages that those of a document became, and reads the file back.
pub fn write_version(new: &Vec<(EncodedPage, u8)>, original: &Vec<(EncodedPage, u8)>) -> (r: Result<
    Vec<u8>,
    String,
>)
    requires
        new.len() > 0,
        3 * new.len() + 3 < u32::MAX,
    ensures
        match r {
            Ok(file) => {
                &&& is_written_for(file@, read_models(new@))
                &&& is_version_of(file@, read_models(original@))
            },
            Err(message) => exists|file: Seq<u8>| #[trigger]
                is_written_for(file, read_models(new@)) && is_told_of(
                    file,
                    read_models(original@),
                    message@,
                ),
        },
{
    assert(read_models(new@).len() == new.len());
    let rendered: Vec<u8> = render_pages(new)?;
    match verify(rendered.as_slice(), original) {
        Ok(_) => {
            assert(is_written_for(rendered@, read_models(new@)));
            Ok(rendered)
        },
        Err(message) => {
            assert(is_written_for(rendered@, read_models(new@)));
            Err(message)
        },
    }
}

/// Whether what the pages of a document became was written to a file.
pub open spec fn is_made_of(file: Seq<u8>, pages: Seq<ReadPage>) -> bool {
    exists|new: Seq<ReadPage>| #[trigger] are_converted(pages, new) && is_written_for(file, new)
}

/// Whether a document holds more than can be worked on.
pub open spec fn is_too_large(pages: Seq<ReadPage>) -> bool {
    ||| pages.len() > MOST_PAGES
    ||| exists|i: int| 0 <= i < pages.len() && !decodable_size((#[trigger] pages[i]).0)
}

/// Whether a document may be refused with a message: it is too large, a page could not be
/// made black and white, or what was written did not read back.
pub open spec fn refused_with(pages: Seq<ReadPage>, message: Seq<char>) -> bool {
    ||| is_too_large(pages) && message == too_large()
    ||| !is_too_large(pages) && first_may_fail(pages, message)
    ||| exists|file: Seq<u8>| #[trigger] is_made_of(file, pages) && is_told_of(file, pages, message)
}

/// What the pages of a document may become.
pub open spec fn may_become(pages: Seq<ReadPage>, r: Result<Recompressed, String>) -> bool {
    if all_bilevel(pages) {
        r matches Ok(Recompressed::AlreadyBilevel)
    } else {
        match r {
            Ok(Recompressed::Converted { bytes: new, pages: count }) => {
                &&& count == pages.len()
                &&& is_made_of(new@, pages)
                &&& is_version_of(new@, pages)
            },
            Ok(_) => false,
            Err(message) => refused_with(pages, message@),
        }
    }
}

/// What a document may become once it was read.
pub open spec fn document_may_become(
    outcome: Result<Seq<ReadPage>, PdfProblemKind>,
    r: Result<Recompressed, String>,
) -> bool {
    match outcome {
        Err(kind) => {
            &&& r matches Ok(Recompressed::Foreign { reason })
            &&& is_reason(kind, reason@)
        },
        Ok(pages) => may_become(pages, r),
    }
}

/// Makes a document black and white. One that the program did not make, or that is black
/// and white already, stays as it is; a new version always reads back page for page.
pub fn recompress_document(bytes: &[u8]) -> (r: Result<Recompressed, String>)
    ensures
        exists|outcome: Result<Seq<ReadPage>, PdfProblemKind>| #[trigger]
            is_read_as(bytes@, outcome) && document_may_become(outcome, r),
{
    match extract_pdf_pages(bytes) {
        Ok(pages) => {
            let ghost outcome = Ok::<Seq<ReadPage>, PdfProblemKind>(read_models(pages@));
            assert(is_read_as(bytes@, outcome));
            recompress_pages(&pages)
        },
        Err(problem) => {
            let ghost outcome = Err::<Seq<ReadPage>, PdfProblemKind>(problem.kind);
            assert(is_read_as(bytes@, outcome));
            let reason: String = problem.message();
            assert(is_reason_with(problem.kind, problem.detail@, reason@));
            Ok(Recompressed::Foreign { reason })
        },
    }
}

/// Makes the pages of a document black and white, and a new document of them.
pub fn recompress_pages(pages: &Vec<(EncodedPage, u8)>) -> (r: Result<Recompressed, String>)
    ensures
        may_become(read_models(pages@), r),
{
    let ghost models = read_models(pages@);
    if are_all_bilevel(pages) {
        return Ok(Recompressed::AlreadyBilevel);
    }
    assert forall|i: int| 0 <= i < pages.len() implies (#[trigger] models[i]).0 == pages[i].0@ by {}
    if !are_decodable(pages) || pages.len() > MOST_PAGES {
        proof {
            if pages.len() <= MOST_PAGES {
                let i = choose|i: int|
                    0 <= i < pages.len() && !decodable_size((#[trigger] pages[i]).0@);
                assert(!decodable_size(models[i].0));
            }
        }
        return Err("Dokument ma zbyt dużą stronę.".to_owned());
    }
    assert forall|i: int| 0 <= i < models.len() implies decodable_size((#[trigger] models[i]).0) by {
        assert(decodable_size(pages[i].0@));
    }
    let new: Vec<(EncodedPage, u8)> = match convert_pages(pages) {
        Ok(new) => new,
        Err(message) => {
            return Err(message);
        },
    };
    assert(read_models(new@).len() == new.len());
    assert(are_converted(models, read_models(new@)));
    match write_version(&new, pages) {
        Ok(file) => Ok(Recompressed::Converted { bytes: file, pages: pages.len() }),
        Err(message) => {
            proof {
                let file = choose|file: Seq<u8>| #[trigger]
                    is_written_for(file, read_models(new@)) && is_told_of(
                        file,
                        models,
                        message@,
                    );
                assert(is_made_of(file, models));
            }
            Err(message)
        },
    }
}

/// Whether a reason is the one for which a document cannot be edited.
pub open spec fn is_reason(kind: PdfProblemKind, reason: Seq<char>) -> bool {
    exists|detail: Seq<char>| #[trigger] is_reason_with(kind, detail, reason)
}

pub open spec fn is_reason_with(kind: PdfProblemKind, detail: Seq<char>, reason: Seq<char>) -> bool {
    reason == pdf_problem_text(kind) + detail
}

} // verus!
