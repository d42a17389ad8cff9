//! What the program says to the user.

use vstd::prelude::*;
use crate::file_actions::{FileActionReport, ReportModel};
use crate::paths::{path_models, texts, DocPath, PathModel};
use crate::text::{decimal, decimal_text};

verus! {

/// Whether a number above one takes the form of two, three and four: its last digit is
/// one of these, but it is not a teen.
pub open spec fn takes_few_form(count: nat) -> bool {
    2 <= count % 10 <= 4 && !(12 <= count % 100 <= 14)
}

fn is_few(count: usize) -> (r: bool)
    ensures
        r == takes_few_form(count as nat),
{
    let units: usize = count % 10;
    let teens: usize = count % 100;
    2 <= units && units <= 4 && !(12 <= teens && teens <= 14)
}

pub open spec fn page_count_words(count: nat) -> Seq<char> {
    decimal(count) + (if count == 1 {
        " strona"@
    } else if takes_few_form(count) {
        " strony"@
    } else {
        " stron"@
    })
}

/// A number of pages in words.
pub fn polish_page_count(count: usize) -> (r: String)
    ensures
        r@ == page_count_words(count as nat),
{
    let mut text: String = decimal_text(count as u64);
    if count == 1 {
        text.append(" strona");
    } else if is_few(count) {
        text.append(" strony");
    } else {
        text.append(" stron");
    }
    text
}

pub open spec fn file_count_words(count: nat) -> Seq<char> {
    decimal(count) + (if count == 1 {
        " plik"@
    } else if takes_few_form(count) {
        " pliki"@
    } else {
        " plików"@
    })
}

/// A number of files in words.
pub fn polish_file_count(count: usize) -> (r: String)
    ensures
        r@ == file_count_words(count as nat),
{
    let mut text: String = decimal_text(count as u64);
    if count == 1 {
        text.append(" plik");
    } else if is_few(count) {
        text.append(" pliki");
    } else {
        text.append(" plików");
    }
    text
}

/// How a file is called in a list: by the last part of its path, or by the anchor where
/// there is none.
pub open spec fn called(path: PathModel) -> Seq<char> {
    if path.parts.len() == 0 {
        path.anchor
    } else {
        path.parts.last()
    }
}

pub fn call_name(path: &DocPath) -> (r: String)
    ensures
        r@ == called(path@),
{
    if path.parts.len() == 0 {
        path.anchor.clone()
    } else {
        path.parts[path.parts.len() - 1].clone()
    }
}

/// How many items of a list are named.
pub const NAMED_ITEMS: usize = 3;

/// The first of two numbers, unless it is above the second.
pub open spec fn at_most(count: nat, limit: nat) -> nat {
    if count < limit {
        count
    } else {
        limit
    }
}

pub open spec fn failure_lines(failures: Seq<(PathModel, Seq<char>)>, n: nat) -> Seq<char>
    decreases n,
{
    if n == 0 {
        Seq::empty()
    } else {
        failure_lines(failures, (n - 1) as nat) + "\n• "@ + called(failures[n - 1].0) + ": "@
            + failures[n - 1].1
    }
}

/// What is said of a batch in which something failed.
pub open spec fn failure_words(action: Seq<char>, report: ReportModel) -> Seq<char> {
    let failed = report.failures.len();
    let all = report.successes.len() + failed + report.skipped.len();
    let opening = "Nie udało się "@ + action + " "@ + decimal(failed) + " z "@ + decimal(all)
        + " plików."@;
    let named = opening + failure_lines(report.failures, at_most(failed, NAMED_ITEMS as nat));
    if failed > NAMED_ITEMS {
        named + "\n• …oraz "@ + decimal((failed - NAMED_ITEMS) as nat) + " kolejnych."@
    } else {
        named
    }
}

pub open spec fn text_option(text: Option<String>) -> Option<Seq<char>> {
    match text {
        None => None,
        Some(text) => Some(text@),
    }
}

/// What is said of the files that could not be handled, if there are any.
pub fn file_action_failure_message(action: &str, report: &FileActionReport) -> (r: Option<String>)
    requires
        report.successes.len() + report.failures.len() + report.skipped.len() <= usize::MAX,
    ensures
        text_option(r) == if report@.failures.len() == 0 {
            None
        } else {
            Some(failure_words(action@, report@))
        },
{
    if report.failures.len() == 0 {
        return None;
    }
    let ghost failures = report@.failures;
    let failed: usize = report.failures.len();
    let all: usize = report.successes.len() + failed + report.skipped.len();
    let mut text: String = "Nie udało się ".to_owned();
    text.append(action);
    text.append(" ");
    text.append(decimal_text(failed as u64).as_str());
    text.append(" z ");
    text.append(decimal_text(all as u64).as_str());
    text.append(" plików.");
    let ghost opening = text@;
    let mut i: usize = 0;
    assert(text@ =~= opening + failure_lines(failures, 0));
    while i < failed && i < NAMED_ITEMS
        invariant
            failed == report.failures.len(),
            failures == report@.failures,
            i <= failed,
            i <= NAMED_ITEMS,
            text@ == opening + failure_lines(failures, i as nat),
        decreases failed - i,
    {
        assert(failures[i as int] == (
            report.failures[i as int].source@,
            report.failures[i as int].error@,
        ));
        text.append("\n• ");
        text.append(call_name(&report.failures[i].source).as_str());
        text.append(": ");
        text.append(report.failures[i].error.as_str());
        i = i + 1;
        assert(text@ =~= opening + failure_lines(failures, i as nat));
    }
    if failed > NAMED_ITEMS {
        text.append("\n• …oraz ");
        text.append(decimal_text((failed - NAMED_ITEMS) as u64).as_str());
        text.append(" kolejnych.");
    }
    Some(text)
}

/// The lines that name the files a question is about.
pub open spec fn target_lines(targets: Seq<PathModel>) -> Seq<Seq<char>> {
    let named = Seq::new(
        at_most(targets.len(), NAMED_ITEMS as nat),
        |i: int| "• "@ + called(targets[i]),
    );
    if targets.len() > NAMED_ITEMS {
        named.push("• …oraz "@ + decimal((targets.len() - NAMED_ITEMS) as nat) + " kolejnych"@)
    } else {
        named
    }
}

/// Names the files that a question is about: the first few, and how many more there are.
pub fn name_targets(targets: &Vec<DocPath>) -> (r: Vec<String>)
    ensures
        texts(r@) == target_lines(path_models(targets@)),
{
    let ghost models = path_models(targets@);
    let ghost wanted = target_lines(models);
    let mut lines: Vec<String> = Vec::new();
    let mut i: usize = 0;
    while i < targets.len() && i < NAMED_ITEMS
        invariant
            i <= targets.len(),
            i <= NAMED_ITEMS,
            models == path_models(targets@),
            wanted == target_lines(models),
            lines.len() == i,
            forall|k: int| 0 <= k < i ==> (#[trigger] lines[k])@ == wanted[k],
        decreases targets.len() - i,
    {
        assert(models[i as int] == targets[i as int]@);
        let mut line: String = "• ".to_owned();
        line.append(call_name(&targets[i]).as_str());
        lines.push(line);
        i = i + 1;
    }
    if targets.len() > NAMED_ITEMS {
        let mut line: String = "• …oraz ".to_owned();
        line.append(decimal_text((targets.len() - NAMED_ITEMS) as u64).as_str());
        line.append(" kolejnych");
        lines.push(line);
    }
    assert(texts(lines@) =~= wanted);
    lines
}

pub open spec fn chosen_words(count: nat) -> Seq<char> {
    "Wybrano: "@ + file_count_words(count)
}

/// How many files a question is about.
pub fn chosen_text(count: usize) -> (r: String)
    ensures
        r@ == chosen_words(count as nat),
{
    let mut text: String = "Wybrano: ".to_owned();
    text.append(polish_file_count(count).as_str());
    text
}

/// What is said once documents were moved; nothing where none was and something failed.
pub open spec fn moved_words(report: ReportModel) -> Option<Seq<char>> {
    let skipped = report.skipped.len();
    if report.successes.len() > 0 {
        let note = if skipped > 0 {
            " ("@ + decimal(skipped) + " już było w folderze)"@
        } else {
            Seq::empty()
        };
        Some("Przeniesiono "@ + file_count_words(report.successes.len()) + note + "."@)
    } else if skipped > 0 && report.failures.len() == 0 {
        Some("Wybrane pliki są już w tym folderze."@)
    } else {
        None
    }
}

pub fn moved_text(report: &FileActionReport) -> (r: Option<String>)
    ensures
        text_option(r) == moved_words(report@),
{
    let skipped: usize = report.skipped_count();
    if report.completed_count() > 0 {
        let mut text: String = "Przeniesiono ".to_owned();
        text.append(polish_file_count(report.completed_count()).as_str());
        let ghost before = text@;
        if skipped > 0 {
            text.append(" (");
            text.append(decimal_text(skipped as u64).as_str());
            text.append(" już było w folderze)");
            assert(text@ =~= before + (" ("@ + decimal(skipped as nat) + " już było w folderze)"@));
        } else {
            assert(text@ =~= before + Seq::<char>::empty());
        }
        text.append(".");
        Some(text)
    } else if skipped > 0 && report.failed_count() == 0 {
        Some("Wybrane pliki są już w tym folderze.".to_owned())
    } else {
        None
    }
}

pub open spec fn recycled_words(count: nat) -> Seq<char> {
    "Przeniesiono do Kosza: "@ + file_count_words(count) + "."@
}

/// What is said once documents were moved to the bin.
pub fn recycled_text(count: usize) -> (r: String)
    ensures
        r@ == recycled_words(count as nat),
{
    let mut text: String = "Przeniesiono do Kosza: ".to_owned();
    text.append(polish_file_count(count).as_str());
    text.append(".");
    text
}

/// What is said of pages that could not be found again; nothing where there are none.
pub open spec fn skipped_words(skipped: nat) -> Option<Seq<char>> {
    if skipped == 0 {
        None
    } else {
        Some(
            "Nie udało się odzyskać "@ + decimal(skipped)
                + " stron bez obrazu ani oryginału. Pozostałe strony zachowano."@,
        )
    }
}

pub fn skipped_pages_text(skipped: usize) -> (r: Option<String>)
    ensures
        text_option(r) == skipped_words(skipped as nat),
{
    if skipped == 0 {
        return None;
    }
    let mut text: String = "Nie udało się odzyskać ".to_owned();
    text.append(decimal_text(skipped as u64).as_str());
    text.append(" stron bez obrazu ani oryginału. Pozostałe strony zachowano.");
    Some(text)
}

/// A page in its document: its number and how many there are.
pub open spec fn page_of_words(index: nat, count: nat) -> Seq<char> {
    "Strona "@ + decimal(index + 1) + " z "@ + decimal(count)
}

pub fn page_of_text(index: usize, count: usize) -> (r: String)
    requires
        index < count,
    ensures
        r@ == page_of_words(index as nat, count as nat),
{
    let mut text: String = "Strona ".to_owned();
    text.append(decimal_text(index as u64 + 1).as_str());
    text.append(" z ");
    text.append(decimal_text(count as u64).as_str());
    text
}

/// Two texts, one after the other.
pub fn joined(first: &str, second: &str) -> (r: String)
    ensures
        r@ == first@ + second@,
{
    let mut text: String = first.to_owned();
    text.append(second);
    text
}

} // verus!
