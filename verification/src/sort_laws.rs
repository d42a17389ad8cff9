//! What the order of names and of listed documents means to who reads them.

use vstd::prelude::*;
use crate::library::{
    folder_places, folders_sorted_from, is_sorted_from, law_sorted_list_is_ordered, pdf_sorts_before,
    rearranged, sort_folders, sort_key, sorting_places, SortMode,
};
use crate::natural::{
    law_name_order_is_total, leading_run, lemma_run_is_prefix, name_order, natural_order,
    search_text,
};
use crate::order::{lemma_text_order_equal, text_order, Order};
use crate::search_laws::{is_listed, lemma_places_cover, lemma_ranking_asymmetric};
use crate::series_laws::is_number;
use crate::storage::{folder_models, FolderInfo, FolderModel, PdfModel};
use crate::text::{digits_value, is_digit};

verus! {

/// Whether a text does not end in a digit.
pub open spec fn ends_in_no_digit(text: Seq<char>) -> bool {
    text.len() > 0 ==> !('0' as int <= text.last() as int <= '9' as int)
}

/// Whether a text does not begin with a digit.
pub open spec fn begins_with_no_digit(text: Seq<char>) -> bool {
    text.len() > 0 ==> !('0' as int <= text[0] as int <= '9' as int)
}

/// A run at the start of a text that ends within it stays the same whatever follows.
proof fn lemma_run_within(text: Seq<char>, more: Seq<char>, digits: bool)
    requires
        text.len() > 0,
        more.len() > 0 ==> is_digit(more[0]) != digits || is_digit(text.last()) != digits,
    ensures
        leading_run(text + more, digits) == leading_run(text, digits),
    decreases text.len(),
{
    let whole = text + more;
    if is_digit(text[0]) == digits {
        assert(whole.drop_first() =~= text.drop_first() + more);
        if text.len() > 1 {
            assert(text.drop_first().last() == text.last());
            lemma_run_within(text.drop_first(), more, digits);
        } else {
            assert(text.drop_first() + more =~= more);
            assert(leading_run(more, digits) =~= Seq::<char>::empty());
            assert(leading_run(text.drop_first(), digits) =~= Seq::<char>::empty());
        }
    }
}

proof fn lemma_text_order_self(text: Seq<char>)
    ensures
        text_order(text, text) == Order::Equal,
{
    lemma_text_order_equal(text, text);
}

/// Where two texts begin alike, and the part they share ends between two runs in both, what
/// follows decides.
proof fn lemma_shared_start(start: Seq<char>, left: Seq<char>, right: Seq<char>)
    requires
        ends_in_no_digit(start),
        left.len() > 0 && is_digit(left[0]),
        right.len() > 0 && is_digit(right[0]),
    ensures
        natural_order(start + left, start + right) == natural_order(left, right),
    decreases start.len(),
{
    if start.len() == 0 {
        assert(start + left =~= left);
        assert(start + right =~= right);
    } else {
        let digits = is_digit(start[0]);
        lemma_run_within(start, left, digits);
        lemma_run_within(start, right, digits);
        lemma_run_is_prefix(start, digits);
        let run = leading_run(start, digits);
        let rest = start.skip(run.len() as int);
        assert((start + left).skip(run.len() as int) =~= rest + left);
        assert((start + right).skip(run.len() as int) =~= rest + right);
        lemma_text_order_self(run);
        lemma_shared_start(rest, left, right);
    }
}

proof fn lemma_leading_number(number: Seq<char>, tail: Seq<char>)
    requires
        is_number(number),
        begins_with_no_digit(tail),
    ensures
        leading_run(number + tail, true) == number,
    decreases number.len(),
{
    let whole = number + tail;
    assert(is_digit(number[0]));
    let rest = number.drop_first();
    assert(whole.drop_first() =~= rest + tail);
    if rest.len() > 0 {
        assert forall|i: int| 0 <= i < rest.len() implies '0' as int <= #[trigger] rest[i] as int
            <= '9' as int by {
            assert(number[i + 1] == rest[i]);
        }
        lemma_leading_number(rest, tail);
        assert(seq![number[0]] + rest =~= number);
    } else {
        assert(rest + tail =~= tail);
        assert(leading_run(tail, true) =~= Seq::<char>::empty());
        assert(seq![number[0]] + Seq::<char>::empty() =~= number);
    }
}

/// Numbers in texts that begin alike go by their value, however they are written and
/// whatever follows: 2 comes before 10.
pub proof fn law_numbers_go_by_value(
    start: Seq<char>,
    number: Seq<char>,
    tail: Seq<char>,
    other_number: Seq<char>,
    other_tail: Seq<char>,
)
    requires
        ends_in_no_digit(start),
        is_number(number),
        is_number(other_number),
        begins_with_no_digit(tail),
        begins_with_no_digit(other_tail),
        digits_value(number) < digits_value(other_number),
    ensures
        natural_order(start + number + tail, start + other_number + other_tail) == Order::Less,
{
    let left = number + tail;
    let right = other_number + other_tail;
    assert(start + number + tail =~= start + left);
    assert(start + other_number + other_tail =~= start + right);
    assert(is_digit(left[0]) && is_digit(right[0]));
    lemma_shared_start(start, left, right);
    lemma_leading_number(number, tail);
    lemma_leading_number(other_number, other_tail);
}

/// The first place at which two texts differ decides their order.
proof fn lemma_text_order_at(start: Seq<char>, left: Seq<char>, right: Seq<char>)
    requires
        right.len() > 0,
        left.len() > 0 ==> (left[0] as int) < (right[0] as int),
    ensures
        text_order(start + left, start + right) == Order::Less,
    decreases start.len(),
{
    if start.len() == 0 {
        assert(start + left =~= left);
        assert(start + right =~= right);
    } else {
        assert((start + left).drop_first() =~= start.drop_first() + left);
        assert((start + right).drop_first() =~= start.drop_first() + right);
        lemma_text_order_at(start.drop_first(), left, right);
    }
}

/// A run of characters without digits that goes on past the start of a text.
proof fn lemma_run_past(text: Seq<char>, more: Seq<char>)
    requires
        forall|i: int| 0 <= i < text.len() ==> !is_digit(#[trigger] text[i]),
    ensures
        leading_run(text + more, false) == text + leading_run(more, false),
    decreases text.len(),
{
    if text.len() == 0 {
        assert(text + more =~= more);
        assert(text + leading_run(more, false) =~= leading_run(more, false));
    } else {
        let rest = text.drop_first();
        assert((text + more).drop_first() =~= rest + more);
        lemma_run_past(rest, more);
        assert(seq![text[0]] + (rest + leading_run(more, false)) =~= text + leading_run(
            more,
            false,
        ));
    }
}

/// Where two texts begin alike, the first characters in which they differ decide, as long as
/// neither is a digit.
pub proof fn law_letters_go_by_character(
    start: Seq<char>,
    letter: char,
    tail: Seq<char>,
    other_letter: char,
    other_tail: Seq<char>,
)
    requires
        !('0' as int <= letter as int <= '9' as int),
        !('0' as int <= other_letter as int <= '9' as int),
        (letter as int) < (other_letter as int),
    ensures
        natural_order(
            start + seq![letter] + tail,
            start + seq![other_letter] + other_tail,
        ) == Order::Less,
    decreases start.len(),
{
    let left = seq![letter] + tail;
    let right = seq![other_letter] + other_tail;
    assert(start + seq![letter] + tail =~= start + left);
    assert(start + seq![other_letter] + other_tail =~= start + right);
    lemma_letters_decide(start, left, right);
}

proof fn lemma_letters_decide(start: Seq<char>, left: Seq<char>, right: Seq<char>)
    requires
        left.len() > 0 && !is_digit(left[0]),
        right.len() > 0 && !is_digit(right[0]),
        (left[0] as int) < (right[0] as int),
    ensures
        natural_order(start + left, start + right) == Order::Less,
    decreases start.len(),
{
    let a = start + left;
    let b = start + right;
    if start.len() == 0 {
        assert(a =~= left);
        assert(b =~= right);
        lemma_run_is_prefix(left, false);
        lemma_run_is_prefix(right, false);
        lemma_text_order_at(
            Seq::empty(),
            leading_run(left, false),
            leading_run(right, false),
        );
        assert(Seq::<char>::empty() + leading_run(left, false) =~= leading_run(left, false));
        assert(Seq::<char>::empty() + leading_run(right, false) =~= leading_run(right, false));
    } else if is_digit(start[0]) {
        lemma_run_within(start, left, true);
        lemma_run_within(start, right, true);
        lemma_run_is_prefix(start, true);
        let run = leading_run(start, true);
        let rest = start.skip(run.len() as int);
        assert(a.skip(run.len() as int) =~= rest + left);
        assert(b.skip(run.len() as int) =~= rest + right);
        lemma_letters_decide(rest, left, right);
    } else {
        lemma_run_is_prefix(start, false);
        let run = leading_run(start, false);
        if run.len() == start.len() {
            assert(start.take(run.len() as int) =~= start);
            lemma_run_has_no_digit(start);
            lemma_run_past(start, left);
            lemma_run_past(start, right);
            lemma_run_is_prefix(left, false);
            lemma_run_is_prefix(right, false);
            lemma_text_order_at(start, leading_run(left, false), leading_run(right, false));
        } else {
            lemma_run_stops(start, left);
            lemma_run_stops(start, right);
            let rest = start.skip(run.len() as int);
            assert(a.skip(run.len() as int) =~= rest + left);
            assert(b.skip(run.len() as int) =~= rest + right);
            lemma_text_order_self(run);
            lemma_letters_decide(rest, left, right);
        }
    }
}

proof fn lemma_run_has_no_digit(text: Seq<char>)
    ensures
        forall|i: int|
            0 <= i < leading_run(text, false).len() ==> !is_digit(
                #[trigger] leading_run(text, false)[i],
            ),
    decreases text.len(),
{
    if text.len() > 0 && !is_digit(text[0]) {
        lemma_run_has_no_digit(text.drop_first());
        let run = leading_run(text, false);
        let rest = leading_run(text.drop_first(), false);
        assert forall|i: int| 0 <= i < run.len() implies !is_digit(#[trigger] run[i]) by {
            if i > 0 {
                assert(run[i] == rest[i - 1]);
            }
        }
    }
}

proof fn lemma_run_stops(text: Seq<char>, more: Seq<char>)
    requires
        leading_run(text, false).len() < text.len(),
    ensures
        leading_run(text + more, false) == leading_run(text, false),
    decreases text.len(),
{
    if !is_digit(text[0]) {
        assert((text + more).drop_first() =~= text.drop_first() + more);
        lemma_run_stops(text.drop_first(), more);
    }
}

/// Where two texts begin alike, a digit comes before anything else.
pub proof fn law_digits_come_first(
    start: Seq<char>,
    digit: char,
    tail: Seq<char>,
    letter: char,
    other_tail: Seq<char>,
)
    requires
        ends_in_no_digit(start),
        '0' as int <= digit as int <= '9' as int,
        !('0' as int <= letter as int <= '9' as int),
    ensures
        natural_order(start + seq![digit] + tail, start + seq![letter] + other_tail)
            == Order::Less,
{
    let left = seq![digit] + tail;
    let right = seq![letter] + other_tail;
    assert(start + seq![digit] + tail =~= start + left);
    assert(start + seq![letter] + other_tail =~= start + right);
    lemma_digit_decides(start, left, right);
}

proof fn lemma_digit_decides(start: Seq<char>, left: Seq<char>, right: Seq<char>)
    requires
        ends_in_no_digit(start),
        left.len() > 0 && is_digit(left[0]),
        right.len() > 0 && !is_digit(right[0]),
    ensures
        natural_order(start + left, start + right) == Order::Less,
    decreases start.len(),
{
    let a = start + left;
    let b = start + right;
    if start.len() == 0 {
        assert(a =~= left);
        assert(b =~= right);
        lemma_run_is_prefix(left, false);
        lemma_run_is_prefix(right, false);
    } else if is_digit(start[0]) {
        lemma_run_within(start, left, true);
        lemma_run_within(start, right, true);
        lemma_run_is_prefix(start, true);
        let run = leading_run(start, true);
        let rest = start.skip(run.len() as int);
        assert(a.skip(run.len() as int) =~= rest + left);
        assert(b.skip(run.len() as int) =~= rest + right);
        lemma_digit_decides(rest, left, right);
    } else {
        lemma_run_is_prefix(start, false);
        let run = leading_run(start, false);
        if run.len() == start.len() {
            assert(start.take(run.len() as int) =~= start);
            lemma_run_has_no_digit(start);
            lemma_run_past(start, left);
            lemma_run_past(start, right);
            lemma_run_is_prefix(left, false);
            lemma_run_is_prefix(right, false);
            lemma_text_order_at(start, leading_run(left, false), leading_run(right, false));
        } else {
            lemma_run_stops(start, left);
            lemma_run_stops(start, right);
            let rest = start.skip(run.len() as int);
            assert(a.skip(run.len() as int) =~= rest + left);
            assert(b.skip(run.len() as int) =~= rest + right);
            lemma_text_order_self(run);
            lemma_digit_decides(rest, left, right);
        }
    }
}

/// Whether a list holds the documents of another, each as often, in some order.
pub open spec fn is_rearranged(before: Seq<PdfModel>, after: Seq<PdfModel>) -> bool {
    exists|places: Seq<usize>| #[trigger] is_rearranged_by(before, after, places)
}

pub open spec fn is_rearranged_by(
    before: Seq<PdfModel>,
    after: Seq<PdfModel>,
    places: Seq<usize>,
) -> bool {
    &&& after.len() == before.len()
    &&& places.len() == before.len()
    &&& forall|k: int|
        0 <= k < places.len() ==> (#[trigger] places[k]) < before.len() && after[k]
            == before[places[k] as int]
    &&& forall|k: int, l: int|
        0 <= k < l < places.len() ==> #[trigger] places[k] != #[trigger] places[l]
    &&& forall|i: int| 0 <= i < before.len() ==> #[trigger] is_listed(places, i)
}

/// Sorting loses no document, adds none and repeats none.
pub proof fn law_sorting_keeps_the_documents(
    before: Seq<PdfModel>,
    after: Seq<PdfModel>,
    mode: SortMode,
    ascending: bool,
)
    requires
        is_sorted_from(before, after, mode, ascending),
    ensures
        is_rearranged(before, after),
{
    let places = choose|places: Seq<usize>| #[trigger]
        sorting_places(before, mode, ascending, places) && after == rearranged(before, places);
    assert forall|k: int, l: int| 0 <= k < l < places.len() implies #[trigger] places[k]
        != #[trigger] places[l] by {
        assert(pdf_sorts_before(before, mode, ascending, places[k] as int, places[l] as int));
        if places[k] == places[l] {
            lemma_ranking_asymmetric(
                before,
                mode,
                ascending,
                places[k] as int,
                places[l] as int,
            );
        }
    }
    lemma_places_cover(places, before.len());
    assert(is_rearranged_by(before, after, places));
}

/// Whether one document is not listed before another by name where the other's comes first.
pub open spec fn names_rise(a: PdfModel, b: PdfModel) -> bool {
    name_order(a.name, b.name) != Order::Greater
}

/// The same of the names of their folders.
pub open spec fn folder_names_rise(a: PdfModel, b: PdfModel) -> bool {
    name_order(a.folder_name, b.folder_name) != Order::Greater
}

/// A sorted list goes by its column: by the time of the last change, by the size, by the
/// name or by the name of the folder, rising or falling. Where documents agree in it they
/// rise by name, then by folder; those of one folder, by name.
pub proof fn law_sorted_list_goes_by_its_column(
    before: Seq<PdfModel>,
    after: Seq<PdfModel>,
    mode: SortMode,
    ascending: bool,
    k: int,
    l: int,
)
    requires
        is_sorted_from(before, after, mode, ascending),
        0 <= k < l < after.len(),
    ensures
        mode == SortMode::Modified && ascending ==> after[k].modified_secs <= after[l].modified_secs,
        mode == SortMode::Modified && !ascending ==> after[k].modified_secs
            >= after[l].modified_secs,
        mode == SortMode::Size && ascending ==> after[k].size_bytes <= after[l].size_bytes,
        mode == SortMode::Size && !ascending ==> after[k].size_bytes >= after[l].size_bytes,
        mode == SortMode::Name && ascending ==> names_rise(after[k], after[l]),
        mode == SortMode::Name && !ascending ==> names_rise(after[l], after[k]),
        mode == SortMode::Folder && ascending ==> folder_names_rise(after[k], after[l]),
        mode == SortMode::Folder && !ascending ==> folder_names_rise(after[l], after[k]),
        mode == SortMode::Modified && after[k].modified_secs == after[l].modified_secs
            ==> names_rise(after[k], after[l]),
        mode == SortMode::Size && after[k].size_bytes == after[l].size_bytes ==> names_rise(
            after[k],
            after[l],
        ),
        mode == SortMode::Folder && after[k].folder_name == after[l].folder_name ==> names_rise(
            after[k],
            after[l],
        ),
        mode == SortMode::Name && after[k].name == after[l].name ==> folder_names_rise(
            after[k],
            after[l],
        ),
        mode == SortMode::Modified && after[k].modified_secs == after[l].modified_secs
            && after[k].name == after[l].name ==> folder_names_rise(after[k], after[l]),
        mode == SortMode::Size && after[k].size_bytes == after[l].size_bytes && after[k].name
            == after[l].name ==> folder_names_rise(after[k], after[l]),
{
    law_sorted_list_is_ordered(before, after, mode, ascending);
    let a = after[k];
    let b = after[l];
    law_name_order_is_total(a.name, b.name, b.name);
    law_name_order_is_total(a.folder_name, b.folder_name, b.folder_name);
    assert(sort_key(a).name_key == search_text(a.name));
}

/// Two numbered names that begin alike stand in the order of their numbers, in whichever way
/// their letters are written.
pub proof fn law_numbered_names_go_by_number(
    name: Seq<char>,
    other: Seq<char>,
    start: Seq<char>,
    number: Seq<char>,
    tail: Seq<char>,
    other_number: Seq<char>,
    other_tail: Seq<char>,
)
    requires
        search_text(name) == start + number + tail,
        search_text(other) == start + other_number + other_tail,
        ends_in_no_digit(start),
        is_number(number),
        is_number(other_number),
        begins_with_no_digit(tail),
        begins_with_no_digit(other_tail),
        digits_value(number) < digits_value(other_number),
    ensures
        name_order(name, other) == Order::Less,
        name_order(other, name) == Order::Greater,
{
    law_numbers_go_by_value(start, number, tail, other_number, other_tail);
    law_name_order_is_total(name, other, other);
}

/// The documents of numbered folders that begin alike are listed in the order of the numbers.
pub proof fn law_folders_are_listed_by_number(
    before: Seq<PdfModel>,
    after: Seq<PdfModel>,
    k: int,
    l: int,
    start: Seq<char>,
    number: Seq<char>,
    other_number: Seq<char>,
)
    requires
        is_sorted_from(before, after, SortMode::Folder, true),
        0 <= k < after.len(),
        0 <= l < after.len(),
        search_text(after[k].folder_name) == start + number,
        search_text(after[l].folder_name) == start + other_number,
        ends_in_no_digit(start),
        is_number(number),
        is_number(other_number),
        digits_value(number) < digits_value(other_number),
    ensures
        k < l,
{
    let nothing = Seq::<char>::empty();
    assert(start + number + nothing =~= start + number);
    assert(start + other_number + nothing =~= start + other_number);
    law_numbered_names_go_by_number(
        after[k].folder_name,
        after[l].folder_name,
        start,
        number,
        nothing,
        other_number,
        nothing,
    );
    if l < k {
        law_sorted_list_goes_by_its_column(before, after, SortMode::Folder, true, l, k);
    }
}

/// Whether the folders at some places of a list make up another.
spec fn folders_stand_so(
    before: Seq<FolderModel>,
    after: Seq<FolderModel>,
    places: Seq<usize>,
) -> bool {
    after.len() == places.len() && forall|i: int|
        0 <= i < places.len() ==> #[trigger] after[i] == before[places[i] as int]
}

/// The folders themselves are listed in the order of their names.
pub proof fn law_folders_rise_by_name(folders: &Vec<FolderInfo>, listed: Vec<FolderInfo>, k: int, l: int)
    requires
        call_ensures(sort_folders, (folders,), listed),
        0 <= k < l < listed.len(),
    ensures
        listed.len() == folders.len(),
        name_order(listed[k].name@, listed[l].name@) != Order::Greater,
{
    let before = folder_models(folders@);
    let after = folder_models(listed@);
    assert(folders_sorted_from(before, after));
    assert(exists|places: Seq<usize>| #[trigger]
        folder_places(before, places) && folders_stand_so(before, after, places));
    let places = choose|places: Seq<usize>| #[trigger]
        folder_places(before, places) && folders_stand_so(before, after, places);
    assert(after[k] == before[places[k] as int]);
    assert(after[l] == before[places[l] as int]);
    assert(after[k].name == listed[k].name@);
    assert(after[l].name == listed[l].name@);
}

} // verus!
