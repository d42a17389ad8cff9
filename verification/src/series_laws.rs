//! What the name that is offered next has to do with the names that are there.

use vstd::prelude::*;
use crate::order::Order;
use crate::storage::{
    digits_start, is_established, is_strongest, next_in_series, next_sequence_name, numbered_name,
    padded, pdf_models, series_key, series_of, series_strength, without_pdf, NumberedName, PdfInfo,
    PdfModel, SeriesKey,
};
use crate::text::{
    ascii_upper, decimal, digits_value, equal_ignoring_ascii_case, is_digit, lemma_decimal_value,
    text_lowercase, trimmed,
};

verus! {

/// The ending of a PDF file, in whichever case.
pub open spec fn is_pdf_ending(ending: Seq<char>) -> bool {
    &&& ending.len() == 4
    &&& ending[0] == '.'
    &&& ending[1] == 'p' || ending[1] == 'P'
    &&& ending[2] == 'd' || ending[2] == 'D'
    &&& ending[3] == 'f' || ending[3] == 'F'
}

/// Whether a name is a stem with the ending of a PDF file behind it.
pub open spec fn is_stem_with_ending(name: Seq<char>, stem: Seq<char>) -> bool {
    name.len() == stem.len() + 4 && name.take(stem.len() as int) == stem && is_pdf_ending(
        name.skip(stem.len() as int),
    )
}

/// Whether a file of this name has this stem: what stands before the ending of a PDF file,
/// or all of it where there is no such ending.
pub open spec fn has_stem(name: Seq<char>, stem: Seq<char>) -> bool {
    ||| is_stem_with_ending(name, stem)
    ||| name == stem && !exists|other: Seq<char>| #[trigger] is_stem_with_ending(name, other)
}

/// Whether a text is a number in decimal digits, with or without zeros in front.
pub open spec fn is_number(text: Seq<char>) -> bool {
    text.len() > 0 && forall|i: int|
        0 <= i < text.len() ==> '0' as int <= #[trigger] text[i] as int <= '9' as int
}

/// Whether a document is called by a prefix and a number with so many digits, the prefix in
/// this case or another.
pub open spec fn is_of_series(name: Seq<char>, lower: Seq<char>, width: nat, number: nat) -> bool {
    exists|prefix: Seq<char>, digits: Seq<char>| #[trigger]
        is_called(name, prefix, digits) && text_lowercase(prefix) == lower && digits.len() == width
            && digits_value(digits) == number
}

/// Whether a document is called by a prefix and a number, and the number has a successor.
pub open spec fn is_called(name: Seq<char>, prefix: Seq<char>, digits: Seq<char>) -> bool {
    &&& has_stem(name, prefix + digits)
    &&& is_number(digits)
    &&& prefix.len() > 0 ==> !('0' as int <= prefix.last() as int <= '9' as int)
    &&& digits_value(digits) < u64::MAX
}

/// How many documents belong to a series.
pub open spec fn members(pdfs: Seq<PdfModel>, lower: Seq<char>, width: nat) -> nat
    decreases pdfs.len(),
{
    if pdfs.len() == 0 {
        0
    } else {
        members(pdfs.drop_last(), lower, width) + if exists|number: nat| #[trigger]
            is_of_series(pdfs.last().name, lower, width, number) {
            1nat
        } else {
            0nat
        }
    }
}

/// Whether a number is the highest of a series, and a time the last at which one of its
/// documents changed.
pub open spec fn is_head(
    pdfs: Seq<PdfModel>,
    lower: Seq<char>,
    width: nat,
    number: nat,
    latest: u64,
) -> bool {
    &&& exists|i: int|
        0 <= i < pdfs.len() && is_of_series((#[trigger] pdfs[i]).name, lower, width, number)
    &&& exists|i: int, n: nat|
        0 <= i < pdfs.len() && #[trigger] is_of_series(pdfs[i].name, lower, width, n)
            && pdfs[i].modified_secs == latest
    &&& forall|i: int, n: nat|
        0 <= i < pdfs.len() && #[trigger] is_of_series(pdfs[i].name, lower, width, n) ==> n
            <= number && pdfs[i].modified_secs <= latest
}

/// Whether one series is at least as strong as another: it has more documents, or as many
/// and goes further, or as far and was used last.
pub open spec fn is_as_strong(
    pdfs: Seq<PdfModel>,
    lower: Seq<char>,
    width: nat,
    number: nat,
    latest: u64,
    other: Seq<char>,
    other_width: nat,
    other_number: nat,
    other_latest: u64,
) -> bool {
    ||| members(pdfs, lower, width) > members(pdfs, other, other_width)
    ||| members(pdfs, lower, width) == members(pdfs, other, other_width) && {
        ||| number > other_number
        ||| number == other_number && latest >= other_latest
    }
}

/// Whether a name goes on with a series: the prefix is written as one of its documents
/// writes it but for case, the number is the next one, and no digit fewer is written.
pub open spec fn goes_on(name: Seq<char>, lower: Seq<char>, width: nat, number: nat) -> bool {
    exists|prefix: Seq<char>, digits: Seq<char>|
        {
            &&& name == #[trigger] (prefix + digits)
            &&& text_lowercase(prefix) == lower
            &&& prefix.len() > 0 ==> !('0' as int <= prefix.last() as int <= '9' as int)
            &&& is_number(digits)
            &&& digits_value(digits) == number + 1
            &&& digits.len() >= width
            &&& digits.len() > width ==> digits[0] != '0'
        }
}

/// Whether a name goes on with the strongest series of at least two documents.
pub open spec fn goes_on_with_the_strongest(pdfs: Seq<PdfModel>, name: Seq<char>) -> bool {
    exists|lower: Seq<char>, width: nat, number: nat, latest: u64|
        {
            &&& #[trigger] is_head(pdfs, lower, width, number, latest)
            &&& members(pdfs, lower, width) >= 2
            &&& goes_on(name, lower, width, number)
            &&& forall|other: Seq<char>, other_width: nat, other_number: nat, other_latest: u64|
                #[trigger] is_head(pdfs, other, other_width, other_number, other_latest)
                    ==> is_as_strong(
                    pdfs,
                    lower,
                    width,
                    number,
                    latest,
                    other,
                    other_width,
                    other_number,
                    other_latest,
                )
        }
}

pub proof fn lemma_ending(ending: Seq<char>)
    requires
        ending.len() == 4,
    ensures
        equal_ignoring_ascii_case(ending, ".pdf"@) == is_pdf_ending(ending),
{
    reveal_strlit(".pdf");
    let pdf = ".pdf"@;
    assert(pdf.len() == 4 && pdf[0] == '.' && pdf[1] == 'p' && pdf[2] == 'd' && pdf[3] == 'f');
    assert(ascii_upper(pdf[0]) == '.');
    assert(ascii_upper(pdf[1]) == 'P');
    assert(ascii_upper(pdf[2]) == 'D');
    assert(ascii_upper(pdf[3]) == 'F');
    if equal_ignoring_ascii_case(ending, pdf) {
        assert(ascii_upper(ending[0]) == ascii_upper(pdf[0]));
        assert(ascii_upper(ending[1]) == ascii_upper(pdf[1]));
        assert(ascii_upper(ending[2]) == ascii_upper(pdf[2]));
        assert(ascii_upper(ending[3]) == ascii_upper(pdf[3]));
    }
    if is_pdf_ending(ending) {
        assert forall|i: int| 0 <= i < 4 implies ascii_upper(#[trigger] ending[i]) == ascii_upper(
            pdf[i],
        ) by {
            if i == 0 {
            } else if i == 1 {
            } else if i == 2 {
            } else {
                assert(i == 3);
            }
        }
    }
}

/// What is taken for the stem is the stem, and no name has two.
proof fn lemma_stem(name: Seq<char>, stem: Seq<char>)
    ensures
        has_stem(name, stem) == (stem == without_pdf(name)),
{
    let n = name.len();
    if n >= 4 {
        lemma_ending(name.skip(n - 4));
        if is_pdf_ending(name.skip(n - 4)) {
            assert(is_stem_with_ending(name, name.take(n - 4)));
        }
    }
    assert forall|other: Seq<char>| #[trigger] is_stem_with_ending(name, other) implies other
        == without_pdf(name) by {
        assert(name.skip(other.len() as int) =~= name.skip(n - 4));
    }
}

proof fn lemma_digits_start(text: Seq<char>)
    ensures
        0 <= digits_start(text) <= text.len(),
        forall|i: int|
            digits_start(text) <= i < text.len() ==> is_digit(#[trigger] text[i]),
        digits_start(text) > 0 ==> !is_digit(text[digits_start(text) - 1]),
    decreases text.len(),
{
    if text.len() > 0 && is_digit(text.last()) {
        lemma_digits_start(text.drop_last());
        let at = digits_start(text);
        assert forall|i: int| at <= i < text.len() implies is_digit(#[trigger] text[i]) by {
            if i < text.len() - 1 {
                assert(text.drop_last()[i] == text[i]);
            }
        }
        if at > 0 {
            assert(text.drop_last()[at - 1] == text[at - 1]);
        }
    }
}

/// A document has the number by which it is called, and no other.
proof fn lemma_called(name: Seq<char>, prefix: Seq<char>, digits: Seq<char>)
    ensures
        is_called(name, prefix, digits) == (numbered_name(name) == Some(
            NumberedName { prefix, digits },
        )),
{
    let stem = without_pdf(name);
    lemma_stem(name, prefix + digits);
    lemma_digits_start(stem);
    let at = digits_start(stem);
    assert(stem.take(at) + stem.skip(at) =~= stem);
    if is_called(name, prefix, digits) {
        let k = prefix.len() as int;
        assert(stem == prefix + digits);
        if at > k {
            assert(stem[at - 1] == digits[at - 1 - k]);
            assert(is_digit(digits[at - 1 - k]));
        }
        if at < k {
            assert(stem[k - 1] == prefix[k - 1]);
            assert(is_digit(stem[k - 1]));
        }
        assert(stem.take(at) =~= prefix);
        assert(stem.skip(at) =~= digits);
    }
    if numbered_name(name) == Some(NumberedName { prefix, digits }) {
        assert(prefix == stem.take(at) && digits == stem.skip(at));
        assert forall|i: int| 0 <= i < digits.len() implies '0' as int <= #[trigger] digits[i] as int
            <= '9' as int by {
            assert(is_digit(stem[at + i]));
        }
        if at > 0 {
            assert(prefix.last() == stem[at - 1]);
        }
    }
}

/// A document belongs to the series of its key, with its number.
proof fn lemma_of_series(name: Seq<char>, lower: Seq<char>, width: nat, number: nat)
    ensures
        is_of_series(name, lower, width, number) == (series_key(name) == Some(
            SeriesKey { prefix: lower, width },
        ) && digits_value(numbered_name(name).unwrap().digits) == number),
{
    let key = SeriesKey { prefix: lower, width };
    if is_of_series(name, lower, width, number) {
        let (prefix, digits) = choose|prefix: Seq<char>, digits: Seq<char>| #[trigger]
            is_called(name, prefix, digits) && text_lowercase(prefix) == lower && digits.len()
                == width && digits_value(digits) == number;
        lemma_called(name, prefix, digits);
        assert(series_key(name).unwrap() =~= key);
    }
    if series_key(name) == Some(key) && digits_value(numbered_name(name).unwrap().digits) == number {
        let numbered = numbered_name(name).unwrap();
        lemma_called(name, numbered.prefix, numbered.digits);
        assert(numbered =~= NumberedName { prefix: numbered.prefix, digits: numbered.digits });
        assert(is_called(name, numbered.prefix, numbered.digits));
    }
}

/// What is known of a series is what its documents are called.
proof fn lemma_series(pdfs: Seq<PdfModel>, lower: Seq<char>, width: nat)
    ensures
        ({
            let key = SeriesKey { prefix: lower, width };
            match series_of(pdfs, key) {
                None => members(pdfs, lower, width) == 0 && forall|i: int, n: nat|
                    0 <= i < pdfs.len() ==> !#[trigger] is_of_series(pdfs[i].name, lower, width, n),
                Some(series) => {
                    &&& series.count == members(pdfs, lower, width)
                    &&& series.count > 0
                    &&& is_head(pdfs, lower, width, series.highest, series.latest)
                    &&& text_lowercase(series.prefix) == lower
                    &&& series.prefix.len() > 0 ==> !('0' as int <= series.prefix.last() as int
                        <= '9' as int)
                },
            }
        }),
    decreases pdfs.len(),
{
    let key = SeriesKey { prefix: lower, width };
    if pdfs.len() > 0 {
        let before = pdfs.drop_last();
        let last = pdfs.last();
        lemma_series(before, lower, width);
        assert forall|n: nat| #[trigger] is_of_series(last.name, lower, width, n) == (series_key(
            last.name,
        ) == Some(key) && digits_value(numbered_name(last.name).unwrap().digits) == n) by {
            lemma_of_series(last.name, lower, width, n);
        }
        assert forall|i: int| 0 <= i < before.len() implies before[i] == #[trigger] pdfs[i] by {}
        if series_key(last.name) == Some(key) {
            let numbered = numbered_name(last.name).unwrap();
            let number = digits_value(numbered.digits);
            assert(is_of_series(last.name, lower, width, number));
            lemma_called(last.name, numbered.prefix, numbered.digits);
            assert(numbered =~= NumberedName { prefix: numbered.prefix, digits: numbered.digits });
            let series = series_of(pdfs, key).unwrap();
            let at = pdfs.len() - 1;
            assert(pdfs[at] == last);
            match series_of(before, key) {
                None => {
                    assert(series.highest == number && series.latest == last.modified_secs);
                    assert(is_of_series(pdfs[at].name, lower, width, series.highest));
                },
                Some(old) => {
                    let i = choose|i: int|
                        0 <= i < before.len() && is_of_series(
                            (#[trigger] before[i]).name,
                            lower,
                            width,
                            old.highest,
                        );
                    assert(is_of_series(pdfs[i].name, lower, width, old.highest));
                    let (j, n) = choose|j: int, n: nat|
                        0 <= j < before.len() && #[trigger] is_of_series(
                            before[j].name,
                            lower,
                            width,
                            n,
                        ) && before[j].modified_secs == old.latest;
                    assert(is_of_series(pdfs[j].name, lower, width, n));
                    assert(is_of_series(pdfs[at].name, lower, width, number));
                },
            }
            assert forall|i: int, n: nat|
                0 <= i < pdfs.len() && #[trigger] is_of_series(
                    pdfs[i].name,
                    lower,
                    width,
                    n,
                ) implies n <= series.highest && pdfs[i].modified_secs <= series.latest by {
                if i < at {
                    assert(is_of_series(before[i].name, lower, width, n));
                }
            }
        } else {
            assert forall|i: int, n: nat|
                0 <= i < pdfs.len() && #[trigger] is_of_series(
                    pdfs[i].name,
                    lower,
                    width,
                    n,
                ) implies i < before.len() && is_of_series(before[i].name, lower, width, n) by {}
            match series_of(before, key) {
                None => {},
                Some(old) => {
                    let i = choose|i: int|
                        0 <= i < before.len() && is_of_series(
                            (#[trigger] before[i]).name,
                            lower,
                            width,
                            old.highest,
                        );
                    assert(is_of_series(pdfs[i].name, lower, width, old.highest));
                    let (j, n) = choose|j: int, n: nat|
                        0 <= j < before.len() && #[trigger] is_of_series(
                            before[j].name,
                            lower,
                            width,
                            n,
                        ) && before[j].modified_secs == old.latest;
                    assert(is_of_series(pdfs[j].name, lower, width, n));
                },
            }
        }
    }
}

proof fn lemma_decimal_lead(n: nat)
    ensures
        n > 0 ==> decimal(n)[0] != '0',
    decreases n,
{
    if n >= 10 {
        lemma_decimal_lead(n / 10);
        lemma_decimal_value(n / 10);
    }
}

proof fn lemma_leading_zeros(zeros: nat, digits: Seq<char>)
    ensures
        digits_value(Seq::new(zeros, |i: int| '0') + digits) == digits_value(digits),
    decreases digits.len(), zeros,
{
    let front = Seq::new(zeros, |i: int| '0');
    if digits.len() > 0 {
        lemma_leading_zeros(zeros, digits.drop_last());
        assert((front + digits).drop_last() =~= front + digits.drop_last());
    } else if zeros > 0 {
        lemma_leading_zeros((zeros - 1) as nat, digits);
        assert((front + digits).drop_last() =~= Seq::new((zeros - 1) as nat, |i: int| '0') + digits);
    } else {
        assert(front + digits =~= digits);
    }
}

proof fn lemma_padded(n: nat, width: nat)
    requires
        n > 0,
    ensures
        is_number(padded(n, width)),
        digits_value(padded(n, width)) == n,
        padded(n, width).len() >= width,
        padded(n, width).len() > width ==> padded(n, width)[0] != '0',
{
    lemma_decimal_value(n);
    lemma_decimal_lead(n);
    let digits = decimal(n);
    if digits.len() < width {
        lemma_leading_zeros((width - digits.len()) as nat, digits);
    }
    assert forall|i: int| 0 <= i < digits.len() implies '0' as int <= #[trigger] digits[i] as int
        <= '9' as int by {
        assert(is_digit(digits[i]));
    }
}

/// The name offered next continues the strongest series of numbered names: the one with the
/// most documents, then the one that goes furthest, then the one used last. Its number is
/// the highest of that series and one more, and no zero in front is lost. Only where no two
/// documents belong together is it the name of the folder.
pub proof fn law_next_name_continues_the_strongest_series(
    existing: &Vec<PdfInfo>,
    folder_name: &str,
    name: String,
)
    requires
        call_ensures(next_sequence_name, (existing, folder_name), name),
    ensures
        ({
            let pdfs = pdf_models(existing@);
            ||| goes_on_with_the_strongest(pdfs, name@)
            ||| (forall|lower: Seq<char>, width: nat| #[trigger] members(pdfs, lower, width) < 2)
                && name@ == if trimmed(folder_name@).len() == 0 {
                "Dokument"@
            } else {
                trimmed(folder_name@)
            }
        }),
{
    let pdfs = pdf_models(existing@);
    if exists|key: SeriesKey| #[trigger]
        is_strongest(pdfs, key) && name@ == next_in_series(key, series_of(pdfs, key).unwrap()) {
        let key = choose|key: SeriesKey| #[trigger]
            is_strongest(pdfs, key) && name@ == next_in_series(key, series_of(pdfs, key).unwrap());
        let (lower, width) = (key.prefix, key.width);
        let series = series_of(pdfs, key).unwrap();
        assert(key =~= SeriesKey { prefix: lower, width });
        lemma_series(pdfs, lower, width);
        lemma_padded(series.highest + 1, width);
        assert(name@ == series.prefix + padded(series.highest + 1, width));
        assert(goes_on(name@, lower, width, series.highest));
        assert forall|other: Seq<char>, other_width: nat, other_number: nat, other_latest: u64|
            #[trigger] is_head(
            pdfs,
            other,
            other_width,
            other_number,
            other_latest,
        ) implies is_as_strong(
            pdfs,
            lower,
            width,
            series.highest,
            series.latest,
            other,
            other_width,
            other_number,
            other_latest,
        ) by {
            let other_key = SeriesKey { prefix: other, width: other_width };
            lemma_series(pdfs, other, other_width);
            let i = choose|i: int|
                0 <= i < pdfs.len() && is_of_series(
                    (#[trigger] pdfs[i]).name,
                    other,
                    other_width,
                    other_number,
                );
            assert(series_of(pdfs, other_key) is Some);
            let rival = series_of(pdfs, other_key).unwrap();
            lemma_heads(
                pdfs,
                other,
                other_width,
                other_number,
                other_latest,
                rival.highest,
                rival.latest,
            );
            if rival.count >= 2 {
                assert(is_established(pdfs, other_key));
                assert(series_strength(other_key, rival, key, series) != Order::Greater);
            }
        }
    } else {
        assert forall|lower: Seq<char>, width: nat| #[trigger]
            members(pdfs, lower, width) < 2 by {
            lemma_series(pdfs, lower, width);
            assert(!is_established(pdfs, SeriesKey { prefix: lower, width }));
        }
    }
}

proof fn lemma_heads(
    pdfs: Seq<PdfModel>,
    lower: Seq<char>,
    width: nat,
    number: nat,
    latest: u64,
    other: nat,
    other_latest: u64,
)
    requires
        is_head(pdfs, lower, width, number, latest),
        is_head(pdfs, lower, width, other, other_latest),
    ensures
        number == other,
        latest == other_latest,
{
}

/// The name offered next is of the series that it goes on with, as long as the number has
/// no more digits than the names there.
pub proof fn law_next_name_stays_in_its_series(
    name: Seq<char>,
    lower: Seq<char>,
    width: nat,
    number: nat,
)
    requires
        goes_on(name, lower, width, number),
        number + 1 < u64::MAX,
        decimal(number + 1).len() <= width,
    ensures
        is_of_series(name + ".pdf"@, lower, width, number + 1),
{
    let (prefix, digits) = choose|prefix: Seq<char>, digits: Seq<char>|
        {
            &&& name == #[trigger] (prefix + digits)
            &&& text_lowercase(prefix) == lower
            &&& prefix.len() > 0 ==> !('0' as int <= prefix.last() as int <= '9' as int)
            &&& is_number(digits)
            &&& digits_value(digits) == number + 1
            &&& digits.len() >= width
            &&& digits.len() > width ==> digits[0] != '0'
        };
    reveal_strlit(".pdf");
    let full = name + ".pdf"@;
    assert(full.take(name.len() as int) =~= name);
    assert(full.skip(name.len() as int) =~= ".pdf"@);
    assert(is_stem_with_ending(full, prefix + digits));
    lemma_number_length(digits);
    assert(is_called(full, prefix, digits));
}

/// A number without a zero in front has no more digits than its value needs.
proof fn lemma_number_length(digits: Seq<char>)
    requires
        is_number(digits),
    ensures
        digits[0] != '0' ==> digits == decimal(digits_value(digits)),
    decreases digits.len(),
{
    if digits.len() == 1 {
        assert(digits.drop_last() =~= Seq::<char>::empty());
        assert(digits_value(digits.drop_last()) == 0);
        let v = digits_value(digits);
        assert(v < 10);
        assert(decimal(v) =~= digits);
    } else if digits[0] != '0' {
        let front = digits.drop_last();
        lemma_number_length(front);
        let v = digits_value(front);
        let last = (digits.last() as int - '0' as int) as nat;
        assert(front == decimal(v));
        assert(v > 0) by {
            if v == 0 {
                assert(decimal(0) =~= seq!['0']);
            }
        }
        assert(digits_value(digits) == v * 10 + last);
        assert((v * 10 + last) / 10 == v && (v * 10 + last) % 10 == last);
        assert(decimal(v * 10 + last) == decimal(v).push(crate::text::digit_char(last)));
        assert(decimal(v * 10 + last) =~= digits);
    }
}

} // verus!
