//! The natural order of names: numbers inside a name count by their value, and
//! letters without regard to case or Polish diacritics.

use std::cmp::Ordering;
use vstd::prelude::*;
use crate::order::{
    compare_chars, compare_usize, consistent, int_order, lemma_text_order_equal,
    lemma_text_order_mirror, lemma_text_order_transitive, text_order, Order,
};
use crate::text::{
    all_digits, ascii_lower, char_lowercase, chars_of, copy_range, digits_value, is_ascii_char,
    is_ascii_digit, is_digit, is_white_space, lowercase_char, text_of, trimmed_start, white_space,
};

verus! {

/// What becomes of a lower-case character in a search key: Polish letters lose
/// their diacritics, combining marks disappear.
pub open spec fn plain_letter(c: char) -> Option<char> {
    if c == 'ą' {
        Some('a')
    } else if c == 'ć' {
        Some('c')
    } else if c == 'ę' {
        Some('e')
    } else if c == 'ł' {
        Some('l')
    } else if c == 'ń' {
        Some('n')
    } else if c == 'ó' {
        Some('o')
    } else if c == 'ś' {
        Some('s')
    } else if c == 'ź' || c == 'ż' {
        Some('z')
    } else if '\u{0300}' as int <= c as int <= '\u{036f}' as int {
        None
    } else {
        Some(c)
    }
}

/// The plain letters of lower-case text.
pub open spec fn plain_letters(text: Seq<char>) -> Seq<char>
    decreases text.len(),
{
    if text.len() == 0 {
        Seq::empty()
    } else {
        match plain_letter(text.last()) {
            Some(c) => plain_letters(text.drop_last()).push(c),
            None => plain_letters(text.drop_last()),
        }
    }
}

/// The form of a text in which it is searched and ordered.
pub open spec fn search_text(text: Seq<char>) -> Seq<char>
    decreases text.len(),
{
    if text.len() == 0 {
        Seq::empty()
    } else {
        search_text(text.drop_last()) + plain_letters(char_lowercase(text.last()))
    }
}

fn plain(c: char) -> (r: Option<char>)
    ensures
        r == plain_letter(c),
{
    if c == 'ą' {
        Some('a')
    } else if c == 'ć' {
        Some('c')
    } else if c == 'ę' {
        Some('e')
    } else if c == 'ł' {
        Some('l')
    } else if c == 'ń' {
        Some('n')
    } else if c == 'ó' {
        Some('o')
    } else if c == 'ś' {
        Some('s')
    } else if c == 'ź' || c == 'ż' {
        Some('z')
    } else if '\u{0300}' <= c && c <= '\u{036f}' {
        None
    } else {
        Some(c)
    }
}

/// Whether the ASCII characters of a text are lowered as ASCII has it.
pub open spec fn lowers_ascii(text: Seq<char>) -> bool {
    forall|i: int|
        0 <= i < text.len() && is_ascii_char(#[trigger] text[i]) ==> char_lowercase(text[i])
            == seq![ascii_lower(text[i])]
}

/// Whether the ASCII characters of a text are white space as ASCII has it.
pub open spec fn spaces_ascii(text: Seq<char>) -> bool {
    forall|i: int|
        0 <= i < text.len() && is_ascii_char(#[trigger] text[i]) ==> white_space(text[i]) == (
        text[i] == ' ' || 9 <= text[i] as int <= 13)
}

/// The search form of a text given as its characters.
pub fn search_chars(text: &[char]) -> (r: Vec<char>)
    ensures
        r@ == search_text(text@),
        lowers_ascii(text@),
{
    let mut result: Vec<char> = Vec::new();
    let mut i: usize = 0;
    assert(text@.take(0) =~= Seq::<char>::empty());
    while i < text.len()
        invariant
            i <= text.len(),
            result@ == search_text(text@.take(i as int)),
            lowers_ascii(text@.take(i as int)),
        decreases text.len() - i,
    {
        let lower: Vec<char> = lowercase_char(text[i]);
        let ghost before = result@;
        let mut j: usize = 0;
        assert(lower@.take(0) =~= Seq::<char>::empty());
        assert(before + plain_letters(lower@.take(0)) =~= before);
        while j < lower.len()
            invariant
                j <= lower.len(),
                result@ == before + plain_letters(lower@.take(j as int)),
            decreases lower.len() - j,
        {
            assert(lower@.take(j + 1).drop_last() =~= lower@.take(j as int));
            assert(lower@.take(j + 1).last() == lower@[j as int]);
            match plain(lower[j]) {
                Some(c) => {
                    result.push(c);
                },
                None => {},
            }
            j = j + 1;
            assert(result@ =~= before + plain_letters(lower@.take(j as int)));
        }
        assert(lower@.take(j as int) =~= lower@);
        assert(text@.take(i + 1).drop_last() =~= text@.take(i as int));
        assert(text@.take(i + 1).last() == text@[i as int]);
        i = i + 1;
    }
    assert(text@.take(i as int) =~= text@);
    result
}

/// The search form of a text. One in ASCII is put in ASCII lower case.
pub fn normalize_search_text(text: &str) -> (r: String)
    ensures
        r@ == search_text(text@),
        all_ascii(text@) ==> r@ == text@.map_values(|c: char| ascii_lower(c)),
{
    let chars: Vec<char> = chars_of(text);
    let result: Vec<char> = search_chars(&chars);
    proof {
        if all_ascii(text@) {
            lemma_ascii_search_text(text@);
        }
    }
    text_of(&result)
}

pub open spec fn all_ascii(text: Seq<char>) -> bool {
    forall|i: int| 0 <= i < text.len() ==> is_ascii_char(#[trigger] text[i])
}

proof fn lemma_ascii_search_text(text: Seq<char>)
    requires
        all_ascii(text),
        lowers_ascii(text),
    ensures
        search_text(text) == text.map_values(|c: char| ascii_lower(c)),
    decreases text.len(),
{
    if text.len() > 0 {
        let init = text.drop_last();
        assert forall|i: int| 0 <= i < init.len() && is_ascii_char(#[trigger] init[i]) implies char_lowercase(
            init[i],
        ) == seq![ascii_lower(init[i])] by {
            assert(text[i] == init[i]);
        }
        assert forall|i: int| 0 <= i < init.len() implies is_ascii_char(#[trigger] init[i]) by {
            assert(text[i] == init[i]);
        }
        lemma_ascii_search_text(init);
        let c = text.last();
        assert(is_ascii_char(text[text.len() - 1]));
        let lower = seq![ascii_lower(c)];
        assert(lower.drop_last() =~= Seq::<char>::empty());
        assert(plain_letters(lower.drop_last()) =~= Seq::<char>::empty());
        assert(is_ascii_char(ascii_lower(c)));
        assert(plain_letter(lower.last()) == Some(ascii_lower(c)));
        assert(plain_letters(lower) =~= lower);
    }
    assert(search_text(text) =~= text.map_values(|c: char| ascii_lower(c)));
}

/// The search form of two texts side by side is that of the first and then that of the
/// second.
pub proof fn law_search_text_joins(left: Seq<char>, right: Seq<char>)
    ensures
        search_text(left + right) == search_text(left) + search_text(right),
    decreases right.len(),
{
    if right.len() == 0 {
        assert(left + right =~= left);
        assert(search_text(left) + search_text(right) =~= search_text(left));
    } else {
        law_search_text_joins(left, right.drop_last());
        assert((left + right).drop_last() =~= left + right.drop_last());
        assert((left + right).last() == right.last());
        assert(search_text(left + right) =~= search_text(left) + search_text(right));
    }
}

/// Whether a character can stand in a search form: no Polish letter with a mark, and no
/// mark that goes with the letter before.
pub open spec fn is_plain(c: char) -> bool {
    &&& c != 'ą' && c != 'ć' && c != 'ę' && c != 'ł' && c != 'ń' && c != 'ó' && c != 'ś'
    &&& c != 'ź' && c != 'ż'
    &&& !('\u{0300}' as int <= c as int <= '\u{036f}' as int)
}

proof fn lemma_plain_letters(text: Seq<char>)
    ensures
        forall|i: int| 0 <= i < plain_letters(text).len() ==> is_plain(
            #[trigger] plain_letters(text)[i],
        ),
    decreases text.len(),
{
    if text.len() > 0 {
        let before = plain_letters(text.drop_last());
        lemma_plain_letters(text.drop_last());
        assert forall|i: int| 0 <= i < plain_letters(text).len() implies is_plain(
            #[trigger] plain_letters(text)[i],
        ) by {
            if i < before.len() {
                assert(plain_letters(text)[i] == before[i]);
            } else {
                assert(plain_letter(text.last()) == Some(plain_letters(text)[i]));
            }
        }
    }
}

/// No Polish letter keeps its mark in a search form.
pub proof fn law_search_text_is_plain(text: Seq<char>)
    ensures
        forall|i: int| 0 <= i < search_text(text).len() ==> is_plain(
            #[trigger] search_text(text)[i],
        ),
    decreases text.len(),
{
    if text.len() > 0 {
        let before = search_text(text.drop_last());
        let next = plain_letters(char_lowercase(text.last()));
        law_search_text_is_plain(text.drop_last());
        lemma_plain_letters(char_lowercase(text.last()));
        assert forall|i: int| 0 <= i < search_text(text).len() implies is_plain(
            #[trigger] search_text(text)[i],
        ) by {
            if i < before.len() {
                assert(search_text(text)[i] == before[i]);
            } else {
                assert(search_text(text)[i] == next[i - before.len()]);
            }
        }
    }
}

/// Whether each character of a text is its own lower case.
pub open spec fn is_lowered(text: Seq<char>) -> bool {
    forall|i: int| 0 <= i < text.len() ==> char_lowercase(#[trigger] text[i]) == seq![text[i]]
}

proof fn lemma_settled(text: Seq<char>)
    requires
        is_lowered(text),
        forall|i: int| 0 <= i < text.len() ==> is_plain(#[trigger] text[i]),
    ensures
        search_text(text) == text,
    decreases text.len(),
{
    if text.len() > 0 {
        let init = text.drop_last();
        assert forall|i: int| 0 <= i < init.len() implies char_lowercase(#[trigger] init[i])
            == seq![init[i]] && is_plain(init[i]) by {
            assert(text[i] == init[i]);
        }
        lemma_settled(init);
        let c = text[text.len() - 1];
        assert(is_plain(c));
        assert(seq![c].drop_last() =~= Seq::<char>::empty());
        assert(plain_letters(seq![c].drop_last()) =~= Seq::<char>::empty());
        assert(plain_letter(seq![c].last()) == Some(c));
        assert(plain_letters(seq![c]) =~= seq![c]);
    }
    assert(search_text(text) =~= text);
}

/// A search form is its own search form, wherever its characters are lower case already.
pub proof fn law_search_text_settles(text: Seq<char>)
    requires
        is_lowered(search_text(text)),
    ensures
        search_text(search_text(text)) == search_text(text),
{
    law_search_text_is_plain(text);
    lemma_settled(search_text(text));
}

/// The search form of an ASCII text holds no capital, and is its own search form.
pub proof fn law_ascii_search_text_settles(text: &str, once: String, again: &str, twice: String)
    requires
        all_ascii(text@),
        call_ensures(normalize_search_text, (text,), once),
        again@ == once@,
        call_ensures(normalize_search_text, (again,), twice),
    ensures
        twice@ == once@,
        forall|i: int|
            0 <= i < once@.len() ==> !('A' as int <= #[trigger] once@[i] as int <= 'Z' as int),
{
    assert forall|i: int| 0 <= i < once@.len() implies {
        &&& !('A' as int <= #[trigger] once@[i] as int <= 'Z' as int)
        &&& is_ascii_char(once@[i])
        &&& ascii_lower(once@[i]) == once@[i]
    } by {
        assert(is_ascii_char(text@[i]));
    }
    assert(twice@ =~= once@);
}

/// The characters at the start of a text that are digits, or that are not.
pub open spec fn leading_run(text: Seq<char>, digits: bool) -> Seq<char>
    decreases text.len(),
{
    if text.len() == 0 || is_digit(text[0]) != digits {
        Seq::empty()
    } else {
        seq![text[0]] + leading_run(text.drop_first(), digits)
    }
}

proof fn lemma_leading_run(text: Seq<char>, digits: bool, end: int)
    requires
        0 <= end <= text.len(),
        forall|i: int| 0 <= i < end ==> is_digit(#[trigger] text[i]) == digits,
        end == text.len() || is_digit(text[end]) != digits,
    ensures
        leading_run(text, digits) == text.take(end),
    decreases end,
{
    if end > 0 {
        lemma_leading_run(text.drop_first(), digits, end - 1);
        assert(text.take(end) =~= seq![text[0]] + text.drop_first().take(end - 1));
    } else {
        assert(text.take(0) =~= Seq::<char>::empty());
    }
}

pub proof fn lemma_run_is_prefix(text: Seq<char>, digits: bool)
    ensures
        leading_run(text, digits).len() <= text.len(),
        leading_run(text, digits) == text.take(leading_run(text, digits).len() as int),
        digits ==> all_digits(leading_run(text, digits)),
        text.len() > 0 && is_digit(text[0]) == digits ==> leading_run(text, digits).len() > 0,
        text.len() > 0 && is_digit(text[0]) != digits ==> leading_run(text, digits).len() == 0,
    decreases text.len(),
{
    if text.len() > 0 && is_digit(text[0]) == digits {
        let rest = text.drop_first();
        lemma_run_is_prefix(rest, digits);
        let run = leading_run(text, digits);
        let tail = leading_run(rest, digits);
        assert(run == seq![text[0]] + tail);
        assert forall|i: int| 0 <= i < run.len() implies run[i] == text[i] by {
            if i > 0 {
                assert(tail[i - 1] == rest.take(tail.len() as int)[i - 1]);
            }
        }
        assert(run =~= text.take(run.len() as int));
        if digits {
            assert forall|i: int| 0 <= i < run.len() implies is_digit(#[trigger] run[i]) by {
                if i > 0 {
                    assert(is_digit(tail[i - 1]));
                }
            }
        }
    } else {
        assert(leading_run(text, digits) =~= text.take(0));
    }
}

/// The order of two runs of digits: by value, then the one with fewer zeros in front.
pub open spec fn number_order(left: Seq<char>, right: Seq<char>) -> Order {
    int_order(digits_value(left) as int, digits_value(right) as int).chained(
        int_order(left.len() as int, right.len() as int),
    )
}

/// The natural order of two texts: run by run, digits as numbers and before letters.
pub open spec fn natural_order(left: Seq<char>, right: Seq<char>) -> Order
    decreases left.len() + right.len(),
{
    if left.len() == 0 || right.len() == 0 {
        int_order(left.len() as int, right.len() as int)
    } else {
        let digits = is_digit(left[0]) && is_digit(right[0]);
        let left_run = leading_run(left, digits);
        let right_run = leading_run(right, digits);
        let first = if digits {
            number_order(left_run, right_run)
        } else {
            text_order(left_run, right_run)
        };
        proof {
            lemma_run_is_prefix(left, digits);
            lemma_run_is_prefix(right, digits);
        }
        first.chained(
            natural_order(
                left.skip(left_run.len() as int),
                right.skip(right_run.len() as int),
            ),
        )
    }
}

spec fn power_of_ten(n: nat) -> nat
    decreases n,
{
    if n == 0 {
        1
    } else {
        10 * power_of_ten((n - 1) as nat)
    }
}

proof fn lemma_power_grows(m: nat, n: nat)
    requires
        m <= n,
    ensures
        0 < power_of_ten(m) <= power_of_ten(n),
    decreases n,
{
    if m < n {
        lemma_power_grows(m, (n - 1) as nat);
    } else if n > 0 {
        lemma_power_grows((m - 1) as nat, (n - 1) as nat);
    }
}

spec fn digit(c: char) -> nat {
    (c as int - '0' as int) as nat
}

/// The value of a digit sequence by its first digit.
proof fn lemma_value_by_first(digits: Seq<char>)
    requires
        digits.len() > 0,
        all_digits(digits),
    ensures
        digits_value(digits) == digit(digits[0]) * power_of_ten((digits.len() - 1) as nat)
            + digits_value(digits.drop_first()),
    decreases digits.len(),
{
    if digits.len() == 1 {
        assert(digits.drop_last() =~= Seq::<char>::empty());
        assert(digits.drop_first() =~= Seq::<char>::empty());
        assert(digits_value(Seq::<char>::empty()) == 0);
        assert(power_of_ten(0) == 1);
        let d = digit(digits[0]);
        assert(d * 1 == d) by (nonlinear_arith);
    } else {
        let init = digits.drop_last();
        lemma_value_by_first(init);
        assert(init.drop_first() =~= digits.drop_first().drop_last());
        let p = power_of_ten((init.len() - 1) as nat);
        let d = digit(digits[0]);
        assert((d * p) * 10 == d * (10 * p)) by (nonlinear_arith);
        assert(power_of_ten((digits.len() - 1) as nat) == 10 * p);
        let rest = digits.drop_first();
        assert(rest.last() == digits.last());
        assert(digits_value(rest) == digits_value(rest.drop_last()) * 10 + digit(digits.last()));
        assert(init[0] == digits[0]);
        assert(digits_value(init) == d * p + digits_value(rest.drop_last()));
        assert(digits_value(digits) == digits_value(init) * 10 + digit(digits.last()));
    }
}

proof fn lemma_value_bound(digits: Seq<char>)
    requires
        all_digits(digits),
    ensures
        digits_value(digits) < power_of_ten(digits.len()),
    decreases digits.len(),
{
    if digits.len() > 0 {
        lemma_value_bound(digits.drop_last());
        assert(is_digit(digits.last()));
    }
}

/// Digit sequences of one length are ordered as texts by their value.
proof fn lemma_same_length_order(left: Seq<char>, right: Seq<char>)
    requires
        left.len() == right.len(),
        all_digits(left),
        all_digits(right),
    ensures
        text_order(left, right) == int_order(
            digits_value(left) as int,
            digits_value(right) as int,
        ),
    decreases left.len(),
{
    if left.len() > 0 {
        let n = (left.len() - 1) as nat;
        let p = power_of_ten(n);
        lemma_value_by_first(left);
        lemma_value_by_first(right);
        assert(all_digits(left.drop_first()));
        assert(all_digits(right.drop_first()));
        lemma_same_length_order(left.drop_first(), right.drop_first());
        lemma_value_bound(left.drop_first());
        lemma_value_bound(right.drop_first());
        let l = digit(left[0]);
        let r = digit(right[0]);
        assert(is_digit(left[0]) && is_digit(right[0]));
        if l < r {
            assert(l * p + p <= r * p) by (nonlinear_arith)
                requires
                    l + 1 <= r,
            ;
        } else if r < l {
            assert(r * p + p <= l * p) by (nonlinear_arith)
                requires
                    r + 1 <= l,
            ;
        }
    } else {
        assert(left =~= right);
    }
}

/// A digit sequence without zeros in front, but for the last digit.
spec fn is_trimmed(digits: Seq<char>) -> bool {
    digits.len() > 0 && all_digits(digits) && (digits.len() == 1 || digits[0] != '0')
}

proof fn lemma_shorter_is_smaller(left: Seq<char>, right: Seq<char>)
    requires
        is_trimmed(left),
        is_trimmed(right),
        left.len() < right.len(),
    ensures
        digits_value(left) < digits_value(right),
{
    lemma_value_bound(left);
    lemma_value_by_first(right);
    let n = (right.len() - 1) as nat;
    lemma_power_grows(left.len(), n);
    let d = digit(right[0]);
    let p = power_of_ten(n);
    assert(is_digit(right[0]));
    assert(d * p >= p) by (nonlinear_arith)
        requires
            d >= 1,
    ;
}

proof fn lemma_zeros_add_nothing(digits: Seq<char>, n: int)
    requires
        0 <= n <= digits.len(),
        all_digits(digits),
        forall|i: int| 0 <= i < n ==> digits[i] == '0',
    ensures
        digits_value(digits.skip(n)) == digits_value(digits),
    decreases n,
{
    if n > 0 {
        lemma_value_by_first(digits);
        assert(digit(digits[0]) == 0);
        assert(0 * power_of_ten((digits.len() - 1) as nat) == 0) by (nonlinear_arith);
        assert(all_digits(digits.drop_first()));
        lemma_zeros_add_nothing(digits.drop_first(), n - 1);
        assert(digits.drop_first().skip(n - 1) =~= digits.skip(n));
    } else {
        assert(digits.skip(0) =~= digits);
    }
}

/// The position of the first digit that counts.
fn trim_number_zeros(digits: &Vec<char>) -> (r: usize)
    requires
        digits.len() > 0,
        all_digits(digits@),
    ensures
        r < digits.len(),
        is_trimmed(digits@.skip(r as int)),
        digits_value(digits@.skip(r as int)) == digits_value(digits@),
{
    let mut first: usize = 0;
    while first < digits.len() - 1 && digits[first] == '0'
        invariant
            digits.len() > 0,
            first < digits.len(),
            forall|i: int| 0 <= i < first ==> digits@[i] == '0',
        decreases digits.len() - first,
    {
        first = first + 1;
    }
    proof {
        lemma_zeros_add_nothing(digits@, first as int);
        let rest = digits@.skip(first as int);
        assert forall|i: int| 0 <= i < rest.len() implies is_digit(#[trigger] rest[i]) by {
            assert(is_digit(digits@[first + i]));
        }
    }
    first
}

/// Compares two runs of digits of any length by value.
fn compare_digit_runs(left: &Vec<char>, right: &Vec<char>) -> (r: Order)
    requires
        left.len() > 0,
        right.len() > 0,
        all_digits(left@),
        all_digits(right@),
    ensures
        r == number_order(left@, right@),
{
    let left_from: usize = trim_number_zeros(left);
    let right_from: usize = trim_number_zeros(right);
    let left_trimmed: Vec<char> = copy_range(left, left_from, left.len());
    let right_trimmed: Vec<char> = copy_range(right, right_from, right.len());
    assert(left_trimmed@ =~= left@.skip(left_from as int));
    assert(right_trimmed@ =~= right@.skip(right_from as int));
    if left_trimmed.len() < right_trimmed.len() {
        proof {
            lemma_shorter_is_smaller(left_trimmed@, right_trimmed@);
        }
        return Order::Less;
    }
    if left_trimmed.len() > right_trimmed.len() {
        proof {
            lemma_shorter_is_smaller(right_trimmed@, left_trimmed@);
        }
        return Order::Greater;
    }
    proof {
        lemma_same_length_order(left_trimmed@, right_trimmed@);
    }
    let by_value: Order = compare_chars(&left_trimmed, &right_trimmed);
    match by_value {
        Order::Equal => compare_usize(left.len(), right.len()),
        _ => by_value,
    }
}

/// Where the run of digits, or of other characters, ends that begins at `start`.
fn run_end(text: &[char], start: usize, digits: bool) -> (r: usize)
    requires
        start <= text.len(),
    ensures
        start <= r <= text.len(),
        leading_run(text@.skip(start as int), digits) == text@.subrange(start as int, r as int),
{
    let mut end: usize = start;
    while end < text.len() && is_ascii_digit(text[end]) == digits
        invariant
            start <= end <= text.len(),
            forall|i: int| start <= i < end ==> is_digit(#[trigger] text@[i]) == digits,
        decreases text.len() - end,
    {
        end = end + 1;
    }
    proof {
        let rest = text@.skip(start as int);
        lemma_leading_run(rest, digits, end - start);
        assert(rest.take(end - start) =~= text@.subrange(start as int, end as int));
    }
    end
}

/// Compares two texts, given as their characters, in natural order.
pub fn compare_natural(left: &[char], right: &[char]) -> (r: Order)
    ensures
        r == natural_order(left@, right@),
{
    let mut at: usize = 0;
    assert(left@.skip(0) =~= left@);
    assert(right@.skip(0) =~= right@);
    while at < left.len() && at < right.len()
        invariant
            at <= left.len(),
            at <= right.len(),
            natural_order(left@, right@) == natural_order(
                left@.skip(at as int),
                right@.skip(at as int),
            ),
        decreases left.len() - at,
    {
        let ghost l = left@.skip(at as int);
        let ghost r = right@.skip(at as int);
        assert(l[0] == left@[at as int] && r[0] == right@[at as int]);
        let digits: bool = is_ascii_digit(left[at]) && is_ascii_digit(right[at]);
        let left_end: usize = run_end(left, at, digits);
        let right_end: usize = run_end(right, at, digits);
        let left_run: Vec<char> = copy_range(left, at, left_end);
        let right_run: Vec<char> = copy_range(right, at, right_end);
        proof {
            lemma_run_is_prefix(l, digits);
            lemma_run_is_prefix(r, digits);
        }
        let first: Order = if digits {
            compare_digit_runs(&left_run, &right_run)
        } else {
            compare_chars(&left_run, &right_run)
        };
        match first {
            Order::Equal => {},
            _ => {
                return first;
            },
        }
        proof {
            if !digits {
                lemma_text_order_equal(left_run@, right_run@);
            }
            assert(left_end == right_end);
            assert(l.skip(left_run.len() as int) =~= left@.skip(left_end as int));
            assert(r.skip(right_run.len() as int) =~= right@.skip(right_end as int));
        }
        at = left_end;
    }
    compare_usize(left.len(), right.len())
}

/// The order of two names: natural in their search form, then by their characters.
pub open spec fn name_order(left: Seq<char>, right: Seq<char>) -> Order {
    natural_order(search_text(left), search_text(right)).chained(text_order(left, right))
}

/// Compares two names.
pub fn compare_names(left: &[char], right: &[char]) -> (r: Order)
    ensures
        r == name_order(left@, right@),
{
    let first: Order = compare_natural(&search_chars(left), &search_chars(right));
    match first {
        Order::Equal => compare_chars(left, right),
        _ => first,
    }
}

/// The outcome of a comparison as the standard library puts it.
pub open spec fn standard(order: Order) -> Ordering {
    match order {
        Order::Less => Ordering::Less,
        Order::Equal => Ordering::Equal,
        Order::Greater => Ordering::Greater,
    }
}

/// Compares two names so that `Skan 9` comes before `Skan 10`.
pub fn natural_cmp(left: &str, right: &str) -> (r: Ordering)
    ensures
        r == standard(name_order(left@, right@)),
{
    match compare_names(&chars_of(left), &chars_of(right)) {
        Order::Less => Ordering::Less,
        Order::Equal => Ordering::Equal,
        Order::Greater => Ordering::Greater,
    }
}

proof fn lemma_same_value_same_digits(left: Seq<char>, right: Seq<char>)
    requires
        left.len() == right.len(),
        all_digits(left),
        all_digits(right),
        digits_value(left) == digits_value(right),
    ensures
        left == right,
{
    lemma_same_length_order(left, right);
    lemma_text_order_equal(left, right);
}

/// Two texts tie in natural order only where they are the same.
pub proof fn law_natural_order_equal(left: Seq<char>, right: Seq<char>)
    ensures
        natural_order(left, right) == Order::Equal <==> left == right,
    decreases left.len() + right.len(),
{
    if left.len() == 0 || right.len() == 0 {
        if left.len() == right.len() {
            assert(left =~= right);
        }
    } else {
        let digits = is_digit(left[0]) && is_digit(right[0]);
        let left_run = leading_run(left, digits);
        let right_run = leading_run(right, digits);
        lemma_run_is_prefix(left, digits);
        lemma_run_is_prefix(right, digits);
        let left_rest = left.skip(left_run.len() as int);
        let right_rest = right.skip(right_run.len() as int);
        law_natural_order_equal(left_rest, right_rest);
        lemma_text_order_equal(left_run, right_run);
        if digits && number_order(left_run, right_run) == Order::Equal {
            lemma_same_value_same_digits(left_run, right_run);
        }
        if left_run == right_run && left_rest == right_rest {
            assert(left =~= left_run + left_rest);
            assert(right =~= right_run + right_rest);
        }
    }
}

/// Comparing two texts the other way round gives the mirrored outcome.
pub proof fn law_natural_order_mirror(left: Seq<char>, right: Seq<char>)
    ensures
        natural_order(right, left) == natural_order(left, right).mirrored(),
    decreases left.len() + right.len(),
{
    if left.len() > 0 && right.len() > 0 {
        let digits = is_digit(left[0]) && is_digit(right[0]);
        let left_run = leading_run(left, digits);
        let right_run = leading_run(right, digits);
        lemma_run_is_prefix(left, digits);
        lemma_run_is_prefix(right, digits);
        law_natural_order_mirror(
            left.skip(left_run.len() as int),
            right.skip(right_run.len() as int),
        );
        lemma_text_order_mirror(left_run, right_run);
    }
}

/// The natural order is transitive, and a tie at the ends means ties all along.
pub proof fn law_natural_order_transitive(a: Seq<char>, b: Seq<char>, c: Seq<char>)
    requires
        natural_order(a, b) != Order::Greater,
        natural_order(b, c) != Order::Greater,
    ensures
        natural_order(a, c) != Order::Greater,
        natural_order(a, c) == Order::Equal ==> natural_order(a, b) == Order::Equal && natural_order(
            b,
            c,
        ) == Order::Equal,
    decreases a.len() + b.len() + c.len(),
{
    if a.len() > 0 && b.len() > 0 && c.len() > 0 {
        lemma_run_is_prefix(a, true);
        lemma_run_is_prefix(a, false);
        lemma_run_is_prefix(b, true);
        lemma_run_is_prefix(b, false);
        lemma_run_is_prefix(c, true);
        lemma_run_is_prefix(c, false);
        let digits = is_digit(a[0]);
        if is_digit(b[0]) == digits && is_digit(c[0]) == digits {
            let a_run = leading_run(a, digits);
            let b_run = leading_run(b, digits);
            let c_run = leading_run(c, digits);
            lemma_text_order_equal(a_run, b_run);
            lemma_text_order_equal(b_run, c_run);
            lemma_text_order_equal(a_run, c_run);
            if !digits {
                lemma_text_order_transitive(a_run, b_run, c_run);
            }
            let ab = if digits { number_order(a_run, b_run) } else { text_order(a_run, b_run) };
            let bc = if digits { number_order(b_run, c_run) } else { text_order(b_run, c_run) };
            if ab == Order::Equal && bc == Order::Equal {
                law_natural_order_transitive(
                    a.skip(a_run.len() as int),
                    b.skip(b_run.len() as int),
                    c.skip(c_run.len() as int),
                );
            }
        }
    }
}

pub proof fn lemma_natural_order_consistent(a: Seq<char>, b: Seq<char>, c: Seq<char>)
    ensures
        consistent(natural_order(a, b), natural_order(b, c), natural_order(a, c)),
{
    law_natural_order_mirror(a, b);
    law_natural_order_mirror(b, c);
    law_natural_order_mirror(a, c);
    law_natural_order_equal(a, b);
    law_natural_order_equal(b, c);
    if natural_order(a, b) != Order::Greater && natural_order(b, c) != Order::Greater {
        law_natural_order_transitive(a, b, c);
    }
    if natural_order(a, b) != Order::Less && natural_order(b, c) != Order::Less {
        law_natural_order_transitive(c, b, a);
    }
}

/// The order of names is total: it is mirrored when the names change places,
/// ties only a name with itself, and is transitive.
pub proof fn law_name_order_is_total(a: Seq<char>, b: Seq<char>, c: Seq<char>)
    ensures
        name_order(b, a) == name_order(a, b).mirrored(),
        name_order(a, b) == Order::Equal <==> a == b,
        name_order(a, b) != Order::Greater && name_order(b, c) != Order::Greater ==> name_order(a, c)
            != Order::Greater,
{
    law_natural_order_mirror(search_text(a), search_text(b));
    lemma_text_order_mirror(a, b);
    law_natural_order_equal(search_text(a), search_text(b));
    lemma_text_order_equal(a, b);
    lemma_natural_order_consistent(search_text(a), search_text(b), search_text(c));
    crate::order::lemma_text_order_consistent(a, b, c);
}

/// The words of a text: what stands between white space.
pub open spec fn words(text: Seq<char>) -> Seq<Seq<char>>
    decreases text.len(),
{
    let rest = trimmed_start(text);
    if rest.len() == 0 {
        Seq::empty()
    } else {
        proof {
            lemma_trimmed_start(text);
            lemma_word_length(rest);
        }
        let word = first_word(rest);
        seq![word] + words(rest.skip(word.len() as int))
    }
}

/// The characters of a text up to its first white space.
pub open spec fn first_word(text: Seq<char>) -> Seq<char>
    decreases text.len(),
{
    if text.len() == 0 || white_space(text[0]) {
        Seq::empty()
    } else {
        seq![text[0]] + first_word(text.drop_first())
    }
}

pub proof fn lemma_trimmed_start(text: Seq<char>)
    ensures
        trimmed_start(text).len() <= text.len(),
        trimmed_start(text).len() > 0 ==> !white_space(trimmed_start(text)[0]),
    decreases text.len(),
{
    if text.len() > 0 && white_space(text[0]) {
        lemma_trimmed_start(text.drop_first());
    }
}

pub proof fn lemma_word_length(text: Seq<char>)
    ensures
        first_word(text).len() <= text.len(),
        text.len() > 0 && !white_space(text[0]) ==> first_word(text).len() > 0,
    decreases text.len(),
{
    if text.len() > 0 && !white_space(text[0]) {
        lemma_word_length(text.drop_first());
    }
}

proof fn lemma_first_word(text: Seq<char>, end: int)
    requires
        0 <= end <= text.len(),
        forall|i: int| 0 <= i < end ==> !white_space(#[trigger] text[i]),
        end == text.len() || white_space(text[end]),
    ensures
        first_word(text) == text.take(end),
    decreases end,
{
    if end > 0 {
        lemma_first_word(text.drop_first(), end - 1);
        assert(text.take(end) =~= seq![text[0]] + text.drop_first().take(end - 1));
    } else {
        assert(text.take(0) =~= Seq::<char>::empty());
    }
}

/// The characters of each word in a list.
pub open spec fn char_lists(list: Seq<Vec<char>>) -> Seq<Seq<char>> {
    list.map_values(|word: Vec<char>| word@)
}

/// Splits a text into its words.
pub fn split_words(text: &[char]) -> (r: Vec<Vec<char>>)
    ensures
        char_lists(r@) == words(text@),
        spaces_ascii(text@),
{
    let mut result: Vec<Vec<char>> = Vec::new();
    let mut at: usize = 0;
    assert(text@.skip(0) =~= text@);
    assert(char_lists(result@) + words(text@) =~= words(text@));
    while at < text.len()
        invariant
            at <= text.len(),
            char_lists(result@) + words(text@.skip(at as int)) == words(text@),
            spaces_ascii(text@.take(at as int)),
        decreases text.len() - at,
    {
        let ghost from = text@.skip(at as int);
        assert(from.drop_first() =~= text@.skip(at + 1));
        let c: char = text[at];
        if is_white_space(c) {
            assert(trimmed_start(from) == trimmed_start(from.drop_first()));
            at = at + 1;
        } else {
            let mut end: usize = at;
            while end < text.len() && !is_white_space(text[end])
                invariant
                    at <= end <= text.len(),
                    forall|i: int| at <= i < end ==> !white_space(#[trigger] text@[i]),
                    spaces_ascii(text@.take(end as int)),
                decreases text.len() - end,
            {
                end = end + 1;
            }
            let word: Vec<char> = copy_range(text, at, end);
            proof {
                lemma_first_word(from, end - at);
                assert(from.take(end - at) =~= word@);
                assert(from.skip(end - at) =~= text@.skip(end as int));
                assert(words(from) == seq![word@] + words(text@.skip(end as int)));
                assert(char_lists(result@.push(word)) =~= char_lists(result@).push(word@));
                assert(char_lists(result@) + (seq![word@] + words(text@.skip(end as int)))
                    =~= char_lists(result@).push(word@) + words(text@.skip(end as int)));
                assert(end > at);
            }
            result.push(word);
            at = end;
        }
    }
    assert(text@.take(at as int) =~= text@);
    assert(text@.skip(at as int) =~= Seq::<char>::empty());
    assert(words(Seq::<char>::empty()) =~= Seq::<Seq<char>>::empty());
    assert(char_lists(result@) + Seq::<Seq<char>>::empty() =~= char_lists(result@));
    result
}

} // verus!
