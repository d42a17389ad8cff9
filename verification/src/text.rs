//! Text as sequences of characters: case folding, trimming, searching and
//! decimal numbers.

use vstd::prelude::*;

verus! {

broadcast use vstd::string::group_string_axioms;

/// The characters that `char::to_lowercase` yields for a character.
pub uninterp spec fn char_lowercase(c: char) -> Seq<char>;

/// The text that `str::to_lowercase` yields for a text.
pub uninterp spec fn text_lowercase(text: Seq<char>) -> Seq<char>;

/// Whether `char::is_whitespace` holds of a character.
pub uninterp spec fn white_space(c: char) -> bool;

/// Lower case of one ASCII character.
pub open spec fn ascii_lower(c: char) -> char {
    if 'A' as int <= c as int <= 'Z' as int {
        (c as int + 32) as char
    } else {
        c
    }
}

/// Upper case of one ASCII character; any other character is unchanged.
pub open spec fn ascii_upper(c: char) -> char {
    if 'a' as int <= c as int <= 'z' as int {
        (c as int - 32) as char
    } else {
        c
    }
}

pub open spec fn is_ascii_char(c: char) -> bool {
    (c as int) < 128
}

/// Calls `char::to_lowercase`, collecting what it yields. The result is named
/// by the character alone; of an ASCII character it is the one lower-case
/// ASCII character, as the Unicode data has it.
#[verifier::external_body]
pub(crate) fn lowercase_char(c: char) -> (r: Vec<char>)
    ensures
        r@ == char_lowercase(c),
        is_ascii_char(c) ==> r@ == seq![ascii_lower(c)],
{
    c.to_lowercase().collect()
}

/// Calls `str::to_lowercase`. The result is named by the text alone; of an
/// ASCII text it is the text with each character in ASCII lower case.
#[verifier::external_body]
pub(crate) fn lowercase_text(text: &str) -> (r: String)
    ensures
        r@ == text_lowercase(text@),
        text.is_ascii() ==> r@ == text@.map_values(|c: char| ascii_lower(c)),
{
    text.to_lowercase()
}

/// Calls `char::is_whitespace` (the Unicode property `White_Space`). Among the
/// ASCII characters these are the space and the controls from tab to carriage
/// return.
#[verifier::external_body]
pub(crate) fn is_white_space(c: char) -> (r: bool)
    ensures
        r == white_space(c),
        is_ascii_char(c) ==> r == (c == ' ' || 9 <= c as int <= 13),
{
    c.is_whitespace()
}

/// Collects characters into a `String` (`String::from_iter`): the text consists
/// of exactly these characters.
#[verifier::external_body]
pub(crate) fn text_of(chars: &[char]) -> (r: String)
    ensures
        r@ == chars@,
{
    String::from_iter(chars)
}

/// The characters of a text.
pub fn chars_of(text: &str) -> (r: Vec<char>)
    ensures
        r@ == text@,
{
    let mut result: Vec<char> = Vec::new();
    for c in it: text.chars()
        invariant
            it.seq() == text@,
            result@ == it.seq().take(it.index() as int),
    {
        result.push(c);
        assert(result@ =~= it.seq().take(it.index() as int + 1));
    }
    assert(text@.take(text@.len() as int) =~= text@);
    result
}

/// The number of a character in Unicode.
pub fn code_point(c: char) -> (r: u32)
    ensures
        r == c as int,
        r <= 0x10_ffff,
{
    c as u32
}

pub open spec fn is_digit(c: char) -> bool {
    '0' as int <= c as int <= '9' as int
}

pub fn is_ascii_digit(c: char) -> (r: bool)
    ensures
        r == is_digit(c),
{
    '0' <= c && c <= '9'
}

pub fn to_ascii_upper(c: char) -> (r: char)
    ensures
        r == ascii_upper(c),
{
    if 'a' <= c && c <= 'z' {
        let code: u32 = code_point(c) - 32;
        let lower: u8 = code as u8;
        lower as char
    } else {
        c
    }
}

/// A text without its leading white space.
pub open spec fn trimmed_start(text: Seq<char>) -> Seq<char>
    decreases text.len(),
{
    if text.len() > 0 && white_space(text[0]) {
        trimmed_start(text.drop_first())
    } else {
        text
    }
}

/// A text without its trailing white space.
pub open spec fn trimmed_end(text: Seq<char>) -> Seq<char>
    decreases text.len(),
{
    if text.len() > 0 && white_space(text.last()) {
        trimmed_end(text.drop_last())
    } else {
        text
    }
}

/// A text without leading and trailing white space.
pub open spec fn trimmed(text: Seq<char>) -> Seq<char> {
    trimmed_end(trimmed_start(text))
}

/// The part of a text from `start` to `end`.
pub fn copy_range(chars: &[char], start: usize, end: usize) -> (r: Vec<char>)
    requires
        start <= end <= chars.len(),
    ensures
        r@ == chars@.subrange(start as int, end as int),
{
    let mut result: Vec<char> = Vec::new();
    let mut i: usize = start;
    while i < end
        invariant
            start <= i <= end <= chars.len(),
            result@ == chars@.subrange(start as int, i as int),
        decreases end - i,
    {
        result.push(chars[i]);
        i = i + 1;
        assert(result@ =~= chars@.subrange(start as int, i as int));
    }
    result
}

/// Removes leading and trailing white space.
pub fn trim(chars: &[char]) -> (r: Vec<char>)
    ensures
        r@ == trimmed(chars@),
{
    let mut start: usize = 0;
    assert(chars@.skip(0) =~= chars@);
    while start < chars.len() && is_white_space(chars[start])
        invariant
            start <= chars.len(),
            trimmed_start(chars@) == trimmed_start(chars@.skip(start as int)),
        decreases chars.len() - start,
    {
        assert(chars@.skip(start as int).drop_first() =~= chars@.skip(start + 1));
        start = start + 1;
    }
    let ghost inner = chars@.skip(start as int);
    assert(trimmed_start(chars@) == inner);
    let mut end: usize = chars.len();
    assert(chars@.subrange(start as int, end as int) =~= inner);
    while end > start && is_white_space(chars[end - 1])
        invariant
            start <= end <= chars.len(),
            trimmed_end(inner) == trimmed_end(chars@.subrange(start as int, end as int)),
        decreases end,
    {
        assert(chars@.subrange(start as int, end as int).drop_last() =~= chars@.subrange(
            start as int,
            end - 1,
        ));
        end = end - 1;
    }
    assert(trimmed_end(inner) == chars@.subrange(start as int, end as int));
    copy_range(chars, start, end)
}

/// Whether two texts are equal but for the case of ASCII letters.
pub open spec fn equal_ignoring_ascii_case(left: Seq<char>, right: Seq<char>) -> bool {
    &&& left.len() == right.len()
    &&& forall|i: int|
        0 <= i < left.len() ==> ascii_upper(#[trigger] left[i]) == ascii_upper(right[i])
}

pub fn same_ignoring_ascii_case(left: &[char], right: &[char]) -> (r: bool)
    ensures
        r == equal_ignoring_ascii_case(left@, right@),
{
    if left.len() != right.len() {
        return false;
    }
    let mut i: usize = 0;
    while i < left.len()
        invariant
            left.len() == right.len(),
            i <= left.len(),
            forall|k: int|
                0 <= k < i ==> ascii_upper(#[trigger] left@[k]) == ascii_upper(right@[k]),
        decreases left.len() - i,
    {
        if to_ascii_upper(left[i]) != to_ascii_upper(right[i]) {
            assert(ascii_upper(left@[i as int]) != ascii_upper(right@[i as int]));
            return false;
        }
        i = i + 1;
    }
    true
}

/// Whether `needle` stands in `text` at position `at`.
pub open spec fn occurs_at<T>(text: Seq<T>, needle: Seq<T>, at: int) -> bool {
    0 <= at && at + needle.len() <= text.len() && text.subrange(at, at + needle.len()) == needle
}

/// Whether `needle` stands somewhere in `text`.
pub open spec fn contains_text<T>(text: Seq<T>, needle: Seq<T>) -> bool {
    exists|at: int| occurs_at(text, needle, at)
}

fn stands_at(text: &[char], needle: &[char], at: usize) -> (r: bool)
    requires
        at + needle.len() <= text.len(),
    ensures
        r == occurs_at(text@, needle@, at as int),
{
    let mut i: usize = 0;
    while i < needle.len()
        invariant
            at + needle.len() <= text.len(),
            i <= needle.len(),
            forall|k: int| 0 <= k < i ==> text@[at + k] == #[trigger] needle@[k],
        decreases needle.len() - i,
    {
        if text[at + i] != needle[i] {
            assert(text@.subrange(at as int, at + needle.len())[i as int] == text@[at + i]);
            return false;
        }
        i = i + 1;
    }
    assert(text@.subrange(at as int, at + needle.len()) =~= needle@);
    true
}

/// Whether a text contains another.
pub fn has_text(text: &[char], needle: &[char]) -> (r: bool)
    ensures
        r == contains_text(text@, needle@),
{
    if needle.len() > text.len() {
        return false;
    }
    let mut at: usize = 0;
    while at <= text.len() - needle.len()
        invariant
            needle.len() <= text.len(),
            at <= text.len() - needle.len() + 1,
            forall|k: int| 0 <= k < at ==> !occurs_at(text@, needle@, k),
        decreases text.len() - at,
    {
        if stands_at(text, needle, at) {
            return true;
        }
        if at == text.len() - needle.len() {
            return false;
        }
        at = at + 1;
    }
    false
}

pub open spec fn starts_with<T>(text: Seq<T>, prefix: Seq<T>) -> bool {
    prefix.len() <= text.len() && text.take(prefix.len() as int) == prefix
}

pub open spec fn ends_with<T>(text: Seq<T>, suffix: Seq<T>) -> bool {
    suffix.len() <= text.len() && text.skip(text.len() - suffix.len()) == suffix
}

/// Whether a text begins with another.
pub fn has_prefix(text: &[char], prefix: &[char]) -> (r: bool)
    ensures
        r == starts_with(text@, prefix@),
{
    if prefix.len() > text.len() {
        return false;
    }
    assert(text@.take(prefix.len() as int) =~= text@.subrange(0, 0 + prefix.len()));
    stands_at(text, prefix, 0)
}

/// Whether a text ends with another.
pub fn has_suffix(text: &[char], suffix: &[char]) -> (r: bool)
    ensures
        r == ends_with(text@, suffix@),
{
    if suffix.len() > text.len() {
        return false;
    }
    let at: usize = text.len() - suffix.len();
    assert(text@.skip(at as int) =~= text@.subrange(at as int, at + suffix.len()));
    stands_at(text, suffix, at)
}

/// Whether two texts have the same characters.
pub fn same_chars(left: &[char], right: &[char]) -> (r: bool)
    ensures
        r == (left@ == right@),
{
    if left.len() != right.len() {
        return false;
    }
    assert(left@.subrange(0, 0 + right.len()) =~= left@);
    stands_at(left, right, 0)
}

/// The digit of a number below ten.
pub open spec fn digit_char(n: nat) -> char {
    ('0' as int + n) as char
}

/// The decimal digits of a number, without leading zeros.
pub open spec fn decimal(n: nat) -> Seq<char>
    decreases n,
{
    if n < 10 {
        seq![digit_char(n)]
    } else {
        decimal(n / 10).push(digit_char(n % 10))
    }
}

fn digit_of(n: u64) -> (r: char)
    requires
        n < 10,
    ensures
        r == digit_char(n as nat),
{
    let code: u8 = 48 + (n as u8);
    code as char
}

/// The decimal digits of a number.
pub fn decimal_chars(n: u64) -> (r: Vec<char>)
    ensures
        r@ == decimal(n as nat),
    decreases n,
{
    if n < 10 {
        let mut single: Vec<char> = Vec::new();
        single.push(digit_of(n));
        single
    } else {
        let mut digits: Vec<char> = decimal_chars(n / 10);
        digits.push(digit_of(n % 10));
        digits
    }
}

/// The decimal digits of a number, as a text.
pub fn decimal_text(n: u64) -> (r: String)
    ensures
        r@ == decimal(n as nat),
{
    text_of(&decimal_chars(n))
}

/// The number that a sequence of digits writes in base ten.
pub open spec fn digits_value(digits: Seq<char>) -> nat
    decreases digits.len(),
{
    if digits.len() == 0 {
        0
    } else {
        digits_value(digits.drop_last()) * 10 + (digits.last() as int - '0' as int) as nat
    }
}

pub open spec fn all_digits(text: Seq<char>) -> bool {
    forall|i: int| 0 <= i < text.len() ==> is_digit(#[trigger] text[i])
}

/// What `str::parse::<u64>` accepts: digits, at least one, after an optional
/// plus sign, writing a number that fits.
pub open spec fn parsed_u64(text: Seq<char>) -> Option<u64> {
    let digits = if text.len() > 0 && text[0] == '+' {
        text.drop_first()
    } else {
        text
    };
    if digits.len() > 0 && all_digits(digits) && digits_value(digits) <= u64::MAX {
        Some(digits_value(digits) as u64)
    } else {
        None
    }
}

proof fn lemma_digits_value_grows(digits: Seq<char>, n: int)
    requires
        0 <= n <= digits.len(),
    ensures
        digits_value(digits.take(n)) <= digits_value(digits),
    decreases digits.len() - n,
{
    if n < digits.len() {
        lemma_digits_value_grows(digits, n + 1);
        assert(digits.take(n + 1).drop_last() =~= digits.take(n));
    } else {
        assert(digits.take(n) =~= digits);
    }
}

/// Reads a decimal number.
pub fn parse_u64(text: &[char]) -> (r: Option<u64>)
    ensures
        r == parsed_u64(text@),
{
    let start: usize = if text.len() > 0 && text[0] == '+' {
        1
    } else {
        0
    };
    let ghost digits = text@.skip(start as int);
    assert(digits =~= if text@.len() > 0 && text@[0] == '+' {
        text@.drop_first()
    } else {
        text@
    });
    if start == text.len() {
        return None;
    }
    let mut value: u64 = 0;
    let mut i: usize = start;
    while i < text.len()
        invariant
            start <= i <= text.len(),
            digits == text@.skip(start as int),
            digits.len() == text.len() - start,
            parsed_u64(text@) == if digits.len() > 0 && all_digits(digits) && digits_value(digits)
                <= u64::MAX {
                Some(digits_value(digits) as u64)
            } else {
                None
            },
            value == digits_value(digits.take(i - start)),
            forall|k: int| 0 <= k < i - start ==> is_digit(#[trigger] digits[k]),
        decreases text.len() - i,
    {
        let c: char = text[i];
        assert(c == digits[i - start]);
        if !is_ascii_digit(c) {
            return None;
        }
        assert(digits.take(i - start + 1).drop_last() =~= digits.take(i - start));
        assert(digits.take(i - start + 1).last() == c);
        let digit: u64 = (code_point(c) - 48) as u64;
        proof {
            lemma_digits_value_grows(digits, i - start + 1);
        }
        assert(digits_value(digits.take(i - start + 1)) == value * 10 + digit);
        let scaled: Option<u64> = value.checked_mul(10);
        match scaled {
            None => {
                return None;
            },
            Some(tens) => {
                match tens.checked_add(digit) {
                    None => {
                        return None;
                    },
                    Some(next) => {
                        value = next;
                    },
                }
            },
        }
        i = i + 1;
    }
    assert(digits.take(digits.len() as int) =~= digits);
    Some(value)
}

/// The digits of a number write that number.
pub proof fn lemma_decimal_value(n: nat)
    ensures
        digits_value(decimal(n)) == n,
        all_digits(decimal(n)),
        decimal(n).len() > 0,
    decreases n,
{
    if n < 10 {
        let digits = seq![digit_char(n)];
        assert(digits.drop_last() =~= Seq::<char>::empty());
        assert(digits_value(Seq::<char>::empty()) == 0);
        assert(decimal(n) == digits);
        assert(digits.last() == digit_char(n));
    } else {
        lemma_decimal_value(n / 10);
        let digits = decimal(n / 10).push(digit_char(n % 10));
        assert(digits.drop_last() =~= decimal(n / 10));
        assert(digits.last() == digit_char(n % 10));
        assert forall|i: int| 0 <= i < digits.len() implies is_digit(#[trigger] digits[i]) by {
            if i < digits.len() - 1 {
                assert(digits[i] == decimal(n / 10)[i]);
            }
        }
    }
}

/// Reading the digits of a number gives the number back.
pub proof fn law_parse_undoes_decimal(n: u64)
    ensures
        parsed_u64(decimal(n as nat)) == Some(n),
{
    lemma_decimal_value(n as nat);
    assert(is_digit(decimal(n as nat)[0]));
}

} // verus!
