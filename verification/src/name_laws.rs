//! What names, the words of a search and the lists of files mean to who reads them.

use vstd::prelude::*;
use crate::natural::{first_word, plain_letters, search_text, words};
use crate::order::{text_order, Order};
use crate::text::{
    char_lowercase, contains_text, decimal, lemma_decimal_value, occurs_at, trimmed, trimmed_end,
    trimmed_start, white_space,
};

verus! {

/// Whether a text is nothing but white space.
pub open spec fn is_blank(text: Seq<char>) -> bool {
    forall|i: int| 0 <= i < text.len() ==> white_space(#[trigger] text[i])
}

/// Whether a text holds no white space.
pub open spec fn is_solid(text: Seq<char>) -> bool {
    forall|i: int| 0 <= i < text.len() ==> !white_space(#[trigger] text[i])
}

/// Whether a text is `core` with nothing but white space on either side.
pub open spec fn is_core_of(text: Seq<char>, core: Seq<char>, before: int) -> bool {
    &&& 0 <= before
    &&& before + core.len() <= text.len()
    &&& core == text.subrange(before, before + core.len())
    &&& is_blank(text.take(before))
    &&& is_blank(text.skip(before + core.len()))
    &&& core.len() > 0 ==> !white_space(core[0]) && !white_space(core.last())
}

pub proof fn lemma_start_trimmed(text: Seq<char>) -> (before: int)
    ensures
        0 <= before <= text.len(),
        trimmed_start(text) == text.skip(before),
        is_blank(text.take(before)),
        before < text.len() ==> !white_space(text[before]),
    decreases text.len(),
{
    if text.len() > 0 && white_space(text[0]) {
        let before = lemma_start_trimmed(text.drop_first());
        assert(text.drop_first().skip(before) =~= text.skip(before + 1));
        assert forall|i: int| 0 <= i < before + 1 implies white_space(
            #[trigger] text.take(before + 1)[i],
        ) by {
            if i > 0 {
                assert(text.drop_first().take(before)[i - 1] == text[i]);
            }
        }
        before + 1
    } else {
        assert(text.skip(0) =~= text);
        0
    }
}

proof fn lemma_end_trimmed(text: Seq<char>) -> (end: int)
    ensures
        0 <= end <= text.len(),
        trimmed_end(text) == text.take(end),
        is_blank(text.skip(end)),
        end > 0 ==> !white_space(text[end - 1]),
    decreases text.len(),
{
    if text.len() > 0 && white_space(text.last()) {
        let end = lemma_end_trimmed(text.drop_last());
        assert(text.drop_last().take(end) =~= text.take(end));
        assert forall|i: int| 0 <= i < text.len() - end implies white_space(
            #[trigger] text.skip(end)[i],
        ) by {
            if i < text.len() - end - 1 {
                assert(text.drop_last().skip(end)[i] == text[end + i]);
            }
        }
        end
    } else {
        assert(text.take(text.len() as int) =~= text);
        text.len() as int
    }
}

/// Trimming takes away the white space on either side of a text, and nothing else.
pub proof fn law_trimming_leaves_the_core(text: Seq<char>)
    ensures
        exists|before: int| is_core_of(text, trimmed(text), before),
{
    let before = lemma_start_trimmed(text);
    let rest = trimmed_start(text);
    let end = lemma_end_trimmed(rest);
    let core = trimmed(text);
    assert(core =~= text.subrange(before, before + core.len()));
    assert forall|i: int| 0 <= i < text.len() - before - core.len() implies white_space(
        #[trigger] text.skip(before + core.len())[i],
    ) by {
        assert(rest.skip(end)[i] == text[before + core.len() + i]);
    }
    assert(is_core_of(text, core, before));
}

/// One text only is the core of another.
pub proof fn law_one_core_only(text: Seq<char>, core: Seq<char>, before: int)
    requires
        is_core_of(text, core, before),
    ensures
        trimmed(text) == core,
{
    law_trimming_leaves_the_core(text);
    let other = trimmed(text);
    let at = choose|at: int| is_core_of(text, other, at);
    if core.len() > 0 {
        if other.len() == 0 {
            if before < at {
                assert(text.take(at)[before] == core[0]);
            } else {
                assert(text.skip(at + other.len())[before - at] == core[0]);
            }
        } else {
            lemma_cores_agree(text, core, before, other, at);
        }
    } else if other.len() > 0 {
        if at < before {
            assert(text.take(before)[at] == other[0]);
        } else {
            assert(text.skip(before + core.len())[at - before] == other[0]);
        }
    } else {
        assert(core =~= other);
    }
}

proof fn lemma_cores_agree(text: Seq<char>, a: Seq<char>, i: int, b: Seq<char>, j: int)
    requires
        is_core_of(text, a, i),
        is_core_of(text, b, j),
        a.len() > 0,
        b.len() > 0,
    ensures
        a == b,
{
    if i < j {
        assert(text.take(j)[i] == a[0]);
    } else if j < i {
        assert(text.take(i)[j] == b[0]);
    }
    let a_end = i + a.len();
    let b_end = j + b.len();
    if a_end < b_end {
        assert(text.skip(a_end)[b_end - 1 - a_end] == b.last());
    } else if b_end < a_end {
        assert(text.skip(b_end)[a_end - 1 - b_end] == a.last());
    }
    assert(a =~= b);
}

/// A text holds another exactly where it is that text with something, or nothing, on either
/// side.
pub proof fn law_text_is_found_inside(text: Seq<char>, needle: Seq<char>)
    ensures
        contains_text(text, needle) <==> exists|before: Seq<char>, after: Seq<char>|
            text == #[trigger] (before + needle + after),
{
    if contains_text(text, needle) {
        let at = choose|at: int| occurs_at(text, needle, at);
        let before = text.take(at);
        let after = text.skip(at + needle.len());
        assert(text =~= before + needle + after);
    }
    if exists|before: Seq<char>, after: Seq<char>| text == #[trigger] (before + needle + after) {
        let (before, after) = choose|before: Seq<char>, after: Seq<char>|
            text == #[trigger] (before + needle + after);
        assert(text.subrange(before.len() as int, (before.len() + needle.len()) as int) =~= needle);
        assert(occurs_at(text, needle, before.len() as int));
    }
}

/// Whether a text comes before another: it goes on where they part, or it has the smaller
/// character there.
pub open spec fn comes_before(left: Seq<char>, right: Seq<char>, at: int) -> bool {
    &&& 0 <= at <= left.len()
    &&& at < right.len()
    &&& left.take(at) == right.take(at)
    &&& at < left.len() ==> (left[at] as int) < right[at] as int
}

/// Two texts are ordered by the first character in which they differ; one that ends there
/// comes first.
pub proof fn law_texts_go_by_the_first_difference(left: Seq<char>, right: Seq<char>, at: int)
    requires
        comes_before(left, right, at),
    ensures
        text_order(left, right) == Order::Less,
        text_order(right, left) == Order::Greater,
    decreases left.len(),
{
    if at > 0 {
        assert(left[0] == left.take(at)[0]);
        assert(right[0] == right.take(at)[0]);
        assert(left.drop_first().take(at - 1) =~= left.take(at).drop_first());
        assert(right.drop_first().take(at - 1) =~= right.take(at).drop_first());
        law_texts_go_by_the_first_difference(left.drop_first(), right.drop_first(), at - 1);
    }
}

/// A number is written with its own digits, the last one first by the rest that ten leaves,
/// and with no zero ahead.
pub proof fn law_number_is_written_by_its_digits(n: nat)
    ensures
        decimal(n).last() as int == 48 + n % 10,
        n >= 10 ==> decimal(n).drop_last() == decimal(n / 10),
        n < 10 ==> decimal(n).len() == 1,
        n > 0 ==> decimal(n)[0] != '0',
    decreases n,
{
    if n >= 10 {
        law_number_is_written_by_its_digits(n / 10);
        assert(decimal(n).drop_last() =~= decimal(n / 10));
        lemma_decimal_value(n / 10);
    }
}

/// The words of a text that holds no white space are the text itself; white space parts the
/// words before it from those behind it.
pub proof fn law_words_are_what_white_space_parts(
    left: Seq<char>,
    space: char,
    right: Seq<char>,
    word: Seq<char>,
)
    requires
        white_space(space),
        is_solid(word),
        word.len() > 0,
    ensures
        words(word) == seq![word],
        words(left + seq![space] + right) == words(left) + words(right),
        words(Seq::<char>::empty()) == Seq::<Seq<char>>::empty(),
{
    crate::search_laws::lemma_words_join(left, space, right);
    assert(!white_space(word[0]));
    assert(trimmed_start(word) == word);
    lemma_first_word_is_whole(word);
    assert(word.skip(word.len() as int) =~= Seq::<char>::empty());
    assert(words(Seq::<char>::empty()) =~= Seq::<Seq<char>>::empty());
    assert(words(word) =~= seq![word]);
}

proof fn lemma_first_word_is_whole(word: Seq<char>)
    requires
        is_solid(word),
    ensures
        first_word(word) == word,
    decreases word.len(),
{
    if word.len() > 0 {
        assert forall|i: int| 0 <= i < word.len() - 1 implies !white_space(
            #[trigger] word.drop_first()[i],
        ) by {
            assert(word.drop_first()[i] == word[i + 1]);
        }
        lemma_first_word_is_whole(word.drop_first());
        assert(first_word(word) =~= word);
    }
}

/// The letter that a letter of the Polish alphabet is looked up by.
pub open spec fn bare(c: char) -> char {
    match c {
        'ą' => 'a',
        'ć' => 'c',
        'ę' => 'e',
        'ł' => 'l',
        'ń' => 'n',
        'ó' => 'o',
        'ś' => 's',
        'ź' => 'z',
        'ż' => 'z',
        _ => c,
    }
}

/// A character is looked up in lower case and without its Polish mark; an accent that stands
/// on its own is passed over.
pub proof fn law_search_passes_over_marks(c: char, lower: char)
    requires
        char_lowercase(c) == seq![lower],
    ensures
        0x300 <= lower as int <= 0x36f ==> search_text(seq![c]) == Seq::<char>::empty(),
        !(0x300 <= lower as int <= 0x36f) ==> search_text(seq![c]) == seq![bare(lower)],
{
    assert(seq![c].drop_last() =~= Seq::<char>::empty());
    assert(search_text(Seq::<char>::empty()) =~= Seq::<char>::empty());
    assert(seq![lower].drop_last() =~= Seq::<char>::empty());
    assert(plain_letters(Seq::<char>::empty()) =~= Seq::<char>::empty());
    assert(search_text(seq![c]) =~= plain_letters(seq![lower]));
}

} // verus!
