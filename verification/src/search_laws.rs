//! What sorting and searching the library keep.

use vstd::prelude::*;
use crate::library::{
    found_pdfs, is_sorted_from, law_direction_flips_primary_only, lemma_pdf_order_mirror,
    pdf_sorts_before, primary_order, rearranged, scope_model, search_and_sort, search_finds,
    sort_key, sorting_places, LibrarySnapshot, SortMode,
};
use crate::natural::{
    first_word, is_lowered, law_search_text_joins, law_search_text_settles, lemma_word_length,
    plain_letter, plain_letters, search_text, words,
};
use crate::order::{lemma_text_order_equal, Order};
use crate::paths::{DocPath, PathModel};
use crate::storage::{pdf_models, PdfInfo, PdfModel};
use crate::text::{char_lowercase, trimmed_start, white_space};

verus! {

/// The documents at some places of a list.
spec fn at_places(pdfs: Seq<PdfModel>, places: Seq<int>) -> Seq<PdfModel> {
    places.map_values(|i: int| pdfs[i])
}

/// Whether places stand in the order of a relation.
spec fn is_ranked(places: Seq<int>, before: spec_fn(int, int) -> bool) -> bool {
    forall|k: int, l: int|
        0 <= k < l < places.len() ==> before(#[trigger] places[k], #[trigger] places[l])
}

/// Whether places are those of a list at which something holds.
spec fn are_places_of(
    places: Seq<int>,
    pdfs: Seq<PdfModel>,
    keep: spec_fn(PdfModel) -> bool,
) -> bool {
    forall|i: int| #[trigger] places.contains(i) <==> 0 <= i < pdfs.len() && keep(pdfs[i])
}

/// The relation by which the places of a sorted list stand.
spec fn ranking(pdfs: Seq<PdfModel>, mode: SortMode, ascending: bool) -> spec_fn(int, int) -> bool {
    |i: int, j: int| pdf_sorts_before(pdfs, mode, ascending, i, j)
}

pub proof fn lemma_ranking_asymmetric(
    pdfs: Seq<PdfModel>,
    mode: SortMode,
    ascending: bool,
    i: int,
    j: int,
)
    requires
        pdf_sorts_before(pdfs, mode, ascending, i, j),
    ensures
        !pdf_sorts_before(pdfs, mode, ascending, j, i),
{
    lemma_pdf_order_mirror(mode, ascending, pdfs[i], pdfs[j]);
}

/// There is one way only to rank given places.
proof fn lemma_one_ranking(left: Seq<int>, right: Seq<int>, before: spec_fn(int, int) -> bool)
    requires
        is_ranked(left, before),
        is_ranked(right, before),
        forall|i: int, j: int| #[trigger] before(i, j) ==> !before(j, i),
        forall|i: int| #[trigger] left.contains(i) <==> right.contains(i),
    ensures
        left == right,
    decreases left.len(),
{
    if left.len() == 0 {
        if right.len() > 0 {
            assert(right.contains(right[0]));
            assert(left.contains(right[0]));
        }
        assert(left =~= right);
    } else {
        assert(left.contains(left[0]));
        assert(right.contains(left[0]));
        let at = choose|k: int| 0 <= k < right.len() && right[k] == left[0];
        assert(right.contains(right[0]));
        assert(left.contains(right[0]));
        let back = choose|k: int| 0 <= k < left.len() && left[k] == right[0];
        if at > 0 && back > 0 {
            assert(before(right[0], right[at]));
            assert(before(left[0], left[back]));
        }
        assert(left[0] == right[0]);
        let a = left.drop_first();
        let b = right.drop_first();
        assert forall|i: int| #[trigger] a.contains(i) <==> b.contains(i) by {
            if a.contains(i) {
                let k = choose|k: int| 0 <= k < a.len() && a[k] == i;
                assert(left[k + 1] == i);
                assert(before(left[0], left[k + 1]));
                assert(left.contains(i));
                let l = choose|l: int| 0 <= l < right.len() && right[l] == i;
                assert(l > 0);
                assert(b[l - 1] == i);
            }
            if b.contains(i) {
                let k = choose|k: int| 0 <= k < b.len() && b[k] == i;
                assert(right[k + 1] == i);
                assert(before(right[0], right[k + 1]));
                assert(right.contains(i));
                assert(left.contains(i));
                let l = choose|l: int| 0 <= l < left.len() && left[l] == i;
                assert(l > 0);
                assert(a[l - 1] == i);
            }
        }
        assert forall|k: int, l: int| 0 <= k < l < a.len() implies before(
            #[trigger] a[k],
            #[trigger] a[l],
        ) by {
            assert(before(left[k + 1], left[l + 1]));
        }
        assert forall|k: int, l: int| 0 <= k < l < b.len() implies before(
            #[trigger] b[k],
            #[trigger] b[l],
        ) by {
            assert(before(right[k + 1], right[l + 1]));
        }
        lemma_one_ranking(a, b, before);
        assert(left =~= seq![left[0]] + a);
        assert(right =~= seq![right[0]] + b);
    }
}

/// What is left of ranked places is ranked.
proof fn lemma_filter_ranked(
    places: Seq<int>,
    keep: spec_fn(int) -> bool,
    before: spec_fn(int, int) -> bool,
)
    requires
        is_ranked(places, before),
    ensures
        is_ranked(places.filter(keep), before),
        forall|i: int| #[trigger]
            places.filter(keep).contains(i) <==> places.contains(i) && keep(i),
    decreases places.len(),
{
    reveal(Seq::filter);
    if places.len() > 0 {
        let init = places.drop_last();
        let last = places.last();
        assert forall|k: int, l: int| 0 <= k < l < init.len() implies before(
            #[trigger] init[k],
            #[trigger] init[l],
        ) by {
            assert(before(places[k], places[l]));
        }
        lemma_filter_ranked(init, keep, before);
        let kept = init.filter(keep);
        let all = places.filter(keep);
        assert forall|i: int| #[trigger] init.contains(i) implies before(i, last)
            && places.contains(i) by {
            let k = choose|k: int| 0 <= k < init.len() && init[k] == i;
            assert(before(places[k], places[places.len() - 1]));
            assert(places[k] == i);
        }
        assert forall|k: int, l: int| 0 <= k < l < all.len() implies before(
            #[trigger] all[k],
            #[trigger] all[l],
        ) by {
            if l < kept.len() {
                assert(before(kept[k], kept[l]));
            } else {
                assert(kept.contains(kept[k]));
                assert(init.contains(kept[k]));
            }
        }
        assert forall|i: int| #[trigger] all.contains(i) <==> places.contains(i) && keep(i) by {
            if all.contains(i) {
                let k = choose|k: int| 0 <= k < all.len() && all[k] == i;
                if k < kept.len() {
                    assert(kept[k] == i);
                    assert(kept.contains(i));
                } else {
                    assert(places[places.len() - 1] == i);
                }
            }
            if places.contains(i) && keep(i) {
                let k = choose|k: int| 0 <= k < places.len() && places[k] == i;
                if k < init.len() {
                    assert(init[k] == i);
                    assert(kept.contains(i));
                    let l = choose|l: int| 0 <= l < kept.len() && kept[l] == i;
                    assert(all[l] == i);
                } else {
                    assert(all[kept.len() as int] == i);
                }
            }
        }
    }
}

/// Picking out documents is picking out their places.
proof fn lemma_filter_places(
    pdfs: Seq<PdfModel>,
    places: Seq<int>,
    keep: spec_fn(PdfModel) -> bool,
)
    ensures
        at_places(pdfs, places).filter(keep) == at_places(
            pdfs,
            places.filter(|i: int| keep(pdfs[i])),
        ),
    decreases places.len(),
{
    reveal(Seq::filter);
    let chosen = |i: int| keep(pdfs[i]);
    if places.len() > 0 {
        let init = places.drop_last();
        lemma_filter_places(pdfs, init, keep);
        assert(at_places(pdfs, places).drop_last() =~= at_places(pdfs, init));
        assert(at_places(pdfs, places).last() == pdfs[places.last()]);
        assert(at_places(pdfs, init.filter(chosen).push(places.last())) =~= at_places(
            pdfs,
            init.filter(chosen),
        ).push(pdfs[places.last()]));
    }
    assert(at_places(pdfs, places).filter(keep) =~= at_places(pdfs, places.filter(chosen)));
}

/// The places at which something holds, in their order.
proof fn lemma_kept_places(pdfs: Seq<PdfModel>, keep: spec_fn(PdfModel) -> bool) -> (places: Seq<
    int,
>)
    ensures
        pdfs.filter(keep) == at_places(pdfs, places),
        is_ranked(places, |i: int, j: int| i < j),
        are_places_of(places, pdfs, keep),
    decreases pdfs.len(),
{
    reveal(Seq::filter);
    let rising = |i: int, j: int| i < j;
    if pdfs.len() == 0 {
        let places = Seq::<int>::empty();
        assert(pdfs.filter(keep) =~= at_places(pdfs, places));
        places
    } else {
        let init = pdfs.drop_last();
        let before = lemma_kept_places(init, keep);
        assert forall|k: int| 0 <= k < before.len() implies 0 <= #[trigger] before[k]
            < init.len() by {
            assert(before.contains(before[k]));
        }
        assert(at_places(init, before) =~= at_places(pdfs, before));
        if keep(pdfs.last()) {
            let places = before.push(pdfs.len() - 1);
            assert(at_places(pdfs, places) =~= at_places(pdfs, before).push(pdfs.last()));
            assert forall|i: int| #[trigger]
                places.contains(i) <==> 0 <= i < pdfs.len() && keep(pdfs[i]) by {
                if places.contains(i) {
                    let k = choose|k: int| 0 <= k < places.len() && places[k] == i;
                    if k < before.len() {
                        assert(before[k] == i);
                        assert(before.contains(i));
                    }
                }
                if 0 <= i < pdfs.len() && keep(pdfs[i]) {
                    if i < init.len() {
                        assert(before.contains(i));
                        let k = choose|k: int| 0 <= k < before.len() && before[k] == i;
                        assert(places[k] == i);
                    } else {
                        assert(places[before.len() as int] == i);
                    }
                }
            }
            places
        } else {
            assert forall|i: int| #[trigger]
                before.contains(i) <==> 0 <= i < pdfs.len() && keep(pdfs[i]) by {
                if 0 <= i < pdfs.len() && keep(pdfs[i]) {
                    assert(i < init.len());
                }
            }
            before
        }
    }
}

pub open spec fn is_listed(places: Seq<usize>, i: int) -> bool {
    exists|k: int| 0 <= k < places.len() && #[trigger] places[k] == i
}

/// Places that are all different and all in a list as long as they are, are all of them.
pub proof fn lemma_places_cover(places: Seq<usize>, n: nat)
    requires
        places.len() == n,
        forall|k: int| 0 <= k < places.len() ==> (#[trigger] places[k]) < n,
        forall|k: int, l: int|
            0 <= k < l < places.len() ==> #[trigger] places[k] != #[trigger] places[l],
    ensures
        forall|i: int| 0 <= i < n ==> #[trigger] is_listed(places, i),
{
    let whole = places.map_values(|place: usize| place as int);
    assert(whole.no_duplicates());
    whole.unique_seq_to_set();
    let range = vstd::set_lib::set_int_range(0, n as int);
    vstd::set_lib::lemma_int_range(0, n as int);
    assert forall|i: int| #[trigger] whole.to_set().contains(i) implies range.contains(i) by {
        let k = choose|k: int| 0 <= k < whole.len() && whole[k] == i;
        assert(places[k] < n);
    }
    vstd::seq_lib::seq_to_set_is_finite(whole);
    vstd::set_lib::lemma_subset_equality(whole.to_set(), range);
    assert forall|i: int| 0 <= i < n implies #[trigger] is_listed(places, i) by {
        assert(range.contains(i));
        assert(whole.to_set().contains(i));
        assert(whole.contains(i));
        let k = choose|k: int| 0 <= k < whole.len() && whole[k] == i;
        assert(places[k] == i);
    }
}

/// A sorted list of what was kept goes through the places where it was kept, ranked.
proof fn lemma_sorted_places(
    pdfs: Seq<PdfModel>,
    keep: spec_fn(PdfModel) -> bool,
    after: Seq<PdfModel>,
    mode: SortMode,
    ascending: bool,
) -> (ranked: Seq<int>)
    requires
        is_sorted_from(pdfs.filter(keep), after, mode, ascending),
    ensures
        after == at_places(pdfs, ranked),
        is_ranked(ranked, ranking(pdfs, mode, ascending)),
        are_places_of(ranked, pdfs, keep),
{
    let found = pdfs.filter(keep);
    let kept = lemma_kept_places(pdfs, keep);
    let places = choose|places: Seq<usize>| #[trigger]
        sorting_places(found, mode, ascending, places) && after == rearranged(found, places);
    let ranked = places.map_values(|place: usize| kept[place as int]);
    assert(kept.len() == found.len());
    assert forall|k: int| 0 <= k < found.len() implies #[trigger] found[k] == pdfs[kept[k]] by {
        assert(at_places(pdfs, kept)[k] == pdfs[kept[k]]);
    }
    assert(after =~= at_places(pdfs, ranked));
    assert forall|k: int, l: int| 0 <= k < l < ranked.len() implies ranking(pdfs, mode, ascending)(
        #[trigger] ranked[k],
        #[trigger] ranked[l],
    ) by {
        let a = places[k] as int;
        let b = places[l] as int;
        assert(pdf_sorts_before(found, mode, ascending, a, b));
        assert(found[a] == pdfs[kept[a]] && found[b] == pdfs[kept[b]]);
        if a < b {
            assert((|i: int, j: int| i < j)(kept[a], kept[b]));
        }
    }
    assert forall|k: int, l: int| 0 <= k < l < places.len() implies #[trigger] places[k]
        != #[trigger] places[l] by {
        assert(pdf_sorts_before(found, mode, ascending, places[k] as int, places[l] as int));
        if places[k] == places[l] {
            lemma_ranking_asymmetric(
                found,
                mode,
                ascending,
                places[k] as int,
                places[l] as int,
            );
        }
    }
    lemma_places_cover(places, found.len());
    assert forall|i: int| #[trigger]
        ranked.contains(i) <==> 0 <= i < pdfs.len() && keep(pdfs[i]) by {
        if ranked.contains(i) {
            let k = choose|k: int| 0 <= k < ranked.len() && ranked[k] == i;
            assert(kept[places[k] as int] == i);
            assert(kept.contains(i));
        }
        if 0 <= i < pdfs.len() && keep(pdfs[i]) {
            assert(kept.contains(i));
            let a = choose|a: int| 0 <= a < kept.len() && kept[a] == i;
            assert(is_listed(places, a));
            let k = choose|k: int| 0 <= k < places.len() && #[trigger] places[k] == a;
            assert(ranked[k] == i);
        }
    }
    ranked
}

proof fn lemma_keep_all(pdfs: Seq<PdfModel>)
    ensures
        pdfs.filter(|pdf: PdfModel| true) == pdfs,
    decreases pdfs.len(),
{
    reveal(Seq::filter);
    if pdfs.len() > 0 {
        lemma_keep_all(pdfs.drop_last());
        assert(pdfs.drop_last().push(pdfs.last()) =~= pdfs);
    }
}

/// The rows of a list that have a document's value in the chosen column.
pub open spec fn rows_like(pdfs: Seq<PdfModel>, mode: SortMode, row: PdfModel) -> Seq<PdfModel> {
    pdfs.filter(
        |pdf: PdfModel| primary_order(mode, sort_key(pdf), sort_key(row)) == Order::Equal,
    )
}

proof fn lemma_like_rows(mode: SortMode, a: PdfModel, b: PdfModel, row: PdfModel)
    requires
        primary_order(mode, sort_key(a), sort_key(row)) == Order::Equal,
        primary_order(mode, sort_key(b), sort_key(row)) == Order::Equal,
    ensures
        primary_order(mode, sort_key(a), sort_key(b)) == Order::Equal,
{
    lemma_text_order_equal(a.name, row.name);
    lemma_text_order_equal(b.name, row.name);
    lemma_text_order_equal(a.folder_name, row.folder_name);
    lemma_text_order_equal(b.folder_name, row.folder_name);
}

/// Sorting the other way round never scrambles equal rows: those with one value in the
/// chosen column stand in the same sequence either way.
pub proof fn law_equal_rows_keep_their_sequence(
    pdfs: Seq<PdfModel>,
    rising: Seq<PdfModel>,
    falling: Seq<PdfModel>,
    mode: SortMode,
    row: PdfModel,
)
    requires
        is_sorted_from(pdfs, rising, mode, true),
        is_sorted_from(pdfs, falling, mode, false),
    ensures
        rows_like(rising, mode, row) == rows_like(falling, mode, row),
{
    let all = |pdf: PdfModel| true;
    let like = |pdf: PdfModel| primary_order(mode, sort_key(pdf), sort_key(row)) == Order::Equal;
    let chosen = |i: int| like(pdfs[i]);
    lemma_keep_all(pdfs);
    let up = lemma_sorted_places(pdfs, all, rising, mode, true);
    let down = lemma_sorted_places(pdfs, all, falling, mode, false);
    lemma_filter_places(pdfs, up, like);
    lemma_filter_places(pdfs, down, like);
    lemma_filter_ranked(up, chosen, ranking(pdfs, mode, true));
    lemma_filter_ranked(down, chosen, ranking(pdfs, mode, false));
    let rows = up.filter(chosen);
    let others = down.filter(chosen);
    assert forall|k: int, l: int| 0 <= k < l < others.len() implies ranking(pdfs, mode, true)(
        #[trigger] others[k],
        #[trigger] others[l],
    ) by {
        assert(ranking(pdfs, mode, false)(others[k], others[l]));
        assert(others.contains(others[k]));
        assert(others.contains(others[l]));
        lemma_like_rows(mode, pdfs[others[k]], pdfs[others[l]], row);
        law_direction_flips_primary_only(mode, pdfs[others[k]], pdfs[others[l]]);
    }
    assert forall|i: int, j: int| #[trigger] ranking(pdfs, mode, true)(i, j) implies !ranking(
        pdfs,
        mode,
        true,
    )(j, i) by {
        lemma_ranking_asymmetric(pdfs, mode, true, i, j);
    }
    assert forall|i: int| #[trigger] rows.contains(i) <==> others.contains(i) by {
        assert(up.contains(i) <==> down.contains(i));
    }
    lemma_one_ranking(rows, others, ranking(pdfs, mode, true));
}

/// The words of two texts with white space between them.
pub proof fn lemma_words_join(left: Seq<char>, space: char, right: Seq<char>)
    requires
        white_space(space),
    ensures
        words(left + seq![space] + right) == words(left) + words(right),
    decreases left.len(),
{
    let whole = left + seq![space] + right;
    if left.len() == 0 {
        assert(whole.drop_first() =~= right);
        assert(trimmed_start(whole) == trimmed_start(right));
        assert(words(whole) =~= words(right));
        assert(words(left) + words(right) =~= words(right));
    } else if white_space(left[0]) {
        let rest = left.drop_first();
        lemma_words_join(rest, space, right);
        assert(whole.drop_first() =~= rest + seq![space] + right);
        assert(trimmed_start(whole) == trimmed_start(rest + seq![space] + right));
        assert(trimmed_start(left) == trimmed_start(rest));
        assert(words(whole) =~= words(rest + seq![space] + right));
        assert(words(left) =~= words(rest));
    } else {
        let word = first_word(left);
        lemma_word_length(left);
        lemma_first_word_joins(left, seq![space] + right);
        assert(whole =~= left + (seq![space] + right));
        let rest = left.skip(word.len() as int);
        assert(whole.skip(word.len() as int) =~= rest + seq![space] + right);
        lemma_words_join(rest, space, right);
        assert(words(whole) == seq![word] + words(rest + seq![space] + right));
        assert(words(left) == seq![word] + words(rest));
        assert(words(whole) =~= words(left) + words(right));
    }
}

proof fn lemma_first_word_joins(left: Seq<char>, right: Seq<char>)
    requires
        right.len() > 0,
        white_space(right[0]),
    ensures
        first_word(left + right) == first_word(left),
    decreases left.len(),
{
    if left.len() == 0 {
        assert(left + right =~= right);
    } else if !white_space(left[0]) {
        lemma_first_word_joins(left.drop_first(), right);
        assert((left + right).drop_first() =~= left.drop_first() + right);
    }
}

proof fn lemma_more_words_find_less(
    pdf: PdfModel,
    query: Seq<char>,
    word: Seq<char>,
    scope: Option<PathModel>,
)
    requires
        char_lowercase(' ') == seq![' '],
        white_space(' '),
        search_finds(pdf, query + " "@ + word, scope),
    ensures
        search_finds(pdf, query, scope),
{
    reveal_strlit(" ");
    lemma_words_of_longer(query, word);
    let short = words(search_text(query));
    let long = words(search_text(query + " "@ + word));
    assert forall|i: int| 0 <= i < short.len() implies crate::text::contains_text(
        search_text(pdf.name + " "@ + pdf.folder_name),
        #[trigger] short[i],
    ) by {
        assert(long[i] == short[i]);
    }
}

/// The words of a query with another added.
proof fn lemma_words_of_longer(query: Seq<char>, word: Seq<char>)
    requires
        char_lowercase(' ') == seq![' '],
        white_space(' '),
    ensures
        words(search_text(query + " "@ + word)) == words(search_text(query)) + words(
            search_text(word),
        ),
        search_text(query + " "@ + word) == search_text(query) + seq![' '] + search_text(word),
{
    reveal_strlit(" ");
    assert(" "@ =~= seq![' ']);
    law_search_text_joins(query + " "@, word);
    law_search_text_joins(query, " "@);
    lemma_space_stays();
    lemma_words_join(search_text(query), ' ', search_text(word));
}

proof fn lemma_space_stays()
    requires
        char_lowercase(' ') == seq![' '],
    ensures
        search_text(seq![' ']) == seq![' '],
{
    let space = seq![' '];
    assert(space.drop_last() =~= Seq::<char>::empty());
    assert(search_text(space.drop_last()) =~= Seq::<char>::empty());
    assert(plain_letters(space.drop_last()) =~= Seq::<char>::empty());
    assert(plain_letter(' ') == Some(' '));
    assert(plain_letters(space) =~= space);
    assert(search_text(space) =~= space);
}

/// Another word narrows a search: what is found with it is what was found without it, less
/// the documents in which the word does not occur, in the same sequence.
pub proof fn law_more_words_narrow_the_search(
    snapshot: &LibrarySnapshot,
    query: &str,
    word: Seq<char>,
    longer: &str,
    mode: SortMode,
    ascending: bool,
    folder_scope: &Option<DocPath>,
    found: Vec<PdfInfo>,
    fewer: Vec<PdfInfo>,
)
    requires
        longer@ == query@ + " "@ + word,
        call_ensures(search_and_sort, (snapshot, query, mode, ascending, folder_scope), found),
        call_ensures(search_and_sort, (snapshot, longer, mode, ascending, folder_scope), fewer),
    ensures
        pdf_models(fewer@) == pdf_models(found@).filter(
            |pdf: PdfModel| search_finds(pdf, longer@, scope_model(*folder_scope)),
        ),
{
    let pdfs = pdf_models(snapshot.pdfs@);
    let scope = scope_model(*folder_scope);
    let short = |pdf: PdfModel| search_finds(pdf, query@, scope);
    let long = |pdf: PdfModel| search_finds(pdf, longer@, scope);
    let chosen = |i: int| long(pdfs[i]);
    reveal_strlit(" ");
    assert(longer@[query@.len() as int] == ' ');
    assert(char_lowercase(' ') == seq![' ']);
    assert(white_space(' ')) by {
        law_search_text_joins(query@ + " "@, word);
        law_search_text_joins(query@, " "@);
        assert(" "@ =~= seq![' ']);
        lemma_space_stays();
        assert(search_text(longer@)[search_text(query@).len() as int] == ' ');
    }
    let wide = lemma_sorted_places(pdfs, short, pdf_models(found@), mode, ascending);
    let narrow = lemma_sorted_places(pdfs, long, pdf_models(fewer@), mode, ascending);
    lemma_filter_places(pdfs, wide, long);
    lemma_filter_ranked(wide, chosen, ranking(pdfs, mode, ascending));
    let left = wide.filter(chosen);
    assert forall|i: int, j: int| #[trigger] ranking(pdfs, mode, ascending)(i, j) implies !ranking(
        pdfs,
        mode,
        ascending,
    )(j, i) by {
        lemma_ranking_asymmetric(pdfs, mode, ascending, i, j);
    }
    assert forall|i: int| #[trigger] left.contains(i) <==> narrow.contains(i) by {
        if narrow.contains(i) {
            lemma_more_words_find_less(pdfs[i], query@, word, scope);
            assert(wide.contains(i));
        }
    }
    lemma_one_ranking(left, narrow, ranking(pdfs, mode, ascending));
}

/// A search does not ask how its words are written: the search form of a query finds what
/// the query finds, wherever its characters are lower case already.
pub proof fn law_search_ignores_spelling(
    pdfs: Seq<PdfModel>,
    query: Seq<char>,
    folder_scope: Option<PathModel>,
)
    requires
        is_lowered(search_text(query)),
    ensures
        found_pdfs(pdfs, search_text(query), folder_scope) == found_pdfs(pdfs, query, folder_scope),
{
    law_search_text_settles(query);
    let typed = |pdf: PdfModel| search_finds(pdf, query, folder_scope);
    let settled = |pdf: PdfModel| search_finds(pdf, search_text(query), folder_scope);
    assert(typed =~= settled);
}

} // verus!
