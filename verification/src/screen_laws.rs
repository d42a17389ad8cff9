//! What the words on the screen, the documents shown there and the modes of the camera say.

use vstd::prelude::*;
use crate::camera::{
    are_ranked, first_of_each, has_size, mode_order, preferred_formats, usable_modes, CameraMode,
};
use crate::formatting::{ellipsize, format_relative_time_at, format_size};
use crate::messages::{polish_file_count, polish_page_count};
use crate::library::{found_pdfs, is_sorted_from, search_finds, LibrarySnapshot, SortMode};
use crate::library_view::{
    clicked_selection, first_of, pdf_at, pdf_at_from, pdfs_at, places, position_from,
    scan_destination, surviving_selection, ticked_selection, visible_documents_for_key,
    visible_selection, Click, LibrarySection, LibraryViewInput, SelectionModel, VisibleCacheKey,
};
use crate::natural::{search_text, words};
use crate::order::Order;
use crate::paths::{DocPath, PathModel};
use crate::pdf_numbers::{double_spacing, rounded_magnitude};
use crate::raster::half_even;
use crate::search_laws::{is_listed, lemma_places_cover};
use crate::sort_laws::{
    is_rearranged_by, law_sorted_list_goes_by_its_column, law_sorting_keeps_the_documents,
};
use crate::storage::{folder_models, pdf_models, FolderModel, PdfInfo, PdfModel};
use crate::text::{decimal, trimmed};

verus! {

/// A text that is not too long is shown whole; of a longer one the start is shown, and dots
/// behind it.
pub proof fn law_long_text_ends_in_dots(text: &str, max_chars: usize, r: String)
    requires
        call_ensures(ellipsize, (text, max_chars), r),
        max_chars > 0,
    ensures
        text@.len() <= max_chars ==> r@ == text@,
        text@.len() > max_chars ==> r@.len() == max_chars && r@.last() == '…' && r@.drop_last()
            == text@.take(max_chars - 1),
{
    if text@.len() > max_chars {
        assert(r@.drop_last() =~= text@.take(max_chars - 1));
    }
}

/// What is rounded is at most half a unit from the exact quotient.
proof fn lemma_nearest(n: nat, q: nat)
    requires
        q > 0,
    ensures
        -(q as int) <= 2 * (q * half_even(n, q)) - 2 * n <= q,
{
    let below = n / q;
    let rest = n % q;
    let r = half_even(n, q);
    vstd::arithmetic::div_mod::lemma_fundamental_div_mod(n as int, q as int);
    assert(-(q as int) <= 2 * (q * r) - 2 * n <= q) by (nonlinear_arith)
        requires
            n == q * below + rest,
            0 <= rest < q,
            (r == below && 2 * rest <= q) || (r == below + 1 && 2 * rest >= q),
    ;
}

/// Whether a size is shown as a whole number of units, the nearest one.
pub open spec fn is_shown_in(bytes: u64, shown: Seq<char>, unit: int, name: Seq<char>) -> bool {
    exists|n: nat|
        shown == #[trigger] (decimal(n) + name) && -unit <= 2 * (unit * n) - 2 * bytes <= unit
}

/// Whether a size is shown in units and tenths of them, the nearest tenth.
pub open spec fn is_shown_in_tenths(
    bytes: u64,
    shown: Seq<char>,
    unit: int,
    name: Seq<char>,
) -> bool {
    exists|n: nat, tenth: nat|
        shown == #[trigger] (decimal(n) + "."@ + decimal(tenth) + name) && tenth < 10 && -unit <= 2
            * (unit * (10 * n + tenth)) - 20 * bytes <= unit
}

/// A size is shown in bytes, in kilobytes of 1024 of them, in megabytes of 1024 kilobytes or
/// in gigabytes of 1024 megabytes, by how large it is, and rounded to the nearest.
pub proof fn law_size_is_shown_in_its_unit(bytes: u64, r: String)
    requires
        call_ensures(format_size, (bytes,), r),
    ensures
        bytes < 1_024 ==> r@ == decimal(bytes as nat) + " B"@,
        1_024 <= bytes < 1_048_576 ==> is_shown_in(bytes, r@, 1_024, " KB"@),
        1_048_576 <= bytes < 1_073_741_824 ==> is_shown_in_tenths(bytes, r@, 1_048_576, " MB"@),
        1_073_741_824 <= bytes < 0x20_0000_0000_0000 ==> is_shown_in_tenths(
            bytes,
            r@,
            1_073_741_824,
            " GB"@,
        ),
{
    if 1_024 <= bytes < 1_048_576 {
        lemma_nearest(bytes as nat, 1_024);
        let n = half_even(bytes as nat, 1_024);
        assert(r@ == decimal(n) + " KB"@);
    } else if 1_048_576 <= bytes < 1_073_741_824 {
        lemma_nearest(10 * bytes as nat, 1_048_576);
        let t = half_even(10 * bytes as nat, 1_048_576);
        assert(r@ == decimal(t / 10) + "."@ + decimal(t % 10) + " MB"@);
    } else if 1_073_741_824 <= bytes < 0x20_0000_0000_0000 {
        assert(double_spacing(bytes as nat, 1) == 1);
        assert(rounded_magnitude(bytes as nat) == bytes);
        lemma_nearest(10 * bytes as nat, 1_073_741_824);
        let t = half_even(10 * bytes as nat, 1_073_741_824);
        assert(r@ == decimal(t / 10) + "."@ + decimal(t % 10) + " GB"@);
    }
}

/// Whether an age of some seconds is shown as a number of whole units.
pub open spec fn is_age_in(age: int, shown: Seq<char>, unit: int, name: Seq<char>) -> bool {
    exists|n: nat| shown == #[trigger] (decimal(n) + name) && unit * n <= age < unit * n + unit
}

/// An age is shown in minutes, in hours or in days, by how long ago it was, without what is
/// over.
pub proof fn law_age_is_shown_in_its_unit(modified: u64, now: u64, r: String)
    requires
        call_ensures(format_relative_time_at, (modified, now), r),
    ensures
        modified == 0 ==> r@ == "—"@,
        modified > 0 && now < modified + 60 ==> r@ == "przed chwilą"@,
        modified > 0 && 60 <= now - modified < 3_600 ==> is_age_in(
            now - modified,
            r@,
            60,
            " min temu"@,
        ),
        modified > 0 && 3_600 <= now - modified < 86_400 ==> is_age_in(
            now - modified,
            r@,
            3_600,
            " godz. temu"@,
        ),
        modified > 0 && 86_400 <= now - modified < 172_800 ==> r@ == "1 dzień temu"@,
        modified > 0 && 172_800 <= now - modified ==> is_age_in(
            now - modified,
            r@,
            86_400,
            " dni temu"@,
        ),
{
    let age = now - modified;
    if modified > 0 && 60 <= age < 3_600 {
        let n = (age / 60) as nat;
        assert(r@ == decimal(n) + " min temu"@);
    } else if modified > 0 && 3_600 <= age < 86_400 {
        let n = (age / 3_600) as nat;
        assert(r@ == decimal(n) + " godz. temu"@);
    } else if modified > 0 && 172_800 <= age {
        let n = (age / 86_400) as nat;
        assert(r@ == decimal(n) + " dni temu"@);
    }
}

/// Whether a mode of the camera can be used for scanning: pictures as JPEG, large enough, and
/// no more of them than thirty a second.
pub open spec fn can_scan(mode: CameraMode) -> bool {
    mode.mjpeg && mode.width >= 1_280 && mode.height >= 720 && mode.frame_rate <= 30
}

/// How many pixels a picture in this mode has.
pub open spec fn pixels_of(mode: CameraMode) -> int {
    mode.width * mode.height
}

proof fn lemma_usable(modes: Seq<CameraMode>, mode: CameraMode)
    ensures
        usable_modes(modes).contains(mode) <==> modes.contains(mode) && can_scan(mode),
    decreases modes.len(),
{
    reveal(Seq::filter);
    let kept = usable_modes(modes);
    if modes.len() > 0 {
        let init = modes.drop_last();
        let before = usable_modes(init);
        lemma_usable(init, mode);
        if kept.contains(mode) {
            let k = choose|k: int| 0 <= k < kept.len() && kept[k] == mode;
            if k < before.len() {
                assert(before[k] == mode);
                let i = choose|i: int| 0 <= i < init.len() && init[i] == mode;
                assert(modes[i] == mode);
            } else {
                assert(modes[modes.len() - 1] == mode);
            }
        }
        if modes.contains(mode) && can_scan(mode) {
            let i = choose|i: int| 0 <= i < modes.len() && modes[i] == mode;
            if i < init.len() {
                assert(init[i] == mode);
                let k = choose|k: int| 0 <= k < before.len() && before[k] == mode;
                assert(kept[k] == mode);
            } else {
                assert(kept[before.len() as int] == mode);
            }
        }
    }
}

/// Whether modes stand in order: larger pictures first, and of one size, more of them a
/// second first.
pub open spec fn fall(modes: Seq<CameraMode>) -> bool {
    forall|i: int, j: int|
        0 <= i < j < modes.len() ==> {
            ||| pixels_of(#[trigger] modes[i]) > pixels_of(#[trigger] modes[j])
            ||| pixels_of(modes[i]) == pixels_of(modes[j]) && modes[i].frame_rate
                >= modes[j].frame_rate
        }
}

/// Whether a mode is the first of its size in a list.
pub open spec fn is_first_of_size(modes: Seq<CameraMode>, mode: CameraMode, at: int) -> bool {
    &&& 0 <= at < modes.len()
    &&& modes[at] == mode
    &&& forall|j: int| 0 <= j < at ==> !(#[trigger] modes[j]).same_size(mode)
}

pub open spec fn is_a_first(modes: Seq<CameraMode>, mode: CameraMode, n: int) -> bool {
    exists|at: int| at < n && is_first_of_size(modes, mode, at)
}

proof fn lemma_firsts(modes: Seq<CameraMode>, n: nat)
    requires
        fall(modes),
        n <= modes.len(),
    ensures
        forall|i: int|
            0 <= i < first_of_each(modes, n).len() ==> is_a_first(
                modes,
                #[trigger] first_of_each(modes, n)[i],
                n as int,
            ),
        forall|i: int, j: int|
            0 <= i < j < first_of_each(modes, n).len() ==> pixels_of(
                #[trigger] first_of_each(modes, n)[i],
            ) >= pixels_of(#[trigger] first_of_each(modes, n)[j]),
        n > 0 ==> first_of_each(modes, n).len() > 0 && first_of_each(modes, n)[0] == modes[0],
        first_of_each(modes, n).len() < 8 ==> forall|j: int|
            0 <= j < n ==> has_size(first_of_each(modes, n), #[trigger] modes[j]),
    decreases n,
{
    if n > 0 {
        let m = (n - 1) as nat;
        let before = first_of_each(modes, m);
        let after = first_of_each(modes, n);
        lemma_firsts(modes, m);
        assert forall|i: int| 0 <= i < after.len() implies is_a_first(
            modes,
            #[trigger] after[i],
            n as int,
        ) by {
            if i < before.len() {
                assert(is_a_first(modes, before[i], m as int));
                let at = choose|at: int| at < m && is_first_of_size(modes, before[i], at);
                assert(at < n && is_first_of_size(modes, after[i], at));
            } else {
                assert forall|j: int| 0 <= j < m implies !(#[trigger] modes[j]).same_size(
                    modes[m as int],
                ) by {
                    assert(has_size(before, modes[j]));
                    let k = choose|k: int|
                        0 <= k < before.len() && (#[trigger] before[k]).same_size(modes[j]);
                    if modes[j].same_size(modes[m as int]) {
                        assert(before[k].same_size(modes[m as int]));
                    }
                }
                assert(is_first_of_size(modes, after[i], m as int));
            }
        }
        assert forall|i: int, j: int| 0 <= i < j < after.len() implies pixels_of(
            #[trigger] after[i],
        ) >= pixels_of(#[trigger] after[j]) by {
            if j < before.len() {
                assert(after[i] == before[i] && after[j] == before[j]);
            } else {
                assert(after[i] == before[i]);
                assert(is_a_first(modes, before[i], m as int));
                let at = choose|at: int| at < m && is_first_of_size(modes, before[i], at);
                assert(modes[at] == after[i] && modes[m as int] == after[j]);
            }
        }
        if n == 1 {
            assert(before.len() == 0);
            assert(!has_size(before, modes[0]));
        }
        if after.len() < 8 {
            assert forall|j: int| 0 <= j < n implies has_size(after, #[trigger] modes[j]) by {
                if j < m {
                    assert(has_size(before, modes[j]));
                    let k = choose|k: int|
                        0 <= k < before.len() && (#[trigger] before[k]).same_size(modes[j]);
                    assert(after[k].same_size(modes[j]));
                } else if before.len() < after.len() {
                    assert(after[before.len() as int].same_size(modes[j]));
                } else {
                    let k = choose|k: int|
                        0 <= k < before.len() && (#[trigger] before[k]).same_size(modes[j]);
                    assert(after[k].same_size(modes[j]));
                }
            }
        }
    }
}

/// The modes tried are those of the camera that can be used, the largest picture first, and of
/// each size the one with the most pictures a second. None that can be used is larger than
/// the first, and none of another size is left out where fewer than eight are tried.
pub proof fn law_largest_picture_is_tried_first(modes: &Vec<CameraMode>, r: Vec<CameraMode>, mode: CameraMode)
    requires
        call_ensures(preferred_formats, (modes,), r),
        modes@.contains(mode),
        can_scan(mode),
    ensures
        r@.len() > 0,
        pixels_of(mode) <= pixels_of(r@[0]),
        forall|i: int|
            0 <= i < r@.len() ==> modes@.contains(#[trigger] r@[i]) && can_scan(r@[i]) && (
            r@[i].width == mode.width && r@[i].height == mode.height ==> r@[i].frame_rate
                >= mode.frame_rate),
        forall|i: int, j: int|
            0 <= i < j < r@.len() ==> pixels_of(#[trigger] r@[i]) >= pixels_of(#[trigger] r@[j]),
        r@.len() < 8 ==> has_size(r@, mode),
{
    let usable = usable_modes(modes@);
    lemma_usable(modes@, mode);
    let home = choose|i: int| 0 <= i < usable.len() && usable[i] == mode;
    let places = choose|places: Seq<usize>| #[trigger]
        are_ranked(usable, places) && r@ == first_of_each(
            places.map_values(|place: usize| usable[place as int]),
            places.len(),
        );
    let sorted = places.map_values(|place: usize| usable[place as int]);
    assert forall|k: int, l: int| 0 <= k < l < places.len() implies #[trigger] places[k]
        != #[trigger] places[l] by {}
    lemma_places_cover(places, usable.len());
    assert(is_listed(places, home));
    let at = choose|k: int| 0 <= k < places.len() && #[trigger] places[k] == home;
    assert(sorted[at] == mode);
    assert forall|i: int, j: int| 0 <= i < j < sorted.len() implies {
        ||| pixels_of(#[trigger] sorted[i]) > pixels_of(#[trigger] sorted[j])
        ||| pixels_of(sorted[i]) == pixels_of(sorted[j]) && sorted[i].frame_rate
            >= sorted[j].frame_rate
    } by {
        let order = mode_order(usable[places[i] as int], usable[places[j] as int]);
        assert(order == Order::Less || order == Order::Equal);
        assert(pixels_of(sorted[i]) == sorted[i].pixels());
        assert(pixels_of(sorted[j]) == sorted[j].pixels());
    }
    lemma_firsts(sorted, sorted.len());
    assert forall|i: int| 0 <= i < r@.len() implies modes@.contains(#[trigger] r@[i]) && can_scan(
        r@[i],
    ) && (r@[i].width == mode.width && r@[i].height == mode.height ==> r@[i].frame_rate
        >= mode.frame_rate) by {
        assert(is_a_first(sorted, r@[i], sorted.len() as int));
        let k = choose|k: int| k < sorted.len() && is_first_of_size(sorted, r@[i], k);
        assert(usable[places[k] as int] == r@[i]);
        assert(usable.contains(r@[i]));
        lemma_usable(modes@, r@[i]);
        if r@[i].same_size(mode) && at < k {
            assert(sorted[at].same_size(r@[i]));
        }
    }
}

/// Pages and files are counted as Polish does: one form for one, another for numbers that end
/// in 2, 3 or 4 but for those from 12 to 14, and a third for all others.
pub proof fn law_counts_take_their_form(count: usize, pages: String, files: String)
    requires
        call_ensures(polish_page_count, (count,), pages),
        call_ensures(polish_file_count, (count,), files),
    ensures
        count == 1 ==> pages@ == decimal(1) + " strona"@ && files@ == decimal(1) + " plik"@,
        count / 10 % 10 != 1 && 2 <= count % 10 <= 4 ==> pages@ == decimal(count as nat)
            + " strony"@ && files@ == decimal(count as nat) + " pliki"@,
        count != 1 && (count / 10 % 10 == 1 || count % 10 < 2 || count % 10 > 4) ==> pages@
            == decimal(count as nat) + " stron"@ && files@ == decimal(count as nat) + " plików"@,
{
    let n = count as int;
    assert(n % 100 == 10 * (n / 10 % 10) + n % 10);
}

proof fn lemma_nothing_asked(pdfs: Seq<PdfModel>)
    ensures
        found_pdfs(pdfs, Seq::empty(), None) == pdfs,
    decreases pdfs.len(),
{
    reveal(Seq::filter);
    let nothing = Seq::<char>::empty();
    assert(search_text(nothing) =~= nothing);
    assert(words(nothing) =~= Seq::<Seq<char>>::empty());
    if pdfs.len() > 0 {
        lemma_nothing_asked(pdfs.drop_last());
        assert(search_finds(pdfs.last(), nothing, None));
        assert(found_pdfs(pdfs, nothing, None) =~= pdfs);
    } else {
        assert(found_pdfs(pdfs, nothing, None) =~= pdfs);
    }
}

/// The start shows the twelve documents that were changed last, the newest first; where there
/// are fewer, all of them.
pub proof fn law_start_shows_the_newest(
    snapshot: &LibrarySnapshot,
    key: &VisibleCacheKey,
    r: Vec<PdfInfo>,
    pdf: PdfModel,
)
    requires
        call_ensures(visible_documents_for_key, (snapshot, key), r),
        trimmed(key@.query).len() == 0,
        key@.folder_scope is None,
        key@.section == LibrarySection::Home,
        pdf_models(snapshot.pdfs@).contains(pdf),
    ensures
        snapshot.pdfs@.len() <= 12 ==> r@.len() == snapshot.pdfs@.len(),
        snapshot.pdfs@.len() > 12 ==> r@.len() == 12,
        forall|i: int, j: int|
            0 <= i < j < r@.len() ==> pdf_models(r@)[i].modified_secs >= pdf_models(
                r@,
            )[j].modified_secs,
        pdf_models(r@).contains(pdf) || forall|i: int|
            0 <= i < r@.len() ==> (#[trigger] pdf_models(r@)[i]).modified_secs
                >= pdf.modified_secs,
{
    let pdfs = pdf_models(snapshot.pdfs@);
    let shown = pdf_models(r@);
    lemma_nothing_asked(pdfs);
    let all = choose|all: Seq<PdfModel>| #[trigger]
        is_sorted_from(pdfs, all, SortMode::Modified, false) && shown == first_of(all, 12);
    law_sorting_keeps_the_documents(pdfs, all, SortMode::Modified, false);
    let order = choose|order: Seq<usize>| #[trigger] is_rearranged_by(pdfs, all, order);
    assert forall|i: int, j: int| 0 <= i < j < all.len() implies #[trigger] all[i].modified_secs
        >= #[trigger] all[j].modified_secs by {
        law_sorted_list_goes_by_its_column(pdfs, all, SortMode::Modified, false, i, j);
    }
    let home = choose|i: int| 0 <= i < pdfs.len() && pdfs[i] == pdf;
    assert(is_listed(order, home));
    let at = choose|k: int| 0 <= k < order.len() && #[trigger] order[k] == home;
    assert(all[at] == pdf);
    assert forall|i: int| 0 <= i < shown.len() implies #[trigger] shown[i] == all[i] by {}
    if at < shown.len() {
        assert(shown[at] == pdf);
    }
}

proof fn lemma_pdf_at(pdfs: Seq<PdfModel>, path: PathModel, i: int)
    requires
        0 <= i <= pdfs.len(),
    ensures
        pdf_at_from(pdfs, path, i) matches Some(pdf) ==> pdf.path == path && pdfs.contains(pdf),
        pdf_at_from(pdfs, path, i) is None ==> forall|k: int|
            i <= k < pdfs.len() ==> (#[trigger] pdfs[k]).path != path,
    decreases pdfs.len() - i,
{
    if i < pdfs.len() && pdfs[i].path != path {
        lemma_pdf_at(pdfs, path, i + 1);
    }
}

/// Whether documents stand at some of the given paths, in the order of the paths.
pub open spec fn stand_at(shown: Seq<PdfModel>, paths: Seq<PathModel>, at: Seq<int>) -> bool {
    &&& at.len() == shown.len()
    &&& forall|i: int|
        0 <= i < at.len() ==> 0 <= #[trigger] at[i] < paths.len() && shown[i].path == paths[at[i]]
    &&& forall|i: int, j: int| 0 <= i < j < at.len() ==> #[trigger] at[i] < #[trigger] at[j]
}

/// Whether one of the documents stands at a path.
pub open spec fn stands_there(pdfs: Seq<PdfModel>, path: PathModel) -> bool {
    exists|i: int| 0 <= i < pdfs.len() && (#[trigger] pdfs[i]).path == path
}

proof fn lemma_pdfs_at(pdfs: Seq<PdfModel>, paths: Seq<PathModel>, n: nat) -> (at: Seq<int>)
    requires
        n <= paths.len(),
    ensures
        stand_at(pdfs_at(pdfs, paths, 50, n), paths.take(n as int), at),
        pdfs_at(pdfs, paths, 50, n).len() <= 50,
        forall|i: int|
            0 <= i < pdfs_at(pdfs, paths, 50, n).len() ==> pdfs.contains(
                #[trigger] pdfs_at(pdfs, paths, 50, n)[i],
            ),
        pdfs_at(pdfs, paths, 50, n).len() < 50 ==> forall|k: int|
            0 <= k < n && #[trigger] stands_there(pdfs, paths[k]) ==> stands_there(
                pdfs_at(pdfs, paths, 50, n),
                paths[k],
            ),
    decreases n,
{
    let shown = pdfs_at(pdfs, paths, 50, n);
    if n == 0 {
        Seq::empty()
    } else {
        let m = (n - 1) as nat;
        let before = pdfs_at(pdfs, paths, 50, m);
        let start = lemma_pdfs_at(pdfs, paths, m);
        lemma_pdf_at(pdfs, paths[m as int], 0);
        assert forall|i: int| 0 <= i < m implies #[trigger] paths.take(n as int)[i] == paths.take(
            m as int,
        )[i] by {}
        let at = if shown.len() > before.len() {
            start.push(m as int)
        } else {
            start
        };
        assert(stand_at(shown, paths.take(n as int), at));
        if shown.len() < 50 {
            assert forall|k: int|
                0 <= k < n && #[trigger] stands_there(pdfs, paths[k]) implies stands_there(
                shown,
                paths[k],
            ) by {
                if k < m {
                    assert(stands_there(before, paths[k]));
                    let i = choose|i: int|
                        0 <= i < before.len() && (#[trigger] before[i]).path == paths[k];
                    assert(shown[i].path == paths[k]);
                } else {
                    let i = choose|i: int|
                        0 <= i < pdfs.len() && (#[trigger] pdfs[i]).path == paths[k];
                    assert(pdf_at(pdfs, paths[k]) is Some);
                    assert(shown[before.len() as int].path == paths[k]);
                }
            }
        }
        at
    }
}

/// The recent documents are those of the library at the recent paths, in the order of these,
/// at most fifty; none of fewer is left out.
pub proof fn law_recent_documents_keep_their_order(
    snapshot: &LibrarySnapshot,
    key: &VisibleCacheKey,
    r: Vec<PdfInfo>,
    path: PathModel,
)
    requires
        call_ensures(visible_documents_for_key, (snapshot, key), r),
        trimmed(key@.query).len() == 0,
        key@.folder_scope is None,
        key@.section == LibrarySection::Recent,
    ensures
        r@.len() <= 50,
        exists|at: Seq<int>| #[trigger]
            stand_at(pdf_models(r@), key@.recent_documents, at),
        forall|i: int|
            0 <= i < r@.len() ==> pdf_models(snapshot.pdfs@).contains(
                #[trigger] pdf_models(r@)[i],
            ),
        r@.len() < 50 && key@.recent_documents.contains(path) && stands_there(
            pdf_models(snapshot.pdfs@),
            path,
        ) ==> stands_there(pdf_models(r@), path),
{
    let paths = key@.recent_documents;
    let at = lemma_pdfs_at(pdf_models(snapshot.pdfs@), paths, paths.len());
    assert(paths.take(paths.len() as int) =~= paths);
    assert(pdf_models(r@).len() == r@.len());
    assert(stand_at(pdf_models(r@), paths, at));
    if paths.contains(path) {
        let k = choose|k: int| 0 <= k < paths.len() && paths[k] == path;
        assert(paths[k] == path);
    }
}

/// Whether a path is that of a listed document from `first` to `last`.
pub open spec fn is_from_to(pdfs: Seq<PdfModel>, first: int, last: int, path: PathModel) -> bool {
    exists|i: int| first <= i <= last && 0 <= i < pdfs.len() && (#[trigger] pdfs[i]).path == path
}

proof fn lemma_places(pdfs: Seq<PdfModel>, first: int, end: int, path: PathModel)
    requires
        0 <= first,
        end <= pdfs.len(),
    ensures
        places(pdfs, first, end).contains(path) <==> is_from_to(pdfs, first, end - 1, path),
    decreases end - first,
{
    if first < end {
        lemma_places(pdfs, first, end - 1, path);
        if places(pdfs, first, end).contains(path) {
            if pdfs[end - 1].path != path {
                let i = choose|i: int|
                    first <= i <= end - 2 && 0 <= i < pdfs.len() && (#[trigger] pdfs[i]).path
                        == path;
                assert(pdfs[i].path == path);
            }
        }
        if is_from_to(pdfs, first, end - 1, path) {
            let i = choose|i: int|
                first <= i <= end - 1 && 0 <= i < pdfs.len() && (#[trigger] pdfs[i]).path == path;
            if i < end - 1 {
                assert(is_from_to(pdfs, first, end - 2, path));
            }
        }
    }
}

proof fn lemma_position(pdfs: Seq<PdfModel>, path: PathModel, i: int)
    requires
        0 <= i <= pdfs.len(),
    ensures
        i <= position_from(pdfs, path, i) <= pdfs.len(),
        position_from(pdfs, path, i) < pdfs.len() ==> pdfs[position_from(pdfs, path, i)].path
            == path,
        forall|k: int|
            i <= k < position_from(pdfs, path, i) ==> (#[trigger] pdfs[k]).path != path,
    decreases pdfs.len() - i,
{
    if i < pdfs.len() && pdfs[i].path != path {
        lemma_position(pdfs, path, i + 1);
    }
}

/// A click chooses the document alone; with the control key it changes the choice of it and
/// of no other.
pub proof fn law_click_chooses(
    before: SelectionModel,
    pdfs: Seq<PdfModel>,
    index: int,
    path: PathModel,
)
    requires
        0 <= index < pdfs.len(),
    ensures
        clicked_selection(before, pdfs, index, Click::Plain).selected.contains(path) <==> path
            == pdfs[index].path,
        clicked_selection(before, pdfs, index, Click::Double).selected.contains(path) <==> path
            == pdfs[index].path,
        clicked_selection(before, pdfs, index, Click::Toggle).selected.contains(path) <==> (path
            == pdfs[index].path) != before.selected.contains(path),
        clicked_selection(before, pdfs, index, Click::Plain).anchor == Some(pdfs[index].path),
        clicked_selection(before, pdfs, index, Click::Toggle).anchor == Some(pdfs[index].path),
        ticked_selection(before, pdfs[index].path, true).selected.contains(path) <==> path
            == pdfs[index].path || before.selected.contains(path),
        ticked_selection(before, pdfs[index].path, false).selected.contains(path) <==> path
            != pdfs[index].path && before.selected.contains(path),
{
}

/// With the shift key a click chooses all documents from the one chosen before, whichever of
/// the two stands first, and that one stays the start of the next such choice.
pub proof fn law_range_reaches_from_the_first_click(
    before: SelectionModel,
    pdfs: Seq<PdfModel>,
    start: int,
    index: int,
    path: PathModel,
)
    requires
        0 <= index < pdfs.len(),
        0 <= start < pdfs.len(),
        before.anchor == Some(pdfs[start].path),
        forall|k: int| 0 <= k < start ==> (#[trigger] pdfs[k]).path != pdfs[start].path,
    ensures
        start <= index ==> (clicked_selection(before, pdfs, index, Click::Range).selected.contains(
            path,
        ) <==> is_from_to(pdfs, start, index, path)),
        index <= start ==> (clicked_selection(before, pdfs, index, Click::Range).selected.contains(
            path,
        ) <==> is_from_to(pdfs, index, start, path)),
        clicked_selection(before, pdfs, index, Click::Range).anchor == before.anchor,
{
    lemma_position(pdfs, pdfs[start].path, 0);
    let found = position_from(pdfs, pdfs[start].path, 0);
    if found < start {
        assert(pdfs[found].path != pdfs[start].path);
    }
    assert(found == start);
    lemma_places(pdfs, start, index + 1, path);
    lemma_places(pdfs, index, start + 1, path);
}

/// All that is shown is chosen or not chosen at once, and what is not shown stays as it was;
/// documents that are gone are chosen no longer.
pub proof fn law_choosing_all_takes_what_is_shown(
    before: SelectionModel,
    pdfs: Seq<PdfModel>,
    path: PathModel,
)
    ensures
        visible_selection(before, pdfs, true).selected.contains(path) <==> before.selected.contains(
            path,
        ) || stands_there(pdfs, path),
        visible_selection(before, pdfs, false).selected.contains(path) <==> before.selected.contains(
            path,
        ) && !stands_there(pdfs, path),
        surviving_selection(before, pdfs).selected.contains(path) <==> before.selected.contains(path)
            && stands_there(pdfs, path),
        surviving_selection(before, pdfs).anchor matches Some(anchor) ==> before.anchor == Some(
            anchor,
        ) && stands_there(pdfs, anchor),
{
    let n = pdfs.len() as int;
    lemma_places(pdfs, 0, n, path);
    lemma_stands(pdfs, path);
    if before.anchor is Some {
        lemma_places(pdfs, 0, n, before.anchor->Some_0);
        lemma_stands(pdfs, before.anchor->Some_0);
    }
}

proof fn lemma_stands(pdfs: Seq<PdfModel>, path: PathModel)
    ensures
        is_from_to(pdfs, 0, pdfs.len() - 1, path) <==> stands_there(pdfs, path),
{
    if stands_there(pdfs, path) {
        let i = choose|i: int| 0 <= i < pdfs.len() && (#[trigger] pdfs[i]).path == path;
        assert(0 <= i <= pdfs.len() - 1);
    }
}

/// Whether a path is that of one of the folders.
pub open spec fn is_one_of(folders: Seq<FolderModel>, path: PathModel) -> bool {
    exists|i: int| 0 <= i < folders.len() && (#[trigger] folders[i]).path == path
}

/// Whether a path is given and leads to a place.
pub open spec fn is_at(path: Option<DocPath>, place: PathModel) -> bool {
    path is Some && path->Some_0@ == place
}

/// A scan goes into the folder that is open, where that is one of the library's and not the
/// library itself; else into the preferred one, where that is one of them; else into the only
/// one there is, where none is open.
pub proof fn law_scan_goes_where_the_user_is(
    input: LibraryViewInput<'_>,
    r: Option<DocPath>,
    open: PathModel,
)
    requires
        call_ensures(scan_destination, (input,), r),
    ensures
        is_at(*input.selected_folder, open) && open != input.library_root@ && is_one_of(
            folder_models(input.snapshot.folders@),
            open,
        ) ==> is_at(r, open),
        input.selected_folder is None && is_at(*input.preferred_scan_folder, open) && is_one_of(
            folder_models(input.snapshot.folders@),
            open,
        ) ==> is_at(r, open),
        input.selected_folder is None && input.preferred_scan_folder is None
            && input.snapshot.folders@.len() != 1 ==> r is None,
        input.selected_folder is None && input.preferred_scan_folder is None
            && input.snapshot.folders@.len() == 1 ==> is_at(r, input.snapshot.folders@[0]@.path),
        r matches Some(target) ==> is_one_of(folder_models(input.snapshot.folders@), target@),
{
    let folders = folder_models(input.snapshot.folders@);
    assert(folders.len() == input.snapshot.folders@.len());
    if folders.len() == 1 {
        assert(folders[0].path == input.snapshot.folders@[0]@.path);
    }
}

} // verus!
