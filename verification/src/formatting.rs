//! How sizes, times and names are shown in the library.

use vstd::prelude::*;
use crate::pdf_numbers::rounded_magnitude;
use crate::raster::{half_even, round_to_double};
use crate::text::{chars_of, copy_range, decimal, decimal_text, text_of};

verus! {

/// A text cut to a number of characters, the last of them an ellipsis.
pub open spec fn shortened(text: Seq<char>, max_chars: nat) -> Seq<char> {
    if text.len() <= max_chars {
        text
    } else if max_chars == 0 {
        seq!['…']
    } else {
        text.take(max_chars - 1).push('…')
    }
}

/// Shortens a text without breaking its characters.
pub fn ellipsize(text: &str, max_chars: usize) -> (r: String)
    ensures
        r@ == shortened(text@, max_chars as nat),
        r@.len() <= max_chars || max_chars == 0,
{
    let chars: Vec<char> = chars_of(text);
    if chars.len() <= max_chars {
        return text.to_owned();
    }
    let keep: usize = if max_chars == 0 {
        0
    } else {
        max_chars - 1
    };
    let mut kept: Vec<char> = copy_range(&chars, 0, keep);
    kept.push('…');
    assert(kept@ =~= shortened(text@, max_chars as nat));
    text_of(&kept)
}

/// A number of tenths, with a point.
pub open spec fn tenths_text(tenths: nat) -> Seq<char> {
    decimal(tenths / 10) + "."@ + decimal(tenths % 10)
}

pub const KIB: u64 = 1024;

pub const MIB: u64 = 1_048_576;

pub const GIB: u64 = 1_073_741_824;

/// How a size is shown: bytes and kilobytes in whole numbers, megabytes and gigabytes to
/// a tenth, ties going to the even digit. Sizes beyond 53 bits are rounded to double
/// precision first.
pub open spec fn size_text(bytes: u64) -> Seq<char> {
    if bytes >= GIB {
        tenths_text(half_even(10 * rounded_magnitude(bytes as nat), GIB as nat)) + " GB"@
    } else if bytes >= MIB {
        tenths_text(half_even(10 * bytes as nat, MIB as nat)) + " MB"@
    } else if bytes >= KIB {
        decimal(half_even(bytes as nat, KIB as nat)) + " KB"@
    } else {
        decimal(bytes as nat) + " B"@
    }
}

fn quotient_half_even(n: u128, q: u64) -> (r: u64)
    requires
        0 < q,
        n / q as u128 + 1 <= u64::MAX,
        q < 0x1_0000_0000,
    ensures
        r == half_even(n as nat, q as nat),
{
    let below: u128 = n / q as u128;
    let rest: u128 = n % q as u128;
    if 2 * rest > q as u128 || (2 * rest == q as u128 && below % 2 == 1) {
        (below + 1) as u64
    } else {
        below as u64
    }
}

fn in_tenths(tenths: u64, unit: &str) -> (r: String)
    ensures
        r@ == tenths_text(tenths as nat) + unit@,
{
    let mut text: String = decimal_text(tenths / 10);
    text.append(".");
    text.append(decimal_text(tenths % 10).as_str());
    text.append(unit);
    text
}

/// Shows a size.
pub fn format_size(bytes: u64) -> (r: String)
    ensures
        r@ == size_text(bytes),
{
    if bytes >= GIB {
        let rounded: u128 = round_to_double(bytes as u128);
        proof {
            lemma_rounding_is_close(bytes as nat);
        }
        in_tenths(quotient_half_even(10 * rounded, GIB), " GB")
    } else if bytes >= MIB {
        in_tenths(quotient_half_even(10 * bytes as u128, MIB), " MB")
    } else if bytes >= KIB {
        let mut text: String = decimal_text(quotient_half_even(bytes as u128, KIB));
        text.append(" KB");
        text
    } else {
        let mut text: String = decimal_text(bytes);
        text.append(" B");
        text
    }
}

/// A size in megabytes, to a tenth.
pub open spec fn megabytes(bytes: u64) -> Seq<char> {
    tenths_text(half_even(10 * rounded_magnitude(bytes as nat), MIB as nat))
}

pub fn format_megabytes(bytes: u64) -> (r: String)
    ensures
        r@ == megabytes(bytes),
{
    let rounded: u128 = round_to_double(bytes as u128);
    proof {
        lemma_rounding_is_close(bytes as nat);
    }
    let tenths: u64 = quotient_half_even(10 * rounded, MIB);
    let mut text: String = decimal_text(tenths / 10);
    text.append(".");
    text.append(decimal_text(tenths % 10).as_str());
    text
}

/// A size in megabytes, to a hundredth.
pub open spec fn fine_megabytes(bytes: u64) -> Seq<char> {
    let hundredths = half_even(100 * rounded_magnitude(bytes as nat), MIB as nat);
    decimal(hundredths / 100) + "."@ + decimal(hundredths / 10 % 10) + decimal(hundredths % 10)
}

pub fn format_fine_megabytes(bytes: u64) -> (r: String)
    ensures
        r@ == fine_megabytes(bytes),
{
    let rounded: u128 = round_to_double(bytes as u128);
    proof {
        lemma_rounding_is_close(bytes as nat);
    }
    let hundredths: u64 = quotient_half_even(100 * rounded, MIB);
    let mut text: String = decimal_text(hundredths / 100);
    text.append(".");
    text.append(decimal_text(hundredths / 10 % 10).as_str());
    text.append(decimal_text(hundredths % 10).as_str());
    text
}

proof fn lemma_rounding_is_close(n: nat)
    requires
        n <= u64::MAX,
    ensures
        rounded_magnitude(n) <= 2 * n + 2,
{
    crate::raster::lemma_spacing_small(n, 1);
    let spacing = crate::pdf_numbers::double_spacing(n, 1);
    let below = n / spacing;
    vstd::arithmetic::div_mod::lemma_fundamental_div_mod(n as int, spacing as int);
    assert(below * spacing <= n) by (nonlinear_arith)
        requires
            n == spacing * below + n % spacing,
            n % spacing >= 0,
    ;
    assert((below + 1) * spacing == below * spacing + spacing) by (nonlinear_arith);
}

/// How long ago a time was, in words. Time zero is unknown.
pub open spec fn age_text(modified_secs: u64, now_secs: u64) -> Seq<char> {
    let age: int = if now_secs >= modified_secs {
        now_secs - modified_secs
    } else {
        0
    };
    if modified_secs == 0 {
        "—"@
    } else if age < 60 {
        "przed chwilą"@
    } else if age < 3_600 {
        decimal((age / 60) as nat) + " min temu"@
    } else if age < 86_400 {
        decimal((age / 3_600) as nat) + " godz. temu"@
    } else if age < 172_800 {
        "1 dzień temu"@
    } else {
        decimal((age / 86_400) as nat) + " dni temu"@
    }
}

fn counted(n: u64, words: &str) -> (r: String)
    ensures
        r@ == decimal(n as nat) + words@,
{
    let mut text: String = decimal_text(n);
    text.append(words);
    text
}

/// Tells how long ago a document was changed.
pub fn format_relative_time_at(modified_secs: u64, now_secs: u64) -> (r: String)
    ensures
        r@ == age_text(modified_secs, now_secs),
{
    if modified_secs == 0 {
        return "—".to_owned();
    }
    let age: u64 = now_secs.saturating_sub(modified_secs);
    if age < 60 {
        "przed chwilą".to_owned()
    } else if age < 3_600 {
        counted(age / 60, " min temu")
    } else if age < 86_400 {
        counted(age / 3_600, " godz. temu")
    } else if age < 172_800 {
        "1 dzień temu".to_owned()
    } else {
        counted(age / 86_400, " dni temu")
    }
}

} // verus!
