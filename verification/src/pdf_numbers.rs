//! Numbers of a PDF file: exact binary fractions for equality, and fixed-point
//! values for geometry.

use vstd::arithmetic::power2::{
    lemma2_to64, lemma2_to64_rest, lemma_pow2_adds, lemma_pow2_pos, lemma_pow2_strictly_increases, lemma_pow2_unfold,
    pow2,
};
use vstd::prelude::*;
use crate::pdf_objects::{object_value, shape_of, PdfObject, Shape};

verus! {

/// A number as an odd mantissa times a power of two (zero has exponent zero), or
/// an infinity, negative or not.
#[verifier::ext_equal]
pub enum NumberModel {
    Finite(int, int),
    NotFinite(bool),
}

/// A number in lowest terms: factors of two moved from the mantissa to the exponent.
pub open spec fn lowest_terms(mantissa: int, exponent: int) -> NumberModel
    decreases
            if mantissa < 0 {
                -mantissa
            } else {
                mantissa
            },
{
    if mantissa == 0 {
        NumberModel::Finite(0, 0)
    } else if mantissa % 2 == 0 {
        lowest_terms(mantissa / 2, exponent + 1)
    } else {
        NumberModel::Finite(mantissa, exponent)
    }
}

/// The spacing of double-precision numbers at a magnitude, starting from a spacing
/// already known to be needed.
pub open spec fn double_spacing(magnitude: nat, spacing: nat) -> nat
    decreases magnitude - spacing,
{
    if spacing == 0 || magnitude < 0x20_0000_0000_0000 * spacing {
        spacing
    } else {
        double_spacing(magnitude, 2 * spacing)
    }
}

/// A magnitude rounded to the nearest double-precision number, ties to even.
pub open spec fn rounded_magnitude(magnitude: nat) -> nat {
    let spacing = double_spacing(magnitude, 1);
    let below = magnitude / spacing;
    let rest = magnitude % spacing;
    if 2 * rest > spacing || (2 * rest == spacing && below % 2 == 1) {
        (below + 1) * spacing
    } else {
        below * spacing
    }
}

/// An integer rounded to double precision.
pub open spec fn nearest_double(n: int) -> int {
    if n < 0 {
        -(rounded_magnitude((-n) as nat) as int)
    } else {
        rounded_magnitude(n as nat) as int
    }
}

/// The number that single-precision bits stand for.
pub open spec fn real_number(bits: u32) -> NumberModel {
    let biased = (bits as int / 0x80_0000) % 0x100;
    let fraction = bits as int % 0x80_0000;
    let magnitude = if biased == 0 {
        fraction
    } else {
        fraction + 0x80_0000
    };
    let exponent = if biased == 0 {
        -149
    } else {
        biased - 150
    };
    if biased == 0xff {
        NumberModel::NotFinite(bits >= 0x8000_0000)
    } else {
        lowest_terms(
            if bits >= 0x8000_0000 {
                -magnitude
            } else {
                magnitude
            },
            exponent,
        )
    }
}

/// The number that an object is, if it is one. Integers count with double precision.
pub open spec fn number_of(object: PdfObject) -> Option<NumberModel> {
    match object {
        PdfObject::Integer(n) => Some(lowest_terms(nearest_double(n as int), 0)),
        PdfObject::Real(bits) => Some(real_number(bits)),
        _ => None,
    }
}

/// A number of a PDF file.
#[derive(Debug, Clone, Copy)]
pub struct Number {
    pub finite: bool,
    pub mantissa: i64,
    pub exponent: i64,
}

impl View for Number {
    type V = NumberModel;

    open spec fn view(&self) -> NumberModel {
        if self.finite {
            NumberModel::Finite(self.mantissa as int, self.exponent as int)
        } else {
            NumberModel::NotFinite(self.mantissa < 0)
        }
    }
}

impl Number {
    /// The mantissa has at most 54 bits, and no number is finer than the finest
    /// single-precision one.
    pub open spec fn wf(self) -> bool {
        &&& -0x40_0000_0000_0000 <= self.mantissa <= 0x40_0000_0000_0000
        &&& -149 <= self.exponent
    }
}

fn reduce(mantissa: i64, exponent: i64) -> (r: Number)
    requires
        -0x40_0000_0000_0000 <= mantissa <= 0x40_0000_0000_0000,
        -149 <= exponent <= 150,
    ensures
        r@ == lowest_terms(mantissa as int, exponent as int),
        r.finite,
        r.wf(),
{
    if mantissa == 0 {
        return Number { finite: true, mantissa: 0, exponent: 0 };
    }
    let negative: bool = mantissa < 0;
    let mut m: i64 = if negative {
        -mantissa
    } else {
        mantissa
    };
    let ghost magnitude = m as int;
    let mut e: i64 = exponent;
    while m % 2 == 0
        invariant
            0 < m <= 0x40_0000_0000_0000,
            -149 <= exponent <= 150,
            exponent <= e <= exponent + 0x40_0000_0000_0000 - m,
            lowest_terms(m as int, e as int) == lowest_terms(magnitude, exponent as int),
        decreases m,
    {
        m = m / 2;
        e = e + 1;
    }
    proof {
        lemma_lowest_terms_sign(magnitude, exponent as int);
    }
    Number {
        finite: true,
        mantissa: if negative {
            -m
        } else {
            m
        },
        exponent: e,
    }
}

/// A number and its opposite have the same terms but for the sign.
proof fn lemma_lowest_terms_sign(mantissa: int, exponent: int)
    ensures
        lowest_terms(-mantissa, exponent) == match lowest_terms(mantissa, exponent) {
            NumberModel::Finite(m, e) => NumberModel::Finite(-m, e),
            NumberModel::NotFinite(negative) => NumberModel::NotFinite(negative),
        },
    decreases
            if mantissa < 0 {
                -mantissa
            } else {
                mantissa
            },
{
    if mantissa != 0 && mantissa % 2 == 0 {
        assert((-mantissa) / 2 == -(mantissa / 2));
        lemma_lowest_terms_sign(mantissa / 2, exponent + 1);
    }
}

fn double_magnitude(magnitude: u64) -> (r: (u64, i64))
    requires
        magnitude <= 0x8000_0000_0000_0000,
    ensures
        r.0 <= 0x20_0000_0000_0000,
        0 <= r.1 <= 11,
        rounded_magnitude(magnitude as nat) == r.0 * pow2(r.1 as nat),
{
    let mut spacing: u64 = 1;
    let mut exponent: i64 = 0;
    proof {
        lemma2_to64();
    }
    while spacing <= 0x400 && magnitude >= 0x20_0000_0000_0000 * spacing
        invariant
            magnitude <= 0x8000_0000_0000_0000,
            1 <= spacing <= 0x800,
            0 <= exponent <= 11,
            spacing == pow2(exponent as nat),
            double_spacing(magnitude as nat, 1) == double_spacing(magnitude as nat, spacing as nat),
        decreases 0x1000 - spacing,
    {
        proof {
            lemma_pow2_unfold((exponent + 1) as nat);
            if exponent >= 11 {
                lemma2_to64();
            }
        }
        spacing = 2 * spacing;
        exponent = exponent + 1;
    }
    assert(magnitude < 0x20_0000_0000_0000 * spacing);
    assert(double_spacing(magnitude as nat, 1) == spacing);
    let below: u64 = magnitude / spacing;
    let rest: u64 = magnitude % spacing;
    assert(below < 0x20_0000_0000_0000) by (nonlinear_arith)
        requires
            magnitude < 0x20_0000_0000_0000 * spacing,
            below == magnitude / spacing,
            spacing >= 1,
    ;
    if 2 * rest > spacing || (2 * rest == spacing && below % 2 == 1) {
        (below + 1, exponent)
    } else {
        (below, exponent)
    }
}

/// Shifting a mantissa moves factors of two between the terms.
proof fn lemma_lowest_terms_shift(mantissa: int, exponent: int, shift: nat)
    ensures
        lowest_terms(mantissa * pow2(shift), exponent) == lowest_terms(
            mantissa,
            exponent + shift,
        ),
    decreases shift,
{
    lemma2_to64();
    if shift == 0 {
        assert(mantissa * 1 == mantissa);
    } else {
        let half = (shift - 1) as nat;
        lemma_pow2_unfold(shift);
        assert(mantissa * (2 * pow2(half)) == 2 * (mantissa * pow2(half))) by (nonlinear_arith);
        let m = mantissa * pow2(half);
        if mantissa == 0 {
            assert(0 * pow2(half) == 0) by (nonlinear_arith);
            assert(0 * pow2(shift) == 0) by (nonlinear_arith);
        } else {
            lemma_pow2_pos(half);
            assert(m != 0) by (nonlinear_arith)
                requires
                    m == mantissa * pow2(half),
                    mantissa != 0,
                    pow2(half) > 0,
            ;
            assert((2 * m) % 2 == 0 && (2 * m) / 2 == m);
            assert(lowest_terms(2 * m, exponent) == lowest_terms(m, exponent + 1));
            lemma_lowest_terms_shift(mantissa, exponent + 1, half);
        }
    }
}

fn integer_number(n: i64) -> (r: Number)
    ensures
        r@ == lowest_terms(nearest_double(n as int), 0),
        r.finite,
        r.wf(),
{
    let negative: bool = n < 0;
    let magnitude: u64 = if negative {
        (-(n as i128)) as u64
    } else {
        n as u64
    };
    let (below, exponent) = double_magnitude(magnitude);
    let mantissa: i64 = if negative {
        -(below as i64)
    } else {
        below as i64
    };
    proof {
        lemma_lowest_terms_shift(mantissa as int, 0, exponent as nat);
        let b = below as int;
        let p = pow2(exponent as nat) as int;
        assert((-b) * p == -(b * p)) by (nonlinear_arith);
    }
    reduce(mantissa, exponent)
}

fn single_number(bits: u32) -> (r: Number)
    ensures
        r@ == real_number(bits),
        r.wf(),
{
    let biased: u32 = (bits / 0x80_0000) % 0x100;
    let fraction: u32 = bits % 0x80_0000;
    if biased == 0xff {
        return Number {
            finite: false,
            mantissa: if bits >= 0x8000_0000 {
                -1
            } else {
                1
            },
            exponent: 0,
        };
    }
    let magnitude: i64 = if biased == 0 {
        fraction as i64
    } else {
        fraction as i64 + 0x80_0000
    };
    let exponent: i64 = if biased == 0 {
        -149
    } else {
        biased as i64 - 150
    };
    if bits >= 0x8000_0000 {
        reduce(-magnitude, exponent)
    } else {
        reduce(magnitude, exponent)
    }
}

/// The number that an object is.
pub(crate) fn pdf_number(object: &lopdf::Object) -> (r: Option<Number>)
    ensures
        r is Some == number_of(object_value(*object)) is Some,
        r matches Some(number) ==> Some(number@) == number_of(object_value(*object)) && number.wf(),
{
    match shape_of(object) {
        Shape::Integer(n) => Some(integer_number(n)),
        Shape::Real(bits) => Some(single_number(bits)),
        _ => None,
    }
}

/// Whether a number is the given integer over one. No number equals one that is not finite.
pub fn is_number(number: &Number, mantissa: i64, exponent: i64) -> (r: bool)
    ensures
        r == (number@ == NumberModel::Finite(mantissa as int, exponent as int)),
{
    number.finite && number.mantissa == mantissa && number.exponent == exponent
}

/// Whether two numbers are equal and finite, or infinite alike.
pub fn same_number(left: &Number, right: &Number) -> (r: bool)
    ensures
        r == (left@ == right@),
{
    if left.finite {
        right.finite && left.mantissa == right.mantissa && left.exponent == right.exponent
    } else {
        !right.finite && (left.mantissa < 0) == (right.mantissa < 0)
    }
}

/// One, in fixed point.
pub open spec fn fixed_one() -> int {
    0x1_0000_0000_0000_0000
}

/// The largest fixed-point value; numbers beyond it, and those that are not
/// finite, count as it.
pub open spec fn fixed_limit() -> int {
    0x2000_0000_0000_0000_0000_0000_0000_0000
}

/// A magnitude in units of 2^-64, rounded down.
pub open spec fn fixed_magnitude(mantissa: nat, exponent: int) -> int {
    let units = if exponent >= 62 && mantissa > 0 {
        fixed_limit()
    } else if exponent + 64 >= 0 {
        (mantissa * pow2((exponent + 64) as nat)) as int
    } else {
        mantissa as int / pow2((-exponent - 64) as nat) as int
    };
    if units < fixed_limit() {
        units
    } else {
        fixed_limit()
    }
}

/// A number in units of 2^-64, rounded towards zero.
pub open spec fn fixed_point(number: NumberModel) -> int {
    match number {
        NumberModel::NotFinite(_) => fixed_limit(),
        NumberModel::Finite(mantissa, exponent) => if mantissa < 0 {
            -fixed_magnitude((-mantissa) as nat, exponent)
        } else {
            fixed_magnitude(mantissa as nat, exponent)
        },
    }
}

fn power_of_two(exponent: u64) -> (r: u128)
    requires
        exponent <= 126,
    ensures
        r == pow2(exponent as nat),
{
    let mut power: u128 = 1;
    let mut i: u64 = 0;
    proof {
        lemma2_to64();
    }
    while i < exponent
        invariant
            i <= exponent <= 126,
            power == pow2(i as nat),
        decreases exponent - i,
    {
        proof {
            lemma_pow2_unfold((i + 1) as nat);
            lemma_power_bound((i + 1) as nat);
        }
        power = 2 * power;
        i = i + 1;
    }
    power
}

proof fn lemma_power_bound(exponent: nat)
    requires
        exponent <= 126,
    ensures
        0 < pow2(exponent) <= 0x4000_0000_0000_0000_0000_0000_0000_0000,
{
    lemma2_to64();
    lemma2_to64_rest();
    lemma_pow2_adds(64, 62);
    lemma_pow2_pos(exponent);
    if exponent < 126 {
        lemma_pow2_strictly_increases(exponent, 126);
    }
    assert(pow2(126) == pow2(64) * pow2(62));
    assert(0x1_0000_0000_0000_0000int * 0x4000_0000_0000_0000int
        == 0x4000_0000_0000_0000_0000_0000_0000_0000int) by (nonlinear_arith);
}

fn fixed_units(mantissa: u64, exponent: i64) -> (r: i128)
    requires
        mantissa <= 0x40_0000_0000_0000,
        -149 <= exponent,
    ensures
        r == fixed_magnitude(mantissa as nat, exponent as int),
        0 <= r <= fixed_limit(),
{
    let limit: u128 = 0x2000_0000_0000_0000_0000_0000_0000_0000;
    let units: u128 = if mantissa == 0 {
        proof {
            if exponent + 64 >= 0 {
                let p = pow2((exponent + 64) as nat);
                assert(0 * p == 0) by (nonlinear_arith);
            } else {
                lemma_pow2_pos((-exponent - 64) as nat);
                let q = pow2((-exponent - 64) as nat) as int;
                assert(0int / q == 0) by (nonlinear_arith)
                    requires
                        q > 0,
                ;
            }
        }
        0
    } else if exponent >= 62 {
        limit
    } else if exponent >= -64 {
        let power: u128 = power_of_two((exponent + 64) as u64);
        match (mantissa as u128).checked_mul(power) {
            Some(product) => product,
            None => limit,
        }
    } else {
        let power: u128 = power_of_two((-exponent - 64) as u64);
        proof {
            lemma_pow2_pos((-exponent - 64) as nat);
        }
        mantissa as u128 / power
    };
    if units < limit {
        units as i128
    } else {
        limit as i128
    }
}

/// The fixed-point value of a number.
pub fn to_fixed(number: &Number) -> (r: i128)
    requires
        number.wf(),
    ensures
        r == fixed_point(number@),
        -fixed_limit() <= r <= fixed_limit(),
{
    if !number.finite {
        return 0x2000_0000_0000_0000_0000_0000_0000_0000;
    }
    if number.mantissa < 0 {
        -fixed_units((-number.mantissa) as u64, number.exponent)
    } else {
        fixed_units(number.mantissa as u64, number.exponent)
    }
}

/// Whether a fixed-point value lies from `low / den` to `high / den`.
pub open spec fn within(value: int, low: int, high: int, den: int) -> bool {
    low * fixed_one() <= value * den <= high * fixed_one()
}

/// Whether a fixed-point value lies within bounds.
pub fn is_within(value: i128, low: i64, high: i64, den: i64) -> (r: bool)
    requires
        1 <= den <= 1000,
        -0x1_0000_0000 <= low <= high <= 0x1_0000_0000,
    ensures
        r == within(value as int, low as int, high as int, den as int),
{
    let far: i128 = 0x10_0000_0000_0000_0000_0000_0000;
    let v: i128 = value;
    let ghost d = den as int;
    if v <= -far {
        assert(v * d <= -(0x10_0000_0000_0000_0000_0000_0000int)) by (nonlinear_arith)
            requires
                v <= -0x10_0000_0000_0000_0000_0000_0000int,
                d >= 1,
        ;
        return false;
    }
    if v >= far {
        assert(v * d >= 0x10_0000_0000_0000_0000_0000_0000int) by (nonlinear_arith)
            requires
                v >= 0x10_0000_0000_0000_0000_0000_0000int,
                d >= 1,
        ;
        return false;
    }
    assert(-0x1_0000_0000_0000_0000_0000_0000_0000int <= v * d
        <= 0x1_0000_0000_0000_0000_0000_0000_0000int) by (nonlinear_arith)
        requires
            -0x10_0000_0000_0000_0000_0000_0000int <= v <= 0x10_0000_0000_0000_0000_0000_0000int,
            1 <= d <= 1000,
    ;
    let scaled: i128 = v * (den as i128);
    let one: i128 = 0x1_0000_0000_0000_0000;
    (low as i128) * one <= scaled && scaled <= (high as i128) * one
}

/// How often a page is turned by a right angle, for a rotation in degrees.
pub open spec fn quarter_turns(number: NumberModel) -> Option<u8> {
    match number {
        NumberModel::Finite(mantissa, exponent) => {
            let degrees = mantissa * pow2(exponent as nat);
            if exponent < 0 || exponent >= 63 || degrees >= 0x8000_0000_0000_0000 || degrees
                < -0x8000_0000_0000_0000 || degrees % 90 != 0 {
                None
            } else {
                Some(((degrees % 360) / 90) as u8)
            }
        },
        NumberModel::NotFinite(_) => None,
    }
}

/// The quarter turns of a rotation that is a whole multiple of 90 degrees.
pub fn to_quarter_turns(number: &Number) -> (r: Option<u8>)
    requires
        number.wf(),
    ensures
        r == quarter_turns(number@),
        r matches Some(turns) ==> turns < 4,
{
    if !number.finite || number.exponent < 0 || number.exponent >= 63 {
        return None;
    }
    let power: u128 = power_of_two(number.exponent as u64);
    let ghost m = number.mantissa as int;
    let ghost p = power as int;
    proof {
        lemma2_to64();
        lemma2_to64_rest();
        if number.exponent < 63 {
            lemma_pow2_strictly_increases(number.exponent as nat, 63);
        }
        assert(-0x40_0000_0000_0000 * 0x8000_0000_0000_0000int <= m * p <= 0x40_0000_0000_0000
            * 0x8000_0000_0000_0000int) by (nonlinear_arith)
            requires
                -0x40_0000_0000_0000 <= m <= 0x40_0000_0000_0000,
                0 <= p <= 0x8000_0000_0000_0000,
        ;
    }
    let degrees: i128 = (number.mantissa as i128) * (power as i128);
    if degrees >= 0x8000_0000_0000_0000 || degrees < -0x8000_0000_0000_0000 {
        return None;
    }
    let offset: i128 = degrees + 0x8000_0000_0000_0000 + 0x160;
    assert((0x8000_0000_0000_0000int + 0x160) % 360 == 0);
    assert(offset as int % 360 == degrees as int % 360);
    let turn: i128 = offset % 360;
    assert(degrees as int % 90 == turn as int % 90);
    if turn % 90 != 0 {
        return None;
    }
    Some((turn / 90) as u8)
}

} // verus!
