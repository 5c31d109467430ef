//! Checked integer arithmetic of math layout: font-unit scaling and exact
//! rounding to the nearest integer with ties to even.
use vstd::prelude::*;

verus! {

/// A font the layout reads could not answer a query.
#[derive(Clone, Copy, Debug, PartialEq, Eq, Structural)]
pub enum MathFontError {
    MissingGlyph,
    MissingVariant,
}

/// Why math layout was refused.
#[derive(Clone, Copy, Debug, PartialEq, Eq, Structural)]
pub enum MathComputationError {
    ParsedReceipt,
    Font(MathFontError),
    LayoutUnitLimit,
    ArithmeticOverflow,
    EmptyPaint,
    ReceiptMismatch,
    AllocationFailure,
}

impl From<MathFontError> for MathComputationError {
    fn from(value: MathFontError) -> (e: Self) {
        MathComputationError::Font(value)
    }
}

impl vstd::std_specs::convert::FromSpecImpl<MathFontError> for MathComputationError {
    open spec fn obeys_from_spec() -> bool {
        true
    }

    open spec fn from_spec(value: MathFontError) -> Self {
        MathComputationError::Font(value)
    }
}

pub type Checked<T> = Result<T, MathComputationError>;

pub open spec fn overflow<T>() -> Checked<T> {
    Err(MathComputationError::ArithmeticOverflow)
}

pub open spec fn fits_i64(v: int) -> bool {
    i64::MIN <= v <= i64::MAX
}

/// Sum if it fits `i64`.
pub open spec fn add_spec(a: int, b: int) -> Checked<i64> {
    if fits_i64(a + b) {
        Ok((a + b) as i64)
    } else {
        overflow()
    }
}

/// Difference if it fits `i64`.
pub open spec fn sub_spec(a: int, b: int) -> Checked<i64> {
    if fits_i64(a - b) {
        Ok((a - b) as i64)
    } else {
        overflow()
    }
}

/// The integer nearest to `n / d` (for `d > 0`), ties to the even one.
pub open spec fn nearest_even(n: int, d: int) -> int {
    let q = n / d;
    let r = n % d;
    if 2 * r > d || (2 * r == d && q % 2 != 0) {
        q + 1
    } else {
        q
    }
}

/// `value * multiplier / denominator` rounded to nearest, ties to even;
/// refused when the product or the result leaves `i64` or the denominator
/// is not positive.
pub open spec fn round_ratio_spec(value: int, multiplier: int, denominator: int) -> Checked<i64> {
    if !fits_i64(value * multiplier) || denominator <= 0 {
        overflow()
    } else if !fits_i64(nearest_even(value * multiplier, denominator)) {
        overflow()
    } else {
        Ok(nearest_even(value * multiplier, denominator) as i64)
    }
}

/// Font units scaled to a size: `units * size / units_per_em`, rounded.
pub open spec fn scale_spec(units: int, size_raw: int, units_per_em: int) -> Checked<i64> {
    if !fits_i64(units * size_raw) {
        overflow()
    } else {
        round_ratio_spec(units * size_raw, 1, units_per_em)
    }
}

pub fn checked_add(left: i64, right: i64) -> (r: Checked<i64>)
    ensures
        r == add_spec(left as int, right as int),
{
    match left.checked_add(right) {
        Some(v) => Ok(v),
        None => Err(MathComputationError::ArithmeticOverflow),
    }
}

pub fn checked_sub(left: i64, right: i64) -> (r: Checked<i64>)
    ensures
        r == sub_spec(left as int, right as int),
{
    match left.checked_sub(right) {
        Some(v) => Ok(v),
        None => Err(MathComputationError::ArithmeticOverflow),
    }
}

pub fn checked_add_u64(left: u64, right: u64) -> (r: Checked<u64>)
    ensures
        r matches Ok(v) ==> v == left + right,
        r is Err <==> left + right > u64::MAX,
        r matches Err(e) ==> e == MathComputationError::ArithmeticOverflow,
{
    match left.checked_add(right) {
        Some(v) => Ok(v),
        None => Err(MathComputationError::ArithmeticOverflow),
    }
}

proof fn lemma_nearest_even_negated(m: int, d: int)
    requires
        m >= 0,
        d > 0,
    ensures
        nearest_even(-m, d) == -nearest_even(m, d),
{
    let q = m / d;
    let r = m % d;
    vstd::arithmetic::div_mod::lemma_fundamental_div_mod(m, d);
    assert(0 <= r < d);
    if r == 0 {
        assert(-m == (-q) * d + 0) by (nonlinear_arith)
            requires
                m == d * q + r,
                r == 0,
        ;
        vstd::arithmetic::div_mod::lemma_fundamental_div_mod_converse(-m, d, -q, 0);
    } else {
        assert(-m == (-q - 1) * d + (d - r)) by (nonlinear_arith)
            requires
                m == d * q + r,
        ;
        vstd::arithmetic::div_mod::lemma_fundamental_div_mod_converse(-m, d, -q - 1, d - r);
        assert((-q - 1) % 2 != 0 <==> q % 2 == 0);
    }
}

/// Round to nearest, ties to even, of `magnitude / divisor`.
fn round_magnitude(magnitude: u64, divisor: u64) -> (r: u64)
    requires
        divisor > 0,
    ensures
        r == nearest_even(magnitude as int, divisor as int),
{
    let quotient = magnitude / divisor;
    let remainder = magnitude % divisor;
    let twice = remainder as u128 * 2;
    if twice > divisor as u128 || (twice == divisor as u128 && quotient % 2 != 0) {
        proof {
            assert(quotient < u64::MAX) by (nonlinear_arith)
                requires
                    quotient == magnitude / divisor,
                    remainder == magnitude % divisor,
                    remainder > 0,
                    divisor > 0,
                    magnitude <= u64::MAX,
            {
                vstd::arithmetic::div_mod::lemma_fundamental_div_mod(magnitude as int, divisor as int);
            }
        }
        quotient + 1
    } else {
        quotient
    }
}

/// Round `value * multiplier / denominator` to nearest, ties to even.
pub fn round_ratio(value: i64, multiplier: i64, denominator: i64) -> (r: Checked<i64>)
    ensures
        r == round_ratio_spec(value as int, multiplier as int, denominator as int),
{
    let numerator = match value.checked_mul(multiplier) {
        Some(v) => v,
        None => return Err(MathComputationError::ArithmeticOverflow),
    };
    if denominator <= 0 {
        return Err(MathComputationError::ArithmeticOverflow);
    }
    let divisor = denominator as u64;
    if numerator >= 0 {
        let rounded = round_magnitude(numerator as u64, divisor);
        if rounded > i64::MAX as u64 {
            return Err(MathComputationError::ArithmeticOverflow);
        }
        Ok(rounded as i64)
    } else {
        let magnitude: u64 = if numerator == i64::MIN {
            0x8000_0000_0000_0000u64
        } else {
            (-numerator) as u64
        };
        let rounded = round_magnitude(magnitude, divisor);
        proof {
            lemma_nearest_even_negated(magnitude as int, divisor as int);
        }
        if rounded > 0x8000_0000_0000_0000u64 {
            return Err(MathComputationError::ArithmeticOverflow);
        }
        if rounded == 0x8000_0000_0000_0000u64 {
            Ok(i64::MIN)
        } else {
            Ok(-(rounded as i64))
        }
    }
}

/// Scale font units to a font size.
pub fn scale_font_units(units: i64, size_raw: i64, units_per_em: u16) -> (r: Checked<i64>)
    ensures
        r == scale_spec(units as int, size_raw as int, units_per_em as int),
{
    let numerator = match units.checked_mul(size_raw) {
        Some(v) => v,
        None => return Err(MathComputationError::ArithmeticOverflow),
    };
    round_ratio(numerator, 1, units_per_em as i64)
}

/// Smallest font-unit count whose scaled size covers `raw` at `size_raw`:
/// `ceil(raw * units_per_em / size_raw)`, refused unless it fits `u16` and
/// both inputs are positive.
pub fn unscale_font_units_ceiling(raw: i64, size_raw: i64, units_per_em: u16) -> (r: Checked<u16>)
    ensures
        r matches Ok(u) ==> raw > 0 && size_raw > 0 && u as int == (raw * units_per_em + size_raw
            - 1) / (size_raw as int),
        r is Err <==> (raw <= 0 || size_raw <= 0 || !fits_i64(raw * units_per_em)
            || !fits_i64(raw * units_per_em + size_raw - 1) || (raw * units_per_em + size_raw - 1)
            / (size_raw as int) > u16::MAX),
        r matches Err(e) ==> e == MathComputationError::ArithmeticOverflow,
{
    if raw <= 0 || size_raw <= 0 {
        return Err(MathComputationError::ArithmeticOverflow);
    }
    let numerator = match raw.checked_mul(units_per_em as i64) {
        Some(v) => v,
        None => return Err(MathComputationError::ArithmeticOverflow),
    };
    let sum = match numerator.checked_add(size_raw - 1) {
        Some(v) => v,
        None => return Err(MathComputationError::ArithmeticOverflow),
    };
    let units = sum / size_raw;
    proof {
        assert(units == (sum as int) / (size_raw as int)) by (nonlinear_arith)
            requires
                units == sum / size_raw,
                sum >= 0,
                size_raw > 0,
        ;
    }
    if units > u16::MAX as i64 {
        return Err(MathComputationError::ArithmeticOverflow);
    }
    Ok(units as u16)
}

/// Magnitude within the JSON-safe integer range.
pub open spec fn portable(value: int) -> bool {
    -9007199254740991 <= value <= 9007199254740991
}

pub fn portable_integer(value: i64) -> (r: bool)
    ensures
        r == portable(value as int),
{
    -9007199254740991 <= value && value <= 9007199254740991
}

} // verus!
