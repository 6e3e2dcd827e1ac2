//! JavaScript numbers, as the bits of their IEEE 754 double representation.
use vstd::arithmetic::power2::*;
use vstd::bits::*;
use vstd::prelude::*;

verus! {

/// The largest magnitude up to which every integer is a double: two to the power of 53.
pub const WHOLE_LIMIT: i64 = 9007199254740992;

/// The biased exponent of a double.
pub open spec fn biased_exponent(bits: u64) -> int {
    (bits as int / 0x10_0000_0000_0000) % 0x800
}

/// The fraction field of a double.
pub open spec fn fraction(bits: u64) -> int {
    bits as int % 0x10_0000_0000_0000
}

/// The sign of a double is set.
pub open spec fn negative(bits: u64) -> bool {
    bits >= 0x8000_0000_0000_0000
}

/// A double is neither an infinity nor a NaN.
pub open spec fn finite(bits: u64) -> bool {
    biased_exponent(bits) != 0x7ff
}

/// The integer that, times two to the power of `scale(bits)`, is a double's magnitude.
pub open spec fn significand(bits: u64) -> int {
    if biased_exponent(bits) == 0 {
        fraction(bits)
    } else {
        0x10_0000_0000_0000 + fraction(bits)
    }
}

/// The power of two by which a double's significand is scaled.
pub open spec fn scale(bits: u64) -> int {
    if biased_exponent(bits) == 0 {
        -1074
    } else {
        biased_exponent(bits) - 1075
    }
}

/// The absolute value of an integer.
pub open spec fn magnitude(value: int) -> int {
    if value < 0 {
        -value
    } else {
        value
    }
}

/// A double's value is the integer `value`. Both zeros have the value 0.
pub open spec fn represents(bits: u64, value: int) -> bool {
    &&& finite(bits)
    &&& if scale(bits) >= 0 {
        magnitude(value) == significand(bits) * pow2(scale(bits) as nat)
    } else {
        magnitude(value) * pow2((-scale(bits)) as nat) == significand(bits)
    }
    &&& value != 0 ==> (value < 0) == negative(bits)
}

/// A double is no number.
pub open spec fn is_nan(bits: u64) -> bool {
    biased_exponent(bits) == 0x7ff && fraction(bits) != 0
}

/// The distance from a double to the next one on the side of an integer. Below a power of two it is
/// half of what it is above.
pub open spec fn gap(bits: u64, near: int, value: int) -> int {
    if magnitude(value) < magnitude(near) && fraction(bits) == 0 {
        pow2((scale(bits) - 1) as nat) as int
    } else {
        pow2(scale(bits) as nat) as int
    }
}

/// A double is nearest to an integer: it is at most half of the way to the next double on that side
/// away, and on a tie its significand is even.
pub open spec fn is_nearest(bits: u64, value: int) -> bool {
    exists|near: int| #[trigger]
        represents(bits, near) && if near == value {
            true
        } else {
            &&& scale(bits) > 0
            &&& 2 * magnitude(near - value) <= gap(bits, near, value)
            &&& 2 * magnitude(near - value) == gap(bits, near, value) ==> significand(bits) % 2
                == 0
        }
}

/// Whether a double is neither an infinity nor a NaN.
pub fn is_finite(bits: u64) -> (is_finite: bool)
    ensures
        is_finite == finite(bits),
{
    (bits / 0x10_0000_0000_0000) % 0x800 != 0x7ff
}

/// The integer of at most 53 bits that a double stands for, if it stands for one.
pub open spec fn whole_of(bits: u64) -> Option<i64> {
    if exists|value: i64| -WHOLE_LIMIT <= value <= WHOLE_LIMIT && represents(bits, value as int) {
        Some(
            choose|value: i64|
                -WHOLE_LIMIT <= value <= WHOLE_LIMIT && represents(bits, value as int),
        )
    } else {
        None
    }
}

/// The integer of at most 53 bits that a double stands for, if it stands for one.
pub fn whole_number(bits: u64) -> (whole: Option<i64>)
    ensures
        whole == whole_of(bits),
{
    let whole = search_whole_number(bits);
    proof {
        if let Some(value) = whole {
            law_whole_number(bits, value);
        }
    }
    whole
}

/// A double that stands for an integer of at most 53 bits stands for that one.
pub proof fn law_whole_number(bits: u64, value: i64)
    requires
        represents(bits, value as int),
        magnitude(value as int) <= WHOLE_LIMIT,
    ensures
        whole_of(bits) == Some(value),
{
    assert(represents(bits, value as int) && -WHOLE_LIMIT <= value <= WHOLE_LIMIT);
    law_value_is_unique(bits, whole_of(bits)->0 as int, value as int);
}

/// A double that is no number stands for no integer.
pub proof fn lemma_nan_is_no_integer(bits: u64)
    requires
        is_nan(bits),
    ensures
        !finite(bits),
        whole_of(bits) is None,
{
}

/// Looks for the integer of at most 53 bits that a double stands for.
fn search_whole_number(bits: u64) -> (whole: Option<i64>)
    ensures
        whole matches Some(value) ==> represents(bits, value as int) && -WHOLE_LIMIT <= value
            <= WHOLE_LIMIT,
        whole is None ==> forall|value: int|
            -WHOLE_LIMIT <= value <= WHOLE_LIMIT ==> !represents(bits, value),
{
    let exponent: u64 = (bits / 0x10_0000_0000_0000) % 0x800;
    let low: u64 = bits % 0x10_0000_0000_0000;
    if exponent == 0x7ff {
        return None;
    }
    let digits: u64 = if exponent == 0 { low } else { 0x10_0000_0000_0000 + low };
    assert(digits == significand(bits));
    if digits == 0 {
        assert(represents(bits, 0)) by {
            assert(0int * pow2((-scale(bits)) as nat) == 0) by (nonlinear_arith);
        }
        return Some(0);
    }
    let size: i64;
    if exponent >= 1075 {
        proof {
            lemma_pow2_pos(scale(bits) as nat);
            lemma2_to64();
        }
        if exponent == 1075 {
            size = digits as i64;
            assert(size == digits * pow2(0)) by (nonlinear_arith)
                requires
                    size == digits,
                    pow2(0) == 1,
            ;
        } else if exponent == 1076 && low == 0 {
            size = WHOLE_LIMIT;
            assert(size == digits * pow2(1)) by (nonlinear_arith)
                requires
                    size == 9007199254740992,
                    digits == 0x10_0000_0000_0000,
                    pow2(1) == 2,
            ;
        } else {
            proof {
                lemma_large(bits);
            }
            return None;
        }
    } else {
        let shift: u64 = if exponent == 0 { 1074 } else { 1075 - exponent };
        assert(shift == -scale(bits));
        if shift > 52 {
            proof {
                lemma_small(bits);
            }
            return None;
        }
        let unit: u64 = 1u64 << shift;
        proof {
            lemma_pow2_pos(shift as nat);
        }
        assert(unit == pow2(shift as nat)) by {
            lemma_u64_pow2_no_overflow(shift as nat);
            assert(1 * pow2(shift as nat) <= u64::MAX);
            lemma_u64_shl_is_mul(1, shift);
        }
        if digits % unit != 0 {
            proof {
                assert forall|value: int| !represents(bits, value) by {
                    if represents(bits, value) {
                        lemma_multiple(magnitude(value), unit as int, digits as int);
                    }
                }
            }
            return None;
        }
        let quotient: u64 = digits / unit;
        proof {
            vstd::arithmetic::div_mod::lemma_fundamental_div_mod(digits as int, unit as int);
            assert(quotient * unit == digits) by (nonlinear_arith)
                requires
                    digits == unit * quotient + digits % unit,
                    digits % unit == 0,
            ;
            assert(quotient <= digits) by (nonlinear_arith)
                requires
                    quotient * unit == digits,
                    unit >= 1,
            ;
            assert(quotient > 0) by (nonlinear_arith)
                requires
                    quotient * unit == digits,
                    digits > 0,
            ;
        }
        size = quotient as i64;
    }
    assert(size > 0);
    assert(if scale(bits) >= 0 {
        size == significand(bits) * pow2(scale(bits) as nat)
    } else {
        size * pow2((-scale(bits)) as nat) == significand(bits)
    });
    if bits >= 0x8000_0000_0000_0000 {
        Some(-size)
    } else {
        Some(size)
    }
}

/// A double with a scale beyond the whole range is larger than every whole number.
proof fn lemma_large(bits: u64)
    requires
        finite(bits),
        scale(bits) > 1 || (scale(bits) == 1 && fraction(bits) != 0),
    ensures
        forall|value: int| -WHOLE_LIMIT <= value <= WHOLE_LIMIT ==> !represents(bits, value),
{
    assert forall|value: int| -WHOLE_LIMIT <= value <= WHOLE_LIMIT implies !represents(
        bits,
        value,
    ) by {
        lemma2_to64();
        let power = pow2(scale(bits) as nat);
        if scale(bits) > 1 {
            lemma_pow2_strictly_increases(1, scale(bits) as nat);
        }
        let digits = significand(bits);
        assert(digits * power > WHOLE_LIMIT) by (nonlinear_arith)
            requires
                digits >= 0x10_0000_0000_0000,
                power >= 2,
                power > 2 || digits > 0x10_0000_0000_0000,
                WHOLE_LIMIT == 9007199254740992,
        ;
    }
}

/// A nonzero double with a scale below the whole range lies between the integers.
proof fn lemma_small(bits: u64)
    requires
        significand(bits) != 0,
        scale(bits) < -52,
    ensures
        forall|value: int| !represents(bits, value),
{
    assert forall|value: int| !represents(bits, value) by {
        let shift = (-scale(bits)) as nat;
        lemma2_to64_rest();
        if shift > 53 {
            lemma_pow2_strictly_increases(53, shift);
        }
        let power = pow2(shift);
        let digits = significand(bits);
        assert(0 < digits < 0x20_0000_0000_0000);
        let size = magnitude(value);
        assert(size * power != digits) by (nonlinear_arith)
            requires
                size >= 0,
                power >= 0x20_0000_0000_0000,
                0 < digits < 0x20_0000_0000_0000,
        ;
    }
}

/// A product leaves no remainder when it is divided by a factor.
proof fn lemma_multiple(factor: int, unit: int, product: int)
    requires
        factor * unit == product,
        unit > 0,
    ensures
        product % unit == 0,
{
    vstd::arithmetic::div_mod::lemma_mod_multiples_basic(factor, unit);
}

/// No double stands for two integers.
pub proof fn law_value_is_unique(bits: u64, one: int, other: int)
    requires
        represents(bits, one),
        represents(bits, other),
    ensures
        one == other,
{
    if scale(bits) < 0 {
        let power = pow2((-scale(bits)) as nat);
        lemma_pow2_pos((-scale(bits)) as nat);
        assert(magnitude(one) == magnitude(other)) by (nonlinear_arith)
            requires
                magnitude(one) * power == magnitude(other) * power,
                power > 0,
        ;
    }
}

/// A finite double is a number.
pub proof fn lemma_finite_is_no_nan(bits: u64)
    requires
        finite(bits),
    ensures
        !is_nan(bits),
{
}

} // verus!
