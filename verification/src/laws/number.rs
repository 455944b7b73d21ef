//! Laws of single-precision values.

use crate::float32::{lemma_magnitude_monotone, Float32};
use vstd::arithmetic::div_mod::lemma_fundamental_div_mod;
use vstd::arithmetic::power2::{lemma2_to64, lemma_pow2_pos, lemma_pow2_unfold, pow2};
use vstd::prelude::*;

verus! {

/// The numbers that bit patterns stand for: the smallest are counted out one by
/// one, one step of the exponent field doubles, and the top bit turns the sign.
pub proof fn law_units_of_bits(a: Float32, b: Float32)
    ensures
        a.bits < 0x100_0000 ==> a.units() == a.bits,
        a.bits >= 0x80_0000 && b.bits == a.bits + 0x80_0000 && b.bits <= 0x7f80_0000 ==> b.units()
            == 2 * a.units(),
        a.bits < 0x8000_0000 && b.bits == a.bits + 0x8000_0000 ==> b.units() == -a.units(),
{
    lemma2_to64();
    if a.bits < 0x100_0000 {
        let (e, f) = (a.bits as int / 0x80_0000, a.bits as int % 0x80_0000);
        assert(e == 0 || e == 1);
        assert((0x80_0000 + f) * pow2(0) == 0x80_0000 + f);
    }
    if a.bits >= 0x80_0000 && b.bits == a.bits + 0x80_0000 && b.bits <= 0x7f80_0000 {
        let (e, f) = (a.bits as int / 0x80_0000, a.bits as int % 0x80_0000);
        assert(b.bits as int / 0x80_0000 == e + 1);
        assert(b.bits as int % 0x80_0000 == f);
        lemma_pow2_unfold(e as nat);
        let p = pow2((e - 1) as nat) as int;
        assert((0x80_0000 + f) * (2 * p) == 2 * ((0x80_0000 + f) * p)) by (nonlinear_arith);
    }
}

/// Which bit patterns are no numbers, and which are finite ones.
pub proof fn law_kinds(a: Float32, nan: bool, finite: bool)
    requires
        call_ensures(Float32::is_nan, (a,), nan),
        call_ensures(Float32::is_finite, (a,), finite),
    ensures
        a.nan() == nan,
        nan <==> 0x7f80_0000 < a.bits < 0x8000_0000 || 0xff80_0000 < a.bits,
        finite <==> a.bits < 0x7f80_0000 || 0x8000_0000 <= a.bits < 0xff80_0000,
{
}

/// A bit pattern goes in and comes out as it is.
pub proof fn law_bits_are_kept(bits: u32, a: Float32, out: u32)
    requires
        call_ensures(Float32::from_bits, (bits,), a),
        call_ensures(Float32::to_bits, (a,), out),
    ensures
        out == bits,
        a.bits == bits,
{
}

/// Non-negative numbers are ordered as their bit patterns are.
proof fn lemma_bits_order(a: Float32, b: Float32)
    requires
        a.bits <= 0x7f80_0000,
        b.bits <= 0x7f80_0000,
    ensures
        a.units() >= 0,
        a.bits > 0 ==> a.units() > 0,
        a.units() < b.units() <==> a.bits < b.bits,
{
    lemma2_to64();
    if a.bits > 0 {
        lemma_magnitude_monotone(0, a.bits as int);
    }
    if a.bits < b.bits {
        lemma_magnitude_monotone(a.bits as int, b.bits as int);
    }
    if b.bits < a.bits {
        lemma_magnitude_monotone(b.bits as int, a.bits as int);
    }
}

/// Numbers are ordered as their bit patterns are, negative ones the other way
/// round and below the others; the two zeros are equal.
pub proof fn law_order(a: Float32, b: Float32, less: bool, at_most: bool)
    requires
        call_ensures(Float32::less, (a, b), less),
        call_ensures(Float32::at_most, (a, b), at_most),
        a.bits <= 0x7f80_0000 || 0x8000_0000 <= a.bits <= 0xff80_0000,
        b.bits <= 0x7f80_0000 || 0x8000_0000 <= b.bits <= 0xff80_0000,
    ensures
        a.bits < 0x8000_0000 && b.bits < 0x8000_0000 ==> {
            &&& less == (a.bits < b.bits)
            &&& at_most == (a.bits <= b.bits)
        },
        a.bits >= 0x8000_0000 && b.bits >= 0x8000_0000 ==> {
            &&& less == (a.bits > b.bits)
            &&& at_most == (a.bits >= b.bits)
        },
        a.bits >= 0x8000_0000 && b.bits < 0x8000_0000 ==> {
            &&& less == !(a.bits == 0x8000_0000 && b.bits == 0)
            &&& at_most
        },
        a.bits < 0x8000_0000 && b.bits >= 0x8000_0000 ==> {
            &&& !less
            &&& at_most == (a.bits == 0 && b.bits == 0x8000_0000)
        },
        less == (a.units() < b.units()),
        at_most == (a.units() <= b.units()),
{
    let p = Float32 { bits: a.magnitude() as u32 };
    let q = Float32 { bits: b.magnitude() as u32 };
    lemma_bits_order(p, q);
    lemma_bits_order(q, p);
    lemma2_to64();
}

/// What is no number is neither below nor above anything.
pub proof fn law_nan_has_no_order(a: Float32, b: Float32, less: bool, at_most: bool)
    requires
        call_ensures(Float32::less, (a, b), less),
        call_ensures(Float32::at_most, (a, b), at_most),
        0x7f80_0000 < a.bits < 0x8000_0000 || 0xff80_0000 < a.bits || 0x7f80_0000 < b.bits
            < 0x8000_0000 || 0xff80_0000 < b.bits,
    ensures
        !less,
        !at_most,
{
}

/// Negation turns the sign and nothing else; without its sign, a value is the
/// one of the two that is not negative.
pub proof fn law_signs(a: Float32, turned: Float32, cleared: Float32)
    requires
        call_ensures(Float32::neg, (a,), turned),
        call_ensures(Float32::abs, (a,), cleared),
    ensures
        turned.bits != a.bits,
        turned.bits as int % 0x8000_0000 == a.bits as int % 0x8000_0000,
        turned.units() == -a.units(),
        cleared.bits < 0x8000_0000,
        cleared == a || cleared == turned,
{
}

/// The larger of two numbers is one of them, and neither exceeds it; what is no
/// number gives way.
pub proof fn law_larger(a: Float32, b: Float32, larger: Float32)
    requires
        call_ensures(Float32::max, (a, b), larger),
    ensures
        !a.nan() && !b.nan() ==> {
            &&& larger == a || larger == b
            &&& a.units() <= larger.units()
            &&& b.units() <= larger.units()
        },
        a.nan() ==> larger == b,
        !a.nan() && b.nan() ==> larger == a,
{
}

/// Rounding down gives the integer that is not above the value while the next is;
/// beyond the range of the result it gives the end of the range, and zero for
/// what is no number.
pub proof fn law_rounding_down(a: Float32, whole: i32)
    requires
        call_ensures(Float32::floor_to_i32, (a,), whole),
    ensures
        ({
            let one = pow2(149) as int;
            &&& a.nan() ==> whole == 0
            &&& !a.nan() && a.units() >= 0x8000_0000 * one ==> whole == 0x7fff_ffff
            &&& !a.nan() && a.units() < -0x8000_0000 * one ==> whole == -0x8000_0000
            &&& !a.nan() && -0x8000_0000 * one <= a.units() < 0x8000_0000 * one ==> whole * one
                <= a.units() < (whole + 1) * one
        }),
{
    let one = pow2(149) as int;
    let v = a.units();
    lemma_pow2_pos(149);
    lemma_fundamental_div_mod(v, one);
    let (q, r) = (v / one, v % one);
    assert(q * one <= v < (q + 1) * one) by (nonlinear_arith)
        requires
            v == one * q + r,
            0 <= r < one,
    ;
    assert(v >= 0x8000_0000 * one ==> q >= 0x8000_0000) by (nonlinear_arith)
        requires
            q * one <= v < (q + 1) * one,
            one > 0,
    ;
    assert(v < -0x8000_0000 * one ==> q < -0x8000_0000) by (nonlinear_arith)
        requires
            q * one <= v < (q + 1) * one,
            one > 0,
    ;
    assert(-0x8000_0000 * one <= v < 0x8000_0000 * one ==> -0x8000_0000 <= q < 0x8000_0000)
        by (nonlinear_arith)
        requires
            q * one <= v < (q + 1) * one,
            one > 0,
    ;
}

} // verus!
