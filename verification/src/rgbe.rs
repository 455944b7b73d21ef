//! Shared-exponent pixels: three 8-bit channels and one 8-bit exponent.

use crate::float32::{lemma_magnitude_monotone, Float32, INFINITE, SIGN_BIT, SIGNIFICAND};
use vstd::arithmetic::div_mod::{lemma_div_denominator, lemma_div_multiples_vanish, lemma_fundamental_div_mod};
use vstd::arithmetic::power2::{lemma2_to64, lemma_pow2_adds, lemma_pow2_pos, lemma_pow2_strictly_increases, pow2};
use vstd::bits::lemma_u32_shr_is_div;
use vstd::prelude::*;

verus! {

/// Bit pattern of `1e-32`; a pixel whose brightest channel is not above it is black.
pub const BLACK_LEVEL: u32 = 0x0a4f_b11f;

/// The brightest of three channels; NaNs are passed over.
pub open spec fn brightest(r: Float32, g: Float32, b: Float32) -> Float32 {
    r.max_of(g).max_of(b)
}

/// Whether a brightest channel can be encoded: above the black level, and finite.
pub open spec fn encodable(max: Float32) -> bool {
    (Float32 { bits: BLACK_LEVEL }).lt(max) && max.magnitude() < INFINITE
}

/// The exponent that brings a brightest channel into `[0.5, 1)`, capped at 127.
pub open spec fn shared_exponent(max: Float32) -> int {
    let e = max.magnitude() / 0x80_0000 - 126;
    if e > 127 {
        127
    } else {
        e
    }
}

/// One channel counted in steps of `2^(e - 8)`, cut off towards zero and clamped to a byte.
pub open spec fn channel_byte(c: Float32, e: int) -> u8 {
    if c.nan() || c.units() < 0 {
        0
    } else {
        let steps = c.units() / (pow2((e + 141) as nat) as int);
        if steps > 255 {
            255
        } else {
            steps as u8
        }
    }
}

/// The four bytes of a pixel.
pub open spec fn rgbe(r: Float32, g: Float32, b: Float32) -> Seq<u8> {
    let max = brightest(r, g, b);
    if encodable(max) {
        let e = shared_exponent(max);
        seq![channel_byte(r, e), channel_byte(g, e), channel_byte(b, e), (e + 128) as u8]
    } else {
        seq![0u8, 0u8, 0u8, 0u8]
    }
}

/// The value, in units of `2^-149`, that a reader gives a channel byte: the
/// middle of the step that it stands for.
pub open spec fn decoded_units(byte: u8, e: int) -> int {
    (2 * byte + 1) * pow2((e + 140) as nat)
}

/// No channel that is a number exceeds the brightest.
proof fn lemma_brightest(r: Float32, g: Float32, b: Float32)
    ensures
        !r.nan() ==> r.le(brightest(r, g, b)),
        !g.nan() ==> g.le(brightest(r, g, b)),
        !b.nan() ==> b.le(brightest(r, g, b)),
        brightest(r, g, b) == r || brightest(r, g, b) == g || brightest(r, g, b) == b,
{
}

/// Of two numbers, the one that is not negative and not larger has no larger magnitude.
proof fn lemma_magnitude_order(c: Float32, max: Float32)
    requires
        c.le(max),
        c.bits < SIGN_BIT,
    ensures
        c.magnitude() <= max.magnitude(),
{
    if c.magnitude() > max.magnitude() {
        lemma_magnitude_monotone(max.magnitude(), c.magnitude());
        if max.magnitude() > 0 {
            lemma_magnitude_monotone(0, max.magnitude());
        }
    }
}

/// An encodable maximum is a positive normal number.
proof fn lemma_encodable(max: Float32)
    requires
        encodable(max),
    ensures
        BLACK_LEVEL < max.bits < INFINITE,
        -106 <= shared_exponent(max) <= 127,
{
    let level = Float32 { bits: BLACK_LEVEL };
    lemma_magnitude_monotone(0, BLACK_LEVEL as int);
    if max.bits >= SIGN_BIT {
        if max.magnitude() > 0 {
            lemma_magnitude_monotone(0, max.magnitude());
        }
        assert(false);
    }
    if max.magnitude() < BLACK_LEVEL {
        lemma_magnitude_monotone(max.magnitude(), BLACK_LEVEL as int);
        assert(false);
    }
}

/// The shared exponent brings the brightest channel into `[0.5, 1)`; only a
/// channel of `2^127` or more, beyond the largest exponent, ends up above.
pub proof fn law_shared_exponent(max: Float32)
    requires
        encodable(max),
    ensures
        -106 <= shared_exponent(max) <= 127,
        pow2((shared_exponent(max) + 148) as nat) <= max.units(),
        max.units() < pow2((shared_exponent(max) + 149) as nat) || (shared_exponent(max) == 127
            && max.units() >= pow2(276)),
{
    lemma_encodable(max);
    let m = max.magnitude();
    let (k, f) = (m / 0x80_0000, m % 0x80_0000);
    let e = k - 126;
    let p = pow2((k - 1) as nat);
    lemma2_to64();
    lemma_pow2_pos((k - 1) as nat);
    lemma_pow2_adds(23, (k - 1) as nat);
    lemma_pow2_adds(24, (k - 1) as nat);
    assert(0x80_0000 * p <= (0x80_0000 + f) * p < 0x100_0000 * p) by (nonlinear_arith)
        requires
            0 <= f < 0x80_0000,
            p > 0,
    ;
    assert(pow2((e + 148) as nat) <= max.units() < pow2((e + 149) as nat));
    if e > 127 {
        assert(e == 128);
        lemma_pow2_strictly_increases(275, 276);
    }
}

/// A pixel none of whose channels is a number above the black level is black.
pub proof fn law_dark_is_black(r: Float32, g: Float32, b: Float32)
    requires
        r.nan() || r.le(Float32 { bits: BLACK_LEVEL }),
        g.nan() || g.le(Float32 { bits: BLACK_LEVEL }),
        b.nan() || b.le(Float32 { bits: BLACK_LEVEL }),
    ensures
        rgbe(r, g, b) == seq![0u8, 0u8, 0u8, 0u8],
{
}

/// The exponent byte tells black pixels from all others.
pub proof fn law_exponent_byte(r: Float32, g: Float32, b: Float32)
    ensures
        rgbe(r, g, b).len() == 4,
        rgbe(r, g, b)[3] == 0 <==> !encodable(brightest(r, g, b)),
{
    if encodable(brightest(r, g, b)) {
        lemma_encodable(brightest(r, g, b));
    }
}

/// What a channel byte loses: a reader is never off by more than half a step,
/// and a step is `2^(e - 8)`.
pub proof fn law_channel_within_half_step(c: Float32, e: int)
    requires
        !c.nan(),
        c.units() >= 0,
        -106 <= e <= 127,
        c.units() < 256 * pow2((e + 141) as nat),
    ensures
        -pow2((e + 140) as nat) <= decoded_units(channel_byte(c, e), e) - c.units() <= pow2(
            (e + 140) as nat,
        ),
{
    let step = pow2((e + 141) as nat) as int;
    let half = pow2((e + 140) as nat) as int;
    let v = c.units();
    lemma_pow2_pos((e + 140) as nat);
    lemma_pow2_adds(1, (e + 140) as nat);
    lemma2_to64();
    lemma_fundamental_div_mod(v, step);
    let q = v / step;
    assert(0 <= q < 256) by (nonlinear_arith)
        requires
            v == step * q + v % step,
            0 <= v % step < step,
            0 <= v < 256 * step,
            step > 0,
    ;
    assert((2 * q + 1) * half == step * q + half) by (nonlinear_arith)
        requires
            step == 2 * half,
    ;
}

/// Reading back the brightest channel is off by at most one part in 256, and so
/// by less than one percent. Channels of `2^127` and more are clamped instead.
pub proof fn law_round_trip_within_one_percent(r: Float32, g: Float32, b: Float32)
    requires
        encodable(brightest(r, g, b)),
        brightest(r, g, b).units() < pow2(276),
    ensures
        ({
            let max = brightest(r, g, b);
            let e = rgbe(r, g, b)[3] - 128;
            let read = decoded_units(channel_byte(max, e), e);
            &&& e == shared_exponent(max)
            &&& channel_byte(max, e) >= 128
            &&& -max.units() <= 256 * (read - max.units()) <= max.units()
            &&& -max.units() < 100 * (read - max.units()) < max.units()
        }),
{
    let max = brightest(r, g, b);
    law_shared_exponent(max);
    let e = shared_exponent(max);
    let step = pow2((e + 141) as nat) as int;
    let half = pow2((e + 140) as nat) as int;
    lemma2_to64();
    lemma_pow2_pos((e + 140) as nat);
    lemma_pow2_adds(1, (e + 140) as nat);
    lemma_pow2_adds(7, (e + 141) as nat);
    lemma_pow2_adds(8, (e + 141) as nat);
    assert(max.units() < 256 * step);
    assert(max.units() >= 128 * step);
    law_channel_within_half_step(max, e);
    lemma_fundamental_div_mod(max.units(), step);
    let v = max.units();
    let q = v / step;
    assert(128 <= q < 256) by (nonlinear_arith)
        requires
            v == step * q + v % step,
            0 <= v % step < step,
            128 * step <= v < 256 * step,
            step > 0,
    ;
}

/// `2^e`, for every exponent of a normal number.
pub fn exp2i(e: i32) -> (r: Float32)
    requires
        -126 <= e <= 127,
    ensures
        !r.nan(),
        r.units() == pow2((e + 149) as nat),
{
    let field: u32 = (e + 127) as u32;
    proof {
        let m = (field * SIGNIFICAND) as int;
        assert(m / 0x80_0000 == field);
        assert(m % 0x80_0000 == 0);
        lemma2_to64();
        lemma_pow2_adds(23, (field - 1) as nat);
    }
    Float32 { bits: field * SIGNIFICAND }
}

/// One channel in steps of `2^(e - 8)`.
fn encode_channel(c: Float32, e: i32) -> (r: u8)
    requires
        -126 <= e <= 127,
        c.nan() || c.bits >= SIGN_BIT || c.magnitude() / 0x80_0000 <= e + 127,
    ensures
        r == channel_byte(c, e as int),
{
    if c.is_nan() {
        return 0;
    }
    if c.bits >= SIGN_BIT {
        proof {
            if c.magnitude() > 0 {
                lemma_magnitude_monotone(0, c.magnitude());
            } else {
                lemma_pow2_pos((e + 141) as nat);
                assert(0int / (pow2((e + 141) as nat) as int) == 0) by (nonlinear_arith)
                    requires
                        pow2((e + 141) as nat) > 0,
                ;
            }
        }
        return 0;
    }
    let field: u32 = c.bits / SIGNIFICAND;
    let fraction: u32 = c.bits % SIGNIFICAND;
    let significand: u32 = if field == 0 {
        fraction
    } else {
        SIGNIFICAND + fraction
    };
    let exponent: i32 = if field == 0 {
        0
    } else {
        field as i32 - 1
    };
    let shift: i32 = e + 141 - exponent;
    proof {
        let p = pow2(exponent as nat) as int;
        let s = pow2(shift as nat) as int;
        let v = c.units();
        lemma2_to64();
        lemma_pow2_pos(exponent as nat);
        lemma_pow2_pos(shift as nat);
        lemma_pow2_adds(exponent as nat, shift as nat);
        assert(v == significand * p);
        assert(v >= 0) by (nonlinear_arith)
            requires
                v == significand * p,
                p > 0,
        ;
        lemma_div_denominator(v, p, s);
        lemma_div_multiples_vanish(significand as int, p);
        assert(p * (significand as int) == v) by (nonlinear_arith)
            requires
                v == significand * p,
        ;
        assert(v / (pow2((e + 141) as nat) as int) == significand as int / s);
    }
    if shift >= 32 {
        proof {
            if shift > 32 {
                lemma_pow2_strictly_increases(32, shift as nat);
            }
            assert(significand as int / (pow2(shift as nat) as int) == 0) by (nonlinear_arith)
                requires
                    0 <= significand < pow2(shift as nat),
            ;
        }
        0
    } else {
        let steps: u32 = significand >> (shift as u32);
        proof {
            lemma_u32_shr_is_div(significand, shift as u32);
        }
        if steps > 255 {
            255
        } else {
            steps as u8
        }
    }
}

/// Encode a linear RGB triple with a shared exponent.
///
/// The exponent `e` is such that the brightest channel over `2^e` lies in
/// `[0.5, 1)`. Pixels whose brightest channel is not above `1e-32`, or is
/// infinite, become black, and so do channels that are negative or NaN.
pub fn float_to_rgbe(r: Float32, g: Float32, b: Float32) -> (out: [u8; 4])
    ensures
        out@ == rgbe(r, g, b),
        encodable(brightest(r, g, b)) ==> {
            let (v, e) = (brightest(r, g, b).units(), out@[3] - 128);
            &&& pow2((e + 148) as nat) <= v
            &&& v < pow2((e + 149) as nat) || e == 127
        },
{
    let max: Float32 = r.max(g).max(b);
    let level: Float32 = Float32 { bits: BLACK_LEVEL };
    if !level.less(max) || !max.is_finite() {
        return [0, 0, 0, 0];
    }
    proof {
        lemma_encodable(max);
        law_shared_exponent(max);
        lemma_brightest(r, g, b);
        if !r.nan() && r.bits < SIGN_BIT {
            lemma_magnitude_order(r, max);
        }
        if !g.nan() && g.bits < SIGN_BIT {
            lemma_magnitude_order(g, max);
        }
        if !b.nan() && b.bits < SIGN_BIT {
            lemma_magnitude_order(b, max);
        }
    }
    let exact: i32 = (max.bits / SIGNIFICAND) as i32 - 126;
    let e: i32 = if exact > 127 {
        127
    } else {
        exact
    };
    [encode_channel(r, e), encode_channel(g, e), encode_channel(b, e), (e + 128) as u8]
}

} // verus!
