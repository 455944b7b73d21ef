//! Laws of shared-exponent pixels.

use crate::float32::{lemma_magnitude_monotone, Float32};
use crate::rgbe::{brightest, channel_byte, encodable, exp2i, float_to_rgbe, law_shared_exponent, shared_exponent};
use vstd::arithmetic::div_mod::lemma_fundamental_div_mod;
use vstd::arithmetic::power2::{
    lemma2_to64, lemma_pow2_adds, lemma_pow2_pos, lemma_pow2_strictly_increases, lemma_pow2_unfold, pow2,
};
use vstd::prelude::*;

verus! {

/// The channel of a pixel: red, green, blue.
pub open spec fn nth(r: Float32, g: Float32, b: Float32, k: int) -> Float32 {
    if k == 0 {
        r
    } else if k == 1 {
        g
    } else {
        b
    }
}

/// A byte that counts whole steps has the value in its own step.
proof fn lemma_steps(v: int, step: int)
    requires
        v >= 0,
        step > 0,
    ensures
        (v / step) * step <= v < (v / step + 1) * step,
        v / step >= 0,
        v < 256 * step ==> v / step <= 255,
        v >= 128 * step ==> v / step >= 128,
        v >= 256 * step ==> v / step > 255,
{
    lemma_fundamental_div_mod(v, step);
    let (q, m) = (v / step, v % step);
    assert(q * step <= v < (q + 1) * step && q >= 0 && (v < 256 * step ==> q <= 255) && (v >= 128
        * step ==> q >= 128) && (v >= 256 * step ==> q > 255)) by (nonlinear_arith)
        requires
            v == step * q + m,
            0 <= m < step,
            v >= 0,
    ;
}

/// An infinity counts as `2^128`, and finite numbers for less.
proof fn lemma_finite(c: Float32)
    requires
        !c.nan(),
        c.units() >= 0,
    ensures
        c.magnitude() < 0x7f80_0000 <==> c.units() < pow2(277),
{
    lemma2_to64();
    lemma_pow2_adds(23, 254);
    assert(0x7f80_0000int / 0x80_0000 == 255 && 0x7f80_0000int % 0x80_0000 == 0);
    if c.magnitude() < 0x7f80_0000 {
        lemma_magnitude_monotone(c.magnitude(), 0x7f80_0000);
    }
    lemma_pow2_pos(277);
}

/// Each of the first three bytes stands for its own channel, red, green and blue:
/// with the exponent byte it tells the step of `2^(byte - 136)` that the value of
/// that channel lies in. A channel that is negative or no number is at the first
/// step, and the brightest is in the upper half.
///
/// This goes for pixels with a channel above `1e-32` and none of `2^127` or more.
pub proof fn law_bytes_stand_for_channels(
    r: Float32,
    g: Float32,
    b: Float32,
    k: int,
    out: [u8; 4],
)
    requires
        call_ensures(float_to_rgbe, (r, g, b), out),
        0 <= k < 3,
        exists|i: int|
            0 <= i < 3 && !(#[trigger] nth(r, g, b, i)).nan() && nth(r, g, b, i).units() > (Float32 {
                bits: 0x0a4f_b11f,
            }).units(),
        forall|i: int|
            0 <= i < 3 ==> (#[trigger] nth(r, g, b, i)).nan() || nth(r, g, b, i).units() < pow2(276),
    ensures
        ({
            let c = nth(r, g, b, k);
            let step = pow2((out@[3] + 13) as nat) as int;
            let half = pow2((out@[3] + 12) as nat) as int;
            &&& out@[3] > 0
            &&& c.nan() || c.units() < 0 ==> out@[k] == 0
            &&& !c.nan() && c.units() >= 0 ==> {
                &&& out@[k] * step <= c.units() < (out@[k] + 1) * step
                &&& -half <= (2 * out@[k] + 1) * half - c.units() <= half
            }
            &&& out@[0] >= 128 || out@[1] >= 128 || out@[2] >= 128
        }),
{
    let level = Float32 { bits: 0x0a4f_b11f };
    lemma_magnitude_monotone(0, 0x0a4f_b11f);
    lemma2_to64();
    let i = choose|i: int|
        0 <= i < 3 && !(#[trigger] nth(r, g, b, i)).nan() && nth(r, g, b, i).units() > level.units();
    let (n0, n1, n2) = (nth(r, g, b, 0), nth(r, g, b, 1), nth(r, g, b, 2));
    let max = brightest(r, g, b);
    assert(!max.nan());
    assert(nth(r, g, b, i).units() <= max.units());
    assert(max == n0 || max == n1 || max == n2);
    lemma_finite(max);
    lemma_pow2_strictly_increases(276, 277);
    assert(encodable(max));
    law_shared_exponent(max);
    let e = shared_exponent(max);
    assert(out@[3] == e + 128);
    let step = pow2((e + 141) as nat) as int;
    let half = pow2((e + 140) as nat) as int;
    lemma_pow2_pos((e + 140) as nat);
    lemma_pow2_unfold((e + 141) as nat);
    lemma_pow2_adds(7, (e + 141) as nat);
    lemma_pow2_adds(8, (e + 141) as nat);
    assert(128 * step <= max.units() < 256 * step);
    lemma_steps(max.units(), step);
    assert(channel_byte(max, e) >= 128);
    let c = nth(r, g, b, k);
    assert(out@[k] == channel_byte(c, e));
    if !c.nan() && c.units() >= 0 {
        assert(c.units() <= max.units());
        lemma_steps(c.units(), step);
        let q = c.units() / step;
        assert(q * step == 2 * q * half && (q + 1) * step == 2 * q * half + 2 * half && (2 * q + 1)
            * half == 2 * q * half + half) by (nonlinear_arith)
            requires
                step == 2 * half,
        ;
    }
}

/// The bytes change places with the channels, and the exponent byte stays.
pub proof fn law_bytes_follow_channels(
    r: Float32,
    g: Float32,
    b: Float32,
    out: [u8; 4],
    turned: [u8; 4],
    swapped: [u8; 4],
)
    requires
        call_ensures(float_to_rgbe, (r, g, b), out),
        call_ensures(float_to_rgbe, (g, b, r), turned),
        call_ensures(float_to_rgbe, (b, g, r), swapped),
    ensures
        turned@[0] == out@[1] && turned@[1] == out@[2] && turned@[2] == out@[0] && turned@[3]
            == out@[3],
        swapped@[0] == out@[2] && swapped@[1] == out@[1] && swapped@[2] == out@[0] && swapped@[3]
            == out@[3],
{
    let (p, q, s) = (brightest(r, g, b), brightest(g, b, r), brightest(b, g, r));
    lemma_magnitude_monotone(0, 0x0a4f_b11f);
    lemma2_to64();
    assert(p.nan() == q.nan() && p.nan() == s.nan());
    if !p.nan() {
        assert(p.units() == q.units() && p.units() == s.units());
        if p.units() > 0 {
            lemma_same_number(p, q);
            lemma_same_number(p, s);
        }
    }
}

/// Two positive numbers of one value are one.
proof fn lemma_same_number(a: Float32, b: Float32)
    requires
        !a.nan(),
        !b.nan(),
        a.units() == b.units(),
        a.units() > 0,
    ensures
        a == b,
{
    lemma2_to64();
    if a.magnitude() > 0 {
        lemma_magnitude_monotone(0, a.magnitude());
    }
    if b.magnitude() > 0 {
        lemma_magnitude_monotone(0, b.magnitude());
    }
    if a.magnitude() < b.magnitude() {
        lemma_magnitude_monotone(a.magnitude(), b.magnitude());
    }
    if b.magnitude() < a.magnitude() {
        lemma_magnitude_monotone(b.magnitude(), a.magnitude());
    }
}

/// Channels of `2^127` and more are beyond the largest exponent: the exponent
/// byte is the largest, and a byte that would have to be larger than a byte can be is
/// the largest too.
pub proof fn law_bright_pixels_are_cut_off(
    r: Float32,
    g: Float32,
    b: Float32,
    k: int,
    out: [u8; 4],
)
    requires
        call_ensures(float_to_rgbe, (r, g, b), out),
        0 <= k < 3,
        exists|i: int|
            0 <= i < 3 && !(#[trigger] nth(r, g, b, i)).nan() && nth(r, g, b, i).units() >= pow2(276),
        forall|i: int|
            0 <= i < 3 ==> (#[trigger] nth(r, g, b, i)).nan() || nth(r, g, b, i).units() < pow2(277),
    ensures
        ({
            let c = nth(r, g, b, k);
            let step = pow2(268) as int;
            &&& out@[3] == 255
            &&& c.nan() || c.units() < 0 ==> out@[k] == 0
            &&& !c.nan() && 0 <= c.units() < 256 * step ==> out@[k] * step <= c.units() < (out@[k]
                + 1) * step
            &&& !c.nan() && c.units() >= 256 * step ==> out@[k] == 255
        }),
{
    let level = Float32 { bits: 0x0a4f_b11f };
    lemma2_to64();
    lemma_pow2_adds(23, 19);
    assert(level.units() < pow2(276)) by {
        let (e, f) = (0x0a4f_b11fint / 0x80_0000, 0x0a4f_b11fint % 0x80_0000);
        assert(e == 20 && f == 0x4f_b11f);
        assert(level.units() < 0x100_0000 * pow2(19));
        lemma_pow2_adds(24, 19);
        lemma_pow2_strictly_increases(43, 276);
    }
    let i = choose|i: int|
        0 <= i < 3 && !(#[trigger] nth(r, g, b, i)).nan() && nth(r, g, b, i).units() >= pow2(276);
    let (n0, n1, n2) = (nth(r, g, b, 0), nth(r, g, b, 1), nth(r, g, b, 2));
    let max = brightest(r, g, b);
    lemma_pow2_pos(276);
    assert(!max.nan());
    assert(nth(r, g, b, i).units() <= max.units());
    assert(max == n0 || max == n1 || max == n2);
    lemma_finite(max);
    assert(encodable(max));
    law_shared_exponent(max);
    let e = shared_exponent(max);
    if e < 127 {
        if e < 126 {
            lemma_pow2_strictly_increases((e + 149) as nat, 275);
        }
        lemma_pow2_strictly_increases(275, 276);
    }
    assert(e == 127);
    let c = nth(r, g, b, k);
    assert(out@[k] == channel_byte(c, 127));
    lemma_pow2_pos(268);
    if !c.nan() && c.units() >= 0 {
        lemma_steps(c.units(), pow2(268) as int);
    }
}

/// Black is every pixel without a number above `1e-32`, and every pixel with an
/// infinite channel.
pub proof fn law_black_pixels(r: Float32, g: Float32, b: Float32, out: [u8; 4])
    requires
        call_ensures(float_to_rgbe, (r, g, b), out),
        (forall|i: int|
            0 <= i < 3 ==> (#[trigger] nth(r, g, b, i)).nan() || nth(r, g, b, i).units()
                <= (Float32 { bits: 0x0a4f_b11f }).units()) || (exists|i: int|
            0 <= i < 3 && (#[trigger] nth(r, g, b, i)).bits == 0x7f80_0000),
    ensures
        out@[0] == 0 && out@[1] == 0 && out@[2] == 0 && out@[3] == 0,
{
    let (n0, n1, n2) = (nth(r, g, b, 0), nth(r, g, b, 1), nth(r, g, b, 2));
    let max = brightest(r, g, b);
    assert(max == n0 || max == n1 || max == n2);
    if exists|i: int| 0 <= i < 3 && (#[trigger] nth(r, g, b, i)).bits == 0x7f80_0000 {
        let i = choose|i: int| 0 <= i < 3 && (#[trigger] nth(r, g, b, i)).bits == 0x7f80_0000;
        let c = nth(r, g, b, i);
        lemma_magnitude_monotone(0, 0x7f80_0000);
        lemma2_to64();
        assert(c.units() > 0);
        lemma_finite(c);
        lemma_finite(max);
        assert(c.units() <= max.units());
    }
}

/// One more in the exponent doubles the power, and the power of zero is one.
pub proof fn law_powers_double(e: i32, f: i32, power: Float32, next: Float32)
    requires
        call_ensures(exp2i, (e,), power),
        call_ensures(exp2i, (f,), next),
        -126 <= e < f <= 127,
        f == e + 1,
    ensures
        next.units() == 2 * power.units(),
        e == 0 ==> power.units() == pow2(149),
{
    lemma_pow2_unfold((f + 149) as nat);
}

} // verus!
