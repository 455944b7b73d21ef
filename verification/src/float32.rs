//! Single-precision values, held as their IEEE 754 bit pattern.
//!
//! Comparing, negating and splitting a binary32 value into exponent and
//! significand are exact integer operations, and so they are proved here.
//! Arithmetic that rounds belongs to the caller, who hands it in as closures.

use vstd::arithmetic::div_mod::{lemma_fundamental_div_mod, lemma_fundamental_div_mod_converse};
use vstd::arithmetic::power2::{
    lemma2_to64, lemma_pow2_adds, lemma_pow2_pos, lemma_pow2_strictly_increases, pow2,
};
use vstd::bits::{lemma_u32_shl_is_mul, lemma_u32_shr_is_div};
use vstd::prelude::*;

verus! {

/// Bit that holds the sign.
pub const SIGN_BIT: u32 = 0x8000_0000;

/// Magnitude of an infinity; every larger magnitude is a NaN.
pub const INFINITE: u32 = 0x7f80_0000;

/// One step of the exponent field: two to the number of stored significand bits.
pub const SIGNIFICAND: u32 = 0x0080_0000;

/// A binary32 value. `==` compares bit patterns; see [`Float32::less`] and
/// [`Float32::at_most`] for the numeric order.
#[derive(Copy, Clone, Debug, PartialEq, Eq, Structural)]
pub struct Float32 {
    pub bits: u32,
}

/// The value zero.
pub open spec fn zero() -> Float32 {
    Float32 { bits: 0 }
}

/// The number that a magnitude below NaN stands for, counted in units of
/// `2^-149`, the smallest positive value. An infinity counts as `2^128`.
pub open spec fn magnitude_units(m: int) -> int {
    let exponent = m / 0x80_0000;
    let fraction = m % 0x80_0000;
    if exponent == 0 {
        fraction
    } else {
        (0x80_0000 + fraction) * pow2((exponent - 1) as nat)
    }
}

impl Float32 {
    /// The bit pattern without its sign.
    pub open spec fn magnitude(self) -> int {
        if self.bits >= SIGN_BIT {
            self.bits - SIGN_BIT
        } else {
            self.bits as int
        }
    }

    /// Whether the value is not a number.
    pub open spec fn nan(self) -> bool {
        self.magnitude() > INFINITE
    }

    /// The value in units of `2^-149`; meaningless for a NaN.
    pub open spec fn units(self) -> int {
        if self.bits >= SIGN_BIT {
            -magnitude_units(self.magnitude())
        } else {
            magnitude_units(self.magnitude())
        }
    }

    /// Numeric `self <= other`; false where either is a NaN.
    pub open spec fn le(self, other: Self) -> bool {
        !self.nan() && !other.nan() && self.units() <= other.units()
    }

    /// Numeric `self < other`; false where either is a NaN.
    pub open spec fn lt(self, other: Self) -> bool {
        !self.nan() && !other.nan() && self.units() < other.units()
    }

    /// The larger value; a NaN gives way to a number.
    pub open spec fn max_of(self, other: Self) -> Self {
        if self.nan() {
            other
        } else if other.nan() || other.units() <= self.units() {
            self
        } else {
            other
        }
    }

    /// The value with its sign cleared.
    pub open spec fn abs_of(self) -> Self {
        Float32 { bits: self.magnitude() as u32 }
    }

    /// The value with its sign flipped.
    pub open spec fn neg_of(self) -> Self {
        if self.bits >= SIGN_BIT {
            Float32 { bits: (self.bits - SIGN_BIT) as u32 }
        } else {
            Float32 { bits: (self.bits + SIGN_BIT) as u32 }
        }
    }

    /// The largest integer that is not above the value, clamped to `i32`; zero for a NaN.
    pub open spec fn cell(self) -> int {
        let floor = self.units() / (pow2(149) as int);
        if self.nan() {
            0
        } else if floor > i32::MAX {
            i32::MAX as int
        } else if floor < i32::MIN {
            i32::MIN as int
        } else {
            floor
        }
    }

    /// The value with the given bit pattern.
    pub fn from_bits(bits: u32) -> (r: Self)
        ensures
            r.bits == bits,
    {
        Float32 { bits }
    }

    /// The bit pattern of the value.
    pub fn to_bits(self) -> (r: u32)
        ensures
            r == self.bits,
    {
        self.bits
    }

    /// Whether the value is not a number.
    pub fn is_nan(self) -> (r: bool)
        ensures
            r == self.nan(),
    {
        self.abs().bits > INFINITE
    }

    /// Whether the value is neither infinite nor a NaN.
    pub fn is_finite(self) -> (r: bool)
        ensures
            r == (self.magnitude() < INFINITE),
    {
        self.abs().bits < INFINITE
    }

    /// The value without its sign.
    pub fn abs(self) -> (r: Self)
        ensures
            r == self.abs_of(),
            r.bits == self.magnitude(),
    {
        if self.bits >= SIGN_BIT {
            Float32 { bits: self.bits - SIGN_BIT }
        } else {
            self
        }
    }

    /// The value with the opposite sign.
    pub fn neg(self) -> (r: Self)
        ensures
            r == self.neg_of(),
    {
        if self.bits >= SIGN_BIT {
            Float32 { bits: self.bits - SIGN_BIT }
        } else {
            Float32 { bits: self.bits + SIGN_BIT }
        }
    }

    /// Numeric `self <= other`; false where either is a NaN.
    pub fn at_most(self, other: Self) -> (r: bool)
        ensures
            r == self.le(other),
    {
        proof {
            lemma_order(self, other);
        }
        !self.is_nan() && !other.is_nan() && self.order_key() <= other.order_key()
    }

    /// Numeric `self < other`; false where either is a NaN.
    pub fn less(self, other: Self) -> (r: bool)
        ensures
            r == self.lt(other),
    {
        proof {
            lemma_order(self, other);
        }
        !self.is_nan() && !other.is_nan() && self.order_key() < other.order_key()
    }

    /// The larger of two values; a NaN gives way to a number.
    pub fn max(self, other: Self) -> (r: Self)
        ensures
            r == self.max_of(other),
    {
        if self.is_nan() {
            other
        } else if self.less(other) {
            other
        } else {
            self
        }
    }

    /// Round down to an integer, clamped to `i32`; a NaN becomes zero.
    pub fn floor_to_i32(self) -> (r: i32)
        ensures
            r == self.cell(),
    {
        if self.is_nan() {
            return 0;
        }
        let magnitude: u32 = self.abs().bits;
        let negative: bool = self.bits >= SIGN_BIT;
        let field: u32 = magnitude / SIGNIFICAND;
        let ghost one = pow2(149) as int;
        let ghost v = magnitude_units(magnitude as int);
        proof {
            lemma_pow2_pos(149);
        }
        if field < 127 {
            proof {
                // Below one.
                lemma_magnitude_monotone(magnitude as int, 0x3f80_0000);
                lemma2_to64();
                lemma_pow2_adds(23, 126);
                assert(magnitude_units(0x3f80_0000) == one);
                lemma_magnitude_sign(magnitude as int);
                lemma_floor_quotients(v, one, 0, v);
            }
            if negative && magnitude > 0 {
                -1
            } else {
                0
            }
        } else if field >= 158 {
            proof {
                // At least two to the 31st, beyond every `i32`.
                lemma2_to64();
                lemma_pow2_adds(23, 157);
                lemma_pow2_adds(31, 149);
                assert(magnitude_units(0x4f00_0000) == 0x8000_0000 * one);
                if magnitude > 0x4f00_0000 {
                    lemma_magnitude_monotone(0x4f00_0000, magnitude as int);
                }
                lemma_fundamental_div_mod(v, one);
                let (q, rem) = (v / one, v % one);
                lemma_floor_quotients(v, one, q, rem);
                assert(q >= 0x8000_0000) by (nonlinear_arith)
                    requires
                        v >= 0x8000_0000 * one,
                        v == one * q + rem,
                        0 <= rem < one,
                        one > 0,
                ;
            }
            if negative {
                i32::MIN
            } else {
                i32::MAX
            }
        } else if field <= 150 {
            let significand: u32 = SIGNIFICAND + magnitude % SIGNIFICAND;
            let shift: u32 = 150 - field;
            let whole: u32 = significand >> shift;
            proof {
                let p = pow2((field - 1) as nat) as int;
                let d = pow2(shift as nat) as int;
                lemma_pow2_pos((field - 1) as nat);
                lemma_pow2_pos(shift as nat);
                lemma_pow2_adds((field - 1) as nat, shift as nat);
                lemma_u32_shr_is_div(significand, shift);
                lemma_fundamental_div_mod(significand as int, d);
                let rem = significand as int % d;
                assert(v == significand * p);
                assert(v == one * whole + p * rem) by (nonlinear_arith)
                    requires
                        v == significand * p,
                        significand == d * whole + rem,
                        one == p * d,
                ;
                assert(0 <= p * rem < one) by (nonlinear_arith)
                    requires
                        0 <= rem < d,
                        one == p * d,
                        p > 0,
                ;
                assert(p * rem == 0 <==> rem == 0) by (nonlinear_arith)
                    requires
                        p > 0,
                ;
                lemma_floor_quotients(v, one, whole as int, p * rem);
                lemma_shift_back(significand, shift);
                assert(whole < 0x100_0000);
            }
            if !negative {
                whole as i32
            } else if whole << shift == significand {
                -(whole as i32)
            } else {
                -(whole as i32) - 1
            }
        } else {
            let significand: u32 = SIGNIFICAND + magnitude % SIGNIFICAND;
            let shift: u32 = field - 150;
            let whole: u32 = significand << shift;
            proof {
                lemma2_to64();
                lemma_pow2_adds(149, shift as nat);
                let f = pow2(shift as nat) as int;
                assert(f <= 128);
                assert(significand * f < 0x8000_0000) by (nonlinear_arith)
                    requires
                        significand < 0x100_0000,
                        0 <= f <= 128,
                ;
                lemma_u32_shl_is_mul(significand, shift);
                assert(v == one * whole + 0) by (nonlinear_arith)
                    requires
                        v == significand * (one * f),
                        whole == significand * f,
                ;
                lemma_floor_quotients(v, one, whole as int, 0);
            }
            if negative {
                -(whole as i32)
            } else {
                whole as i32
            }
        }
    }

    /// An integer that orders numbers as their values do.
    spec fn key(self) -> int {
        if self.bits >= SIGN_BIT {
            -self.magnitude()
        } else {
            self.magnitude()
        }
    }

    fn order_key(self) -> (r: i64)
        ensures
            r == self.key(),
    {
        if self.bits >= SIGN_BIT {
            -((self.bits - SIGN_BIT) as i64)
        } else {
            self.bits as i64
        }
    }
}

/// Whether an operation on one value gives one result.
pub open spec fn function1<R, F: Fn(Float32) -> R>(f: F) -> bool {
    forall|a: Float32, r: R, s: R|
        #![trigger call_ensures(f, (a,), r), call_ensures(f, (a,), s)]
        call_ensures(f, (a,), r) && call_ensures(f, (a,), s) ==> r == s
}

/// Whether an operation on two values gives one result.
pub open spec fn function2<F: Fn(Float32, Float32) -> Float32>(f: F) -> bool {
    forall|a: Float32, b: Float32, r: Float32, s: Float32|
        #![trigger call_ensures(f, (a, b), r), call_ensures(f, (a, b), s)]
        call_ensures(f, (a, b), r) && call_ensures(f, (a, b), s) ==> r == s
}

/// Whether an operation on three values gives one result.
pub open spec fn function3<F: Fn(Float32, Float32, Float32) -> Float32>(f: F) -> bool {
    forall|a: Float32, b: Float32, c: Float32, r: Float32, s: Float32|
        #![trigger call_ensures(f, (a, b, c), r), call_ensures(f, (a, b, c), s)]
        call_ensures(f, (a, b, c), r) && call_ensures(f, (a, b, c), s) ==> r == s
}

/// A larger magnitude stands for a larger number.
pub proof fn lemma_magnitude_monotone(m: int, n: int)
    requires
        0 <= m < n <= INFINITE,
    ensures
        0 <= magnitude_units(m) < magnitude_units(n),
{
    let (e, f) = (m / 0x80_0000, m % 0x80_0000);
    let (e2, f2) = (n / 0x80_0000, n % 0x80_0000);
    assert(e <= e2);
    if e2 > 0 {
        lemma_pow2_pos((e2 - 1) as nat);
        let p2 = pow2((e2 - 1) as nat);
        assert((0x80_0000 + f2) * p2 >= 0x80_0000 * p2) by (nonlinear_arith)
            requires
                f2 >= 0,
                p2 > 0,
        ;
        if e == 0 {
            assert(0x80_0000 * p2 >= 0x80_0000) by (nonlinear_arith)
                requires
                    p2 > 0,
            ;
        } else {
            lemma_pow2_pos((e - 1) as nat);
            let p = pow2((e - 1) as nat);
            assert((0x80_0000 + f) * p > 0) by (nonlinear_arith)
                requires
                    f >= 0,
                    p > 0,
            ;
            if e == e2 {
                assert((0x80_0000 + f) * p < (0x80_0000 + f2) * p) by (nonlinear_arith)
                    requires
                        f < f2,
                        p > 0,
                ;
            } else {
                lemma_pow2_adds((e - 1) as nat, (e2 - e) as nat);
                lemma2_to64();
                let q = pow2((e2 - e) as nat);
                if e2 - e > 1 {
                    lemma_pow2_strictly_increases(1, (e2 - e) as nat);
                }
                assert(p * q == p2);
                assert((0x80_0000 + f) * p < 0x80_0000 * (p * q)) by (nonlinear_arith)
                    requires
                        0 <= f < 0x80_0000,
                        p > 0,
                        q >= 2,
                ;
            }
        }
    }
}

/// Zero is the only magnitude that stands for zero; all others stand for more.
proof fn lemma_magnitude_sign(m: int)
    requires
        0 <= m <= INFINITE,
    ensures
        magnitude_units(0) == 0,
        m > 0 ==> magnitude_units(m) > 0,
{
    if m > 0 {
        lemma_magnitude_monotone(0, m);
    }
}

/// Rounding down a quotient and its negative, from the quotient with remainder.
proof fn lemma_floor_quotients(v: int, one: int, q: int, rem: int)
    requires
        one > 0,
        v == one * q + rem,
        0 <= rem < one,
    ensures
        v / one == q,
        rem == 0 ==> (-v) / one == -q,
        rem > 0 ==> (-v) / one == -q - 1,
{
    assert(v == q * one + rem) by (nonlinear_arith)
        requires
            v == one * q + rem,
    ;
    lemma_fundamental_div_mod_converse(v, one, q, rem);
    if rem == 0 {
        assert(-v == (-q) * one + 0) by (nonlinear_arith)
            requires
                v == one * q + rem,
                rem == 0,
        ;
        lemma_fundamental_div_mod_converse(-v, one, -q, 0);
    } else {
        assert(-v == (-q - 1) * one + (one - rem)) by (nonlinear_arith)
            requires
                v == one * q + rem,
        ;
        lemma_fundamental_div_mod_converse(-v, one, -q - 1, one - rem);
    }
}

/// Shifting out and back in keeps a significand exactly where nothing but zeros went out.
proof fn lemma_shift_back(x: u32, shift: u32)
    requires
        shift < 32,
    ensures
        (x >> shift) << shift == x <==> x as int % (pow2(shift as nat) as int) == 0,
        x >> shift <= x,
{
    let whole = x >> shift;
    let d = pow2(shift as nat) as int;
    lemma_pow2_pos(shift as nat);
    lemma_u32_shr_is_div(x, shift);
    lemma_fundamental_div_mod(x as int, d);
    assert(whole * d <= x) by (nonlinear_arith)
        requires
            x == d * whole + x as int % d,
            x as int % d >= 0,
    ;
    assert(whole <= x) by (nonlinear_arith)
        requires
            whole * d <= x,
            d >= 1,
            whole >= 0,
    ;
    lemma_u32_shl_is_mul(whole, shift);
    assert(whole * d == d * whole) by (nonlinear_arith);
}

/// Clearing or flipping the sign does to the number what it says, and a number stays one.
pub proof fn lemma_sign(a: Float32)
    ensures
        a.neg_of().units() == -a.units(),
        a.neg_of().nan() == a.nan(),
        a.abs_of().nan() == a.nan(),
        !a.nan() ==> a.abs_of().units() == if a.units() < 0 {
            -a.units()
        } else {
            a.units()
        },
{
    if !a.nan() && a.magnitude() > 0 {
        lemma_magnitude_monotone(0, a.magnitude());
    }
}

/// Values that are not NaNs are ordered as their keys are.
proof fn lemma_order(a: Float32, b: Float32)
    ensures
        !a.nan() && !b.nan() ==> (a.key() < b.key() <==> a.units() < b.units()),
        !a.nan() && !b.nan() ==> (a.key() <= b.key() <==> a.units() <= b.units()),
{
    if !a.nan() && !b.nan() {
        let (m, n) = (a.magnitude(), b.magnitude());
        if m < n {
            lemma_magnitude_monotone(m, n);
        }
        if n < m {
            lemma_magnitude_monotone(n, m);
        }
        if m > 0 {
            lemma_magnitude_monotone(0, m);
        }
        if n > 0 {
            lemma_magnitude_monotone(0, n);
        }
    }
}

} // verus!
