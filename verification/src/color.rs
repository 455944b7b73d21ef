//! Transfer-function handling.
//!
//! Radiance `.hdr` is conventionally a *linear light* container, while JPEG and
//! most PNGs are sRGB-encoded, so faces are linearised on load by default.

use crate::float32::{function1, lemma_magnitude_monotone, zero, Float32};
use vstd::prelude::*;

verus! {

/// Bit pattern of `0.040448237`, where the straight toe of the sRGB curve ends.
pub const TOE_END: u32 = 0x3d25_ad0d;

/// How the samples of the input faces are encoded.
#[derive(Copy, Clone, Debug, PartialEq, Eq, Structural)]
pub enum Transfer {
    /// Inputs are sRGB-encoded (the default for JPG/PNG photographs).
    Srgb,
    /// Inputs already hold linear light; values are passed straight through.
    Linear,
}

/// Whether a sample lies on the straight toe of the sRGB curve. A NaN does not.
pub open spec fn on_toe(c: Float32) -> bool {
    c.le(Float32 { bits: TOE_END })
}

/// Whether both parts of the curve can be evaluated at every sample.
pub open spec fn total<L: Fn(Float32) -> Float32, P: Fn(Float32) -> Float32>(
    toe: L,
    power: P,
) -> bool {
    &&& forall|c: Float32| call_requires(toe, (c,))
    &&& forall|c: Float32| call_requires(power, (c,))
}

/// Whether `r` is what the sRGB curve, made of a toe and a power segment, gives for `c`.
pub open spec fn srgb_linear<L: Fn(Float32) -> Float32, P: Fn(Float32) -> Float32>(
    c: Float32,
    toe: L,
    power: P,
    r: Float32,
) -> bool {
    if on_toe(c) {
        call_ensures(toe, (c,), r)
    } else {
        call_ensures(power, (c,), r)
    }
}

impl Transfer {
    /// Whether `r` is the linear light that sample `c` stands for.
    pub open spec fn linear<L: Fn(Float32) -> Float32, P: Fn(Float32) -> Float32>(
        self,
        c: Float32,
        toe: L,
        power: P,
        r: Float32,
    ) -> bool {
        match self {
            Transfer::Srgb => srgb_linear(c, toe, power, r),
            Transfer::Linear => r == c,
        }
    }

    /// Whether `r` is the linear light that a byte stands for.
    pub open spec fn linear_byte<
        N: Fn(u8) -> Float32,
        L: Fn(Float32) -> Float32,
        P: Fn(Float32) -> Float32,
    >(self, byte: u8, normalise: N, toe: L, power: P, r: Float32) -> bool {
        exists|c: Float32|
            #![trigger self.linear(c, toe, power, r)]
            call_ensures(normalise, (byte,), c) && self.linear(c, toe, power, r)
    }

    /// Apply the transfer to a single normalised `[0,1]` sample.
    #[inline]
    pub fn apply<L: Fn(Float32) -> Float32, P: Fn(Float32) -> Float32>(
        self,
        c: Float32,
        toe: &L,
        power: &P,
    ) -> (r: Float32)
        requires
            total(*toe, *power),
        ensures
            self.linear(c, *toe, *power, r),
    {
        match self {
            Transfer::Srgb => srgb_to_linear(c, toe, power),
            Transfer::Linear => c,
        }
    }

    /// 256-entry lookup table for the 8-bit fast path. `normalise` maps a byte
    /// to the sample that it stands for.
    pub fn lut<N: Fn(u8) -> Float32, L: Fn(Float32) -> Float32, P: Fn(Float32) -> Float32>(
        self,
        normalise: &N,
        toe: &L,
        power: &P,
    ) -> (lut: [Float32; 256])
        requires
            forall|i: u8| call_requires(*normalise, (i,)),
            total(*toe, *power),
        ensures
            forall|i: u8|
                #![trigger lut@[i as int]]
                self.linear_byte(i, *normalise, *toe, *power, lut@[i as int]),
    {
        let mut lut: [Float32; 256] = [Float32 { bits: 0 };256];
        let mut i: usize = 0;
        while i < 256
            invariant
                i <= 256,
                forall|i: u8| call_requires(*normalise, (i,)),
                total(*toe, *power),
                forall|k: u8|
                    #![trigger lut@[k as int]]
                    k < i ==> self.linear_byte(k, *normalise, *toe, *power, lut@[k as int]),
            decreases 256 - i,
        {
            let c: Float32 = normalise(i as u8);
            let light: Float32 = self.apply(c, toe, power);
            proof {
                assert(self.linear_byte(i as u8, *normalise, *toe, *power, light));
            }
            lut[i] = light;
            i = i + 1;
        }
        lut
    }
}

/// What a transfer gives is fixed by the sample: linear samples pass through as
/// they are, without scaling or clamping, and sRGB samples go through the curve.
pub proof fn law_transfer<L: Fn(Float32) -> Float32, P: Fn(Float32) -> Float32>(
    c: Float32,
    toe: L,
    power: P,
    linear: Float32,
    srgb: Float32,
    curve: Float32,
)
    requires
        function1(toe),
        function1(power),
        Transfer::Linear.linear(c, toe, power, linear),
        Transfer::Srgb.linear(c, toe, power, srgb),
        srgb_linear(c, toe, power, curve),
    ensures
        linear == c,
        srgb == curve,
{
}

/// An entry of the lookup table is exactly what the transfer gives for the sample
/// that the byte stands for.
pub proof fn law_lookup_is_exact<
    N: Fn(u8) -> Float32,
    L: Fn(Float32) -> Float32,
    P: Fn(Float32) -> Float32,
>(
    transfer: Transfer,
    byte: u8,
    normalise: N,
    toe: L,
    power: P,
    sample: Float32,
    entry: Float32,
    applied: Float32,
)
    requires
        function1(toe),
        function1(power),
        forall|r: Float32, s: Float32|
            #![trigger call_ensures(normalise, (byte,), r), call_ensures(normalise, (byte,), s)]
            call_ensures(normalise, (byte,), r) && call_ensures(normalise, (byte,), s) ==> r == s,
        call_ensures(normalise, (byte,), sample),
        transfer.linear_byte(byte, normalise, toe, power, entry),
        transfer.linear(sample, toe, power, applied),
    ensures
        entry == applied,
{
}

/// The ends of the lookup table are zero and one, where the first and the last
/// byte stand for zero and one and the curve keeps both. `one` is any sample above
/// the toe.
pub proof fn law_lookup_ends<
    N: Fn(u8) -> Float32,
    L: Fn(Float32) -> Float32,
    P: Fn(Float32) -> Float32,
>(
    transfer: Transfer,
    normalise: N,
    toe: L,
    power: P,
    one: Float32,
    first: Float32,
    last: Float32,
)
    requires
        !on_toe(one),
        forall|r: Float32| call_ensures(normalise, (0u8,), r) ==> r == zero(),
        forall|r: Float32| call_ensures(normalise, (255u8,), r) ==> r == one,
        forall|r: Float32| call_ensures(toe, (zero(),), r) ==> r == zero(),
        forall|r: Float32| call_ensures(power, (one,), r) ==> r == one,
        transfer.linear_byte(0, normalise, toe, power, first),
        transfer.linear_byte(255, normalise, toe, power, last),
    ensures
        first == zero(),
        last == one,
{
    lemma_magnitude_monotone(0, TOE_END as int);
    assert(on_toe(zero()));
}

/// Distinct bytes stay distinct and in order, where bytes stand for samples in
/// order and the curve rises from zero on.
pub proof fn law_lookup_keeps_order<
    N: Fn(u8) -> Float32,
    L: Fn(Float32) -> Float32,
    P: Fn(Float32) -> Float32,
>(
    transfer: Transfer,
    normalise: N,
    toe: L,
    power: P,
    i: u8,
    j: u8,
    low: Float32,
    high: Float32,
)
    requires
        i < j,
        forall|r: Float32, s: Float32|
            #![trigger call_ensures(normalise, (i,), r), call_ensures(normalise, (j,), s)]
            call_ensures(normalise, (i,), r) && call_ensures(normalise, (j,), s) ==> r.lt(s),
        forall|a: Float32, b: Float32, r: Float32, s: Float32|
            #![trigger srgb_linear(a, toe, power, r), srgb_linear(b, toe, power, s)]
            zero().le(a) && a.lt(b) && srgb_linear(a, toe, power, r) && srgb_linear(
                b,
                toe,
                power,
                s,
            ) ==> r.lt(s),
        forall|r: Float32| call_ensures(normalise, (i,), r) ==> zero().le(r),
        transfer.linear_byte(i, normalise, toe, power, low),
        transfer.linear_byte(j, normalise, toe, power, high),
    ensures
        low.lt(high),
{
}

/// The sRGB electro-optical transfer function (IEC 61966-2-1): a straight toe up
/// to `0.040448237`, and a power segment above it.
#[inline]
pub fn srgb_to_linear<L: Fn(Float32) -> Float32, P: Fn(Float32) -> Float32>(
    c: Float32,
    toe: &L,
    power: &P,
) -> (r: Float32)
    requires
        total(*toe, *power),
    ensures
        srgb_linear(c, *toe, *power, r),
{
    if c.at_most(Float32 { bits: TOE_END }) {
        toe(c)
    } else {
        power(c)
    }
}

} // verus!
