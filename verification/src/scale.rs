//! Single-precision numbers, known by their bit patterns.

use vstd::arithmetic::power2::{lemma2_to64, lemma_pow2_adds, lemma_pow2_pos, lemma_pow2_unfold, pow2};
use vstd::prelude::*;

verus! {

/// A single-precision number.
#[derive(Debug, Clone, Copy, PartialEq, Eq, Structural)]
pub struct Scale {
    /// Sign, exponent and fraction, as in IEEE 754.
    pub bits: u32,
}

/// The bit pattern of 0.0.
pub const ZERO: u32 = 0;

/// The bit pattern of 1.0.
pub const ONE: u32 = 0x3f80_0000;

/// The size of a finite number whose bit pattern without the sign is `bits`, in units of the
/// smallest positive number, which is the 149th power of one half.
pub open spec fn magnitude(bits: nat) -> nat {
    let exponent = bits / 0x80_0000;
    let fraction = bits % 0x80_0000;
    if exponent == 0 {
        fraction
    } else {
        (0x80_0000 + fraction) * pow2((exponent - 1) as nat)
    }
}

/// The number with the bit pattern, in units of the smallest positive number.
pub open spec fn number(bits: u32) -> int {
    Scale { bits }.value()
}

impl Scale {
    /// The bit pattern without the sign.
    pub open spec fn unsigned(self) -> nat {
        if self.bits < 0x8000_0000 {
            self.bits as nat
        } else {
            (self.bits - 0x8000_0000) as nat
        }
    }

    /// Whether it is neither infinite nor not a number.
    pub open spec fn finite(self) -> bool {
        self.unsigned() < 0x7f80_0000
    }

    /// The number in units of the smallest positive number.
    pub open spec fn value(self) -> int {
        if self.bits < 0x8000_0000 {
            magnitude(self.unsigned()) as int
        } else {
            -(magnitude(self.unsigned()) as int)
        }
    }

    /// Whether it lies between the numbers with the bit patterns, themselves included.
    pub open spec fn between(self, low: u32, high: u32) -> bool {
        self.finite() && number(low) <= self.value() <= number(high)
    }
}

/// The next bit pattern is a greater number.
proof fn lemma_step(bits: nat)
    ensures
        magnitude(bits) < magnitude(bits + 1),
{
    let exponent = bits / 0x80_0000;
    let fraction = bits % 0x80_0000;
    if fraction + 1 < 0x80_0000 {
        assert((bits + 1) / 0x80_0000 == exponent);
        assert((bits + 1) % 0x80_0000 == fraction + 1);
        if exponent > 0 {
            let unit = pow2((exponent - 1) as nat);
            lemma_pow2_pos((exponent - 1) as nat);
            assert((0x80_0000 + fraction) * unit < (0x80_0000 + (fraction + 1)) * unit)
                by (nonlinear_arith)
                requires
                    unit > 0,
            ;
        }
    } else {
        assert((bits + 1) / 0x80_0000 == exponent + 1);
        assert((bits + 1) % 0x80_0000 == 0);
        if exponent == 0 {
            lemma2_to64();
            assert(magnitude(bits + 1) == (0x80_0000 + 0nat) * pow2(0));
        } else {
            let unit = pow2((exponent - 1) as nat);
            lemma_pow2_pos((exponent - 1) as nat);
            lemma_pow2_unfold(exponent);
            let next = pow2(exponent);
            assert((0x80_0000 + fraction) * unit < (0x80_0000 + 0nat) * next) by (nonlinear_arith)
                requires
                    unit > 0,
                    next == 2 * unit,
                    fraction == 0x7f_ffff,
            ;
        }
    }
}

/// A greater bit pattern is a greater number.
proof fn lemma_order(a: nat, b: nat)
    requires
        a < b,
    ensures
        magnitude(a) < magnitude(b),
    decreases b - a,
{
    lemma_step(a);
    if a + 1 < b {
        lemma_order(a + 1, b);
    }
}

/// Whether `scale` lies between the numbers with the bit patterns, which are not negative.
pub fn is_between(scale: Scale, low: u32, high: u32) -> (out: bool)
    requires
        low < 0x7f80_0000,
        high < 0x7f80_0000,
    ensures
        out == scale.between(low, high),
{
    proof {
        lemma_both_ways(low as nat, scale.unsigned());
        lemma_both_ways(scale.unsigned(), high as nat);
        lemma_both_ways(scale.unsigned(), 0);
        lemma_both_ways(low as nat, 0);
    }
    assert(number(low) == magnitude(low as nat));
    if scale.bits < 0x8000_0000 {
        low <= scale.bits && scale.bits <= high
    } else {
        scale.bits == 0x8000_0000 && low == 0
    }
}

/// Whether `scale` is no further from zero than the number with the bit pattern, which is not
/// negative.
pub fn is_within(scale: Scale, bound: u32) -> (out: bool)
    requires
        bound < 0x7f80_0000,
    ensures
        out == (scale.finite() && -number(bound) <= scale.value() <= number(bound)),
{
    proof {
        lemma_both_ways(scale.unsigned(), bound as nat);
    }
    if scale.bits < 0x8000_0000 {
        scale.bits <= bound
    } else {
        scale.bits - 0x8000_0000 <= bound
    }
}

/// Numbers that are not negative are ordered as their bit patterns.
pub proof fn lemma_both_ways(a: nat, b: nat)
    ensures
        a <= b <==> magnitude(a) <= magnitude(b),
        magnitude(0) == 0,
{
    if a < b {
        lemma_order(a, b);
    }
    if b < a {
        lemma_order(b, a);
    }
}

/// The number 1.0 is 149 doublings of the smallest positive number.
pub proof fn one_is_one()
    ensures
        number(ONE) == pow2(149),
        number(ZERO) == 0,
{
    lemma2_to64();
    lemma_pow2_adds(23, 126);
}

/// A number with the sign is as far from zero as the one without, on the other side; the next exponent
/// doubles it; and within an exponent equal steps of the pattern are equal steps of the number. What is
/// infinite or not a number is not finite, with or without the sign.
pub proof fn a_pattern_is_its_number(bits: u32, scale: Scale)
    requires
        bits < 0x7f80_0000,
    ensures
        number((bits + 0x8000_0000) as u32) == -number(bits),
        0x80_0000 <= bits < 0x7f00_0000 ==> number((bits + 0x80_0000) as u32) == 2 * number(bits),
        0x80_0000 <= bits && bits % 0x80_0000 < 0x7f_ffff ==> number((bits + 1) as u32) - number(
            bits,
        ) == pow2((bits / 0x80_0000 - 1) as nat),
        scale.bits == bits || scale.bits == bits + 0x8000_0000 ==> scale.finite(),
        scale.bits == 0x7f80_0000 || scale.bits == 0xff80_0000 ==> !scale.finite(),
{
    let exponent = bits as nat / 0x80_0000;
    let fraction = bits as nat % 0x80_0000;
    if 0x80_0000 <= bits {
        let unit = pow2((exponent - 1) as nat);
        lemma_pow2_unfold(exponent);
        let next = pow2(exponent);
        if bits < 0x7f00_0000 {
            assert((bits as nat + 0x80_0000) / 0x80_0000 == exponent + 1);
            assert((bits as nat + 0x80_0000) % 0x80_0000 == fraction);
            assert((0x80_0000 + fraction) * next == 2 * ((0x80_0000 + fraction) * unit))
                by (nonlinear_arith)
                requires
                    next == 2 * unit,
            ;
        }
        if fraction < 0x7f_ffff {
            assert((bits as nat + 1) / 0x80_0000 == exponent);
            assert((bits as nat + 1) % 0x80_0000 == fraction + 1);
            assert((0x80_0000 + (fraction + 1)) * unit - (0x80_0000 + fraction) * unit == unit)
                by (nonlinear_arith);
        }
    }
}

/// A range holds its ends and what is between two numbers that it holds. A number outside it, and what
/// is infinite or not a number, it does not hold.
pub proof fn a_range_holds_its_ends(low: u32, high: u32, scale: Scale)
    requires
        low <= high < 0x7f80_0000,
    ensures
        (Scale { bits: low }).between(low, high),
        (Scale { bits: high }).between(low, high),
        low <= scale.bits <= high ==> scale.between(low, high),
        high < scale.bits < 0x8000_0000 ==> !scale.between(low, high),
        scale.bits < low ==> !scale.between(low, high),
        scale.bits > 0x8000_0000 ==> !scale.between(low, high),
        scale.bits == 0x8000_0000 ==> scale.between(low, high) == (low == 0),
{
    lemma_both_ways(low as nat, high as nat);
    lemma_both_ways(low as nat, scale.unsigned());
    lemma_both_ways(scale.unsigned(), low as nat);
    lemma_both_ways(scale.unsigned(), high as nat);
    lemma_both_ways(high as nat, scale.unsigned());
    lemma_both_ways(scale.unsigned(), 0);
    lemma_both_ways(low as nat, 0);
    lemma_both_ways(0, low as nat);
}

} // verus!
