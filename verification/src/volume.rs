//! The volume of music: a share of the loudest, set and shown in percent.

use vstd::arithmetic::div_mod::{
    lemma_div_denominator, lemma_div_multiples_vanish, lemma_fundamental_div_mod,
    lemma_fundamental_div_mod_converse,
};
use vstd::arithmetic::power2::{
    lemma2_to64, lemma2_to64_rest, lemma_pow2_adds, lemma_pow2_pos, lemma_pow2_strictly_increases,
    lemma_pow2_unfold, pow2,
};
use vstd::prelude::*;

use crate::scale;
use crate::scale::Scale;

verus! {

/// The bit pattern of 0.3, the volume unless a guild says otherwise. It is low, as texts are read
/// over it.
pub const DEFAULT_VOLUME: u32 = 0x3e99_999a;

/// The loudest volume in percent. Beyond it the sound is distorted.
pub const MAX_VOLUME: u32 = 100;

/// How many binary digits `n` has beyond the 24 that a single-precision number keeps.
pub open spec fn excess(n: nat) -> nat
    decreases n,
{
    if n < 0x100_0000 {
        0
    } else {
        1 + excess(n / 2)
    }
}

/// `n` as a single-precision number keeps it: the nearest number with 24 binary digits, and of two
/// that are equally near the one whose last digit is even.
pub open spec fn rounded(n: nat) -> nat {
    let unit = pow2(excess(n));
    let below = n / unit;
    let rest = n % unit;
    if 2 * rest > unit || (2 * rest == unit && below % 2 == 1) {
        (below + 1) * unit
    } else {
        below * unit
    }
}

/// A volume in percent: a hundred times the number, as a single-precision number keeps it, to the
/// nearest whole number, and upwards from the middle. What is negative or not a number is shown as
/// nothing, and what is too great as the greatest number.
pub open spec fn shown(volume: Scale) -> nat {
    if volume.bits > 0x7f80_0000 {
        0
    } else if volume.bits == 0x7f80_0000 {
        u32::MAX as nat
    } else {
        let percent = (2 * rounded(100 * scale::magnitude(volume.bits as nat)) + pow2(149)) / pow2(
            150,
        );
        if percent > u32::MAX {
            u32::MAX as nat
        } else {
            percent
        }
    }
}

/// How far a hundred times a number is from so many percent.
pub open spec fn off(value: int, percent: nat) -> int {
    let gap = 100 * value - percent * pow2(149);
    if gap < 0 {
        -gap
    } else {
        gap
    }
}

/// Whether a volume is so many hundredths of the loudest: nearer to them than every other
/// single-precision number.
pub open spec fn is_share(volume: Scale, percent: nat) -> bool {
    &&& volume.bits < 0x7f80_0000
    &&& forall|other: Scale|
        other.finite() && #[trigger] other.value() != volume.value() ==> off(
            volume.value(),
            percent,
        ) < off(other.value(), percent)
}

/// The digits beyond the 24 leave 24 or fewer, and where there are any, 24.
proof fn lemma_excess(n: nat)
    ensures
        n / pow2(excess(n)) < 0x100_0000,
        excess(n) > 0 ==> n / pow2(excess(n)) >= 0x80_0000,
        pow2(excess(n)) > 0,
    decreases n,
{
    lemma2_to64();
    lemma_pow2_pos(excess(n));
    if n >= 0x100_0000 {
        lemma_excess(n / 2);
        let e = excess(n / 2);
        lemma_pow2_pos(e);
        lemma_pow2_unfold(e + 1);
        lemma_div_denominator(n as int, 2, pow2(e) as int);
        assert(n / pow2(e + 1) == (n / 2) / pow2(e));
    }
}

/// Rounding goes no farther than half a unit, and a unit is small.
proof fn lemma_rounded(n: nat)
    ensures
        2 * (rounded(n) - n) <= pow2(excess(n)),
        2 * (n - rounded(n)) <= pow2(excess(n)),
        excess(n) > 0 ==> 0x80_0000 * pow2(excess(n)) <= n,
        excess(n) == 0 ==> rounded(n) == n,
{
    lemma2_to64();
    lemma_excess(n);
    let unit = pow2(excess(n));
    let below = n / unit;
    let rest = n % unit;
    lemma_fundamental_div_mod(n as int, unit as int);
    assert(unit * below == below * unit) by (nonlinear_arith);
    assert((below + 1) * unit == below * unit + unit) by (nonlinear_arith);
    if excess(n) > 0 {
        assert(0x80_0000 * unit <= below * unit) by (nonlinear_arith)
            requires
                below >= 0x80_0000,
        ;
    }
}

/// Doubling a number doubles what is kept of it.
proof fn lemma_rounded_twice(n: nat)
    ensures
        rounded(2 * n) == 2 * rounded(n),
{
    lemma2_to64();
    if n < 0x80_0000 {
        lemma_rounded(n);
        lemma_rounded(2 * n);
    } else {
        assert((2 * n) / 2 == n);
        let e = excess(n);
        let unit = pow2(e);
        lemma_pow2_pos(e);
        lemma_pow2_unfold(e + 1);
        assert(pow2(excess(2 * n)) == 2 * unit);
        let below = n / unit;
        let rest = n % unit;
        lemma_fundamental_div_mod(n as int, unit as int);
        assert(2 * n == below * (2 * unit) + 2 * rest) by (nonlinear_arith)
            requires
                n == unit * below + rest,
        ;
        lemma_fundamental_div_mod_converse(
            (2 * n) as int,
            (2 * unit) as int,
            below as int,
            (2 * rest) as int,
        );
        assert((below + 1) * (2 * unit) == 2 * ((below + 1) * unit)) by (nonlinear_arith);
        assert(below * (2 * unit) == 2 * (below * unit)) by (nonlinear_arith);
    }
}

/// What is kept of a number does not depend on where its point stands.
proof fn lemma_rounded_shift(n: nat, e: nat)
    ensures
        rounded(n * pow2(e)) == rounded(n) * pow2(e),
    decreases e,
{
    lemma2_to64();
    if e > 0 {
        let half = pow2((e - 1) as nat);
        lemma_pow2_unfold(e);
        lemma_rounded_shift(n, (e - 1) as nat);
        lemma_rounded_twice(n * half);
        assert(n * pow2(e) == 2 * (n * half)) by (nonlinear_arith)
            requires
                pow2(e) == 2 * half,
        ;
        assert(rounded(n) * pow2(e) == 2 * (rounded(n) * half)) by (nonlinear_arith)
            requires
                pow2(e) == 2 * half,
        ;
    } else {
        assert(n * 1 == n);
    }
}

/// What a single-precision number keeps of `n`.
fn round(n: u64) -> (out: u64)
    requires
        n < 0x1_0000_0000,
    ensures
        out == rounded(n as nat),
        out <= 2 * n,
        2 * out >= n,
{
    let mut unit: u64 = 1;
    let mut left: u64 = n;
    let ghost mut e: nat = 0;
    proof {
        lemma2_to64();
    }
    while left >= 0x100_0000
        invariant
            n < 0x1_0000_0000,
            unit == pow2(e),
            unit >= 1,
            unit * left <= n,
            left == n / unit,
            excess(n as nat) == e + excess(left as nat),
        decreases left,
    {
        proof {
            lemma_pow2_unfold(e + 1);
            lemma_div_denominator(n as int, unit as int, 2);
            assert(unit <= unit * left) by (nonlinear_arith)
                requires
                    left >= 1,
            ;
            assert((2 * unit) * (left / 2) <= unit * left) by (nonlinear_arith);
            e = e + 1;
        }
        left = left / 2;
        unit = unit * 2;
    }
    proof {
        lemma_rounded(n as nat);
        lemma_fundamental_div_mod(n as int, unit as int);
        assert((left + 1) * unit == unit * left + unit) by (nonlinear_arith);
        assert(left * unit == unit * left) by (nonlinear_arith);
        assert(unit < 0x1_0000_0000) by {
            if excess(n as nat) == 0 {
                assert(e == 0);
            }
        }
    }
    let rest: u64 = n % unit;
    if 2 * rest > unit || (2 * rest == unit && left % 2 == 1) {
        (left + 1) * unit
    } else {
        left * unit
    }
}

/// The `n`th power of two.
fn power(n: u32) -> (out: u128)
    requires
        n < 64,
    ensures
        out == pow2(n as nat),
        out <= 0x8000_0000_0000_0000,
{
    let mut out: u128 = 1;
    let mut i: u32 = 0;
    proof {
        lemma2_to64();
        lemma2_to64_rest();
    }
    while i < n
        invariant
            i <= n,
            n < 64,
            out == pow2(i as nat),
            pow2(63) == 0x8000_0000_0000_0000,
        decreases n - i,
    {
        proof {
            lemma_pow2_unfold((i + 1) as nat);
            if i + 1 < 63 {
                lemma_pow2_strictly_increases((i + 1) as nat, 63);
            }
        }
        out = out * 2;
        i = i + 1;
    }
    proof {
        if n < 63 {
            lemma_pow2_strictly_increases(n as nat, 63);
        }
    }
    out
}

/// Halving numerator and denominator alike changes nothing.
proof fn lemma_halves(x: nat, t: nat)
    ensures
        (x * pow2(t + 100) + pow2(149)) / pow2(150) == (x * pow2(t) + pow2(49)) / pow2(50),
{
    let h = pow2(100);
    lemma_pow2_pos(100);
    lemma_pow2_pos(50);
    lemma_pow2_adds(t, 100);
    lemma_pow2_adds(49, 100);
    lemma_pow2_adds(100, 50);
    let y = x * pow2(t) + pow2(49);
    assert(x * (pow2(t) * h) + pow2(49) * h == h * y) by (nonlinear_arith)
        requires
            y == x * pow2(t) + pow2(49),
    ;
    lemma_div_denominator((h * y) as int, h as int, pow2(50) as int);
    lemma_div_multiples_vanish(y as int, h as int);
}

/// A volume in percent, as it is shown.
pub fn percent_of(volume: Scale) -> (out: u32)
    ensures
        out == shown(volume),
{
    if volume.bits > 0x7f80_0000 {
        return 0;
    }
    if volume.bits == 0x7f80_0000 {
        return u32::MAX;
    }
    let exponent: u32 = volume.bits / 0x80_0000;
    let fraction: u32 = volume.bits % 0x80_0000;
    let (digits, point): (u32, u32) = if exponent == 0 {
        (fraction, 0)
    } else {
        (0x80_0000 + fraction, exponent - 1)
    };
    let whole: u64 = 100 * digits as u64;
    let kept: u64 = round(whole);
    let twice: u64 = 2 * kept;
    let ghost value = scale::magnitude(volume.bits as nat);
    proof {
        lemma2_to64();
        lemma2_to64_rest();
        assert(value == digits * pow2(point as nat));
        assert(100 * value == whole * pow2(point as nat)) by (nonlinear_arith)
            requires
                value == digits * pow2(point as nat),
                whole == 100 * digits,
        ;
        lemma_rounded_shift(whole as nat, point as nat);
        assert(2 * (kept * pow2(point as nat)) == twice * pow2(point as nat)) by (nonlinear_arith)
            requires
                twice == 2 * kept,
        ;
        assert(shown(volume) == {
            let percent = (twice as nat * pow2(point as nat) + pow2(149)) / pow2(150);
            if percent > u32::MAX {
                u32::MAX as nat
            } else {
                percent
            }
        });
    }
    if point < 100 {
        proof {
            lemma_small(twice as nat, point as nat);
        }
        return 0;
    }
    if point >= 160 {
        proof {
            lemma_great(twice as nat, point as nat);
        }
        return u32::MAX;
    }
    let factor: u128 = power(point - 100);
    proof {
        lemma_halves(twice as nat, (point - 100) as nat);
        assert(twice * factor <= 0x10_0000_0000 * 0x8000_0000_0000_0000) by (nonlinear_arith)
            requires
                twice <= 0x10_0000_0000,
                factor <= 0x8000_0000_0000_0000,
        ;
    }
    let percent: u128 = (twice as u128 * factor + 0x2_0000_0000_0000) / 0x4_0000_0000_0000;
    if percent > u32::MAX as u128 {
        u32::MAX
    } else {
        percent as u32
    }
}

/// Far below one percent nothing is shown.
proof fn lemma_small(twice: nat, point: nat)
    requires
        twice <= 0x10_0000_0000,
        point < 100,
    ensures
        (twice * pow2(point) + pow2(149)) / pow2(150) == 0,
{
    lemma2_to64();
    lemma2_to64_rest();
    lemma_pow2_strictly_increases(point, 100);
    lemma_pow2_pos(100);
    lemma_pow2_adds(36, 100);
    lemma_pow2_strictly_increases(136, 149);
    lemma_pow2_unfold(150);
    assert(twice * pow2(point) <= pow2(36) * pow2(100)) by (nonlinear_arith)
        requires
            twice <= pow2(36),
            pow2(point) <= pow2(100),
    ;
    lemma_fundamental_div_mod_converse(
        (twice * pow2(point) + pow2(149)) as int,
        pow2(150) as int,
        0,
        (twice * pow2(point) + pow2(149)) as int,
    );
}

/// Far beyond the loudest the greatest number is shown.
proof fn lemma_great(twice: nat, point: nat)
    requires
        twice >= 0x1000_0000,
        point >= 160,
    ensures
        (twice * pow2(point) + pow2(149)) / pow2(150) > u32::MAX,
{
    lemma2_to64();
    lemma_pow2_pos(150);
    lemma_pow2_pos(149);
    lemma_pow2_adds((point - 150) as nat, 150);
    if point > 160 {
        lemma_pow2_strictly_increases(10, (point - 150) as nat);
    }
    let more = pow2((point - 150) as nat);
    let x = twice * more;
    assert(x >= 0x1000_0000 * 0x400) by (nonlinear_arith)
        requires
            x == twice * more,
            twice >= 0x1000_0000,
            more >= 0x400,
    ;
    assert(twice * (more * pow2(150)) == x * pow2(150)) by (nonlinear_arith)
        requires
            x == twice * more,
    ;
    lemma_pow2_unfold(150);
    lemma_fundamental_div_mod_converse(
        (x * pow2(150) + pow2(149)) as int,
        pow2(150) as int,
        x as int,
        pow2(149) as int,
    );
}

/// The bit pattern of the number with 24 binary digits `digits` and `point` of them behind the point.
pub open spec fn pattern(digits: nat, point: nat) -> int {
    (150 - point) * 0x80_0000 + (digits - 0x80_0000)
}

/// The numbers next to one with 24 binary digits.
proof fn lemma_neighbours(digits: nat, point: nat)
    requires
        0x80_0000 <= digits < 0x100_0000,
        23 <= point <= 30,
    ensures
        0 < pattern(digits, point) < 0x7f00_0000,
        scale::magnitude(pattern(digits, point) as nat) == digits * pow2((149 - point) as nat),
        scale::magnitude((pattern(digits, point) + 1) as nat) == (digits + 1) * pow2(
            (149 - point) as nat,
        ),
        digits > 0x80_0000 ==> scale::magnitude((pattern(digits, point) - 1) as nat) == (digits - 1)
            * pow2((149 - point) as nat),
        digits == 0x80_0000 ==> 2 * scale::magnitude((pattern(digits, point) - 1) as nat) == (2
            * digits - 1) * pow2((149 - point) as nat),
{
    let bits = pattern(digits, point) as nat;
    let exponent = (150 - point) as nat;
    let unit = pow2((149 - point) as nat);
    assert(bits / 0x80_0000 == exponent);
    assert(bits % 0x80_0000 == digits - 0x80_0000);
    if digits + 1 < 0x100_0000 {
        assert((bits + 1) / 0x80_0000 == exponent);
        assert((bits + 1) % 0x80_0000 == digits + 1 - 0x80_0000);
    } else {
        assert((bits + 1) / 0x80_0000 == exponent + 1);
        assert((bits + 1) % 0x80_0000 == 0);
        lemma_pow2_unfold(exponent);
        assert((0x80_0000 + 0nat) * (2 * unit) == (digits + 1) * unit) by (nonlinear_arith)
            requires
                digits + 1 == 0x100_0000,
        ;
    }
    if digits > 0x80_0000 {
        assert((bits - 1) as nat / 0x80_0000 == exponent);
        assert((bits - 1) as nat % 0x80_0000 == digits - 1 - 0x80_0000);
    } else {
        assert((bits - 1) as nat / 0x80_0000 == exponent - 1);
        assert((bits - 1) as nat % 0x80_0000 == 0x7f_ffff);
        let half = pow2((148 - point) as nat);
        lemma_pow2_unfold((149 - point) as nat);
        assert(2 * ((0x80_0000 + 0x7f_ffffnat) * half) == (2 * digits - 1) * unit)
            by (nonlinear_arith)
            requires
                unit == 2 * half,
                digits == 0x80_0000,
        ;
    }
}

/// What comes close enough to so many hundredths is the share, and is shown as the percent.
proof fn lemma_share(percent: nat, digits: nat, point: nat)
    requires
        percent <= 100,
        0x80_0000 <= digits < 0x100_0000,
        23 <= point <= 30,
        -50 < 100 * digits - percent * pow2(point) < 50,
        digits == 0x80_0000 ==> 100 * digits <= percent * pow2(point),
    ensures
        0 < pattern(digits, point) < 0x7f00_0000,
        is_share(Scale { bits: pattern(digits, point) as u32 }, percent),
        shown(Scale { bits: pattern(digits, point) as u32 }) == percent,
{
    lemma_neighbours(digits, point);
    let bits = pattern(digits, point) as u32;
    let volume = Scale { bits };
    let unit = pow2((149 - point) as nat);
    lemma_pow2_pos((149 - point) as nat);
    lemma_pow2_adds(point, (149 - point) as nat);
    let whole = percent * pow2(point);
    let gap = 100 * digits - whole;
    assert(percent * pow2(149) == whole * unit) by (nonlinear_arith)
        requires
            pow2(149) == pow2(point) * unit,
            whole == percent * pow2(point),
    ;
    assert(100 * (digits * unit) - whole * unit == gap * unit) by (nonlinear_arith)
        requires
            gap == 100 * digits - whole,
    ;
    assert(-50 * unit < gap * unit < 50 * unit) by (nonlinear_arith)
        requires
            unit > 0,
            -50 < gap < 50,
    ;
    assert((digits + 1) * unit == digits * unit + unit) by (nonlinear_arith);
    assert((digits - 1) * unit == digits * unit - unit) by (nonlinear_arith);
    assert((2 * digits - 1) * unit == 2 * (digits * unit) - unit) by (nonlinear_arith);
    if digits == 0x80_0000 {
        assert(gap * unit <= 0) by (nonlinear_arith)
            requires
                unit > 0,
                gap <= 0,
        ;
    }
    assert forall|other: Scale|
        other.finite() && #[trigger] other.value() != volume.value() implies off(
        volume.value(),
        percent,
    ) < off(other.value(), percent) by {
        let size = scale::magnitude(other.unsigned());
        scale::lemma_both_ways(bits as nat + 1, other.unsigned());
        scale::lemma_both_ways(other.unsigned(), (bits - 1) as nat);
        scale::lemma_both_ways(0, (bits - 1) as nat);
        if other.bits < 0x8000_0000 && other.unsigned() > bits {
            assert(other.value() >= (digits + 1) * unit);
        } else {
            assert(other.value() <= scale::magnitude((bits - 1) as nat));
        }
    }
    let times = 100 * digits;
    assert(100 * (digits * unit) == times * unit) by (nonlinear_arith)
        requires
            times == 100 * digits,
    ;
    lemma_rounded_shift(times, (149 - point) as nat);
    lemma_rounded(times);
    let kept = rounded(times);
    lemma_close(percent, kept, point);
}

/// A number near enough to a percent is shown as it.
proof fn lemma_close(percent: nat, kept: nat, point: nat)
    requires
        percent <= 100,
        23 <= point <= 30,
        -1000 < kept - percent * pow2(point) < 1000,
    ensures
        (2 * (kept * pow2((149 - point) as nat)) + pow2(149)) / pow2(150) == percent,
{
    lemma2_to64();
    let unit = pow2((149 - point) as nat);
    let whole = percent * pow2(point);
    lemma_pow2_pos((149 - point) as nat);
    lemma_pow2_adds(point, (149 - point) as nat);
    lemma_pow2_unfold(150);
    if point > 23 {
        lemma_pow2_strictly_increases(23, point);
    }
    assert(percent * pow2(149) == whole * unit) by (nonlinear_arith)
        requires
            pow2(149) == pow2(point) * unit,
            whole == percent * pow2(point),
    ;
    assert(-1000 * unit < (kept - whole) * unit < 1000 * unit) by (nonlinear_arith)
        requires
            unit > 0,
            -1000 < kept - whole < 1000,
    ;
    assert(kept * unit == (kept - whole) * unit + whole * unit) by (nonlinear_arith);
    assert(2000 * unit < pow2(149)) by (nonlinear_arith)
        requires
            pow2(149) == pow2(point) * unit,
            pow2(point) >= 0x80_0000,
            unit > 0,
    ;
    let rest = 2 * (kept * unit) + pow2(149) - percent * pow2(150);
    assert(percent * pow2(150) == 2 * (percent * pow2(149))) by (nonlinear_arith)
        requires
            pow2(150) == 2 * pow2(149),
    ;
    lemma_fundamental_div_mod_converse(
        (2 * (kept * unit) + pow2(149)) as int,
        pow2(150) as int,
        percent as int,
        rest,
    );
}

/// So many hundredths of the loudest.
pub fn share_of(percent: u32) -> (out: Scale)
    requires
        percent <= MAX_VOLUME,
    ensures
        is_share(out, percent as nat),
        shown(out) == percent,
{
    if percent == 0 {
        proof {
            lemma_silence();
        }
        return Scale { bits: 0 };
    }
    let mut whole: u64 = percent as u64 * 0x80_0000;
    let mut point: u32 = 23;
    proof {
        lemma2_to64();
    }
    while whole < 100 * 0x80_0000
        invariant
            1 <= percent <= 100,
            23 <= point <= 30,
            whole == percent * pow2(point as nat),
            whole % 0x80_0000 == 0,
            whole < 100 * 0x100_0000,
            pow2(30) == 0x4000_0000,
        decreases 30 - point,
    {
        proof {
            assert(percent * pow2(point as nat) >= pow2(point as nat)) by (nonlinear_arith)
                requires
                    percent >= 1,
            ;
            lemma_pow2_unfold((point + 1) as nat);
            assert(percent * (2 * pow2(point as nat)) == 2 * (percent * pow2(point as nat)))
                by (nonlinear_arith);
        }
        whole = whole * 2;
        point = point + 1;
    }
    let below: u64 = whole / 100;
    let rest: u64 = whole % 100;
    let digits: u64 = if rest > 50 {
        below + 1
    } else {
        below
    };
    proof {
        assert(whole % 4 == 0);
        lemma_share(percent as nat, digits as nat, point as nat);
    }
    Scale { bits: (150 - point) * 0x80_0000 + (digits - 0x80_0000) as u32 }
}

/// Nothing is no share of the loudest.
proof fn lemma_silence()
    ensures
        is_share(Scale { bits: 0 }, 0),
        shown(Scale { bits: 0 }) == 0,
{
    lemma2_to64();
    lemma_pow2_pos(149);
    lemma_pow2_unfold(150);
    lemma_rounded(0);
    lemma_fundamental_div_mod_converse(pow2(149) as int, pow2(150) as int, 0, pow2(149) as int);
}

/// At most one volume is so many hundredths of the loudest.
pub proof fn a_share_is_one_volume(volume: Scale, other: Scale, percent: nat)
    requires
        is_share(volume, percent),
        is_share(other, percent),
    ensures
        volume == other,
{
    scale::lemma_both_ways(volume.bits as nat, other.bits as nat);
    scale::lemma_both_ways(other.bits as nat, volume.bits as nat);
    if volume.value() != other.value() {
        assert(off(volume.value(), percent) < off(other.value(), percent));
    }
}

/// The volume unless a guild says otherwise is thirty hundredths of the loudest, and shown so.
pub proof fn the_default_is_thirty_percent()
    ensures
        is_share(Scale { bits: DEFAULT_VOLUME }, 30),
        shown(Scale { bits: DEFAULT_VOLUME }) == 30,
{
    lemma2_to64();
    lemma_share(30, 0x99_999a, 25);
}

} // verus!
