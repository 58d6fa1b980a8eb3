//! Exact comparison of wavelengths under a fixed tolerance.
//!
//! A wavelength is an IEEE-754 binary64 number of nanometres, carried as its
//! 64-bit pattern. Nothing here rounds: a pattern is decoded into sign,
//! significand and binary scale, and distances are decided on the integers
//! that those stand for.

use vstd::prelude::*;
use vstd::arithmetic::power2::pow2;
use vstd::arithmetic::power2::lemma_pow2_adds;
use vstd::arithmetic::power2::lemma_pow2_pos;
use vstd::arithmetic::power2::lemma_pow2_strictly_increases;
use vstd::arithmetic::power2::lemma_pow2_unfold;
use vstd::arithmetic::power2::lemma2_to64;
use vstd::arithmetic::power2::lemma2_to64_rest;
use vstd::arithmetic::div_mod::lemma_fundamental_div_mod;

verus! {

/// Two to the 52nd: the weight of the implicit leading bit of a normal number.
pub const HIDDEN_BIT: u64 = 0x10_0000_0000_0000;

/// Two to the 63rd: patterns from here on are negative.
pub const SIGN_BIT: u64 = 0x8000_0000_0000_0000;

/// The number of values that the exponent field can take.
pub const EXPONENT_SPAN: u64 = 0x800;

/// The exponent field of infinities and NaNs.
pub const EXPONENT_SPECIAL: u64 = 0x7ff;

/// The tolerance, `1e-12`, as a bit pattern: two wavelengths closer than
/// this are one and the same wavelength.
pub const TOLERANCE: u64 = 0x3D71_9799_812D_EA11;

/// The significand of [`TOLERANCE`], hidden bit included.
pub const TOLERANCE_SIGNIFICAND: u64 = 0x11_9799_812D_EA11;

/// The binary scale of [`TOLERANCE`].
pub const TOLERANCE_SCALE: u64 = 982;

/// The scale of the unit in which numbers about as large as the tolerance
/// are compared: a quarter of the tolerance's own.
const UNIT_SCALE: u64 = TOLERANCE_SCALE - 2;

/// Where a wavelength lies relative to another one.
#[derive(Clone, Copy, Debug, PartialEq, Eq, Structural)]
pub enum Side {
    /// At least the tolerance below.
    Below,
    /// Closer than the tolerance.
    Near,
    /// At least the tolerance above.
    Above,
}

/// The 52 fraction bits.
pub open spec fn fraction(bits: u64) -> nat {
    (bits % HIDDEN_BIT) as nat
}

/// The 11 exponent bits.
pub open spec fn exponent(bits: u64) -> nat {
    ((bits / HIDDEN_BIT) % EXPONENT_SPAN) as nat
}

/// Whether the sign bit is set.
pub open spec fn negative(bits: u64) -> bool {
    bits >= SIGN_BIT
}

/// Whether the pattern is a number: neither an infinity nor a NaN.
pub open spec fn finite(bits: u64) -> bool {
    exponent(bits) != EXPONENT_SPECIAL
}

/// The integer significand: the fraction, with the hidden bit for normal
/// numbers.
pub open spec fn significand(bits: u64) -> nat {
    if exponent(bits) == 0 {
        fraction(bits)
    } else {
        fraction(bits) + HIDDEN_BIT as nat
    }
}

/// The power of two that the significand is multiplied by, counted from the
/// smallest subnormal.
pub open spec fn scale(bits: u64) -> nat {
    if exponent(bits) == 0 {
        0
    } else {
        (exponent(bits) - 1) as nat
    }
}

/// The absolute value, in units of the smallest subnormal (two to the
/// minus 1074).
pub open spec fn magnitude(bits: u64) -> nat {
    significand(bits) * pow2(scale(bits))
}

/// The value, in units of the smallest subnormal.
pub open spec fn position(bits: u64) -> int {
    if negative(bits) {
        -(magnitude(bits) as int)
    } else {
        magnitude(bits) as int
    }
}

/// The tolerance, in units of the smallest subnormal.
pub open spec fn tolerance() -> nat {
    magnitude(TOLERANCE)
}

/// Two numbers are near each other when they differ by less than the
/// tolerance. An infinity or a NaN is near nothing, itself included.
pub open spec fn near(a: u64, b: u64) -> bool {
    &&& finite(a)
    &&& finite(b)
    &&& -tolerance() < position(a) - position(b) < tolerance()
}

/// The side that a signed distance, in units of the smallest subnormal,
/// puts a number on.
pub open spec fn side_at(gap: int) -> Side {
    if gap >= tolerance() {
        Side::Above
    } else if gap <= -tolerance() {
        Side::Below
    } else {
        Side::Near
    }
}

/// The side of `b` on which `a` lies.
pub open spec fn side_of(a: u64, b: u64) -> Side {
    side_at(position(a) - position(b))
}

/// `a` lies at least the tolerance below `b`.
pub open spec fn apart(a: u64, b: u64) -> bool {
    position(a) + tolerance() <= position(b)
}

/// A decoded bit pattern.
#[derive(Clone, Copy)]
struct Parts {
    negative: bool,
    significand: u64,
    scale: u64,
}

impl Parts {
    /// These are the parts of `bits`.
    spec fn of(self, bits: u64) -> bool {
        &&& self.negative == negative(bits)
        &&& self.significand == significand(bits)
        &&& self.scale == scale(bits)
    }

    /// The absolute value, in units of the smallest subnormal.
    spec fn magnitude(self) -> nat {
        self.significand as nat * pow2(self.scale as nat)
    }

    /// The value, in units of the smallest subnormal.
    spec fn position(self) -> int {
        if self.negative {
            -(self.magnitude() as int)
        } else {
            self.magnitude() as int
        }
    }

    /// The parts are those of some number: the significand has at most 53
    /// bits, and all 53 above the lowest scale.
    spec fn bounded(self) -> bool {
        &&& self.significand < 2 * HIDDEN_BIT
        &&& self.scale <= 2045
        &&& self.scale >= 1 ==> self.significand >= HIDDEN_BIT
    }
}

/// The tolerance is its significand times the power of two of its scale.
proof fn lemma_tolerance()
    ensures
        tolerance() == TOLERANCE_SIGNIFICAND * pow2(TOLERANCE_SCALE as nat),
        finite(TOLERANCE),
        !negative(TOLERANCE),
{
    assert(TOLERANCE / HIDDEN_BIT == 983);
    assert(TOLERANCE % HIDDEN_BIT == 0x1_9799_812D_EA11);
}

/// A power of two is positive, and not below the power of a smaller
/// exponent.
proof fn lemma_pow2_monotone(a: nat, b: nat)
    requires
        a <= b,
    ensures
        0 < pow2(a) <= pow2(b),
{
    lemma_pow2_pos(a);
    if a < b {
        lemma_pow2_strictly_increases(a, b);
    }
}

/// A power of two as the product of two smaller ones.
proof fn lemma_pow2_split(whole: nat, part: nat)
    requires
        part <= whole,
    ensures
        pow2(whole) == pow2((whole - part) as nat) * pow2(part),
        pow2(part) > 0,
        pow2((whole - part) as nat) > 0,
{
    lemma_pow2_adds((whole - part) as nat, part);
    lemma_pow2_pos(part);
    lemma_pow2_pos((whole - part) as nat);
}

/// Whether the pattern is a number: neither an infinity nor a NaN.
pub fn is_finite(bits: u64) -> (yes: bool)
    ensures
        yes == finite(bits),
{
    (bits / HIDDEN_BIT) % EXPONENT_SPAN != EXPONENT_SPECIAL
}

/// Takes a number apart into sign, significand and scale.
fn decode(bits: u64) -> (parts: Parts)
    requires
        finite(bits),
    ensures
        parts.of(bits),
        parts.bounded(),
        parts.position() == position(bits),
{
    let fraction: u64 = bits % HIDDEN_BIT;
    let exponent: u64 = (bits / HIDDEN_BIT) % EXPONENT_SPAN;
    let negative: bool = bits >= SIGN_BIT;
    if exponent == 0 {
        Parts { negative, significand: fraction, scale: 0 }
    } else {
        Parts { negative, significand: fraction + HIDDEN_BIT, scale: exponent - 1 }
    }
}

/// Two to the power of a small exponent.
fn power_of_two(k: u64) -> (p: u64)
    requires
        k <= 62,
    ensures
        p == pow2(k as nat),
        1 <= p <= 0x4000_0000_0000_0000,
{
    let mut p: u64 = 1;
    let mut i: u64 = 0;
    proof {
        lemma2_to64();
        lemma2_to64_rest();
    }
    while i < k
        invariant
            i <= k <= 62,
            p == pow2(i as nat),
            1 <= p,
            p <= pow2(62),
            pow2(62) == 0x4000_0000_0000_0000,
        decreases k - i,
    {
        proof {
            lemma_pow2_unfold((i + 1) as nat);
            lemma_pow2_monotone((i + 1) as nat, 62);
        }
        p = p * 2;
        i = i + 1;
    }
    p
}

/// A product is below the product of bounds on its factors.
proof fn lemma_product_below(m: int, p: int, m_bound: int, p_bound: int)
    requires
        0 <= m < m_bound,
        0 < p <= p_bound,
    ensures
        m * p < m_bound * p_bound,
{
    assert(m * p <= m * p_bound) by (nonlinear_arith)
        requires
            0 <= m,
            p <= p_bound,
    ;
    assert(m * p_bound < m_bound * p_bound) by (nonlinear_arith)
        requires
            m < m_bound,
            0 < p_bound,
    ;
}

/// Two numbers that are both far smaller than the tolerance are near each
/// other.
proof fn lemma_both_small(pa: Parts, pb: Parts)
    requires
        pa.bounded(),
        pb.bounded(),
        pa.scale + 2 <= TOLERANCE_SCALE,
        pb.scale + 2 <= TOLERANCE_SCALE,
    ensures
        side_at(pa.position() - pb.position()) == Side::Near,
{
    lemma_tolerance();
    lemma2_to64();
    let unit = pow2(UNIT_SCALE as nat) as int;
    lemma_pow2_monotone(pa.scale as nat, UNIT_SCALE as nat);
    lemma_pow2_monotone(pb.scale as nat, UNIT_SCALE as nat);
    lemma_pow2_split(TOLERANCE_SCALE as nat, UNIT_SCALE as nat);
    lemma_product_below(
        pa.significand as int,
        pow2(pa.scale as nat) as int,
        0x20_0000_0000_0000,
        unit,
    );
    lemma_product_below(
        pb.significand as int,
        pow2(pb.scale as nat) as int,
        0x20_0000_0000_0000,
        unit,
    );
    assert(tolerance() == 0x11_9799_812D_EA11 * (4 * unit));
    assert(0x11_9799_812D_EA11 * (4 * unit) >= 0x40_0000_0000_0000 * unit) by (nonlinear_arith)
        requires
            unit > 0,
    ;
}

/// A number whose scale is well above that of the tolerance and of another
/// number outweighs both together.
proof fn lemma_dominant(high: Parts, low: Parts)
    requires
        high.bounded(),
        low.bounded(),
        high.scale >= TOLERANCE_SCALE + 2,
        high.scale >= low.scale + 3,
    ensures
        high.magnitude() > low.magnitude() + tolerance(),
{
    lemma_tolerance();
    lemma2_to64();
    let top = high.scale as nat;
    let unit = pow2((top - 3) as nat) as int;
    lemma_pow2_split(top, (top - 3) as nat);
    lemma_pow2_split((top - 2) as nat, (top - 3) as nat);
    lemma_pow2_monotone(low.scale as nat, (top - 3) as nat);
    lemma_pow2_monotone(TOLERANCE_SCALE as nat, (top - 2) as nat);
    assert(pow2(top) == 8 * unit);
    assert(pow2((top - 2) as nat) == 2 * unit);
    lemma_product_below(
        low.significand as int,
        pow2(low.scale as nat) as int,
        0x20_0000_0000_0000,
        unit,
    );
    lemma_product_below(
        TOLERANCE_SIGNIFICAND as int,
        pow2(TOLERANCE_SCALE as nat) as int,
        0x20_0000_0000_0000,
        2 * unit,
    );
    assert(high.significand * (8 * unit) >= 0x10_0000_0000_0000 * (8 * unit)) by (nonlinear_arith)
        requires
            high.significand >= 0x10_0000_0000_0000,
            unit > 0,
    ;
    assert(0x20_0000_0000_0000 * unit + 0x20_0000_0000_0000 * (2 * unit) < 0x10_0000_0000_0000
        * (8 * unit)) by (nonlinear_arith)
        requires
            unit > 0,
    ;
}

/// The far case: the scales differ so much that the number of larger scale
/// decides alone.
fn compare_far(pa: Parts, pb: Parts) -> (side: Side)
    requires
        pa.bounded(),
        pb.bounded(),
        pa.scale >= TOLERANCE_SCALE + 2 || pb.scale >= TOLERANCE_SCALE + 2,
        pa.scale >= pb.scale + 3 || pb.scale >= pa.scale + 3,
    ensures
        side == side_at(pa.position() - pb.position()),
{
    if pa.scale > pb.scale {
        proof {
            lemma_dominant(pa, pb);
        }
        if pa.negative {
            Side::Below
        } else {
            Side::Above
        }
    } else {
        proof {
            lemma_dominant(pb, pa);
        }
        if pb.negative {
            Side::Above
        } else {
            Side::Below
        }
    }
}

/// A magnitude written over a lower scale.
proof fn lemma_rescale(parts: Parts, low: nat)
    requires
        low <= parts.scale,
    ensures
        parts.magnitude() == parts.significand * pow2((parts.scale - low) as nat) * pow2(low),
{
    lemma_pow2_split(parts.scale as nat, low);
    let m = parts.significand as int;
    let w = pow2((parts.scale - low) as nat) as int;
    let l = pow2(low) as int;
    assert(m * (w * l) == m * w * l) by (nonlinear_arith);
}

/// Comparing a multiple of a power of two with the tolerance, where the
/// power is at least that of the tolerance.
proof fn lemma_aligned(diff: int, low: nat, clamp: nat)
    requires
        low >= TOLERANCE_SCALE,
        clamp == if low - TOLERANCE_SCALE > 54 { 54 } else { low - TOLERANCE_SCALE },
    ensures
        diff * pow2(low) >= tolerance() <==> diff * pow2(clamp) >= TOLERANCE_SIGNIFICAND,
        diff * pow2(low) <= -tolerance() <==> diff * pow2(clamp) <= -TOLERANCE_SIGNIFICAND,
{
    lemma_tolerance();
    lemma2_to64();
    lemma2_to64_rest();
    let rest = (low - TOLERANCE_SCALE) as nat;
    lemma_pow2_split(low, TOLERANCE_SCALE as nat);
    lemma_pow2_monotone(clamp, rest);
    let z = pow2(TOLERANCE_SCALE as nat) as int;
    let w = pow2(rest) as int;
    let c = pow2(clamp) as int;
    let m = TOLERANCE_SIGNIFICAND as int;
    assert(diff * (w * z) == (diff * w) * z) by (nonlinear_arith);
    assert(((diff * w) * z >= m * z) <==> (diff * w >= m)) by (nonlinear_arith)
        requires
            z > 0,
    ;
    assert(((diff * w) * z <= -(m * z)) <==> (diff * w <= -m)) by (nonlinear_arith)
        requires
            z > 0,
    ;
    if rest > 54 {
        assert(c == 0x40_0000_0000_0000);
        assert((diff * w >= m) <==> (diff * c >= m)) by (nonlinear_arith)
            requires
                w >= c,
                c == 0x40_0000_0000_0000,
                m < 0x20_0000_0000_0000,
                m > 0,
        ;
        assert((diff * w <= -m) <==> (diff * c <= -m)) by (nonlinear_arith)
            requires
                w >= c,
                c == 0x40_0000_0000_0000,
                m < 0x20_0000_0000_0000,
                m > 0,
        ;
    }
}

/// The aligned case: both scales are at least that of the tolerance and at
/// most two apart, so the difference is an exact small multiple of the
/// lower power of two.
fn compare_aligned(pa: Parts, pb: Parts) -> (side: Side)
    requires
        pa.bounded(),
        pb.bounded(),
        pa.scale >= TOLERANCE_SCALE,
        pb.scale >= TOLERANCE_SCALE,
        pa.scale <= pb.scale + 2,
        pb.scale <= pa.scale + 2,
    ensures
        side == side_at(pa.position() - pb.position()),
{
    let low: u64 = if pa.scale <= pb.scale { pa.scale } else { pb.scale };
    let wa: u64 = power_of_two(pa.scale - low);
    let wb: u64 = power_of_two(pb.scale - low);
    proof {
        lemma2_to64();
        lemma_pow2_monotone((pa.scale - low) as nat, 2);
        lemma_pow2_monotone((pb.scale - low) as nat, 2);
        lemma_rescale(pa, low as nat);
        lemma_rescale(pb, low as nat);
        assert(pa.significand * wa <= 0x20_0000_0000_0000 * 4) by (nonlinear_arith)
            requires
                pa.significand < 0x20_0000_0000_0000,
                0 < wa <= 4,
        ;
        assert(pb.significand * wb <= 0x20_0000_0000_0000 * 4) by (nonlinear_arith)
            requires
                pb.significand < 0x20_0000_0000_0000,
                0 < wb <= 4,
        ;
    }
    let ma: i128 = (pa.significand as i128) * (wa as i128);
    let mb: i128 = (pb.significand as i128) * (wb as i128);
    let sa: i128 = if pa.negative { -ma } else { ma };
    let sb: i128 = if pb.negative { -mb } else { mb };
    let diff: i128 = sa - sb;
    let excess: u64 = low - TOLERANCE_SCALE;
    let clamp: u64 = if excess > 54 { 54 } else { excess };
    let w: u64 = power_of_two(clamp);
    proof {
        lemma2_to64_rest();
        lemma_pow2_monotone(clamp as nat, 54);
        lemma_aligned(diff as int, low as nat, clamp as nat);
        let l = pow2(low as nat) as int;
        assert(pa.position() == sa * l) by (nonlinear_arith)
            requires
                pa.magnitude() == ma * l,
                pa.position() == if pa.negative { -(pa.magnitude() as int) } else { pa.magnitude() as int },
                sa == if pa.negative { -(ma as int) } else { ma as int },
        ;
        assert(pb.position() == sb * l) by (nonlinear_arith)
            requires
                pb.magnitude() == mb * l,
                pb.position() == if pb.negative { -(pb.magnitude() as int) } else { pb.magnitude() as int },
                sb == if pb.negative { -(mb as int) } else { mb as int },
        ;
        assert(pa.position() - pb.position() == diff * l) by (nonlinear_arith)
            requires
                pa.position() == sa * l,
                pb.position() == sb * l,
                diff == sa - sb,
        ;
        assert(-0x100_0000_0000_0000 * 0x40_0000_0000_0000 <= diff * w <= 0x100_0000_0000_0000
            * 0x40_0000_0000_0000) by (nonlinear_arith)
            requires
                -0x100_0000_0000_0000 <= diff <= 0x100_0000_0000_0000,
                0 < w <= 0x40_0000_0000_0000,
        ;
    }
    let scaled: i128 = diff * (w as i128);
    if scaled >= TOLERANCE_SIGNIFICAND as i128 {
        Side::Above
    } else if scaled <= -(TOLERANCE_SIGNIFICAND as i128) {
        Side::Below
    } else {
        Side::Near
    }
}

/// How a reduced number stands for a position: an even one exactly, an odd
/// one for a position strictly between its two even neighbours.
spec fn stands_for(reduced: int, position: int, unit: int) -> bool {
    &&& reduced % 2 == 0 ==> position == reduced * unit
    &&& reduced % 2 != 0 ==> (reduced - 1) * unit < position < (reduced + 1) * unit
}

/// Comparing two positions with an even multiple of the unit, through the
/// numbers that stand for them, one of which is exact.
proof fn lemma_sticky(pa: int, pb: int, ra: int, rb: int, unit: int, bound: int)
    requires
        unit > 0,
        stands_for(ra, pa, unit),
        stands_for(rb, pb, unit),
        ra % 2 == 0 || rb % 2 == 0,
        bound % 2 == 0,
    ensures
        pa - pb >= bound * unit <==> ra - rb >= bound,
        pa - pb <= -(bound * unit) <==> ra - rb <= -bound,
{
    let d = ra - rb;
    if ra % 2 == 0 && rb % 2 == 0 {
        assert(pa - pb == d * unit) by (nonlinear_arith)
            requires
                pa == ra * unit,
                pb == rb * unit,
                d == ra - rb,
        ;
        assert((d * unit >= bound * unit) <==> (d >= bound)) by (nonlinear_arith)
            requires
                unit > 0,
        ;
        assert((d * unit <= -(bound * unit)) <==> (d <= -bound)) by (nonlinear_arith)
            requires
                unit > 0,
        ;
    } else {
        assert(d % 2 != 0);
        assert((d - 1) * unit < pa - pb < (d + 1) * unit) by (nonlinear_arith)
            requires
                d == ra - rb,
                (ra % 2 == 0 && pa == ra * unit && (rb - 1) * unit < pb < (rb + 1) * unit) || (rb
                    % 2 == 0 && pb == rb * unit && (ra - 1) * unit < pa < (ra + 1) * unit),
        ;
        if d >= bound {
            assert(d - 1 >= bound);
            assert((d - 1) * unit >= bound * unit) by (nonlinear_arith)
                requires
                    d - 1 >= bound,
                    unit > 0,
            ;
        } else {
            assert(d + 1 <= bound);
            assert((d + 1) * unit <= bound * unit) by (nonlinear_arith)
                requires
                    d + 1 <= bound,
                    unit > 0,
            ;
        }
        if d <= -bound {
            assert(d + 1 <= -bound);
            assert((d + 1) * unit <= -(bound * unit)) by (nonlinear_arith)
                requires
                    d + 1 <= -bound,
                    unit > 0,
            ;
        } else {
            assert(d - 1 >= -bound);
            assert((d - 1) * unit >= -(bound * unit)) by (nonlinear_arith)
                requires
                    d - 1 >= -bound,
                    unit > 0,
            ;
        }
    }
}

/// The number that stands for a magnitude over the unit two scales below the
/// tolerance: twice the count of whole double units, plus one if anything
/// is left over.
fn reduce(parts: Parts) -> (reduced: u64)
    requires
        parts.bounded(),
        parts.scale <= TOLERANCE_SCALE + 1,
    ensures
        reduced <= 0x100_0000_0000_0000,
        parts.scale + 1 >= TOLERANCE_SCALE ==> reduced % 2 == 0,
        stands_for(reduced as int, parts.magnitude() as int, pow2(UNIT_SCALE as nat) as int),
{
    let ghost unit = pow2(UNIT_SCALE as nat) as int;
    proof {
        lemma2_to64();
        lemma_pow2_pos(UNIT_SCALE as nat);
    }
    if parts.scale > UNIT_SCALE {
        let w: u64 = power_of_two(parts.scale - UNIT_SCALE);
        proof {
            lemma_pow2_monotone(1, (parts.scale - UNIT_SCALE) as nat);
            lemma_pow2_monotone((parts.scale - UNIT_SCALE) as nat, 3);
            lemma_pow2_unfold((parts.scale - UNIT_SCALE) as nat);
            lemma_rescale(parts, UNIT_SCALE as nat);
            assert(parts.significand * w <= 0x20_0000_0000_0000 * 8) by (nonlinear_arith)
                requires
                    parts.significand < 0x20_0000_0000_0000,
                    0 < w <= 8,
            ;
            let half = pow2((parts.scale - UNIT_SCALE - 1) as nat) as int;
            assert(parts.significand * w == 2 * (parts.significand * half)) by (nonlinear_arith)
                requires
                    w == 2 * half,
            ;
        }
        parts.significand * w
    } else {
        let shift: u64 = UNIT_SCALE + 1 - parts.scale;
        let whole: u64;
        let rest: u64;
        if shift >= 53 {
            whole = 0;
            rest = parts.significand;
            proof {
                lemma2_to64_rest();
                lemma_pow2_monotone(53, shift as nat);
            }
        } else {
            let d: u64 = power_of_two(shift);
            whole = parts.significand / d;
            rest = parts.significand % d;
            proof {
                lemma_fundamental_div_mod(parts.significand as int, d as int);
                assert(d * whole == whole * d) by (nonlinear_arith);
            }
        }
        proof {
            let d = pow2(shift as nat) as int;
            let l = pow2(parts.scale as nat) as int;
            lemma_pow2_pos(parts.scale as nat);
            lemma_pow2_adds(shift as nat, parts.scale as nat);
            lemma_pow2_unfold((UNIT_SCALE + 1) as nat);
            assert(d * l == 2 * unit);
            assert(parts.significand == whole * d + rest);
            assert(rest < d);
            assert(parts.magnitude() == whole * (2 * unit) + rest * l) by (nonlinear_arith)
                requires
                    parts.magnitude() == parts.significand * l,
                    parts.significand == whole * d + rest,
                    d * l == 2 * unit,
            ;
            assert(rest * l < 2 * unit) by (nonlinear_arith)
                requires
                    0 <= rest < d,
                    l > 0,
                    d * l == 2 * unit,
            ;
            assert(rest > 0 ==> rest * l > 0) by (nonlinear_arith)
                requires
                    l > 0,
            ;
            assert(rest == 0 ==> rest * l == 0) by (nonlinear_arith);
            assert(whole <= parts.significand) by (nonlinear_arith)
                requires
                    parts.significand == whole * d + rest,
                    d >= 1,
                    whole >= 0,
                    rest >= 0,
            ;
            assert(whole * (2 * unit) == (2 * whole) * unit) by (nonlinear_arith);
            assert((2 * whole + 2) * unit == (2 * whole) * unit + 2 * unit) by (nonlinear_arith);
        }
        if rest == 0 {
            2 * whole
        } else {
            2 * whole + 1
        }
    }
}

/// The straddling case: the larger scale is within one of that of the
/// tolerance, and the other number may lie far below.
fn compare_straddling(pa: Parts, pb: Parts) -> (side: Side)
    requires
        pa.bounded(),
        pb.bounded(),
        pa.scale <= TOLERANCE_SCALE + 1,
        pb.scale <= TOLERANCE_SCALE + 1,
        pa.scale + 1 >= TOLERANCE_SCALE || pb.scale + 1 >= TOLERANCE_SCALE,
    ensures
        side == side_at(pa.position() - pb.position()),
{
    let ra: u64 = reduce(pa);
    let rb: u64 = reduce(pb);
    let sa: i128 = if pa.negative { -(ra as i128) } else { ra as i128 };
    let sb: i128 = if pb.negative { -(rb as i128) } else { rb as i128 };
    let bound: i128 = 4 * (TOLERANCE_SIGNIFICAND as i128);
    proof {
        let unit = pow2(UNIT_SCALE as nat) as int;
        lemma_tolerance();
        lemma2_to64();
        lemma_pow2_split(TOLERANCE_SCALE as nat, UNIT_SCALE as nat);
        assert(tolerance() == bound * unit) by (nonlinear_arith)
            requires
                tolerance() == TOLERANCE_SIGNIFICAND * (4 * unit),
                bound == 4 * TOLERANCE_SIGNIFICAND,
        ;
        lemma_negated(ra as int, pa.magnitude() as int, unit);
        lemma_negated(rb as int, pb.magnitude() as int, unit);
        lemma_sticky(pa.position(), pb.position(), sa as int, sb as int, unit, bound as int);
    }
    let d: i128 = sa - sb;
    if d >= bound {
        Side::Above
    } else if d <= -bound {
        Side::Below
    } else {
        Side::Near
    }
}

/// What stands for a magnitude stands, negated, for the negated magnitude.
proof fn lemma_negated(reduced: int, magnitude: int, unit: int)
    requires
        stands_for(reduced, magnitude, unit),
    ensures
        stands_for(-reduced, -magnitude, unit),
{
    assert((-reduced) * unit == -(reduced * unit)) by (nonlinear_arith);
    assert((-reduced - 1) * unit == -((reduced + 1) * unit)) by (nonlinear_arith);
    assert((-reduced + 1) * unit == -((reduced - 1) * unit)) by (nonlinear_arith);
}

/// The side of `b` on which `a` lies, decided exactly.
pub fn compare(a: u64, b: u64) -> (side: Side)
    requires
        finite(a),
        finite(b),
    ensures
        side == side_of(a, b),
{
    let pa = decode(a);
    let pb = decode(b);
    let high: u64 = if pa.scale >= pb.scale { pa.scale } else { pb.scale };
    let low: u64 = if pa.scale >= pb.scale { pb.scale } else { pa.scale };
    if high + 2 <= TOLERANCE_SCALE {
        proof {
            lemma_both_small(pa, pb);
        }
        Side::Near
    } else if high <= TOLERANCE_SCALE + 1 {
        compare_straddling(pa, pb)
    } else if high - low >= 3 {
        compare_far(pa, pb)
    } else {
        compare_aligned(pa, pb)
    }
}

/// Whether two wavelengths differ by less than the tolerance.
pub fn within_tolerance(a: u64, b: u64) -> (yes: bool)
    ensures
        yes == near(a, b),
{
    if is_finite(a) && is_finite(b) {
        match compare(a, b) {
            Side::Near => true,
            _ => false,
        }
    } else {
        false
    }
}

/// The tolerance is not zero.
pub proof fn lemma_tolerance_positive()
    ensures
        tolerance() > 0,
{
    lemma_tolerance();
    lemma_pow2_pos(TOLERANCE_SCALE as nat);
    assert(TOLERANCE_SIGNIFICAND * pow2(TOLERANCE_SCALE as nat) > 0) by (nonlinear_arith)
        requires
            TOLERANCE_SIGNIFICAND > 0,
            pow2(TOLERANCE_SCALE as nat) > 0,
    ;
}

/// Of two numbers, exactly one of three things holds: the first is apart
/// below the second, the second apart below the first, or they are near.
pub proof fn lemma_sides(a: u64, b: u64)
    requires
        finite(a),
        finite(b),
    ensures
        side_of(a, b) == Side::Below <==> apart(a, b),
        side_of(a, b) == Side::Above <==> apart(b, a),
        side_of(a, b) == Side::Near <==> near(a, b),
        near(a, b) <==> near(b, a),
        near(a, a),
{
    lemma_tolerance_positive();
}

} // verus!
