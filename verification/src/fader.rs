//! The positions of faders, which run from 0 to 1.

use crate::single::{
    apart, distance, half_even, halvings, lemma_distance_grows, lemma_half_even_scaled,
    lemma_nearest_at, lemma_nearest_grows, lemma_nearest_is_near, nearest, round_half_even,
    signed_bits, whole, Single, INFINITE, SIGN, STEP,
};
use vstd::arithmetic::mul::*;
use vstd::arithmetic::power2::*;
use vstd::prelude::*;

verus! {

/// The bits of the binary32 number 0.1.
pub const TENTH: u32 = 0x3dcc_cccd;

/// The bits of the binary32 number 9.9.
pub const NINE_POINT_NINE: u32 = 0x411e_6666;

/// The bits of the binary32 number 1.
pub const ONE: u32 = 0x3f80_0000;

/// The bits of the binary32 number 2.
pub const TWO: u32 = 0x4000_0000;

/// The bits of the binary32 number 10.
pub const TEN: u32 = 0x4120_0000;

/// Whether a gain can be set: it is not known to be less than 0 or more than 2.
pub open spec fn gain_in_range(gain: Single) -> bool {
    !gain.below(0) && !gain.above(2)
}

/// Whether a trim can be set: it is not known to be less than 0.1 or more than 10.
pub open spec fn trim_in_range(trim: Single) -> bool {
    !(!trim.nan() && trim.units() < distance(TENTH as nat)) && !trim.above(10)
}

/// The position of the gain fader: half the gain.
pub open spec fn gain_position(gain: Single) -> Single {
    if gain.nan() {
        gain
    } else {
        Single {
            bits: signed_bits(gain.negative(), nearest(distance(gain.magnitude()), 2)) as u32,
        }
    }
}

/// The bits of the difference between two binary32 numbers, the first not the lesser.
pub open spec fn difference_bits(a: nat, b: nat) -> nat {
    nearest((distance(a) - distance(b)) as nat, 1)
}

/// The bits of the quotient of two binary32 numbers.
pub open spec fn quotient_bits(a: nat, b: nat) -> nat {
    nearest(distance(a) * pow2(149), distance(b))
}

/// The position of the trim fader: how far the trim lies above 0.1, as a part of 9.9.
pub open spec fn trim_position(trim: Single) -> Single {
    if trim.nan() {
        trim
    } else {
        let part = quotient_bits(
            difference_bits(trim.magnitude(), TENTH as nat),
            NINE_POINT_NINE as nat,
        );
        Single {
            bits: if part > ONE {
                ONE
            } else {
                part as u32
            },
        }
    }
}

/// Rounding after a multiplication by a power of two moves the bits by whole steps.
proof fn lemma_nearest_shifted(a: nat, b: nat, j: nat)
    requires
        b > 0,
        b * pow2(23) <= a < b * pow2(24),
        half_even(a, b) + j * (STEP as nat) < INFINITE,
    ensures
        nearest(a * pow2(j), b) == half_even(a, b) + j * (STEP as nat),
{
    lemma_pow2_pos(j);
    lemma_pow2_adds(23, j);
    lemma_pow2_adds(24, j);
    let p = pow2(j);
    assert(a * p < b * (pow2(24) * p)) by (nonlinear_arith)
        requires
            a < b * pow2(24),
            p > 0,
    ;
    assert(a * p >= b * (pow2(23) * p)) by (nonlinear_arith)
        requires
            a >= b * pow2(23),
            p > 0,
    ;
    lemma_nearest_at(a * p, b, j);
    lemma_half_even_scaled(a, b, p);
}

/// The bits of a number, doubled.
proof fn lemma_nearest_doubled(n: nat)
    requires
        n >= pow2(23),
        nearest(2 * n, 1) < INFINITE,
    ensures
        nearest(2 * n, 1) == nearest(n, 1) + STEP,
{
    lemma2_to64();
    let k = halvings(n);
    assert(halvings(2 * n) == 1 + k);
    lemma_pow2_unfold(k + 1);
    lemma_pow2_pos(k);
    lemma_half_even_scaled(n, pow2(k), 2);
    assert(half_even(2 * n, pow2(k + 1)) == half_even(n, pow2(k)));
    assert((k + 1) * (STEP as nat) == k * (STEP as nat) + STEP) by (nonlinear_arith);
    assert(1 * pow2(k) == pow2(k));
    assert(1 * pow2(k + 1) == pow2(k + 1));
    assert(n / 1 == n);
    assert((2 * n) / 1 == 2 * n);
}

/// The bits of a number, doubled `i` times, where they stay finite even when it is
/// doubled `j` times.
proof fn lemma_nearest_multiplied(n: nat, i: nat, j: nat)
    requires
        n >= pow2(23),
        i <= j,
        nearest(n * pow2(j), 1) < INFINITE,
    ensures
        nearest(n * pow2(i), 1) == nearest(n, 1) + i * (STEP as nat),
    decreases j,
{
    lemma2_to64();
    if j == 0 {
        assert(n * pow2(0) == n) by (nonlinear_arith)
            requires
                pow2(0) == 1,
        ;
    } else {
        lemma_pow2_unfold(j);
        let p = pow2((j - 1) as nat);
        lemma_pow2_pos((j - 1) as nat);
        assert(n * (2 * p) == 2 * (n * p)) by (nonlinear_arith);
        assert(n * p >= n) by (nonlinear_arith)
            requires
                p >= 1,
        ;
        lemma_nearest_doubled(n * p);
        if i < j {
            lemma_nearest_multiplied(n, i, (j - 1) as nat);
        } else {
            lemma_nearest_multiplied(n, (j - 1) as nat, (j - 1) as nat);
            assert(j * (STEP as nat) == (j - 1) * (STEP as nat) + STEP) by (nonlinear_arith);
        }
    }
}

/// A number of at least a full mantissa has the bits of a normal number.
proof fn lemma_nearest_is_normal(n: nat)
    requires
        n >= pow2(23),
    ensures
        nearest(n, 1) >= STEP,
{
    lemma2_to64();
    let k = halvings(n);
    assert(n / 1 == n);
    assert(1 * pow2(k) == pow2(k));
    if k == 0 {
        assert(n / pow2(0) == n);
        assert(half_even(n, 1) == n);
    } else {
        assert(k * (STEP as nat) >= STEP) by (nonlinear_arith)
            requires
                k >= 1,
        ;
    }
}

/// The position of the gain fader.
pub fn gain_fader(gain: Single) -> (r: Single)
    requires
        gain_in_range(gain),
    ensures
        r == gain_position(gain),
{
    if gain.is_nan() {
        return gain;
    }
    let m: u32 = gain.bits % SIGN;
    let half: u32 = if m < 0x100_0000 {
        proof {
            lemma2_to64();
            lemma_nearest_at(m as nat, 2, 0);
            assert(2 * pow2(0) == 2);
            assert(distance(m as nat) == m) by {
                let e = m as nat / (STEP as nat);
                assert(e == 0 || e == 1);
                if e == 1 {
                    assert((STEP as nat + m as nat % (STEP as nat)) * 1 == m);
                }
            }
        }
        round_half_even(m as u64, 2) as u32
    } else {
        proof {
            lemma2_to64();
            let e = m as nat / (STEP as nat);
            let f = m as nat % (STEP as nat);
            let mantissa = STEP as nat + f;
            let p = pow2((e - 2) as nat);
            lemma_pow2_unfold((e - 1) as nat);
            assert((mantissa * 2) * p == mantissa * (2 * p)) by (nonlinear_arith);
            assert(half_even(mantissa * 2, 2) == mantissa);
            assert((e - 2) * (STEP as nat) == e * (STEP as nat) - 2 * (STEP as nat))
                by (nonlinear_arith);
            assert(m == e * (STEP as nat) + f);
            assert(m < INFINITE) by {
                lemma_in_range_is_finite(gain);
            }
            lemma_nearest_shifted(mantissa * 2, 2, (e - 2) as nat);
        }
        m - STEP
    };
    if gain.bits >= SIGN {
        Single { bits: half + SIGN }
    } else {
        Single { bits: half }
    }
}

/// What is at most 2 is finite.
proof fn lemma_in_range_is_finite(gain: Single)
    requires
        !gain.nan(),
        gain_in_range(gain),
    ensures
        gain.finite(),
{
    if !gain.finite() {
        lemma2_to64();
        assert(distance(INFINITE as nat) == (STEP as nat) * pow2(254)) by {
            assert(INFINITE as nat / (STEP as nat) == 255);
            assert(INFINITE as nat % (STEP as nat) == 0);
        }
        lemma_pow2_strictly_increases(149, 254);
        lemma_pow2_pos(254);
        assert((STEP as nat) * pow2(254) > 2 * pow2(149)) by (nonlinear_arith)
            requires
                pow2(254) > pow2(149),
                pow2(149) >= 0,
                STEP == 0x80_0000,
        ;
        assert(whole(0) == 0) by (nonlinear_arith);
    }
}

/// What the bits of a trim in range look like.
proof fn lemma_trim_bits(trim: Single)
    requires
        !trim.nan(),
        trim_in_range(trim),
    ensures
        TENTH <= trim.bits <= 0x4120_0000,
{
    lemma2_to64();
    let m = trim.magnitude();
    lemma_pow2_pos(122);
    assert(distance(TENTH as nat) == 0xcc_cccd * pow2(122)) by {
        assert(TENTH as nat / (STEP as nat) == 123);
        assert(TENTH as nat % (STEP as nat) == 0x4c_cccd);
    }
    assert(distance(TENTH as nat) > 0) by (nonlinear_arith)
        requires
            distance(TENTH as nat) == 0xcc_cccd * pow2(122),
            pow2(122) > 0,
    ;
    assert(!trim.negative());
    if m < TENTH {
        lemma_distance_grows(m, TENTH as nat);
    }
    assert(distance(0x4120_0000) == whole(10)) by {
        assert(0x4120_0000nat / (STEP as nat) == 130);
        assert(0x4120_0000nat % (STEP as nat) == 0x20_0000);
        lemma_pow2_adds(129, 20);
        assert((STEP as nat + 0x20_0000) * pow2(129) == 10 * pow2(149)) by (nonlinear_arith)
            requires
                pow2(149) == pow2(129) * 0x10_0000,
                STEP == 0x80_0000,
        ;
    }
    if m > 0x4120_0000 {
        lemma_distance_grows(0x4120_0000, m);
    }
}

/// The trim in steps of 2 to the power of -27, of which every number in range is a whole
/// multiple.
fn trim_steps(bits: u32) -> (r: u32)
    requires
        TENTH <= bits <= 0x4120_0000,
    ensures
        distance(bits as nat) == (r as nat) * pow2(122),
        0xcc_cccd <= r <= 0x5000_0000,
{
    let exponent: u32 = bits / STEP;
    let mut r: u32 = STEP + bits % STEP;
    let mut e: u32 = 123;
    proof {
        lemma2_to64();
        assert(123 <= exponent <= 130);
    }
    let ghost mantissa = r as nat;
    assert(mantissa * pow2(0) == mantissa) by (nonlinear_arith)
        requires
            pow2(0) == 1,
    ;
    while e < exponent
        invariant
            123 <= e <= exponent <= 130,
            STEP <= mantissa < 2 * STEP,
            exponent == 123 ==> mantissa >= 0xcc_cccd,
            exponent == 130 ==> mantissa <= 0xa0_0000,
            (r as nat) * pow2(122) == mantissa * pow2((e - 1) as nat),
            r == mantissa * pow2((e - 123) as nat),
            e == 123 ==> r == mantissa,
        decreases exponent - e,
    {
        proof {
            lemma2_to64();
            lemma_pow2_unfold(e as nat);
            lemma_pow2_unfold((e - 122) as nat);
            let q = pow2((e - 1) as nat);
            let p = pow2((e - 123) as nat);
            assert(mantissa * (2 * q) == 2 * (mantissa * q)) by (nonlinear_arith);
            assert(mantissa * (2 * p) == 2 * (mantissa * p)) by (nonlinear_arith);
            assert(p <= 64) by {
                if e < 129 {
                    lemma_pow2_strictly_increases((e - 123) as nat, 6);
                }
            }
            assert(mantissa * p <= mantissa * 64) by (nonlinear_arith)
                requires
                    p <= 64,
            ;
            assert(2 * ((r as nat) * pow2(122)) == ((2 * r) as nat) * pow2(122))
                by (nonlinear_arith);
        }
        r = r * 2;
        e = e + 1;
    }
    proof {
        lemma2_to64();
        let p = pow2((e - 123) as nat);
        if e > 123 {
            if e > 124 {
                lemma_pow2_strictly_increases(1, (e - 123) as nat);
            }
            assert(mantissa * p >= mantissa * 2) by (nonlinear_arith)
                requires
                    p >= 2,
            ;
        }
        if e < 130 {
            if e < 129 {
                lemma_pow2_strictly_increases((e - 123) as nat, 6);
            }
            assert(mantissa * p <= 0xff_ffff * 64) by (nonlinear_arith)
                requires
                    p <= 64,
                    mantissa <= 0xff_ffff,
            ;
        } else {
            assert(mantissa * p <= 0xa0_0000 * 128) by (nonlinear_arith)
                requires
                    p == 128,
                    mantissa <= 0xa0_0000,
            ;
        }
    }
    r
}

/// The bits of the quotient of a number and 9.9.
fn part_of_range(a: u32) -> (r: u32)
    requires
        100 * STEP <= a < INFINITE,
    ensures
        r == quotient_bits(a as nat, NINE_POINT_NINE as nat),
{
    let e: u32 = a / STEP;
    let mantissa: u64 = (STEP + a % STEP) as u64;
    let divisor: u64 = 0x9e_6666;
    let ghost p = pow2((e - 1) as nat);
    let ghost n = distance(a as nat) * pow2(149);
    let ghost d = distance(NINE_POINT_NINE as nat);
    proof {
        lemma2_to64();
        assert(distance(a as nat) == (mantissa as nat) * p);
        assert(d == (divisor as nat) * pow2(129)) by {
            assert(NINE_POINT_NINE as nat / (STEP as nat) == 130);
            assert(NINE_POINT_NINE as nat % (STEP as nat) == 0x1e_6666);
        }
        lemma_pow2_pos(129);
        lemma_pow2_adds(20, 129);
        lemma_pow2_adds((e - 1) as nat, 20);
        assert(n == (mantissa as nat) * pow2((e + 19) as nat) * pow2(129)) by (nonlinear_arith)
            requires
                n == ((mantissa as nat) * p) * pow2(149),
                pow2(149) == pow2(20) * pow2(129),
                pow2((e + 19) as nat) == p * pow2(20),
        ;
    }
    if mantissa >= divisor {
        let q: u64 = round_half_even(mantissa * 0x80_0000, divisor);
        proof {
            lemma_pow2_adds(23, (e - 4) as nat);
            lemma_quotient(mantissa as nat, divisor as nat, 23, (e - 4) as nat, n, d);
        }
        (q as u32) + (e - 4) * STEP
    } else {
        let q: u64 = round_half_even(mantissa * 0x100_0000, divisor);
        proof {
            lemma_pow2_adds(24, (e - 5) as nat);
            lemma_quotient(mantissa as nat, divisor as nat, 24, (e - 5) as nat, n, d);
        }
        (q as u32) + (e - 5) * STEP
    }
}

/// The bits of a quotient of two mantissas, the first moved up by `s` binary digits.
proof fn lemma_quotient(a: nat, b: nat, s: nat, j: nat, n: nat, d: nat)
    requires
        s == 23 || s == 24,
        STEP <= a < 2 * STEP,
        b == 0x9e_6666,
        s == 23 ==> a >= b,
        s == 24 ==> a < b,
        j <= 250,
        n == a * pow2(s + j) * pow2(129),
        d == b * pow2(129),
    ensures
        nearest(n, d) == half_even(a * pow2(s), b) + j * (STEP as nat),
        half_even(a * pow2(s), b) <= 0x100_0000,
{
    lemma2_to64();
    let c = pow2(129);
    lemma_pow2_pos(129);
    let x = a * pow2(s);
    lemma_pow2_adds(s, j);
    if s == 23 {
        assert(x == a * 0x80_0000);
    } else {
        assert(x == a * 0x100_0000);
    }
    assert(b * 0x80_0000 <= x < b * 0x100_0000);
    assert(half_even(x, b) <= 0x100_0000) by {
        assert(x / b < 0x100_0000);
    }
    assert(j * (STEP as nat) <= 250 * (STEP as nat)) by (nonlinear_arith)
        requires
            j <= 250,
    ;
    let (xc, bc) = (x * c, b * c);
    assert(bc * pow2(23) <= xc < bc * pow2(24)) by (nonlinear_arith)
        requires
            b * 0x80_0000 <= x < b * 0x100_0000,
            pow2(23) == 0x80_0000,
            pow2(24) == 0x100_0000,
            xc == x * c,
            bc == b * c,
            c > 0,
    ;
    assert(bc > 0) by (nonlinear_arith)
        requires
            bc == b * c,
            b > 0,
            c > 0,
    ;
    lemma_half_even_scaled(x, b, c);
    lemma_nearest_shifted(xc, bc, j);
    assert(xc * pow2(j) == n) by (nonlinear_arith)
        requires
            xc == (a * pow2(s)) * c,
            n == a * (pow2(s) * pow2(j)) * c,
    ;
}

/// Nothing rounds to nothing, and so does a part of it.
proof fn lemma_nothing()
    ensures
        nearest(0, 1) == 0,
        quotient_bits(0, NINE_POINT_NINE as nat) == 0,
{
    lemma2_to64();
    lemma_nearest_at(0, 1, 0);
    assert(1 * pow2(0) == 1);
    assert(half_even(0, 1) == 0);
    let d = distance(NINE_POINT_NINE as nat);
    lemma_distance_grows(0, NINE_POINT_NINE as nat);
    assert(distance(0) * pow2(149) == 0) by (nonlinear_arith)
        requires
            distance(0) == 0,
    ;
    assert(0 < d * pow2(24)) by (nonlinear_arith)
        requires
            d > 0,
            pow2(24) > 0,
    ;
    lemma_nearest_at(0, d, 0);
    assert(d * pow2(0) == d) by (nonlinear_arith)
        requires
            pow2(0) == 1,
    ;
    assert(half_even(0, d) == 0);
}

/// The position of the trim fader.
pub fn trim_fader(trim: Single) -> (r: Single)
    requires
        trim_in_range(trim),
    ensures
        r == trim_position(trim),
{
    if trim.is_nan() {
        return trim;
    }
    proof {
        lemma_trim_bits(trim);
        lemma2_to64();
    }
    let above: u32 = trim_steps(trim.bits) - 0xcc_cccd;
    let ghost units = (above as nat) * pow2(122);
    proof {
        assert(distance(TENTH as nat) == 0xcc_cccd * pow2(122)) by {
            assert(TENTH as nat / (STEP as nat) == 123);
            assert(TENTH as nat % (STEP as nat) == 0x4c_cccd);
        }
        assert(units == distance(trim.magnitude()) - distance(TENTH as nat)) by (nonlinear_arith)
            requires
                units == (above as nat) * pow2(122),
                distance(trim.magnitude()) == ((above + 0xcc_cccd) as nat) * pow2(122),
                distance(TENTH as nat) == 0xcc_cccd * pow2(122),
        ;
    }
    if above == 0 {
        proof {
            assert(units == 0) by (nonlinear_arith)
                requires
                    units == 0 * pow2(122),
            ;
            lemma_nothing();
        }
        return Single { bits: 0 };
    }
    let scaled = Single::from_int(above as i32);
    proof {
        let x = above as nat;
        let low = x * pow2(23);
        assert(low >= pow2(23)) by (nonlinear_arith)
            requires
                x >= 1,
                low == x * pow2(23),
        ;
        lemma_pow2_adds(23, 126);
        lemma_pow2_adds(23, 99);
        assert(low * pow2(126) == x * pow2(149)) by (nonlinear_arith)
            requires
                low == x * pow2(23),
                pow2(149) == pow2(23) * pow2(126),
        ;
        assert(low * pow2(99) == units) by (nonlinear_arith)
            requires
                low == x * pow2(23),
                units == x * pow2(122),
                pow2(122) == pow2(23) * pow2(99),
        ;
        lemma_nearest_multiplied(low, 126, 126);
        lemma_nearest_multiplied(low, 99, 126);
        lemma_nearest_is_normal(low);
    }
    let difference: u32 = scaled.bits - 27 * STEP;
    let part: u32 = part_of_range(difference);
    Single {
        bits: if part > ONE {
            ONE
        } else {
            part
        },
    }
}

/// The bits of 1 are those of the number 1.
pub proof fn lemma_one_is_whole()
    ensures
        distance(ONE as nat) == pow2(149),
        distance(ONE as nat) == whole(1),
{
    lemma2_to64();
    assert(distance(ONE as nat) == whole(1)) by {
        assert(ONE as nat / (STEP as nat) == 127);
        assert(ONE as nat % (STEP as nat) == 0);
        lemma_pow2_adds(126, 23);
        assert((STEP as nat) * pow2(126) == 1 * pow2(149)) by (nonlinear_arith)
            requires
                pow2(149) == pow2(126) * 0x80_0000,
                STEP == 0x80_0000,
        ;
    }
}

/// A gain that can be set puts the fader between 0 and 1.
pub proof fn lemma_gain_position_in_range(gain: Single)
    requires
        gain_in_range(gain),
        !gain.nan(),
    ensures
        !gain_position(gain).nan(),
        !gain_position(gain).below(0),
        !gain_position(gain).above(1),
{
    lemma2_to64();
    let m = gain.magnitude();
    assert(whole(0) == 0) by (nonlinear_arith);
    lemma_gain_bits(gain);
    lemma_one_is_whole();
    let half = nearest(distance(m), 2);
    lemma_half_bits(m);
    assert(half <= ONE);
    assert(m == 0 ==> half == 0);
    if half < ONE {
        lemma_distance_grows(half, ONE as nat);
    }
}

/// The bits of half a number.
proof fn lemma_half_bits(m: nat)
    requires
        m <= 0x4000_0000,
    ensures
        nearest(distance(m), 2) <= ONE,
        m == 0 ==> nearest(distance(m), 2) == 0,
{
    lemma2_to64();
    let e = m / (STEP as nat);
    let f = m % (STEP as nat);
    if e < 2 {
        lemma_nearest_at(m, 2, 0);
        assert(2 * pow2(0) == 2);
        if e == 1 {
            assert((STEP as nat + f) * 1 == m);
        }
        assert(distance(m) == m);
        assert(half_even(m, 2) <= m / 2 + 1);
    } else {
        let mantissa = STEP as nat + f;
        let p = pow2((e - 2) as nat);
        lemma_pow2_unfold((e - 1) as nat);
        assert((mantissa * 2) * p == mantissa * (2 * p)) by (nonlinear_arith);
        assert(half_even(mantissa * 2, 2) == mantissa);
        assert((e - 2) * (STEP as nat) == e * (STEP as nat) - 2 * (STEP as nat))
            by (nonlinear_arith);
        assert(m == e * (STEP as nat) + f);
        lemma_nearest_shifted(mantissa * 2, 2, (e - 2) as nat);
    }
}

/// A trim that can be set puts the fader between 0 and 1.
pub proof fn lemma_trim_position_in_range(trim: Single)
    requires
        trim_in_range(trim),
        !trim.nan(),
    ensures
        !trim_position(trim).nan(),
        !trim_position(trim).below(0),
        !trim_position(trim).above(1),
{
    lemma2_to64();
    assert(whole(0) == 0) by (nonlinear_arith);
    lemma_one_is_whole();
    let bits = trim_position(trim).bits as nat;
    if bits < ONE {
        lemma_distance_grows(bits, ONE as nat);
    }
}

/// Not a greater distance from zero: not greater bits.
proof fn lemma_distance_keeps_order(a: nat, b: nat)
    ensures
        a <= b <==> distance(a) <= distance(b),
{
    if a < b {
        lemma_distance_grows(a, b);
    } else if b < a {
        lemma_distance_grows(b, a);
    }
}

/// A larger trim never gives a smaller position of the fader.
pub proof fn lemma_trim_position_grows(a: Single, b: Single)
    requires
        trim_in_range(a),
        trim_in_range(b),
        !a.nan(),
        !b.nan(),
        a.units() <= b.units(),
    ensures
        trim_position(a).units() <= trim_position(b).units(),
{
    lemma_trim_bits(a);
    lemma_trim_bits(b);
    let (low, high) = (distance(a.magnitude()), distance(b.magnitude()));
    let least = distance(TENTH as nat);
    lemma_distance_keeps_order(TENTH as nat, a.magnitude());
    lemma_nearest_grows((low - least) as nat, (high - least) as nat, 1);
    let da = difference_bits(a.magnitude(), TENTH as nat);
    let db = difference_bits(b.magnitude(), TENTH as nat);
    lemma_distance_keeps_order(da, db);
    assert(distance(da) * pow2(149) <= distance(db) * pow2(149)) by (nonlinear_arith)
        requires
            distance(da) <= distance(db),
            pow2(149) >= 0,
    ;
    let d = distance(NINE_POINT_NINE as nat);
    lemma_distance_grows(0, NINE_POINT_NINE as nat);
    lemma_nearest_grows(distance(da) * pow2(149), distance(db) * pow2(149), d);
    lemma_distance_keeps_order(
        trim_position(a).magnitude(),
        trim_position(b).magnitude(),
    );
}

/// The least trim, 0.1, gives the position 0, and the largest, 10, gives the position 1.
pub proof fn lemma_trim_position_ends()
    ensures
        trim_in_range(Single { bits: TENTH }),
        trim_in_range(Single { bits: TEN }),
        distance(TEN as nat) == whole(10),
        trim_position(Single { bits: TENTH }) == (Single { bits: 0 }),
        trim_position(Single { bits: TEN }) == (Single { bits: ONE }),
        difference_bits(TEN as nat, TENTH as nat) == NINE_POINT_NINE,
        quotient_bits(NINE_POINT_NINE as nat, NINE_POINT_NINE as nat) == ONE,
{
    lemma2_to64();
    lemma_pow2_pos(122);
    lemma_pow2_adds(129, 20);
    lemma_pow2_adds(122, 7);
    assert(distance(TENTH as nat) == 0xcc_cccd * pow2(122)) by {
        assert(TENTH as nat / (STEP as nat) == 123);
        assert(TENTH as nat % (STEP as nat) == 0x4c_cccd);
    }
    assert(distance(TEN as nat) == 0xa0_0000 * pow2(129)) by {
        assert(TEN as nat / (STEP as nat) == 130);
        assert(TEN as nat % (STEP as nat) == 0x20_0000);
    }
    assert(0xa0_0000 * pow2(129) == 10 * pow2(149)) by (nonlinear_arith)
        requires
            pow2(149) == pow2(129) * 0x10_0000,
    ;
    lemma_distance_grows(TENTH as nat, TEN as nat);
    lemma_nothing();
    let x: nat = 0x4f33_3333;
    let units = (distance(TEN as nat) - distance(TENTH as nat)) as nat;
    assert(units == x * pow2(122)) by (nonlinear_arith)
        requires
            units == 0xa0_0000 * pow2(129) - 0xcc_cccd * pow2(122),
            pow2(129) == pow2(122) * 128,
            x == 0x4f33_3333,
    ;
    lemma_pow2_adds(122, 31);
    lemma_pow2_adds(122, 30);
    assert(pow2(31) == 0x8000_0000 && pow2(30) == 0x4000_0000);
    assert(units < 1 * pow2(153)) by (nonlinear_arith)
        requires
            units == x * pow2(122),
            pow2(153) == pow2(122) * 0x8000_0000,
            x < 0x8000_0000,
            pow2(122) > 0,
    ;
    assert(units >= 1 * pow2(152)) by (nonlinear_arith)
        requires
            units == x * pow2(122),
            pow2(152) == pow2(122) * 0x4000_0000,
            x >= 0x4000_0000,
            pow2(122) > 0,
    ;
    lemma_nearest_at(units, 1, 129);
    assert(1 * pow2(129) == 128 * pow2(122));
    lemma_half_even_scaled(x, 128, pow2(122));
    assert(half_even(x, 128) == 0x9e_6666);
    assert(difference_bits(TEN as nat, TENTH as nat) == NINE_POINT_NINE);
    let d = distance(NINE_POINT_NINE as nat);
    lemma_distance_grows(0, NINE_POINT_NINE as nat);
    lemma_pow2_strictly_increases(149, 150);
    assert(d * pow2(149) < d * pow2(150)) by (nonlinear_arith)
        requires
            pow2(149) < pow2(150),
            d > 0,
    ;
    lemma_nearest_at(d * pow2(149), d, 126);
    lemma_pow2_adds(23, 126);
    lemma_pow2_pos(126);
    let c = d * pow2(126);
    assert(c > 0) by (nonlinear_arith)
        requires
            c == d * pow2(126),
            d > 0,
            pow2(126) > 0,
    ;
    assert(d * pow2(149) == 0x80_0000 * c) by (nonlinear_arith)
        requires
            c == d * pow2(126),
            pow2(149) == 0x80_0000 * pow2(126),
    ;
    assert(1 * c == c);
    lemma_half_even_scaled(0x80_0000, 1, c);
    assert(half_even(0x80_0000, 1) == 0x80_0000);
}

/// A larger gain never gives a smaller position of the fader.
pub proof fn lemma_gain_position_grows(a: Single, b: Single)
    requires
        gain_in_range(a),
        gain_in_range(b),
        !a.nan(),
        !b.nan(),
        a.units() <= b.units(),
    ensures
        gain_position(a).units() <= gain_position(b).units(),
{
    lemma_gain_bits(a);
    lemma_gain_bits(b);
    lemma_half_bits(a.magnitude());
    lemma_half_bits(b.magnitude());
    lemma_nearest_grows(distance(a.magnitude()), distance(b.magnitude()), 2);
    lemma_distance_keeps_order(
        gain_position(a).magnitude(),
        gain_position(b).magnitude(),
    );
}

/// The gain 0 gives the position 0, and the largest, 2, gives the position 1.
pub proof fn lemma_gain_position_ends()
    ensures
        gain_in_range(Single { bits: 0 }),
        gain_in_range(Single { bits: TWO }),
        distance(TWO as nat) == whole(2),
        gain_position(Single { bits: 0 }) == (Single { bits: 0 }),
        gain_position(Single { bits: TWO }) == (Single { bits: ONE }),
{
    lemma2_to64();
    lemma_half_bits(0);
    assert(whole(0) == 0) by (nonlinear_arith);
    lemma_pow2_pos(149);
    assert(distance(TWO as nat) == (STEP as nat) * pow2(127)) by {
        assert(TWO as nat / (STEP as nat) == 128);
        assert(TWO as nat % (STEP as nat) == 0);
    }
    lemma_pow2_adds(127, 22);
    assert((STEP as nat) * pow2(127) == 2 * pow2(149)) by (nonlinear_arith)
        requires
            pow2(149) == pow2(127) * 0x40_0000,
            STEP == 0x80_0000,
    ;
    lemma_pow2_unfold(127);
    lemma_pow2_pos(126);
    assert((STEP as nat) * pow2(127) == (0x100_0000) * pow2(126)) by (nonlinear_arith)
        requires
            pow2(127) == 2 * pow2(126),
            STEP == 0x80_0000,
    ;
    assert(half_even(0x100_0000, 2) == 0x80_0000);
    lemma_nearest_shifted(0x100_0000, 2, 126);
}

/// What the bits of a gain in range look like.
proof fn lemma_gain_bits(gain: Single)
    requires
        !gain.nan(),
        gain_in_range(gain),
    ensures
        gain.magnitude() <= TWO,
        gain.negative() ==> gain.magnitude() == 0,
{
    lemma2_to64();
    assert(whole(0) == 0) by (nonlinear_arith);
    lemma_gain_position_ends();
    let m = gain.magnitude();
    if gain.negative() && m > 0 {
        lemma_distance_grows(0, m);
    }
    if m > TWO {
        lemma_distance_grows(TWO as nat, m);
    }
}

/// The position of the fader is half the gain, exactly so wherever half the gain is a
/// number with all its digits.
pub proof fn lemma_gain_position_is_half(gain: Single)
    requires
        gain_in_range(gain),
        !gain.nan(),
        gain.magnitude() == 0 || gain.magnitude() >= 2 * STEP,
    ensures
        2 * gain_position(gain).units() == gain.units(),
{
    lemma_gain_bits(gain);
    lemma2_to64();
    let m = gain.magnitude();
    if m == 0 {
        lemma_half_bits(0);
    } else {
        let e = m / (STEP as nat);
        let f = m % (STEP as nat);
        let mantissa = STEP as nat + f;
        let p = pow2((e - 2) as nat);
        lemma_pow2_unfold((e - 1) as nat);
        assert((mantissa * 2) * p == mantissa * (2 * p)) by (nonlinear_arith);
        assert(2 * (mantissa * p) == mantissa * (2 * p)) by (nonlinear_arith);
        assert(half_even(mantissa * 2, 2) == mantissa);
        assert((e - 2) * (STEP as nat) == e * (STEP as nat) - 2 * (STEP as nat))
            by (nonlinear_arith);
        assert(m == e * (STEP as nat) + f);
        lemma_nearest_shifted(mantissa * 2, 2, (e - 2) as nat);
        let half = (m - STEP) as nat;
        assert(half / (STEP as nat) == e - 1);
        assert(half % (STEP as nat) == f);
    }
}

/// The position of the fader is half the gain, but for one unit at most.
pub proof fn lemma_gain_position_is_near_half(gain: Single)
    requires
        gain_in_range(gain),
        !gain.nan(),
    ensures
        apart(2 * gain_position(gain).units(), gain.units()) <= 1,
{
    let m = gain.magnitude();
    if m == 0 || m >= 2 * STEP {
        lemma_gain_position_is_half(gain);
    } else {
        lemma_gain_bits(gain);
        lemma_half_bits(m);
        let d = distance(m);
        lemma2_to64();
        assert(d < 2 * STEP) by {
            assert(m / (STEP as nat) <= 1);
            if m >= STEP {
                assert(m % (STEP as nat) == m - STEP);
                assert((STEP as nat + (m - STEP) as nat) * pow2(0) == m) by (nonlinear_arith)
                    requires
                        pow2(0) == 1,
                        m >= STEP,
                ;
            }
        }
        lemma_nearest_is_near(d, 2);
        assert(gain_position(gain).magnitude() == nearest(d, 2));
    }
}

/// The position of the fader, as a part of 9.9, is what the trim exceeds 0.1 by, but for
/// what the digits of a number cannot hold.
pub proof fn lemma_trim_position_is_part(trim: Single)
    requires
        trim_in_range(trim),
        !trim.nan(),
    ensures
        ({
            let all = distance(0x411e_6666);
            let over = trim.units() - distance(0x3dcc_cccd);
            apart(trim_position(trim).units() * all, over * pow2(149)) * 0x40_0000 <= over * pow2(
                149,
            ) + all * 0x40_0000
        }),
{
    lemma2_to64();
    lemma_trim_bits(trim);
    lemma_trim_position_ends();
    let p = pow2(149);
    lemma_pow2_pos(149);
    let least = distance(TENTH as nat);
    let all = distance(NINE_POINT_NINE as nat);
    lemma_distance_grows(0, NINE_POINT_NINE as nat);
    lemma_distance_grows(0, TENTH as nat);
    lemma_distance_keeps_order(TENTH as nat, trim.magnitude());
    let over = (distance(trim.magnitude()) - least) as nat;
    let d_bits = nearest(over, 1);
    lemma_trim_constants();
    let c = pow2(122);
    lemma_pow2_pos(122);
    assert(over <= 0x4f33_3333 * c) by {
        assert(trim.units() <= whole(10));
    }
    lemma_part_of_one(over);
    lemma_nearest_is_near(over, 1);
    let dd = distance(d_bits);
    assert(dd * 1 == dd);
    let e1 = apart(dd as int, over as int);
    assert(e1 * 0x100_0000 <= over);
    let part = nearest(dd * p, all);
    lemma_nearest_is_near(dd * p, all);
    let full = distance(part) * all;
    let e2 = apart(full as int, (dd * p) as int);
    assert(apart((dd * p) as int, (over * p) as int) == e1 * p) by (nonlinear_arith)
        requires
            e1 == apart(dd as int, over as int),
            p > 0,
    ;
    assert((e1 * p) * 0x100_0000 <= over * p) by (nonlinear_arith)
        requires
            e1 * 0x100_0000 <= over,
            p > 0,
    ;
    assert(apart(full as int, (over * p) as int) <= e2 + e1 * p);
    assert(apart(full as int, (over * p) as int) * 0x40_0000 <= over * p + all * 0x40_0000);
    let position = trim_position(trim).units();
    assert(position == distance(part));
}

/// What 0.1, 9.9 and 10 are in parts of the last digit of 0.1.
proof fn lemma_trim_constants()
    ensures
        distance(TENTH as nat) == 0xcc_cccd * pow2(122),
        distance(NINE_POINT_NINE as nat) == 0x4f33_3300 * pow2(122),
        whole(10) == 0x5000_0000 * pow2(122),
{
    lemma2_to64();
    lemma_pow2_adds(122, 7);
    lemma_pow2_adds(122, 27);
    assert(TENTH as nat / (STEP as nat) == 123);
    assert(TENTH as nat % (STEP as nat) == 0x4c_cccd);
    assert(NINE_POINT_NINE as nat / (STEP as nat) == 130);
    assert(NINE_POINT_NINE as nat % (STEP as nat) == 0x1e_6666);
    assert(0x9e_6666 * pow2(129) == 0x4f33_3300 * pow2(122)) by (nonlinear_arith)
        requires
            pow2(129) == pow2(122) * 128,
    ;
    assert(10 * pow2(149) == 0x5000_0000 * pow2(122)) by (nonlinear_arith)
        requires
            pow2(149) == pow2(122) * 0x800_0000,
    ;
}

/// What a trim exceeds 0.1 by is at most 9.9, and its part of that at most 1.
proof fn lemma_part_of_one(over: nat)
    requires
        over <= 0x4f33_3333 * pow2(122),
    ensures
        nearest(over, 1) <= NINE_POINT_NINE,
        nearest(distance(nearest(over, 1)) * pow2(149), distance(NINE_POINT_NINE as nat)) <= ONE,
{
    lemma2_to64();
    lemma_trim_constants();
    lemma_trim_position_ends();
    let top = (distance(TEN as nat) - distance(TENTH as nat)) as nat;
    assert(top == 0x4f33_3333 * pow2(122));
    lemma_nearest_grows(over, top, 1);
    let all = distance(NINE_POINT_NINE as nat);
    lemma_distance_grows(0, NINE_POINT_NINE as nat);
    let part = distance(nearest(over, 1));
    lemma_distance_keeps_order(nearest(over, 1), NINE_POINT_NINE as nat);
    assert(part * pow2(149) <= all * pow2(149)) by (nonlinear_arith)
        requires
            part <= all,
    ;
    lemma_nearest_grows(part * pow2(149), all * pow2(149), all);
}

} // verus!
