//! Numbers in the IEEE 754 binary32 and binary64 formats, held as their bits.
//!
//! Values are measured in units of two to the power of -149, the distance between
//! the two smallest binary32 numbers: every finite binary32 number is a whole
//! number of these units.

use vstd::arithmetic::div_mod::*;
use vstd::arithmetic::mul::*;
use vstd::arithmetic::power2::*;
use vstd::prelude::*;

verus! {

/// A binary32 number, as its bits.
#[derive(Clone, Copy, Debug, PartialEq, Eq, Structural)]
pub struct Single {
    pub bits: u32,
}

/// The distance between the bits of one power of two and those of the next.
pub const STEP: u32 = 0x80_0000;

/// The bits of positive infinity.
pub const INFINITE: u32 = 0x7f80_0000;

/// The bit that marks a number as negative.
pub const SIGN: u32 = 0x8000_0000;

/// A whole number, in units.
pub open spec fn whole(n: int) -> int {
    n * pow2(149)
}

/// How far the number with these bits, sign aside, lies from zero, in units.
pub open spec fn distance(magnitude: nat) -> nat {
    let exponent = magnitude / (STEP as nat);
    let fraction = magnitude % (STEP as nat);
    if exponent == 0 {
        fraction
    } else {
        (STEP as nat + fraction) * pow2((exponent - 1) as nat)
    }
}

/// `n / d` rounded to the nearest whole number, and to the even one of two.
pub open spec fn half_even(n: nat, d: nat) -> nat {
    let q = n / d;
    let r = n % d;
    if 2 * r < d || (2 * r == d && q % 2 == 0) {
        q
    } else {
        q + 1
    }
}

/// How often `q` has to be halved until it has at most 24 binary digits.
pub open spec fn halvings(q: nat) -> nat
    decreases q,
{
    if q < 0x100_0000 {
        0
    } else {
        1 + halvings(q / 2)
    }
}

/// The bits of the binary32 number nearest to `n / d` units: 24 significant binary
/// digits, ties to the even one, and infinity where none is large enough.
pub open spec fn nearest(n: nat, d: nat) -> nat {
    let k = halvings(n / d);
    let bits = half_even(n, d * pow2(k)) + k * (STEP as nat);
    if bits < INFINITE {
        bits
    } else {
        INFINITE as nat
    }
}

/// The bits `magnitude` with the sign bit set where `negative`.
pub open spec fn signed_bits(negative: bool, magnitude: nat) -> nat {
    if negative {
        magnitude + SIGN as nat
    } else {
        magnitude
    }
}

/// The bits of the binary32 number nearest to the whole number `i`.
pub open spec fn bits_of_int(i: int) -> nat {
    signed_bits(i < 0, nearest((if i < 0 { -i } else { i }) as nat * pow2(149), 1))
}

/// The binary32 number nearest to the whole number `i`.
pub open spec fn single_of_int(i: i32) -> Single {
    Single { bits: bits_of_int(i as int) as u32 }
}

/// The binary32 number nearest to the binary64 number with these bits.
pub open spec fn single_of_double(bits: u64) -> Single {
    Single { bits: bits_of_double(bits) as u32 }
}

/// The sign of a binary64 number.
pub open spec fn double_negative(bits: u64) -> bool {
    bits >= 0x8000_0000_0000_0000
}

/// The exponent field of a binary64 number.
pub open spec fn double_exponent(bits: u64) -> nat {
    (bits as nat / 0x10_0000_0000_0000) % 2048
}

/// The fraction field of a binary64 number.
pub open spec fn double_fraction(bits: u64) -> nat {
    bits as nat % 0x10_0000_0000_0000
}

/// The bits, sign aside, of the binary32 number nearest to a finite binary64 number
/// with this exponent and fraction.
pub open spec fn nearest_to_double(exponent: nat, fraction: nat) -> nat {
    let mantissa = if exponent == 0 { fraction } else { 0x10_0000_0000_0000 + fraction };
    let scale = if exponent == 0 { 1 } else { exponent };
    if scale >= 926 {
        nearest(mantissa * pow2((scale - 926) as nat), 1)
    } else {
        nearest(mantissa, pow2((926 - scale) as nat))
    }
}

/// The bits of the binary32 number nearest to a binary64 number: infinities stay
/// infinite, and what is not a number becomes the quiet one of its sign.
pub open spec fn bits_of_double(bits: u64) -> nat {
    let exponent = double_exponent(bits);
    let fraction = double_fraction(bits);
    signed_bits(
        double_negative(bits),
        if exponent == 2047 && fraction != 0 {
            0x7fc0_0000
        } else if exponent == 2047 {
            INFINITE as nat
        } else {
            nearest_to_double(exponent, fraction)
        },
    )
}

impl Single {
    /// The bits without the sign.
    pub open spec fn magnitude(self) -> nat {
        self.bits as nat % (SIGN as nat)
    }

    /// Whether the sign bit is set.
    pub open spec fn negative(self) -> bool {
        self.bits >= SIGN
    }

    /// Whether this is not a number.
    pub open spec fn nan(self) -> bool {
        self.magnitude() > INFINITE
    }

    /// Whether this is a number, and not infinite.
    pub open spec fn finite(self) -> bool {
        self.magnitude() < INFINITE
    }

    /// Whether this is one of the two zeros.
    pub open spec fn zero(self) -> bool {
        self.magnitude() == 0
    }

    /// The value in units; an infinity lies outside every finite value.
    pub open spec fn units(self) -> int {
        if self.negative() {
            -(distance(self.magnitude()) as int)
        } else {
            distance(self.magnitude()) as int
        }
    }

    /// Whether this number is less than `n`; never so of what is not a number.
    pub open spec fn below(self, n: int) -> bool {
        !self.nan() && self.units() < whole(n)
    }

    /// Whether this number is greater than `n`; never so of what is not a number.
    pub open spec fn above(self, n: int) -> bool {
        !self.nan() && self.units() > whole(n)
    }

    /// The whole number next to this one on the side of zero, held to the range of
    /// 32-bit numbers; zero for what is not a number.
    pub open spec fn truncated(self) -> int {
        let whole_part = distance(self.magnitude()) / pow2(149);
        if self.nan() {
            0
        } else if self.negative() {
            if whole_part > 0x8000_0000 {
                i32::MIN as int
            } else {
                -(whole_part as int)
            }
        } else {
            if whole_part > 0x7fff_ffff {
                i32::MAX as int
            } else {
                whole_part as int
            }
        }
    }
}

/// A larger magnitude lies farther from zero.
pub proof fn lemma_distance_grows(a: nat, b: nat)
    requires
        a < b,
    ensures
        distance(a) < distance(b),
{
    let s = STEP as nat;
    let (ea, fa) = (a / s, a % s);
    let (eb, fb) = (b / s, b % s);
    assert(ea <= eb);
    if ea == eb {
        assert(fa < fb);
        if ea > 0 {
            lemma_pow2_pos((ea - 1) as nat);
            lemma_mul_strict_inequality(
                (s + fa) as int,
                (s + fb) as int,
                pow2((ea - 1) as nat) as int,
            );
        }
    } else {
        lemma_pow2_pos((eb - 1) as nat);
        lemma_mul_inequality(s as int, (s + fb) as int, pow2((eb - 1) as nat) as int);
        assert(distance(b) >= s * pow2((eb - 1) as nat));
        if ea == 0 {
            assert(s * pow2((eb - 1) as nat) >= s) by (nonlinear_arith)
                requires
                    pow2((eb - 1) as nat) >= 1,
            ;
        } else {
            lemma_pow2_pos((ea - 1) as nat);
            lemma_mul_strict_inequality(
                (s + fa) as int,
                (2 * s) as int,
                pow2((ea - 1) as nat) as int,
            );
            lemma_pow2_unfold(ea);
            assert((2 * s) * pow2((ea - 1) as nat) == s * pow2(ea)) by (nonlinear_arith)
                requires
                    pow2(ea) == 2 * pow2((ea - 1) as nat),
            ;
            if ea < eb - 1 {
                lemma_pow2_strictly_increases(ea, (eb - 1) as nat);
            }
            lemma_mul_inequality(pow2(ea) as int, pow2((eb - 1) as nat) as int, s as int);
            lemma_mul_is_commutative(s as int, pow2(ea) as int);
            lemma_mul_is_commutative(s as int, pow2((eb - 1) as nat) as int);
        }
    }
}

/// A common factor does not change what a fraction rounds to.
pub proof fn lemma_half_even_scaled(n: nat, d: nat, c: nat)
    requires
        d > 0,
        c > 0,
    ensures
        half_even(n * c, d * c) == half_even(n, d),
{
    let q = n / d;
    let r = n % d;
    lemma_fundamental_div_mod(n as int, d as int);
    assert(n * c == q * (d * c) + r * c) by (nonlinear_arith)
        requires
            n == d * q + r,
    ;
    assert(0 <= r * c < d * c) by (nonlinear_arith)
        requires
            0 <= r < d,
            c > 0,
    ;
    lemma_fundamental_div_mod_converse((n * c) as int, (d * c) as int, q as int, (r * c) as int);
    assert((2 * r < d) == (2 * (r * c) < d * c)) by (nonlinear_arith)
        requires
            c > 0,
    ;
    assert((2 * r == d) == (2 * (r * c) == d * c)) by (nonlinear_arith)
        requires
            c > 0,
    ;
}

/// A number of `24 + k` binary digits takes `k` halvings.
proof fn lemma_halvings(q: nat, k: nat)
    requires
        q < pow2(24 + k),
        k > 0 ==> q >= pow2((23 + k) as nat),
    ensures
        halvings(q) == k,
    decreases k,
{
    lemma2_to64();
    if k > 0 {
        lemma_pow2_unfold(24 + k);
        lemma_pow2_unfold((23 + k) as nat);
        if k > 1 {
            lemma_pow2_strictly_increases(24, (23 + k) as nat);
        }
        assert(q >= 0x100_0000);
        lemma_halvings(q / 2, (k - 1) as nat);
    }
}

/// How many binary digits a number has, by its halvings.
proof fn lemma_halvings_bounds(q: nat)
    ensures
        q < pow2(24 + halvings(q)),
        halvings(q) > 0 ==> q >= pow2((23 + halvings(q)) as nat),
    decreases q,
{
    lemma2_to64();
    if q >= 0x100_0000 {
        lemma_halvings_bounds(q / 2);
        let k = halvings(q / 2);
        lemma_pow2_unfold((25 + k) as nat);
        lemma_pow2_unfold((24 + k) as nat);
        if k == 0 {
            assert(pow2(24) == 0x100_0000);
        }
    }
}

/// A greater number does not take fewer halvings.
proof fn lemma_halvings_grow(a: nat, b: nat)
    requires
        a <= b,
    ensures
        halvings(a) <= halvings(b),
    decreases b,
{
    if b >= 0x100_0000 && a >= 0x100_0000 {
        lemma_halvings_grow(a / 2, b / 2);
    }
}

/// A greater fraction does not round to less.
pub proof fn lemma_half_even_grows(a: nat, b: nat, d: nat)
    requires
        a <= b,
        d > 0,
    ensures
        half_even(a, d) <= half_even(b, d),
{
    lemma_fundamental_div_mod(a as int, d as int);
    lemma_fundamental_div_mod(b as int, d as int);
    lemma_div_is_ordered(a as int, b as int, d as int);
    let (qa, qb) = (a / d, b / d);
    if qa == qb {
        assert(a % d <= b % d);
    }
}

/// A greater value does not have a lesser nearest number.
pub proof fn lemma_nearest_grows(a: nat, b: nat, d: nat)
    requires
        a <= b,
        d > 0,
    ensures
        nearest(a, d) <= nearest(b, d),
{
    lemma2_to64();
    lemma_div_is_ordered(a as int, b as int, d as int);
    let (ka, kb) = (halvings(a / d), halvings(b / d));
    lemma_halvings_grow(a / d, b / d);
    lemma_pow2_pos(ka);
    lemma_pow2_pos(kb);
    let (da, db) = (d * pow2(ka), d * pow2(kb));
    assert(da > 0 && db > 0) by (nonlinear_arith)
        requires
            da == d * pow2(ka),
            db == d * pow2(kb),
            d > 0,
            pow2(ka) > 0,
            pow2(kb) > 0,
    ;
    if ka == kb {
        lemma_half_even_grows(a, b, da);
    } else {
        lemma_halvings_bounds(a / d);
        lemma_halvings_bounds(b / d);
        lemma_div_denominator(a as int, d as int, pow2(ka) as int);
        lemma_div_denominator(b as int, d as int, pow2(kb) as int);
        lemma_pow2_adds(24, ka);
        lemma_pow2_adds(23, kb);
        let (qa, qb) = ((a / d) / pow2(ka), (b / d) / pow2(kb));
        lemma_fundamental_div_mod((a / d) as int, pow2(ka) as int);
        lemma_fundamental_div_mod((b / d) as int, pow2(kb) as int);
        assert(qa < 0x100_0000) by (nonlinear_arith)
            requires
                (a / d) == pow2(ka) * qa + (a / d) % pow2(ka),
                (a / d) % pow2(ka) >= 0,
                (a / d) < 0x100_0000 * pow2(ka),
                pow2(ka) > 0,
        ;
        assert(qb >= 0x80_0000) by (nonlinear_arith)
            requires
                (b / d) == pow2(kb) * qb + (b / d) % pow2(kb),
                (b / d) % pow2(kb) < pow2(kb),
                (b / d) >= 0x80_0000 * pow2(kb),
                pow2(kb) > 0,
        ;
        assert((ka + 1) * (STEP as nat) <= kb * (STEP as nat)) by (nonlinear_arith)
            requires
                ka + 1 <= kb,
        ;
        assert((ka + 1) * (STEP as nat) == ka * (STEP as nat) + STEP) by (nonlinear_arith);
    }
}

/// Two to the power of `k`.
fn two_to(k: u32) -> (r: u64)
    requires
        k < 63,
    ensures
        r == pow2(k as nat),
{
    let mut r: u64 = 1;
    let mut i: u32 = 0;
    proof {
        lemma2_to64();
    }
    while i < k
        invariant
            i <= k < 63,
            r == pow2(i as nat),
        decreases k - i,
    {
        proof {
            lemma_pow2_unfold((i + 1) as nat);
            lemma2_to64_rest();
            lemma_pow2_strictly_increases(i as nat, 63);
        }
        r = r * 2;
        i = i + 1;
    }
    r
}

/// `n / d` rounded to the nearest whole number, and to the even one of two.
pub fn round_half_even(n: u64, d: u64) -> (r: u64)
    requires
        0 < d <= 0x4000_0000_0000_0000,
        n < 0x4000_0000_0000_0000,
    ensures
        r == half_even(n as nat, d as nat),
{
    let q: u64 = n / d;
    let rest: u64 = n % d;
    assert(q <= n) by (nonlinear_arith)
        requires
            q == n / d,
            d > 0,
            n >= 0,
    ;
    if 2 * rest < d || (2 * rest == d && q % 2 == 0) {
        q
    } else {
        q + 1
    }
}

/// What `nearest` gives where the value has `24 + k` binary digits.
pub proof fn lemma_nearest_at(n: nat, d: nat, k: nat)
    requires
        d > 0,
        n < d * pow2(24 + k),
        k > 0 ==> n >= d * pow2((23 + k) as nat),
    ensures
        nearest(n, d) == ({
            let bits = half_even(n, d * pow2(k)) + k * (STEP as nat);
            if bits < INFINITE {
                bits
            } else {
                INFINITE as nat
            }
        }),
{
    lemma_fundamental_div_mod(n as int, d as int);
    let q = n / d;
    assert(q < pow2(24 + k)) by (nonlinear_arith)
        requires
            n == d * q + n % d,
            n % d >= 0,
            n < d * pow2(24 + k),
            d > 0,
    ;
    if k > 0 {
        assert(q >= pow2((23 + k) as nat)) by (nonlinear_arith)
            requires
                n == d * q + n % d,
                n % d < d,
                n >= d * pow2((23 + k) as nat),
                d > 0,
        ;
    }
    lemma_halvings(q, k);
}

impl Single {
    /// Whether this is not a number.
    pub fn is_nan(&self) -> (r: bool)
        ensures
            r == self.nan(),
    {
        self.bits % SIGN > INFINITE
    }

    /// Whether this is a number, and not infinite.
    pub fn is_finite(&self) -> (r: bool)
        ensures
            r == self.finite(),
    {
        self.bits % SIGN < INFINITE
    }

    /// Whether this is one of the two zeros.
    pub fn is_zero(&self) -> (r: bool)
        ensures
            r == self.zero(),
    {
        self.bits % SIGN == 0
    }

    /// Whether this number is less than `other`; never so where either is not a
    /// number.
    pub fn less(&self, other: &Single) -> (r: bool)
        ensures
            r == (!self.nan() && !other.nan() && self.units() < other.units()),
    {
        if self.is_nan() || other.is_nan() {
            return false;
        }
        let a: u32 = self.bits % SIGN;
        let b: u32 = other.bits % SIGN;
        proof {
            if a < b {
                lemma_distance_grows(a as nat, b as nat);
            } else if b < a {
                lemma_distance_grows(b as nat, a as nat);
            }
            if a > 0 {
                lemma_distance_grows(0, a as nat);
            }
            if b > 0 {
                lemma_distance_grows(0, b as nat);
            }
        }
        if self.bits >= SIGN {
            if other.bits >= SIGN {
                b < a
            } else {
                a > 0 || b > 0
            }
        } else {
            if other.bits >= SIGN {
                false
            } else {
                a < b
            }
        }
    }

    /// The binary32 number nearest to a whole number.
    pub fn from_int(i: i32) -> (r: Single)
        ensures
            r.bits == bits_of_int(i as int),
            r == single_of_int(i),
            r.finite(),
            -0x100_0000 <= i <= 0x100_0000 ==> !r.nan() && r.units() == whole(i as int),
    {
        let m: u64 = if i < 0 {
            (-(i as i64)) as u64
        } else {
            i as u64
        };
        let magnitude: u64 = if m == 0 {
            proof {
                lemma2_to64();
                lemma_nearest_at(0, 1, 0);
                assert(1 * pow2(0) == 1);
                assert(half_even(0, 1) == 0);
            }
            0
        } else if m < 0x100_0000 {
            nearest_to_small(m)
        } else {
            nearest_to_large(m)
        };
        proof {
            assert(whole(-(m as int)) == -whole(m as int)) by (nonlinear_arith);
            if m == 0 {
                assert(whole(0) == 0) by (nonlinear_arith);
                assert(0 * pow2(149) == 0) by (nonlinear_arith);
            }
        }
        if i < 0 {
            Single { bits: (magnitude as u32) + SIGN }
        } else {
            Single { bits: magnitude as u32 }
        }
    }
}

/// The bits of a whole number of at most 24 binary digits.
fn nearest_to_small(m: u64) -> (magnitude: u64)
    requires
        0 < m < 0x100_0000,
    ensures
        magnitude == nearest((m as nat) * pow2(149), 1),
        magnitude < INFINITE,
        distance(magnitude as nat) == (m as nat) * pow2(149),
{
    let mut q: u64 = m;
    let mut s: u32 = 0;
    proof {
        lemma2_to64();
    }
    while q < 0x80_0000
        invariant
            0 < q < 0x100_0000,
            q == m * pow2(s as nat),
            s <= 23,
            q >= pow2(s as nat),
        decreases 0x100_0000 - q,
    {
        proof {
            lemma_pow2_unfold((s + 1) as nat);
            assert(m * pow2((s + 1) as nat) == 2 * (m * pow2(s as nat))) by (nonlinear_arith)
                requires
                    pow2((s + 1) as nat) == 2 * pow2(s as nat),
            ;
            lemma2_to64();
        }
        q = q * 2;
        s = s + 1;
    }
    let k: u64 = 149 - (s as u64);
    proof {
        let n = (m as nat) * pow2(149);
        let p = pow2(k as nat);
        lemma_pow2_adds(s as nat, k as nat);
        lemma_pow2_adds(23, k as nat);
        lemma_pow2_adds(24, k as nat);
        lemma_pow2_pos(k as nat);
        assert(n == q * p) by (nonlinear_arith)
            requires
                n == m * pow2(149),
                pow2(149) == pow2(s as nat) * p,
                q == m * pow2(s as nat),
        ;
        assert(0x80_0000 * p <= n < 0x100_0000 * p) by (nonlinear_arith)
            requires
                n == q * p,
                0x80_0000 <= q < 0x100_0000,
                p > 0,
        ;
        lemma_nearest_at(n, 1, k as nat);
        assert(1 * p == p);
        lemma_half_even_scaled(q as nat, 1, p);
        assert(half_even(q as nat, 1) == q);
    }
    let magnitude: u64 = q + k * (STEP as u64);
    assert(magnitude as nat / (STEP as nat) == k + 1);
    assert(magnitude as nat % (STEP as nat) == q - STEP);
    magnitude
}

/// The bits of the binary32 number nearest to a whole number of more than 24 binary
/// digits.
fn nearest_to_large(m: u64) -> (magnitude: u64)
    requires
        0x100_0000 <= m <= 0x8000_0000,
    ensures
        magnitude == nearest((m as nat) * pow2(149), 1),
        magnitude < INFINITE,
        m == 0x100_0000 ==> distance(magnitude as nat) == (m as nat) * pow2(149),
{
    let mut t: u32 = 0;
    let mut whole_part: u64 = m;
    proof {
        lemma2_to64();
    }
    while whole_part >= 0x100_0000
        invariant
            0x100_0000 <= m <= 0x8000_0000,
            whole_part == m as nat / pow2(t as nat),
            t <= 8,
            t > 0 ==> m >= pow2((23 + t) as nat),
        decreases whole_part,
    {
        proof {
            lemma_pow2_pos(t as nat);
            lemma_div_denominator(m as int, pow2(t as nat) as int, 2);
            lemma_pow2_unfold((t + 1) as nat);
            lemma_fundamental_div_mod(m as int, pow2(t as nat) as int);
            lemma_pow2_adds(24, t as nat);
            lemma2_to64();
            assert(m >= pow2((24 + t) as nat)) by (nonlinear_arith)
                requires
                    m == pow2(t as nat) * (m as nat / pow2(t as nat)) + m as nat % pow2(t as nat),
                    m as nat % pow2(t as nat) >= 0,
                    m as nat / pow2(t as nat) >= 0x100_0000,
                    pow2((24 + t) as nat) == 0x100_0000 * pow2(t as nat),
            ;
        }
        whole_part = whole_part / 2;
        t = t + 1;
    }
    let unit: u64 = two_to(t);
    let rounded: u64 = round_half_even(m, unit);
    let k: u64 = 149 + (t as u64);
    proof {
        let n = (m as nat) * pow2(149);
        let p = pow2(149);
        lemma_pow2_adds(t as nat, 149);
        lemma_pow2_adds(23 + t as nat, 149);
        lemma_pow2_adds(24 + t as nat, 149);
        lemma_pow2_adds(24, t as nat);
        lemma_pow2_pos(t as nat);
        lemma_pow2_pos(149);
        lemma_fundamental_div_mod(m as int, pow2(t as nat) as int);
        lemma_mul_inequality(whole_part as int, 0xff_ffff, pow2(t as nat) as int);
        lemma_mul_is_commutative(whole_part as int, pow2(t as nat) as int);
        assert(n < pow2((24 + t) as nat) * p) by (nonlinear_arith)
            requires
                n == m * p,
                m < pow2((24 + t) as nat),
                p > 0,
        ;
        assert(n >= pow2((23 + t) as nat) * p) by (nonlinear_arith)
            requires
                n == m * p,
                m >= pow2((23 + t) as nat),
                p > 0,
        ;
        lemma_nearest_at(n, 1, k as nat);
        lemma_half_even_scaled(m as nat, pow2(t as nat), p);
        assert(1 * pow2(k as nat) == pow2(t as nat) * p);
    }
    let magnitude: u64 = rounded + k * (STEP as u64);
    proof {
        if m == 0x100_0000 {
            if t > 1 {
                lemma_pow2_strictly_increases(24, (23 + t) as nat);
            }
            assert(0x100_0000nat / 2nat == 0x80_0000);
            assert(0x100_0000nat % 2nat == 0);
            assert(half_even(0x100_0000, 2) == 0x80_0000);
            assert(magnitude as nat / (STEP as nat) == k + 1);
            assert(magnitude as nat % (STEP as nat) == 0);
            lemma_pow2_adds(1, 149);
            assert(STEP * pow2(150) == m * pow2(149)) by (nonlinear_arith)
                requires
                    m == 2 * STEP,
                    pow2(150) == 2 * pow2(149),
            ;
        }
    }
    magnitude
}

impl Single {
    /// Whether this number is less than `n`.
    pub fn is_below(&self, n: i32) -> (r: bool)
        requires
            -0x100_0000 <= n <= 0x100_0000,
        ensures
            r == self.below(n as int),
    {
        self.less(&Single::from_int(n))
    }

    /// Whether this number is greater than `n`.
    pub fn is_above(&self, n: i32) -> (r: bool)
        requires
            -0x100_0000 <= n <= 0x100_0000,
        ensures
            r == self.above(n as int),
    {
        Single::from_int(n).less(self)
    }

    /// The binary32 number nearest to the binary64 number with these bits.
    pub fn from_double(bits: u64) -> (r: Single)
        ensures
            r.bits == bits_of_double(bits),
            r == single_of_double(bits),
    {
        let exponent: u64 = (bits / 0x10_0000_0000_0000) % 2048;
        let fraction: u64 = bits % 0x10_0000_0000_0000;
        let magnitude: u64 = if exponent == 2047 {
            if fraction != 0 {
                0x7fc0_0000
            } else {
                INFINITE as u64
            }
        } else {
            nearest_double(exponent, fraction)
        };
        if bits >= 0x8000_0000_0000_0000 {
            Single { bits: (magnitude as u32) + SIGN }
        } else {
            Single { bits: magnitude as u32 }
        }
    }

    /// The whole number next to this one on the side of zero, held to the range of
    /// 32-bit numbers; zero for what is not a number.
    pub fn to_i32(&self) -> (r: i32)
        ensures
            r == self.truncated(),
    {
        let magnitude: u32 = self.bits % SIGN;
        if magnitude > INFINITE {
            return 0;
        }
        let exponent: u32 = magnitude / STEP;
        let mantissa: u64 = (STEP as u64) + (magnitude % STEP) as u64;
        let ghost d = distance(magnitude as nat);
        proof {
            lemma2_to64();
            lemma_pow2_pos(149);
        }
        let size: u64 = if exponent < 127 {
            proof {
                lemma_pow2_adds(24, 125);
                if exponent > 0 {
                    lemma_pow2_pos((exponent - 1) as nat);
                    if exponent < 126 {
                        lemma_pow2_strictly_increases((exponent - 1) as nat, 125);
                    }
                    assert(d < 0x100_0000 * pow2(125)) by (nonlinear_arith)
                        requires
                            d == mantissa * pow2((exponent - 1) as nat),
                            mantissa < 0x100_0000,
                            0 < pow2((exponent - 1) as nat) <= pow2(125),
                    ;
                } else {
                    lemma_pow2_pos(125);
                    assert(d < 0x100_0000 * pow2(125)) by (nonlinear_arith)
                        requires
                            d < 0x100_0000,
                            pow2(125) >= 1,
                    ;
                }
                lemma_basic_div(d as int, pow2(149) as int);
            }
            0
        } else if exponent < 150 {
            let unit: u64 = two_to(150 - exponent);
            proof {
                let low = pow2((exponent - 1) as nat);
                lemma_pow2_pos((exponent - 1) as nat);
                lemma_pow2_pos((150 - exponent) as nat);
                lemma_pow2_adds((exponent - 1) as nat, (150 - exponent) as nat);
                lemma_mul_is_commutative(low as int, mantissa as int);
                lemma_div_multiples_vanish_quotient(low as int, mantissa as int, unit as int);
                lemma_div_basics_5(mantissa as int, unit as int);
            }
            mantissa / unit
        } else if exponent < 158 {
            let unit: u64 = two_to(exponent - 150);
            proof {
                let p = pow2(149);
                lemma_pow2_adds((exponent - 150) as nat, 149);
                if exponent < 157 {
                    lemma_pow2_strictly_increases((exponent - 150) as nat, 7);
                }
                assert(mantissa * unit <= 0xff_ffff * 128) by (nonlinear_arith)
                    requires
                        mantissa <= 0xff_ffff,
                        unit <= 128,
                ;
                assert(d == (mantissa * unit) * p) by (nonlinear_arith)
                    requires
                        d == mantissa * pow2((exponent - 1) as nat),
                        pow2((exponent - 1) as nat) == unit * p,
                ;
                lemma_div_multiples_vanish((mantissa * unit) as int, p as int);
                lemma_mul_is_commutative((mantissa * unit) as int, p as int);
            }
            mantissa * unit
        } else {
            proof {
                let p = pow2(149);
                lemma_pow2_adds(8, 149);
                if exponent > 158 {
                    lemma_pow2_strictly_increases(157, (exponent - 1) as nat);
                }
                assert(d >= 0x8000_0000 * p) by (nonlinear_arith)
                    requires
                        d == mantissa * pow2((exponent - 1) as nat),
                        mantissa >= 0x80_0000,
                        pow2((exponent - 1) as nat) >= 256 * p,
                        p > 0,
                ;
                lemma_div_is_ordered((0x8000_0000 * p) as int, d as int, p as int);
                lemma_div_multiples_vanish(0x8000_0000, p as int);
            }
            0x8000_0000
        };
        if self.bits >= SIGN {
            if size >= 0x8000_0000 {
                i32::MIN
            } else {
                (-(size as i64)) as i32
            }
        } else {
            if size > 0x7fff_ffff {
                i32::MAX
            } else {
                size as i32
            }
        }
    }
}

/// What is far less than one unit rounds to zero.
proof fn lemma_tiny_double(mantissa: nat, scale: nat)
    requires
        mantissa < 0x20_0000_0000_0000,
        scale < 872,
    ensures
        nearest(mantissa, pow2((926 - scale) as nat)) == 0,
{
    lemma2_to64();
    lemma2_to64_rest();
    let d = pow2((926 - scale) as nat);
    lemma_pow2_strictly_increases(54, (926 - scale) as nat);
    lemma_pow2_pos(24);
    assert(2 * mantissa < d);
    assert(mantissa < d * pow2(24)) by (nonlinear_arith)
        requires
            mantissa < d,
            pow2(24) >= 1,
    ;
    lemma_nearest_at(mantissa, d, 0);
    assert(d * pow2(0) == d);
    lemma_basic_div(mantissa as int, d as int);
    lemma_small_mod(mantissa, d);
    assert(half_even(mantissa, d) == 0);
}

/// What has no more digits than there are units rounds to whole units.
proof fn lemma_small_double(mantissa: nat, scale: nat)
    requires
        mantissa < 0x20_0000_0000_0000,
        872 <= scale < 897,
    ensures
        0x2000_0000 <= pow2((926 - scale) as nat) <= 0x40_0000_0000_0000,
        nearest(mantissa, pow2((926 - scale) as nat)) == half_even(
            mantissa,
            pow2((926 - scale) as nat),
        ),
        half_even(mantissa, pow2((926 - scale) as nat)) <= 0x100_0000,
{
    lemma2_to64();
    lemma2_to64_rest();
    let d = pow2((926 - scale) as nat);
    if scale < 896 {
        lemma_pow2_strictly_increases(30, (926 - scale) as nat);
    }
    if scale > 872 {
        lemma_pow2_strictly_increases((926 - scale) as nat, 54);
    }
    assert(d >= 0x4000_0000);
    assert(mantissa < d * pow2(24)) by (nonlinear_arith)
        requires
            mantissa < 0x20_0000_0000_0000,
            d >= 0x4000_0000,
            pow2(24) == 0x100_0000,
    ;
    lemma_nearest_at(mantissa, d, 0);
    assert(d * pow2(0) == d);
    lemma_div_is_ordered_by_denominator(mantissa as int, 0x4000_0000, d as int);
    assert(mantissa / d <= mantissa / 0x4000_0000);
    assert(mantissa / 0x4000_0000 < 0x80_0000);
}

/// What has more digits is rounded to 24 of them.
proof fn lemma_normal_double(mantissa: nat, scale: nat)
    requires
        0x10_0000_0000_0000 <= mantissa < 0x20_0000_0000_0000,
        897 <= scale < 2047,
    ensures
        ({
            let bits = half_even(mantissa, 0x2000_0000) + (scale - 897) * (STEP as nat);
            let nearest_bits = if scale >= 926 {
                nearest(mantissa * pow2((scale - 926) as nat), 1)
            } else {
                nearest(mantissa, pow2((926 - scale) as nat))
            };
            nearest_bits == if bits < INFINITE {
                bits
            } else {
                INFINITE as int
            }
        }),
        half_even(mantissa, 0x2000_0000) <= 0x100_0000,
{
    lemma2_to64();
    lemma2_to64_rest();
    let k = (scale - 897) as nat;
    if scale >= 926 {
        let p = pow2((scale - 926) as nat);
        lemma_pow2_pos((scale - 926) as nat);
        lemma_pow2_adds(53, (scale - 926) as nat);
        lemma_pow2_adds(52, (scale - 926) as nat);
        lemma_pow2_adds(29, (scale - 926) as nat);
        assert(mantissa * p < 0x20_0000_0000_0000 * p) by (nonlinear_arith)
            requires
                mantissa < 0x20_0000_0000_0000,
                p > 0,
        ;
        assert(mantissa * p >= 0x10_0000_0000_0000 * p) by (nonlinear_arith)
            requires
                mantissa >= 0x10_0000_0000_0000,
        ;
        lemma_nearest_at(mantissa * p, 1, k);
        lemma_half_even_scaled(mantissa, 0x2000_0000, p);
        assert(1 * pow2(k) == 0x2000_0000 * p);
    } else {
        let d = pow2((926 - scale) as nat);
        lemma_pow2_pos((926 - scale) as nat);
        lemma_pow2_adds((926 - scale) as nat, 24 + k);
        lemma_pow2_adds((926 - scale) as nat, 23 + k);
        lemma_pow2_adds((926 - scale) as nat, k);
        lemma_nearest_at(mantissa, d, k);
        assert(d * pow2(k) == 0x2000_0000);
    }
    lemma_div_is_ordered(mantissa as int, 0x1f_ffff_ffff_ffff, 0x2000_0000);
}

/// The bits, sign aside, of the binary32 number nearest to a finite binary64 number.
fn nearest_double(exponent: u64, fraction: u64) -> (r: u64)
    requires
        exponent < 2047,
        fraction < 0x10_0000_0000_0000,
    ensures
        r == nearest_to_double(exponent as nat, fraction as nat),
        r <= INFINITE,
{
    let scale: u64 = if exponent == 0 {
        1
    } else {
        exponent
    };
    let mantissa: u64 = if exponent == 0 {
        fraction
    } else {
        0x10_0000_0000_0000 + fraction
    };
    if scale < 872 {
        proof {
            lemma_tiny_double(mantissa as nat, scale as nat);
        }
        0
    } else if scale < 897 {
        proof {
            lemma_small_double(mantissa as nat, scale as nat);
        }
        round_half_even(mantissa, two_to((926 - scale) as u32))
    } else {
        proof {
            lemma_normal_double(mantissa as nat, scale as nat);
        }
        let bits: u64 = round_half_even(mantissa, 0x2000_0000) + (scale - 897) * (STEP as u64);
        if bits < INFINITE as u64 {
            bits
        } else {
            INFINITE as u64
        }
    }
}

/// A factor on both sides of a division leaves the quotient as it is.
proof fn lemma_div_multiples_vanish_quotient(c: int, a: int, d: int)
    requires
        c > 0,
        d > 0,
        a >= 0,
    ensures
        (c * a) / (c * d) == a / d,
{
    assert(c * a >= 0) by (nonlinear_arith)
        requires
            c > 0,
            a >= 0,
    ;
    lemma_div_denominator(c * a, c, d);
    lemma_div_multiples_vanish(a, c);
    lemma_mul_is_commutative(a, c);
}

/// A whole number of at most 24 binary digits is what is left of it after it was
/// turned into a binary32 number and back.
pub proof fn lemma_small_int_comes_back(i: i32, s: Single)
    requires
        -0x100_0000 <= i <= 0x100_0000,
        !s.nan(),
        s.units() == whole(i as int),
    ensures
        s.truncated() == i,
{
    let p = pow2(149);
    lemma_pow2_pos(149);
    let d = distance(s.magnitude());
    let m: int = if i < 0 { -(i as int) } else { i as int };
    assert(d == m * p) by (nonlinear_arith)
        requires
            p > 0,
            d >= 0,
            d == i * p || d == -(i * p),
            m == i || m == -i,
            m >= 0,
    ;
    lemma_div_multiples_vanish(m, p as int);
    lemma_mul_is_commutative(m, p as int);
    if s.negative() {
        assert(i <= 0) by (nonlinear_arith)
            requires
                p > 0,
                d >= 0,
                -d == i * p,
        ;
    } else {
        assert(i >= 0) by (nonlinear_arith)
            requires
                p > 0,
                d >= 0,
                d == i * p,
        ;
    }
}

/// A number of `b + 1` binary digits, of which there are at most 24, is held exactly.
proof fn lemma_short_number_is_exact(m: nat, b: nat)
    requires
        b <= 23,
        m < pow2(b + 1),
    ensures
        nearest(m * pow2(149), 1) < INFINITE,
        distance(nearest(m * pow2(149), 1)) == m * pow2(149),
    decreases b,
{
    lemma2_to64();
    let s = STEP as nat;
    if m == 0 {
        lemma_nearest_at(0, 1, 0);
        assert(m * pow2(149) == 0) by (nonlinear_arith)
            requires
                m == 0,
        ;
        assert(1 * pow2(0) == 1);
        assert(half_even(0, 1) == 0);
    } else if m < pow2(b) {
        assert(b > 0);
        lemma_short_number_is_exact(m, (b - 1) as nat);
    } else {
        let up = pow2((23 - b) as nat);
        let k = 126 + b;
        let mantissa = m * up;
        let p = pow2(k);
        lemma_pow2_adds(b, (23 - b) as nat);
        lemma_pow2_adds((b + 1) as nat, (23 - b) as nat);
        lemma_pow2_adds((23 - b) as nat, k);
        lemma_pow2_adds(23, k);
        lemma_pow2_adds(24, k);
        lemma_pow2_pos((23 - b) as nat);
        lemma_pow2_pos(k);
        assert(s <= mantissa < 2 * s) by (nonlinear_arith)
            requires
                mantissa == m * up,
                pow2(b) <= m < pow2(b + 1),
                pow2(b) * up == s,
                pow2(b + 1) * up == 2 * s,
                up > 0,
        ;
        let n = m * pow2(149);
        assert(n == mantissa * p) by (nonlinear_arith)
            requires
                n == m * pow2(149),
                mantissa == m * up,
                pow2(149) == up * p,
        ;
        assert(pow2(23) * p <= n < pow2(24) * p) by (nonlinear_arith)
            requires
                n == mantissa * p,
                pow2(23) <= mantissa < pow2(24),
                p > 0,
        ;
        lemma_nearest_at(n, 1, k);
        lemma_half_even_scaled(mantissa, 1, p);
        assert(1 * p == p);
        assert(half_even(mantissa, 1) == mantissa);
        assert(k * s <= 149 * s) by (nonlinear_arith)
            requires
                k <= 149,
        ;
        let bits = mantissa + k * s;
        assert(nearest(n, 1) == bits);
        assert(bits == (k + 1) * s + (mantissa - s)) by (nonlinear_arith)
            requires
                bits == mantissa + k * s,
        ;
        lemma_fundamental_div_mod_converse(
            bits as int,
            s as int,
            (k + 1) as int,
            (mantissa - s) as int,
        );
    }
}

/// A whole number of at most 24 binary digits is held exactly as a binary32 number.
pub proof fn lemma_small_int_is_exact(i: i32)
    requires
        -0x100_0000 < i < 0x100_0000,
    ensures
        single_of_int(i).finite(),
        single_of_int(i).units() == i * pow2(149),
        single_of_int(i).truncated() == i,
{
    lemma2_to64();
    let m: nat = (if i < 0 { -(i as int) } else { i as int }) as nat;
    lemma_short_number_is_exact(m, 23);
    let v = single_of_int(i);
    assert(v.magnitude() == nearest(m * pow2(149), 1));
    assert(v.units() == i * pow2(149)) by (nonlinear_arith)
        requires
            v.units() == m * pow2(149) || v.units() == -(m * pow2(149)),
            i >= 0 ==> v.units() == m * pow2(149) && m == i,
            i < 0 ==> v.units() == -(m * pow2(149)) && m == -i,
    ;
    lemma_small_int_comes_back(i, v);
}

/// What is left of a number that is not negative, once all behind the point is dropped, is
/// the largest whole number that is not greater, as long as 32 bits hold it.
pub proof fn lemma_truncated(v: Single)
    requires
        v.finite(),
        !v.negative(),
        v.units() < 0x8000_0000 * pow2(149),
    ensures
        v.truncated() * pow2(149) <= v.units() < (v.truncated() + 1) * pow2(149),
{
    lemma_pow2_pos(149);
    let d = distance(v.magnitude());
    let p = pow2(149);
    lemma_fundamental_div_mod(d as int, p as int);
    let q = d / p;
    assert(q < 0x8000_0000) by (nonlinear_arith)
        requires
            d == p * q + d % p,
            d % p >= 0,
            d < 0x8000_0000 * p,
            p > 0,
    ;
    assert(q * p <= d < (q + 1) * p) by (nonlinear_arith)
        requires
            d == p * q + d % p,
            0 <= d % p < p,
    ;
}

/// A negative number that is turned into a whole one, and its opposite, give opposite
/// numbers, as long as 32 bits hold them.
pub proof fn lemma_truncated_opposite(v: Single, w: Single)
    requires
        v.finite(),
        w.finite(),
        v.negative(),
        !w.negative(),
        v.magnitude() == w.magnitude(),
        w.units() < 0x7fff_ffff * pow2(149),
    ensures
        v.truncated() == -w.truncated(),
{
    lemma_pow2_pos(149);
    lemma_truncated(w);
    let q = distance(v.magnitude()) / pow2(149);
    assert(q <= 0x7fff_ffff) by (nonlinear_arith)
        requires
            q * pow2(149) <= w.units(),
            w.units() < 0x7fff_ffff * pow2(149),
            pow2(149) > 0,
    ;
}

/// How far apart two numbers are.
pub open spec fn apart(a: int, b: int) -> int {
    if a >= b {
        a - b
    } else {
        b - a
    }
}

/// A fraction is rounded by at most half of one.
proof fn lemma_half_even_error(n: nat, d: nat)
    requires
        d > 0,
    ensures
        2 * apart((half_even(n, d) * d) as int, n as int) <= d,
{
    lemma_fundamental_div_mod(n as int, d as int);
    let (q, r) = (n / d, n % d);
    assert(q * d + r == n) by (nonlinear_arith)
        requires
            n == d * q + r,
    ;
    assert((q + 1) * d == q * d + d) by (nonlinear_arith);
}

/// What the bits of a rounded fraction stand for.
proof fn lemma_distance_of_bits(q: nat, k: nat)
    requires
        q <= 2 * STEP,
        k > 0 ==> q >= STEP,
    ensures
        distance(q + k * (STEP as nat)) == q * pow2(k),
{
    lemma2_to64();
    let s = STEP as nat;
    let bits = q + k * s;
    if q < s {
        assert(k == 0);
        assert(q * pow2(0) == q) by (nonlinear_arith)
            requires
                pow2(0) == 1,
        ;
        assert(bits == q);
    } else if q < 2 * s {
        assert(bits == (k + 1) * s + (q - s)) by (nonlinear_arith)
            requires
                bits == q + k * s,
        ;
        lemma_fundamental_div_mod_converse(bits as int, s as int, (k + 1) as int, q - s);
    } else {
        assert(bits == (k + 2) * s) by (nonlinear_arith)
            requires
                bits == q + k * s,
                q == 2 * s,
        ;
        lemma_fundamental_div_mod_converse(bits as int, s as int, (k + 2) as int, 0);
        lemma_pow2_unfold(k + 1);
        assert(s * (2 * pow2(k)) == (2 * s) * pow2(k)) by (nonlinear_arith);
    }
}

/// The number that a fraction is rounded to is no further from it than half a unit, or than
/// half of what its last digit counts.
pub proof fn lemma_nearest_is_near(n: nat, d: nat)
    requires
        d > 0,
        nearest(n, d) < INFINITE,
    ensures
        ({
            let error = apart((distance(nearest(n, d)) * d) as int, n as int);
            2 * error <= d || 2 * (error * 0x80_0000) <= n
        }),
{
    lemma2_to64();
    let q = n / d;
    let k = halvings(q);
    lemma_halvings_bounds(q);
    lemma_pow2_pos(k);
    let p = pow2(k);
    let step = d * p;
    assert(step > 0) by (nonlinear_arith)
        requires
            step == d * p,
            d > 0,
            p > 0,
    ;
    let h = half_even(n, step);
    lemma_half_even_error(n, step);
    lemma_fundamental_div_mod(n as int, d as int);
    assert(q * d <= n < (q + 1) * d) by (nonlinear_arith)
        requires
            n == d * q + n % d,
            0 <= n % d < d,
    ;
    lemma_pow2_adds(24, k);
    assert(n < step * 0x100_0000) by (nonlinear_arith)
        requires
            n < (q + 1) * d,
            q < pow2(24 + k),
            pow2(24 + k) == 0x100_0000 * p,
            step == d * p,
            d > 0,
    ;
    assert(n <= 0x100_0000 * step);
    lemma_half_even_grows(n, 0x100_0000 * step, step);
    lemma_half_even_of_multiple(0x100_0000, step);
    if k > 0 {
        lemma_pow2_adds(23, k);
        assert(n >= 0x80_0000 * step) by (nonlinear_arith)
            requires
                n >= q * d,
                q >= pow2((23 + k) as nat),
                pow2((23 + k) as nat) == 0x80_0000 * p,
                step == d * p,
                d > 0,
        ;
        lemma_half_even_grows(0x80_0000 * step, n, step);
        lemma_half_even_of_multiple(0x80_0000, step);
    } else {
        assert(step == d) by (nonlinear_arith)
            requires
                step == d * p,
                p == 1,
        ;
    }
    lemma_distance_of_bits(h, k);
    assert((h * p) * d == h * step) by (nonlinear_arith)
        requires
            step == d * p,
    ;
}

/// A multiple is not rounded.
proof fn lemma_half_even_of_multiple(q: nat, d: nat)
    requires
        d > 0,
    ensures
        half_even(q * d, d) == q,
{
    lemma_fundamental_div_mod_converse((q * d) as int, d as int, q as int, 0);
}

/// A whole number becomes a number that differs from it by at most one part in two to the
/// power of 24, and has its sign.
pub proof fn lemma_int_is_near(i: i32)
    ensures
        single_of_int(i).finite(),
        apart(single_of_int(i).units(), i * pow2(149)) * 0x100_0000 <= apart(i as int, 0) * pow2(
            149,
        ),
        i < 0 ==> single_of_int(i).units() < 0,
        i > 0 ==> single_of_int(i).units() > 0,
{
    let v = single_of_int(i);
    let m: nat = (if i < 0 { -(i as int) } else { i as int }) as nat;
    let p = pow2(149);
    lemma2_to64();
    lemma_pow2_pos(149);
    let n = m * p;
    assert(m <= 0x8000_0000);
    assert(n <= 0x8000_0000 * p) by (nonlinear_arith)
        requires
            n == m * p,
            m <= 0x8000_0000,
    ;
    lemma_nearest_grows(n, 0x8000_0000 * p, 1);
    lemma_pow2_adds(31, 149);
    lemma_pow2_adds(23, 157);
    lemma_pow2_strictly_increases(180, 181);
    lemma_nearest_at(0x8000_0000 * p, 1, 157);
    lemma_pow2_pos(157);
    lemma_half_even_of_multiple(0x80_0000, pow2(157));
    assert(nearest(n, 1) < INFINITE);
    lemma_nearest_is_near(n, 1);
    assert(v.magnitude() == nearest(n, 1));
    let r = distance(nearest(n, 1));
    let error = apart(r as int, n as int);
    assert(r * 1 == r);
    assert(error * 0x100_0000 <= n);
    assert(i * p == if i < 0 {
        -(n as int)
    } else {
        n as int
    }) by (nonlinear_arith)
        requires
            n == m * p,
            m == if i < 0 {
                -(i as int)
            } else {
                i as int
            },
    ;
    if i != 0 {
        assert(n >= p) by (nonlinear_arith)
            requires
                n == m * p,
                m >= 1,
        ;
    } else {
        assert(n == 0) by (nonlinear_arith)
            requires
                n == m * p,
                m == 0,
        ;
    }
}

/// A number of 32 bits that is written with 64 bits comes back as it was: with the same
/// sign, the exponent moved, and the digits followed by zeros.
pub proof fn lemma_double_comes_back(negative: bool, exponent: nat, fraction: nat, bits: u64)
    requires
        1 <= exponent < 255,
        fraction < 0x80_0000,
        bits == (if negative {
            0x8000_0000_0000_0000int
        } else {
            0
        }) + (exponent + 896) * 0x10_0000_0000_0000 + fraction * 0x2000_0000,
    ensures
        single_of_double(bits).bits == (if negative {
            0x8000_0000int
        } else {
            0
        }) + exponent * 0x80_0000 + fraction,
{
    let b = bits as nat;
    let e = exponent + 896;
    let f = fraction * 0x2000_0000;
    assert(f < 0x10_0000_0000_0000);
    let top: nat = (if negative {
        2048 + e
    } else {
        e
    }) as nat;
    assert(b == top * 0x10_0000_0000_0000 + f);
    assert(b / 0x10_0000_0000_0000 == top);
    assert(top % 2048 == e);
    assert(double_exponent(bits) == e);
    assert(double_fraction(bits) == f);
    let mantissa: nat = (0x10_0000_0000_0000 + f) as nat;
    lemma_normal_double(mantissa, e);
    assert(mantissa == (0x80_0000 + fraction) * 0x2000_0000);
    lemma_half_even_of_multiple((0x80_0000 + fraction) as nat, 0x2000_0000);
}

/// What is infinite or no number with 64 bits is so with 32.
pub proof fn lemma_double_is_not_finite(bits: u64)
    requires
        0x7ff0_0000_0000_0000 <= bits % 0x8000_0000_0000_0000,
    ensures
        !single_of_double(bits).finite(),
        bits % 0x8000_0000_0000_0000 > 0x7ff0_0000_0000_0000 ==> single_of_double(bits).nan(),
        bits == 0x7ff0_0000_0000_0000 ==> single_of_double(bits).bits == 0x7f80_0000,
        bits == 0xfff0_0000_0000_0000 ==> single_of_double(bits).bits == 0xff80_0000,
{
}

} // verus!
