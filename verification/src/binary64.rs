//! Binary64 arithmetic, rounded to nearest with ties to even.
//!
//! A [`Binary64`] is the bit pattern of an IEEE 754 double. Each operation is
//! stated as one exact rational result that is rounded once; see
//! [`crate::rounding`].

use vstd::prelude::*;
use vstd::arithmetic::power2::*;
use vstd::arithmetic::mul::*;
use vstd::arithmetic::div_mod::*;
use crate::rounding::{HIDDEN, INFINITE};

verus! {

/// The sign bit.
pub const SIGN: u64 = 0x8000_0000_0000_0000;

/// The quiet NaN that invalid operations return.
pub const QUIET_NAN: u64 = 0x7ff8_0000_0000_0000;

/// A double-precision floating-point number, held as its bit pattern.
#[derive(Clone, Copy, Debug)]
pub struct Binary64 {
    pub bits: u64,
}

impl Binary64 {
    /// The bit pattern without its sign.
    pub open spec fn magnitude(self) -> nat {
        (self.bits % SIGN) as nat
    }

    pub open spec fn negative(self) -> bool {
        self.bits >= SIGN
    }

    pub open spec fn nan(self) -> bool {
        self.magnitude() > INFINITE
    }

    pub open spec fn infinite(self) -> bool {
        self.magnitude() == INFINITE
    }

    pub open spec fn finite(self) -> bool {
        self.magnitude() < INFINITE
    }

    /// The power of two that the significand of a finite value is multiplied by.
    pub open spec fn scale(self) -> nat {
        if self.magnitude() < 2 * HIDDEN {
            0
        } else {
            (self.magnitude() / (HIDDEN as nat) - 1) as nat
        }
    }

    pub open spec fn significand(self) -> nat {
        (self.magnitude() - self.scale() * HIDDEN) as nat
    }

    /// The absolute value of a finite number, in units of `2^-1074`.
    pub open spec fn units(self) -> nat {
        self.significand() * pow2(self.scale())
    }

    /// A finite number in units of `2^-1074`.
    pub open spec fn signed_units(self) -> int {
        if self.negative() {
            -(self.units() as int)
        } else {
            self.units() as int
        }
    }

    /// A number that is ordered as the values are; both zeros have order 0.
    pub open spec fn order(self) -> int {
        if self.negative() {
            -(self.magnitude() as int)
        } else {
            self.magnitude() as int
        }
    }

    pub open spec fn less(self, other: Binary64) -> bool {
        !self.nan() && !other.nan() && self.order() < other.order()
    }

    pub open spec fn at_most(self, other: Binary64) -> bool {
        !self.nan() && !other.nan() && self.order() <= other.order()
    }

    pub open spec fn equals(self, other: Binary64) -> bool {
        !self.nan() && !other.nan() && self.order() == other.order()
    }

    pub open spec fn with_sign(negative: bool, magnitude: nat) -> Binary64 {
        Binary64 {
            bits: if negative {
                (SIGN + magnitude) as u64
            } else {
                magnitude as u64
            },
        }
    }

    /// The number nearest to `num / den` units, with the given sign.
    pub open spec fn rounded(negative: bool, num: nat, den: nat) -> Binary64 {
        Binary64::with_sign(negative, crate::rounding::rounded_magnitude(num, den))
    }

    /// The number nearest to `num / den`.
    #[verifier::opaque]
    pub open spec fn ratio(num: nat, den: nat) -> Binary64 {
        Binary64::rounded(false, num * pow2(1074), den)
    }

    /// The number nearest to an integer.
    #[verifier::opaque]
    pub open spec fn integer(i: int) -> Binary64 {
        if i < 0 {
            Binary64::rounded(true, (-i) as nat * pow2(1074), 1)
        } else {
            Binary64::rounded(false, i as nat * pow2(1074), 1)
        }
    }

    pub open spec fn quiet_nan() -> Binary64 {
        Binary64 { bits: QUIET_NAN }
    }

    pub open spec fn infinity(negative: bool) -> Binary64 {
        Binary64::with_sign(negative, INFINITE as nat)
    }

    pub open spec fn zero(negative: bool) -> Binary64 {
        Binary64::with_sign(negative, 0)
    }

    pub open spec fn negation(self) -> Binary64 {
        Binary64::with_sign(!self.negative(), self.magnitude())
    }

    #[verifier::opaque]
    pub open spec fn sum(self, other: Binary64) -> Binary64 {
        if self.nan() || other.nan() {
            Binary64::quiet_nan()
        } else if self.infinite() {
            if other.infinite() && self.negative() != other.negative() {
                Binary64::quiet_nan()
            } else {
                self
            }
        } else if other.infinite() {
            other
        } else {
            let total = self.signed_units() + other.signed_units();
            if total == 0 {
                Binary64::zero(self.negative() && other.negative())
            } else if total < 0 {
                Binary64::rounded(true, (-total) as nat, 1)
            } else {
                Binary64::rounded(false, total as nat, 1)
            }
        }
    }

    #[verifier::opaque]
    pub open spec fn difference(self, other: Binary64) -> Binary64 {
        self.sum(other.negation())
    }

    #[verifier::opaque]
    pub open spec fn product(self, other: Binary64) -> Binary64 {
        let negative = self.negative() != other.negative();
        if self.nan() || other.nan() {
            Binary64::quiet_nan()
        } else if self.infinite() || other.infinite() {
            if self.magnitude() == 0 || other.magnitude() == 0 {
                Binary64::quiet_nan()
            } else {
                Binary64::infinity(negative)
            }
        } else {
            Binary64::rounded(negative, self.units() * other.units(), pow2(1074))
        }
    }

    #[verifier::opaque]
    pub open spec fn quotient(self, other: Binary64) -> Binary64 {
        let negative = self.negative() != other.negative();
        if self.nan() || other.nan() {
            Binary64::quiet_nan()
        } else if self.infinite() {
            if other.infinite() {
                Binary64::quiet_nan()
            } else {
                Binary64::infinity(negative)
            }
        } else if other.infinite() {
            Binary64::zero(negative)
        } else if other.magnitude() == 0 {
            if self.magnitude() == 0 {
                Binary64::quiet_nan()
            } else {
                Binary64::infinity(negative)
            }
        } else {
            Binary64::rounded(negative, self.units() * pow2(1074), other.units())
        }
    }
}

/// A finite value lies on the grid of its scale.
pub proof fn lemma_significand(x: Binary64)
    requires
        x.finite(),
    ensures
        x.magnitude() == x.significand() + x.scale() * HIDDEN,
        x.significand() < 2 * HIDDEN,
        x.scale() > 0 ==> x.significand() >= HIDDEN,
        x.scale() <= 2045,
        x.units() == 0 <==> x.magnitude() == 0,
{
    lemma_pow2_pos(x.scale());
    if x.units() == 0 {
        assert(x.significand() == 0) by (nonlinear_arith)
            requires
                x.significand() * pow2(x.scale()) == 0,
                pow2(x.scale()) > 0,
        ;
    }
    if x.magnitude() == 0 {
        lemma_mul_by_zero_is_zero(pow2(x.scale()) as int);
    }
}

/// Two to the power of a small exponent.
fn power_of_two(s: u32) -> (p: u128)
    requires
        s < 128,
    ensures
        p == pow2(s as nat),
{
    let top: u128 = 0x8000_0000_0000_0000_0000_0000_0000_0000;
    let shift: u128 = 127 - s as u128;
    proof {
        lemma2_to64();
        lemma2_to64_rest();
        lemma_pow2_adds(63, 64);
        assert(pow2(127) == top);
        vstd::bits::lemma_u128_shr_is_div(top, shift);
        lemma_pow2_subtracts(shift as nat, 127);
    }
    top >> shift
}

/// The number of binary digits of `x`.
fn bit_length(x: u128) -> (len: u32)
    ensures
        len <= 128,
        x < pow2(len as nat),
        x > 0 ==> len > 0 && x >= pow2((len - 1) as nat),
{
    let mut rest: u128 = x;
    let mut len: u32 = 0;
    proof {
        lemma2_to64();
    }
    while rest > 0
        invariant
            len <= 128,
            rest == x as nat / pow2(len as nat),
            len > 0 ==> x >= pow2((len - 1) as nat),
        decreases rest,
    {
        proof {
            lemma_pow2_pos(len as nat);
            lemma_fundamental_div_mod(x as int, pow2(len as nat) as int);
            assert(x >= pow2(len as nat)) by (nonlinear_arith)
                requires
                    x == pow2(len as nat) * (rest as nat) + x as nat % pow2(len as nat),
                    rest > 0,
            ;
            if len == 128 {
                lemma2_to64();
                lemma_pow2_adds(64, 64);
                assert(false);
            }
            lemma_div_denominator(x as int, pow2(len as nat) as int, 2);
            lemma_pow2_unfold((len + 1) as nat);
        }
        rest = rest / 2;
        len = len + 1;
    }
    proof {
        lemma_pow2_pos(len as nat);
        lemma_small_div_converse(x as int, pow2(len as nat) as int);
    }
    len
}

/// Rounds a number of which `sig` is a prefix of the binary expansion.
fn round_prefix(
    negative: bool,
    sig: u128,
    e: i32,
    sticky: bool,
    Ghost(num): Ghost<nat>,
    Ghost(den): Ghost<nat>,
) -> (result: Binary64)
    requires
        den > 0,
        sig > 0,
        -3100 <= e <= 3100,
        crate::rounding::is_prefix(num, den, sig as nat, e as int, sticky),
        sticky ==> sig >= 4 * HIDDEN,
    ensures
        result == Binary64::rounded(negative, num, den),
{
    let len: u32 = bit_length(sig);
    let top: i32 = len as i32 + e;
    let k: i32 = if top > 53 {
        top - 53
    } else {
        0
    };
    assert(k as nat == crate::rounding::target_scale(len as nat, e as int));
    let base: u64 = k as u64 * HIDDEN;
    let significand: u64;
    proof {
        crate::rounding::lemma_pow2_52();
    }
    if k > e {
        let s: u32 = (k - e) as u32;
        proof {
            crate::rounding::lemma_encoding_from_long_prefix(
                num,
                den,
                sig as nat,
                len as nat,
                e as int,
                sticky,
            );
            crate::rounding::lemma_pow2_monotone(s as nat, s as nat);
        }
        let ghost q = sig as nat / pow2(s as nat);
        let ghost r = sig as nat % pow2(s as nat);
        proof {
            // the kept part has at most 53 bits
            lemma_pow2_adds(53, s as nat);
            crate::rounding::lemma_pow2_monotone(len as nat, 53 + s as nat);
            lemma_fundamental_div_mod(sig as int, pow2(s as nat) as int);
            assert(q < 2 * HIDDEN) by (nonlinear_arith)
                requires
                    sig == pow2(s as nat) * q + r,
                    r >= 0,
                    sig < (2 * HIDDEN) * pow2(s as nat),
                    pow2(s as nat) > 0,
            ;
        }
        if s > 128 {
            proof {
                lemma2_to64();
                lemma_pow2_adds(64, 64);
                crate::rounding::lemma_pow2_monotone(128, (s - 1) as nat);
                crate::rounding::lemma_pow2_monotone((s - 1) as nat, s as nat);
                lemma_small_mod(sig as nat, pow2(s as nat));
                lemma_basic_div(sig as int, pow2(s as nat) as int);
            }
            significand = 0;
        } else {
            let half: u128 = power_of_two(s - 1);
            let kept: u128;
            let dropped: u128;
            proof {
                lemma_pow2_unfold(s as nat);
            }
            if s == 128 {
                proof {
                    lemma2_to64();
                    lemma_pow2_adds(64, 64);
                    lemma_small_mod(sig as nat, pow2(s as nat));
                    lemma_basic_div(sig as int, pow2(s as nat) as int);
                }
                kept = 0;
                dropped = sig;
            } else {
                let step: u128 = power_of_two(s);
                kept = sig / step;
                dropped = sig % step;
            }
            assert(kept == q && dropped == r);
            if dropped > half || (dropped == half && (sticky || kept % 2 == 1)) {
                significand = kept as u64 + 1;
            } else {
                significand = kept as u64;
            }
        }
    } else {
        proof {
            if sticky {
                lemma2_to64_rest();
                assert(len as nat >= 55) by {
                    if len < 55 {
                        crate::rounding::lemma_pow2_monotone(len as nat, 54);
                    }
                }
                assert(false);
            }
            crate::rounding::lemma_encoding_from_short_prefix(
                num,
                den,
                sig as nat,
                len as nat,
                e as int,
            );
            let t = (e - k) as nat;
            lemma_pow2_adds(len as nat, t);
            crate::rounding::lemma_pow2_monotone(len as nat + t, 53);
            lemma_pow2_pos(t);
            assert(sig * pow2(t) < pow2(53)) by (nonlinear_arith)
                requires
                    sig < pow2(len as nat),
                    pow2(len as nat) * pow2(t) <= pow2(53),
                    pow2(t) > 0,
            ;
            lemma2_to64();
            if t >= 128 {
                lemma_pow2_adds(64, 64);
                crate::rounding::lemma_pow2_monotone(64, t);
                assert(sig * pow2(t) >= pow2(64)) by (nonlinear_arith)
                    requires
                        sig >= 1,
                        pow2(t) >= pow2(64),
                ;
            }
        }
        let step: u128 = power_of_two((e - k) as u32);
        let shifted: u128 = sig * step;
        significand = shifted as u64;
    }
    assert(base + significand == crate::rounding::unbounded_encoding(num, den));
    let encoding: u64 = base + significand;
    let magnitude: u64 = if encoding < INFINITE {
        encoding
    } else {
        INFINITE
    };
    if negative {
        Binary64 { bits: SIGN + magnitude }
    } else {
        Binary64 { bits: magnitude }
    }
}

pub proof fn lemma_rounded_zero(negative: bool, den: nat)
    requires
        den > 0,
    ensures
        Binary64::rounded(negative, 0, den) == Binary64::zero(negative),
{
    lemma_div_of0(den as int);
    crate::rounding::lemma_pow2_52();
    assert(crate::rounding::spacing(0) == 0);
    assert(den * pow2(0) == den);
    assert(0nat % den == 0) by {
        lemma_small_mod(0, den);
    }
}

impl Binary64 {
    pub fn from_bits(bits: u64) -> (result: Binary64)
        ensures
            result.bits == bits,
    {
        Binary64 { bits }
    }

    pub fn to_bits(self) -> (bits: u64)
        ensures
            bits == self.bits,
    {
        self.bits
    }

    fn magnitude_bits(self) -> (m: u64)
        ensures
            m == self.magnitude(),
    {
        self.bits % SIGN
    }

    pub fn is_negative(self) -> (b: bool)
        ensures
            b == self.negative(),
    {
        self.bits >= SIGN
    }

    pub fn is_nan(self) -> (b: bool)
        ensures
            b == self.nan(),
    {
        self.magnitude_bits() > INFINITE
    }

    pub fn is_infinite(self) -> (b: bool)
        ensures
            b == self.infinite(),
    {
        self.magnitude_bits() == INFINITE
    }

    pub fn is_finite(self) -> (b: bool)
        ensures
            b == self.finite(),
    {
        self.magnitude_bits() < INFINITE
    }

    fn order_key(self) -> (key: i64)
        ensures
            key == self.order(),
    {
        let magnitude: i64 = self.magnitude_bits() as i64;
        if self.is_negative() {
            -magnitude
        } else {
            magnitude
        }
    }

    /// `self < other`; false if either is NaN.
    pub fn lt(self, other: Binary64) -> (b: bool)
        ensures
            b == self.less(other),
    {
        !self.is_nan() && !other.is_nan() && self.order_key() < other.order_key()
    }

    /// `self <= other`; false if either is NaN.
    pub fn le(self, other: Binary64) -> (b: bool)
        ensures
            b == self.at_most(other),
    {
        !self.is_nan() && !other.is_nan() && self.order_key() <= other.order_key()
    }

    /// `self == other`; false if either is NaN, and the two zeros are equal.
    pub fn eq(self, other: Binary64) -> (b: bool)
        ensures
            b == self.equals(other),
    {
        !self.is_nan() && !other.is_nan() && self.order_key() == other.order_key()
    }

    fn signed(negative: bool, magnitude: u64) -> (result: Binary64)
        requires
            magnitude < SIGN,
        ensures
            result == Binary64::with_sign(negative, magnitude as nat),
    {
        if negative {
            Binary64 { bits: SIGN + magnitude }
        } else {
            Binary64 { bits: magnitude }
        }
    }

    pub fn neg(self) -> (result: Binary64)
        ensures
            result == self.negation(),
    {
        Binary64::signed(!self.is_negative(), self.magnitude_bits())
    }

    fn unpack(self) -> (parts: (u64, i32))
        requires
            self.finite(),
        ensures
            parts.0 == self.significand(),
            parts.1 == self.scale(),
            parts.0 < 2 * HIDDEN,
            0 <= parts.1 <= 2045,
            parts.1 > 0 ==> parts.0 >= HIDDEN,
    {
        proof {
            lemma_significand(self);
        }
        let magnitude: u64 = self.magnitude_bits();
        if magnitude < 2 * HIDDEN {
            (magnitude, 0)
        } else {
            let scale: u64 = magnitude / HIDDEN - 1;
            (magnitude - scale * HIDDEN, scale as i32)
        }
    }

    pub fn from_u64(n: u64) -> (result: Binary64)
        ensures
            result == Binary64::integer(n as int),
    {
        proof {
            reveal(Binary64::integer);
        }
        let ghost num: nat = n as nat * pow2(1074);
        if n == 0 {
            proof {
                lemma_rounded_zero(false, 1);
            }
            Binary64 { bits: 0 }
        } else {
            proof {
                crate::rounding::lemma_pow2_52();
                lemma_pow2_pos(1074);
                lemma_mul_ordering_step(n as nat, pow2(1074));
            }
            round_prefix(false, n as u128, 1074, false, Ghost(num), Ghost(1))
        }
    }

    pub fn from_u32(n: u32) -> (result: Binary64)
        ensures
            result == Binary64::integer(n as int),
    {
        Binary64::from_u64(n as u64)
    }

    pub fn from_i32(n: i32) -> (result: Binary64)
        ensures
            result == Binary64::integer(n as int),
    {
        proof {
            reveal(Binary64::integer);
        }
        if n < 0 {
            let size: i64 = -(n as i64);
            proof {
                crate::rounding::lemma_pow2_52();
                lemma_pow2_pos(1074);
                lemma_mul_ordering_step(size as nat, pow2(1074));
            }
            let ghost num: nat = size as nat * pow2(1074);
            round_prefix(true, size as u128, 1074, false, Ghost(num), Ghost(1))
        } else {
            Binary64::from_u64(n as u64)
        }
    }
}

/// The exact product is a prefix of itself.
proof fn lemma_product_prefix(a: Binary64, b: Binary64)
    requires
        a.finite(),
        b.finite(),
    ensures
        crate::rounding::is_prefix(
            a.units() * b.units(),
            pow2(1074),
            a.significand() * b.significand(),
            a.scale() + b.scale() - 1074,
            false,
        ),
{
    let sig = a.significand() * b.significand();
    let num = a.units() * b.units();
    let e = a.scale() + b.scale() - 1074;
    let eu: nat = if e > 0 { e as nat } else { 0 };
    let ed: nat = if e < 0 { (-e) as nat } else { 0 };
    let (pa, pb, up, down, den) = (
        pow2(a.scale()),
        pow2(b.scale()),
        pow2(eu),
        pow2(ed),
        pow2(1074),
    );
    lemma_pow2_adds(a.scale(), b.scale());
    lemma_pow2_adds(a.scale() + b.scale(), ed);
    lemma_pow2_adds(1074, eu);
    assert(a.scale() + b.scale() + ed == 1074 + eu);
    lemma_pow2_pos(1074 + eu);
    assert(num == sig * (pa * pb)) by (nonlinear_arith)
        requires
            num == (a.significand() * pa) * (b.significand() * pb),
            sig == a.significand() * b.significand(),
    ;
    assert(num * down == sig * (den * up)) by (nonlinear_arith)
        requires
            num == sig * (pa * pb),
            (pa * pb) * down == den * up,
    ;
    assert(sig * (den * up) < (sig + 1) * (den * up)) by (nonlinear_arith)
        requires
            den * up > 0,
    ;
}

/// A quotient of significands is a prefix of the quotient.
proof fn lemma_quotient_prefix(a: Binary64, b: Binary64, t: nat, big: nat)
    requires
        a.finite(),
        b.finite(),
        b.significand() > 0,
        big == a.significand() * pow2(t),
    ensures
        crate::rounding::is_prefix(
            a.units() * pow2(1074),
            b.units(),
            big / b.significand(),
            a.scale() - b.scale() + 1074 - t,
            big % b.significand() != 0,
        ),
{
    let m = b.significand();
    let q = big / m;
    let r = big % m;
    let e = a.scale() - b.scale() + 1074 - t;
    let eu: nat = if e > 0 { e as nat } else { 0 };
    let ed: nat = if e < 0 { (-e) as nat } else { 0 };
    let (pa, pb, pt, up, down, one) = (
        pow2(a.scale()),
        pow2(b.scale()),
        pow2(t),
        pow2(eu),
        pow2(ed),
        pow2(1074),
    );
    let c = pb * up;
    lemma_pow2_pos(b.scale());
    lemma_pow2_pos(eu);
    lemma_mul_strictly_positive(pb as int, up as int);
    lemma_fundamental_div_mod(big as int, m as int);
    // both sides are multiples of `c`
    lemma_pow2_adds(t, b.scale());
    lemma_pow2_adds(t + b.scale(), eu);
    lemma_pow2_adds(a.scale(), 1074);
    lemma_pow2_adds(a.scale() + 1074, ed);
    assert(t + b.scale() + eu == a.scale() + 1074 + ed);
    assert(pt * (pb * up) == (pt * pb) * up) by (nonlinear_arith);
    let num = a.units() * one;
    let den = b.units();
    assert(num * down == a.significand() * ((pa * one) * down)) by (nonlinear_arith)
        requires
            num == (a.significand() * pa) * one,
    ;
    assert(big * c == a.significand() * (pt * c)) by (nonlinear_arith)
        requires
            big == a.significand() * pt,
    ;
    assert(den * up == m * c) by (nonlinear_arith)
        requires
            den == m * pb,
            c == pb * up,
    ;
    assert(q * (den * up) + r * c == num * down) by (nonlinear_arith)
        requires
            num * down == big * c,
            big == m * q + r,
            den * up == m * c,
    ;
    assert((q + 1) * (den * up) == q * (den * up) + m * c) by (nonlinear_arith)
        requires
            den * up == m * c,
    ;
    assert(0 <= r * c < m * c) by (nonlinear_arith)
        requires
            0 <= r < m,
            c > 0,
    ;
    assert(r * c == 0 <==> r == 0) by (nonlinear_arith)
        requires
            r >= 0,
            c > 0,
    ;
}

impl Binary64 {
    pub fn mul(self, other: Binary64) -> (result: Binary64)
        ensures
            result == self.product(other),
    {
        proof {
            reveal(Binary64::product);
        }
        if self.is_nan() || other.is_nan() {
            return Binary64 { bits: QUIET_NAN };
        }
        let negative: bool = self.is_negative() != other.is_negative();
        let zero: bool = self.magnitude_bits() == 0 || other.magnitude_bits() == 0;
        if self.is_infinite() || other.is_infinite() {
            return if zero {
                Binary64 { bits: QUIET_NAN }
            } else {
                Binary64::signed(negative, INFINITE)
            };
        }
        proof {
            lemma_significand(self);
            lemma_significand(other);
            lemma_pow2_pos(1074);
        }
        if zero {
            proof {
                lemma_mul_by_zero_is_zero(self.units() as int);
                lemma_mul_by_zero_is_zero(other.units() as int);
                lemma_rounded_zero(negative, pow2(1074));
            }
            return Binary64::signed(negative, 0);
        }
        let (ma, ka) = self.unpack();
        let (mb, kb) = other.unpack();
        proof {
            assert(0 < ma * mb < 0x1000_0000_0000_0000_0000_0000_0000_0000) by (nonlinear_arith)
                requires
                    0 < ma < 0x20_0000_0000_0000,
                    0 < mb < 0x20_0000_0000_0000,
            ;
            lemma_product_prefix(self, other);
        }
        let sig: u128 = ma as u128 * mb as u128;
        let ghost num: nat = self.units() * other.units();
        round_prefix(negative, sig, ka + kb - 1074, false, Ghost(num), Ghost(pow2(1074)))
    }

    pub fn div(self, other: Binary64) -> (result: Binary64)
        ensures
            result == self.quotient(other),
    {
        proof {
            reveal(Binary64::quotient);
        }
        if self.is_nan() || other.is_nan() {
            return Binary64 { bits: QUIET_NAN };
        }
        let negative: bool = self.is_negative() != other.is_negative();
        if self.is_infinite() {
            return if other.is_infinite() {
                Binary64 { bits: QUIET_NAN }
            } else {
                Binary64::signed(negative, INFINITE)
            };
        }
        if other.is_infinite() {
            return Binary64::signed(negative, 0);
        }
        proof {
            lemma_significand(self);
            lemma_significand(other);
        }
        if other.magnitude_bits() == 0 {
            return if self.magnitude_bits() == 0 {
                Binary64 { bits: QUIET_NAN }
            } else {
                Binary64::signed(negative, INFINITE)
            };
        }
        if self.magnitude_bits() == 0 {
            proof {
                lemma_mul_by_zero_is_zero(pow2(1074) as int);
                lemma_rounded_zero(negative, other.units());
            }
            return Binary64::signed(negative, 0);
        }
        let (ma, ka) = self.unpack();
        let (mb, kb) = other.unpack();
        let len: u32 = bit_length(ma as u128);
        proof {
            crate::rounding::lemma_pow2_52();
            if len > 53 {
                crate::rounding::lemma_pow2_monotone(53, (len - 1) as nat);
            }
            lemma_pow2_adds(len as nat, (127 - len) as nat);
            lemma_pow2_adds((len - 1) as nat, (127 - len) as nat);
            lemma2_to64();
            lemma2_to64_rest();
            lemma_pow2_adds(63, 64);
            lemma_pow2_adds(62, 64);
        }
        // the numerator gets exactly 127 bits
        let t: u32 = 127 - len;
        let step: u128 = power_of_two(t);
        proof {
            lemma_pow2_pos(t as nat);
        }
        assert(pow2(126) <= ma * step < pow2(127)) by (nonlinear_arith)
            requires
                pow2((len - 1) as nat) <= ma < pow2(len as nat),
                pow2((len - 1) as nat) * step == pow2(126),
                pow2(len as nat) * step == pow2(127),
                step > 0,
        ;
        let big: u128 = ma as u128 * step;
        let sig: u128 = big / mb as u128;
        let rest: u128 = big % mb as u128;
        proof {
            lemma_fundamental_div_mod(big as int, mb as int);
            assert(sig >= 4 * HIDDEN) by (nonlinear_arith)
                requires
                    big == mb * sig + rest,
                    rest < mb,
                    mb < 0x20_0000_0000_0000,
                    big >= 0x4000_0000_0000_0000_0000_0000_0000_0000,
            ;
            lemma_quotient_prefix(self, other, t as nat, big as nat);
        }
        let ghost num: nat = self.units() * pow2(1074);
        let ghost den: nat = other.units();
        round_prefix(
            negative,
            sig,
            ka - kb + 1074 - t as i32,
            rest != 0,
            Ghost(num),
            Ghost(den),
        )
    }
}

/// An integer quotient is a prefix of the ratio.
proof fn lemma_ratio_prefix(num: nat, den: nat, t: nat, big: nat)
    requires
        den > 0,
        t <= 1074,
        big == num * pow2(t),
    ensures
        crate::rounding::is_prefix(
            num * pow2(1074),
            den,
            big / den,
            1074 - t,
            big % den != 0,
        ),
{
    let q = big / den;
    let r = big % den;
    let e = (1074 - t) as nat;
    let up = pow2(e);
    crate::rounding::lemma_pow2_52();
    lemma_pow2_pos(e);
    lemma_pow2_adds(t, e);
    lemma_fundamental_div_mod(big as int, den as int);
    assert(num * (pow2(t) * up) == (num * pow2(t)) * up) by (nonlinear_arith);
    assert((den * q + r) * up == q * (den * up) + r * up) by (nonlinear_arith);
    assert(0 <= r * up < den * up) by (nonlinear_arith)
        requires
            0 <= r < den,
            up > 0,
    ;
    assert((q + 1) * (den * up) == q * (den * up) + den * up) by (nonlinear_arith);
    assert(r * up == 0 <==> r == 0) by (nonlinear_arith)
        requires
            r >= 0,
            up > 0,
    ;
}

impl Binary64 {
    /// The number nearest to `num / den`.
    pub fn from_ratio(num: u64, den: u64) -> (result: Binary64)
        requires
            den > 0,
        ensures
            result == Binary64::ratio(num as nat, den as nat),
    {
        proof {
            reveal(Binary64::ratio);
        }
        if num == 0 {
            proof {
                lemma_mul_by_zero_is_zero(pow2(1074) as int);
                lemma_rounded_zero(false, den as nat);
            }
            return Binary64 { bits: 0 };
        }
        let len: u32 = bit_length(num as u128);
        proof {
            lemma2_to64();
            if len > 64 {
                crate::rounding::lemma_pow2_monotone(64, (len - 1) as nat);
            }
            lemma_pow2_adds(len as nat, (127 - len) as nat);
            lemma_pow2_adds((len - 1) as nat, (127 - len) as nat);
            lemma2_to64_rest();
            lemma_pow2_adds(63, 64);
            lemma_pow2_adds(62, 64);
        }
        let t: u32 = 127 - len;
        let step: u128 = power_of_two(t);
        proof {
            lemma_pow2_pos(t as nat);
        }
        assert(pow2(126) <= num * step < pow2(127)) by (nonlinear_arith)
            requires
                pow2((len - 1) as nat) <= num < pow2(len as nat),
                pow2((len - 1) as nat) * step == pow2(126),
                pow2(len as nat) * step == pow2(127),
                step > 0,
        ;
        let big: u128 = num as u128 * step;
        let sig: u128 = big / den as u128;
        let rest: u128 = big % den as u128;
        proof {
            lemma_fundamental_div_mod(big as int, den as int);
            assert(sig >= 4 * HIDDEN) by (nonlinear_arith)
                requires
                    big == den * sig + rest,
                    rest < den,
                    den < 0x1_0000_0000_0000_0000,
                    big >= 0x4000_0000_0000_0000_0000_0000_0000_0000,
            ;
            lemma_ratio_prefix(num as nat, den as nat, t as nat, big as nat);
        }
        let ghost scaled: nat = num as nat * pow2(1074);
        round_prefix(false, sig, 1074 - t as i32, rest != 0, Ghost(scaled), Ghost(den as nat))
    }
}

/// A whole number of steps, plus a part of a step, in units.
proof fn lemma_step_prefix(num: nat, sig: nat, e: nat, part: nat)
    requires
        num == sig * pow2(e) + part,
        part < pow2(e),
    ensures
        crate::rounding::is_prefix(num, 1, sig, e as int, part != 0),
{
    crate::rounding::lemma_pow2_52();
    assert((sig + 1) * (1 * pow2(e)) == sig * pow2(e) + pow2(e)) by (nonlinear_arith);
}

impl Binary64 {
    fn add_near(self, other: Binary64) -> (result: Binary64)
        requires
            self.finite(),
            other.finite(),
            other.scale() <= self.scale() <= other.scale() + 74,
        ensures
            result == self.sum(other),
    {
        proof {
            reveal(Binary64::sum);
        }
        let (ma, ka) = self.unpack();
        let (mb, kb) = other.unpack();
        let step: u128 = power_of_two((ka - kb) as u32);
        let ghost p = pow2(kb as nat);
        proof {
            lemma_significand(self);
            lemma_significand(other);
            lemma_pow2_pos(kb as nat);
            lemma_pow2_adds((ka - kb) as nat, kb as nat);
            lemma2_to64();
            lemma2_to64_rest();
            lemma_pow2_adds(10, 64);
            crate::rounding::lemma_pow2_monotone((ka - kb) as nat, 74);
            assert(ma * step < 0x8000_0000_0000_0000_0000_0000_0000_0000) by (nonlinear_arith)
                requires
                    ma < 0x20_0000_0000_0000,
                    0 < step <= 0x400_0000_0000_0000_0000,
            ;
        }
        let sa: u128 = ma as u128 * step;
        let sb: u128 = mb as u128;
        assert(self.units() == sa * p) by (nonlinear_arith)
            requires
                self.units() == ma * (step * p),
                sa == ma * step,
        ;
        assert(other.units() == sb * p);
        let same: bool = self.is_negative() == other.is_negative();
        if same {
            if sa + sb == 0 {
                assert(self.units() == 0 && other.units() == 0) by {
                    lemma_mul_by_zero_is_zero(p as int);
                }
                Binary64::signed(self.is_negative(), 0)
            } else {
                let ghost num: nat = self.units() + other.units();
                proof {
                    assert(num == (sa + sb) * p + 0) by (nonlinear_arith)
                        requires
                            num == sa * p + sb * p,
                    ;
                    assert(num > 0) by (nonlinear_arith)
                        requires
                            num == (sa + sb) * p + 0,
                            sa + sb > 0,
                            p > 0,
                    ;
                    lemma_step_prefix(num, (sa + sb) as nat, kb as nat, 0);
                }
                round_prefix(self.is_negative(), sa + sb, kb, false, Ghost(num), Ghost(1))
            }
        } else if sa == sb {
            Binary64::signed(false, 0)
        } else if sa > sb {
            let ghost num: nat = (self.units() - other.units()) as nat;
            proof {
                assert(self.units() - other.units() == (sa - sb) * p + 0) by (nonlinear_arith)
                    requires
                        self.units() == sa * p,
                        other.units() == sb * p,
                ;
                lemma_mul_strictly_positive(sa - sb, p as int);
                lemma_step_prefix(num, (sa - sb) as nat, kb as nat, 0);
            }
            round_prefix(self.is_negative(), sa - sb, kb, false, Ghost(num), Ghost(1))
        } else {
            let ghost num: nat = (other.units() - self.units()) as nat;
            proof {
                assert(other.units() - self.units() == (sb - sa) * p + 0) by (nonlinear_arith)
                    requires
                        self.units() == sa * p,
                        other.units() == sb * p,
                ;
                lemma_mul_strictly_positive(sb - sa, p as int);
                lemma_step_prefix(num, (sb - sa) as nat, kb as nat, 0);
            }
            round_prefix(other.is_negative(), sb - sa, kb, false, Ghost(num), Ghost(1))
        }
    }

    fn add_far(self, other: Binary64) -> (result: Binary64)
        requires
            self.finite(),
            other.finite(),
            self.scale() > other.scale() + 74,
        ensures
            result == self.sum(other),
    {
        proof {
            reveal(Binary64::sum);
        }
        let (ma, ka) = self.unpack();
        let (mb, kb) = other.unpack();
        let e: i32 = ka - 74;
        let gap: u32 = (e - kb) as u32;
        let step: u128 = power_of_two(74);
        let ghost p = pow2(e as nat);
        let ghost low = pow2(kb as nat);
        let ghost cut = pow2(gap as nat);
        proof {
            lemma_significand(self);
            lemma_significand(other);
            lemma_pow2_pos(e as nat);
            lemma_pow2_pos(kb as nat);
            lemma_pow2_pos(gap as nat);
            lemma_pow2_adds(74, e as nat);
            lemma_pow2_adds(gap as nat, kb as nat);
            lemma2_to64();
            lemma2_to64_rest();
            lemma_pow2_adds(10, 64);
        }
        let sa: u128 = ma as u128 * step;
        assert(self.units() == sa * p) by (nonlinear_arith)
            requires
                self.units() == ma * (step * p),
                sa == ma * step,
        ;
        let sb: u128;
        let rest: u128;
        if gap < 64 {
            let divisor: u128 = power_of_two(gap);
            sb = mb as u128 / divisor;
            rest = mb as u128 % divisor;
        } else {
            proof {
                crate::rounding::lemma_pow2_monotone(64, gap as nat);
                lemma_small_mod(mb as nat, cut);
                lemma_basic_div(mb as int, cut as int);
            }
            sb = 0;
            rest = mb as u128;
        }
        let ghost part: nat = rest as nat * low;
        proof {
            assert(sb == mb as nat / cut && rest == mb as nat % cut);
            lemma_fundamental_div_mod(mb as int, cut as int);
            assert(sb <= mb) by (nonlinear_arith)
                requires
                    mb == cut * sb + rest,
                    cut > 0,
            ;
            assert(other.units() == sb * p + part) by (nonlinear_arith)
                requires
                    other.units() == mb * low,
                    mb == cut * sb + rest,
                    p == cut * low,
                    part == rest * low,
            ;
            assert(part < p) by (nonlinear_arith)
                requires
                    rest < cut,
                    low > 0,
                    p == cut * low,
                    part == rest * low,
            ;
            assert(part == 0 <==> rest == 0) by (nonlinear_arith)
                requires
                    low > 0,
                    part == rest * low,
            ;
            assert(sb * p + p < sa * p) by (nonlinear_arith)
                requires
                    sb + 1 < sa,
                    p > 0,
            ;
        }
        let negative: bool = self.is_negative();
        if negative == other.is_negative() {
            let ghost num: nat = self.units() + other.units();
            proof {
                assert(num == (sa + sb) * p + part) by (nonlinear_arith)
                    requires
                        num == sa * p + (sb * p + part),
                ;
                lemma_step_prefix(num, (sa + sb) as nat, e as nat, part);
            }
            round_prefix(negative, sa + sb, e, rest != 0, Ghost(num), Ghost(1))
        } else if rest == 0 {
            let ghost num: nat = (self.units() - other.units()) as nat;
            proof {
                assert(self.units() - other.units() == (sa - sb) * p + 0) by (nonlinear_arith)
                    requires
                        self.units() == sa * p,
                        other.units() == sb * p + 0,
                ;
                lemma_step_prefix(num, (sa - sb) as nat, e as nat, 0);
            }
            round_prefix(negative, sa - sb, e, false, Ghost(num), Ghost(1))
        } else {
            let ghost num: nat = (self.units() - other.units()) as nat;
            proof {
                assert(self.units() - other.units() == (sa - sb - 1) * p + (p - part))
                    by (nonlinear_arith)
                    requires
                        self.units() == sa * p,
                        other.units() == sb * p + part,
                ;
                lemma_step_prefix(num, (sa - sb - 1) as nat, e as nat, (p - part) as nat);
            }
            round_prefix(negative, sa - sb - 1, e, true, Ghost(num), Ghost(1))
        }
    }

    pub fn add(self, other: Binary64) -> (result: Binary64)
        ensures
            result == self.sum(other),
    {
        proof {
            reveal(Binary64::sum);
        }
        if self.is_nan() || other.is_nan() {
            return Binary64 { bits: QUIET_NAN };
        }
        if self.is_infinite() {
            return if other.is_infinite() && self.is_negative() != other.is_negative() {
                Binary64 { bits: QUIET_NAN }
            } else {
                self
            };
        }
        if other.is_infinite() {
            return other;
        }
        let (_ma, ka) = self.unpack();
        let (_mb, kb) = other.unpack();
        if ka >= kb {
            if ka - kb <= 74 {
                self.add_near(other)
            } else {
                self.add_far(other)
            }
        } else if kb - ka <= 74 {
            other.add_near(self)
        } else {
            other.add_far(self)
        }
    }

    pub fn sub(self, other: Binary64) -> (result: Binary64)
        ensures
            result == self.difference(other),
    {
        proof {
            reveal(Binary64::difference);
        }
        self.add(other.neg())
    }
}

proof fn lemma_mul_ordering_step(n: nat, p: nat)
    requires
        p > 0,
    ensures
        n * (1 * p) == n * p,
        n * p * 1 == n * p,
        n * p < (n + 1) * (1 * p),
{
    assert(n * p < (n + 1) * p) by (nonlinear_arith)
        requires
            p > 0,
    ;
}

} // verus!
