//! Rounding a non-negative rational to the nearest binary64 magnitude.
//!
//! Every finite binary64 value is a whole number of *units*, where one unit is
//! two to the power of minus 1074, the smallest positive value. A magnitude is
//! encoded as `significand + scale * 2^52` and stands for
//! `significand * 2^scale` units. This encoding is increasing, so a significand
//! that rounds up to `2^53` carries into the next scale by itself.

use vstd::prelude::*;
use vstd::arithmetic::power2::*;
use vstd::arithmetic::mul::*;
use vstd::arithmetic::div_mod::*;

verus! {

/// `2^52`: the step between the encodings of two neighbouring scales.
pub const HIDDEN: u64 = 0x10_0000_0000_0000;

/// The encoding of infinity, one above the largest finite magnitude.
pub const INFINITE: u64 = 0x7ff0_0000_0000_0000;

/// How often `q` has to be halved before it fits in 53 bits.
pub open spec fn spacing(q: nat) -> nat
    decreases q,
{
    if q < 2 * HIDDEN {
        0
    } else {
        1 + spacing(q / 2)
    }
}

/// The integer nearest to `num / den`; the even one of two that are equally near.
pub open spec fn nearest_even(num: nat, den: nat) -> nat {
    let q = num / den;
    let r = num % den;
    if 2 * r < den || (2 * r == den && q % 2 == 0) {
        q
    } else {
        q + 1
    }
}

/// The encoding of the magnitude nearest to `num / den` units, before the
/// values that are too large are replaced by infinity.
pub open spec fn unbounded_encoding(num: nat, den: nat) -> nat {
    let k = spacing(num / den);
    nearest_even(num, den * pow2(k)) + k * (HIDDEN as nat)
}

/// The encoding of the magnitude nearest to `num / den` units.
pub open spec fn rounded_magnitude(num: nat, den: nat) -> nat {
    let encoding = unbounded_encoding(num, den);
    if encoding < INFINITE {
        encoding
    } else {
        INFINITE as nat
    }
}

pub proof fn lemma_pow2_52()
    ensures
        pow2(0) == 1,
        pow2(52) == HIDDEN,
        pow2(53) == 2 * HIDDEN,
{
    lemma2_to64();
    lemma2_to64_rest();
}

pub proof fn lemma_pow2_monotone(a: nat, b: nat)
    requires
        a <= b,
    ensures
        0 < pow2(a) <= pow2(b),
{
    lemma_pow2_pos(a);
    if a < b {
        lemma_pow2_strictly_increases(a, b);
    }
}

/// Whether `k` is the spacing of `q`, without recursion.
pub open spec fn is_spacing(q: nat, k: nat) -> bool {
    &&& q < pow2(53 + k)
    &&& k > 0 ==> q >= pow2(52 + k)
}

pub proof fn lemma_spacing_bounds(q: nat)
    ensures
        is_spacing(q, spacing(q)),
    decreases q,
{
    lemma_pow2_52();
    if q >= 2 * HIDDEN {
        let k = spacing(q / 2);
        lemma_spacing_bounds(q / 2);
        lemma_pow2_unfold(54 + k);
        lemma_pow2_unfold(53 + k);
        if k == 0 {
            assert(q >= pow2(53));
        }
    }
}

pub proof fn lemma_spacing_unique(q: nat, k: nat)
    requires
        is_spacing(q, k),
    ensures
        spacing(q) == k,
{
    lemma_spacing_bounds(q);
    let j = spacing(q);
    if j < k {
        lemma_pow2_monotone(53 + j, 52 + k);
    }
    if k < j {
        lemma_pow2_monotone(53 + k, 52 + j);
    }
}

pub proof fn lemma_spacing_monotone(p: nat, q: nat)
    requires
        p <= q,
    ensures
        spacing(p) <= spacing(q),
{
    lemma_spacing_bounds(p);
    lemma_spacing_bounds(q);
    let j = spacing(p);
    let k = spacing(q);
    if k < j {
        lemma_pow2_monotone(53 + k, 52 + j);
    }
}

/// Rounding depends on the ratio alone.
pub proof fn lemma_nearest_even_scaled(num: nat, den: nat, c: nat)
    requires
        den > 0,
        c > 0,
    ensures
        nearest_even(num * c, den * c) == nearest_even(num, den),
{
    let q = num / den;
    let r = num % den;
    lemma_fundamental_div_mod(num as int, den as int);
    assert(num * c == q * (den * c) + r * c) by (nonlinear_arith)
        requires
            num == den * q + r,
    ;
    assert(0 <= r * c < den * c) by (nonlinear_arith)
        requires
            0 <= r < den,
            c > 0,
    ;
    lemma_fundamental_div_mod_converse((num * c) as int, (den * c) as int, q as int, (r * c) as int);
    assert((2 * (r * c) < den * c) == (2 * r < den)) by (nonlinear_arith)
        requires
            c > 0,
    ;
    assert((2 * (r * c) == den * c) == (2 * r == den)) by (nonlinear_arith)
        requires
            c > 0,
    ;
}

/// A ratio that lies in `[sig, sig + 1)` steps is rounded to a multiple of
/// `2^s` steps by looking at `sig` and at whether the ratio is above it.
pub proof fn lemma_nearest_even_from_prefix(num: nat, den: nat, sig: nat, s: nat)
    requires
        den > 0,
        s > 0,
        sig * den <= num < (sig + 1) * den,
    ensures
        ({
            let q = sig / pow2(s);
            let r = sig % pow2(s);
            let half = pow2((s - 1) as nat);
            let above = num != sig * den;
            nearest_even(num, den * pow2(s)) == if r > half || (r == half && (above || q % 2 == 1)) {
                q + 1
            } else {
                q
            }
        }),
{
    let p = pow2(s);
    lemma_pow2_pos(s);
    lemma_pow2_unfold(s);
    let half = pow2((s - 1) as nat);
    let q = sig / p;
    let r = sig % p;
    let rest = num - sig * den;
    lemma_fundamental_div_mod(sig as int, p as int);
    let big = den * p;
    assert(num == q * big + (r * den + rest)) by (nonlinear_arith)
        requires
            sig == p * q + r,
            rest == num - sig * den,
            big == den * p,
    ;
    assert(rest < den) by (nonlinear_arith)
        requires
            num < (sig + 1) * den,
            rest == num - sig * den,
    ;
    assert(0 <= r * den + rest < big) by (nonlinear_arith)
        requires
            0 <= r <= p - 1,
            0 <= rest < den,
            big == den * p,
    ;
    lemma_fundamental_div_mod_converse(num as int, big as int, q as int, r * den + rest);
    assert(r > half ==> 2 * (r * den + rest) > big) by (nonlinear_arith)
        requires
            big == den * p,
            p == 2 * half,
            rest >= 0,
            den > 0,
    ;
    assert(r < half ==> 2 * (r * den + rest) < big) by (nonlinear_arith)
        requires
            big == den * p,
            p == 2 * half,
            rest < den,
            den > 0,
    ;
    assert(r == half ==> 2 * (r * den) == big) by (nonlinear_arith)
        requires
            big == den * p,
            p == 2 * half,
    ;
}

/// Whether `num / den`, measured in steps of `2^e`, lies in `[sig, sig + 1)`,
/// and above `sig` just if `sticky`.
pub open spec fn is_prefix(num: nat, den: nat, sig: nat, e: int, sticky: bool) -> bool {
    let up = pow2(if e > 0 { e as nat } else { 0 });
    let down = pow2(if e < 0 { (-e) as nat } else { 0 });
    &&& sig * (den * up) <= num * down < (sig + 1) * (den * up)
    &&& sticky == (num * down != sig * (den * up))
}

/// The scale of the magnitude nearest to a number that has `len` bits when
/// measured in steps of `2^e`.
pub open spec fn target_scale(len: nat, e: int) -> nat {
    if len + e > 53 {
        (len + e - 53) as nat
    } else {
        0
    }
}

proof fn lemma_rescaled_upper_bound(
    num: nat,
    down: nat,
    sig: nat,
    den: nat,
    up: nat,
    bound: nat,
    top: nat,
)
    requires
        num * down < sig * (den * up),
        sig <= bound,
        bound * up <= top * down,
    ensures
        num < top * den,
{
    lemma_mul_inequality(sig as int, bound as int, (den * up) as int);
    assert(bound * (den * up) == (bound * up) * den) by (nonlinear_arith);
    lemma_mul_inequality((bound * up) as int, (top * down) as int, den as int);
    assert((top * down) * den == (top * den) * down) by (nonlinear_arith);
    lemma_mul_strict_inequality_converse(num as int, (top * den) as int, down as int);
}

proof fn lemma_rescaled_lower_bound(
    num: nat,
    down: nat,
    sig: nat,
    den: nat,
    up: nat,
    bound: nat,
    low: nat,
)
    requires
        down > 0,
        num * down >= sig * (den * up),
        sig >= bound,
        bound * up == low * down,
    ensures
        num >= low * den,
{
    lemma_mul_inequality(bound as int, sig as int, (den * up) as int);
    assert(bound * (den * up) == (bound * up) * den) by (nonlinear_arith);
    assert((low * down) * den == (low * den) * down) by (nonlinear_arith);
    lemma_mul_inequality_converse((low * den) as int, num as int, down as int);
}

proof fn lemma_prefix_spacing(num: nat, den: nat, sig: nat, len: nat, e: int, sticky: bool)
    requires
        den > 0,
        len > 0,
        pow2((len - 1) as nat) <= sig < pow2(len),
        is_prefix(num, den, sig, e, sticky),
    ensures
        spacing(num / den) == target_scale(len, e),
{
    let eu: nat = if e > 0 { e as nat } else { 0 };
    let ed: nat = if e < 0 { (-e) as nat } else { 0 };
    let up = pow2(eu);
    let down = pow2(ed);
    let k = target_scale(len, e);
    let q = num / den;
    lemma_pow2_pos(eu);
    lemma_pow2_pos(ed);
    lemma_fundamental_div_mod(num as int, den as int);
    // num < 2^(53 + k) * den
    lemma_pow2_adds(len, eu);
    lemma_pow2_adds(53 + k, ed);
    lemma_pow2_monotone(len + eu, 53 + k + ed);
    let top = pow2(53 + k);
    lemma_rescaled_upper_bound(num, down, sig + 1, den, up, pow2(len), top);
    assert(q < top) by (nonlinear_arith)
        requires
            num < top * den,
            num == den * q + num % den,
            num % den >= 0,
            den > 0,
    ;
    if k > 0 {
        let low = pow2(52 + k);
        lemma_pow2_adds((len - 1) as nat, eu);
        lemma_pow2_adds(52 + k, ed);
        assert((len - 1) as nat + eu == 52 + k + ed);
        lemma_rescaled_lower_bound(num, down, sig, den, up, pow2((len - 1) as nat), low);
        assert(q >= low) by (nonlinear_arith)
            requires
                num >= low * den,
                num == den * q + num % den,
                num % den < den,
                den > 0,
        ;
    }
    lemma_spacing_unique(q, k);
}

/// The encoding of the magnitude nearest to a number of which a prefix of its
/// binary expansion is known, where that prefix reaches below the last place.
pub proof fn lemma_encoding_from_long_prefix(
    num: nat,
    den: nat,
    sig: nat,
    len: nat,
    e: int,
    sticky: bool,
)
    requires
        den > 0,
        len > 0,
        pow2((len - 1) as nat) <= sig < pow2(len),
        is_prefix(num, den, sig, e, sticky),
        target_scale(len, e) > e,
    ensures
        ({
            let k = target_scale(len, e);
            let s = (k - e) as nat;
            let q = sig / pow2(s);
            let r = sig % pow2(s);
            let half = pow2((s - 1) as nat);
            unbounded_encoding(num, den) == k * HIDDEN + (if r > half || (r == half && (sticky || q
                % 2 == 1)) {
                q + 1
            } else {
                q
            })
        }),
{
    let eu: nat = if e > 0 { e as nat } else { 0 };
    let ed: nat = if e < 0 { (-e) as nat } else { 0 };
    let up = pow2(eu);
    let down = pow2(ed);
    let k = target_scale(len, e);
    let s = (k - e) as nat;
    lemma_prefix_spacing(num, den, sig, len, e, sticky);
    lemma_pow2_pos(eu);
    lemma_pow2_pos(ed);
    lemma_pow2_pos(k);
    lemma_mul_strictly_positive(den as int, up as int);
    lemma_mul_strictly_positive(den as int, pow2(k) as int);
    lemma_nearest_even_scaled(num, den * pow2(k), down);
    lemma_pow2_adds(k, ed);
    lemma_pow2_adds(eu, s);
    assert(k + ed == eu + s);
    assert((den * pow2(k)) * down == (den * up) * pow2(s)) by (nonlinear_arith)
        requires
            pow2(k) * down == up * pow2(s),
    ;
    lemma_nearest_even_from_prefix(num * down, den * up, sig, s);
}

/// The encoding of a magnitude that needs no rounding.
pub proof fn lemma_encoding_from_short_prefix(num: nat, den: nat, sig: nat, len: nat, e: int)
    requires
        den > 0,
        len > 0,
        pow2((len - 1) as nat) <= sig < pow2(len),
        is_prefix(num, den, sig, e, false),
        target_scale(len, e) <= e,
    ensures
        ({
            let k = target_scale(len, e);
            unbounded_encoding(num, den) == k * HIDDEN + sig * pow2((e - k) as nat)
        }),
{
    let k = target_scale(len, e);
    let t = (e - k) as nat;
    lemma_prefix_spacing(num, den, sig, len, e, false);
    lemma_pow2_52();
    lemma_pow2_pos(k);
    lemma_pow2_adds(k, t);
    assert(num == (sig * pow2(t)) * (den * pow2(k))) by (nonlinear_arith)
        requires
            num * 1 == sig * (den * pow2(e as nat)),
            pow2(e as nat) == pow2(k) * pow2(t),
    ;
    lemma_mul_strictly_positive(den as int, pow2(k) as int);
    lemma_fundamental_div_mod_converse(
        num as int,
        (den * pow2(k)) as int,
        (sig * pow2(t)) as int,
        0,
    );
}

/// A bound on the ratio is a bound on the integer nearest to it.
pub proof fn lemma_nearest_even_bounds(num: nat, den: nat, c: nat)
    requires
        den > 0,
    ensures
        num <= c * den ==> nearest_even(num, den) <= c,
        num >= c * den ==> nearest_even(num, den) >= c,
{
    let q = num / den;
    let r = num % den;
    lemma_fundamental_div_mod(num as int, den as int);
    if num <= c * den {
        assert(q < c || (q == c && r == 0)) by (nonlinear_arith)
            requires
                num == den * q + r,
                0 <= r < den,
                num <= c * den,
        ;
    }
    if num >= c * den {
        assert(q >= c) by (nonlinear_arith)
            requires
                num == den * q + r,
                0 <= r < den,
                num >= c * den,
        ;
    }
}

pub proof fn lemma_nearest_even_monotone(num1: nat, num2: nat, den: nat)
    requires
        den > 0,
        num1 <= num2,
    ensures
        nearest_even(num1, den) <= nearest_even(num2, den),
{
    lemma_fundamental_div_mod(num1 as int, den as int);
    lemma_fundamental_div_mod(num2 as int, den as int);
    lemma_div_is_ordered(num1 as int, num2 as int, den as int);
}

/// The encoding depends on the ratio alone.
pub proof fn lemma_encoding_scaled(num: nat, den: nat, c: nat)
    requires
        den > 0,
        c > 0,
    ensures
        unbounded_encoding(num * c, den * c) == unbounded_encoding(num, den),
{
    let k = spacing(num / den);
    lemma_mul_is_commutative(num as int, c as int);
    lemma_mul_is_commutative(den as int, c as int);
    lemma_div_multiples_vanish_quotient(c as int, num as int, den as int);
    assert((num * c) / (den * c) == num / den);
    lemma_pow2_pos(k);
    lemma_mul_strictly_positive(den as int, pow2(k) as int);
    lemma_nearest_even_scaled(num, den * pow2(k), c);
    assert((den * pow2(k)) * c == (den * c) * pow2(k)) by (nonlinear_arith);
}

/// The bounds of a significand at its scale.
pub proof fn lemma_significand_bounds(num: nat, den: nat)
    requires
        den > 0,
    ensures
        ({
            let k = spacing(num / den);
            let m = nearest_even(num, den * pow2(k));
            &&& m <= 2 * HIDDEN
            &&& k > 0 ==> m >= HIDDEN
        }),
{
    let q = num / den;
    let k = spacing(q);
    lemma_pow2_52();
    lemma_spacing_bounds(q);
    lemma_fundamental_div_mod(num as int, den as int);
    lemma_pow2_pos(k);
    lemma_mul_strictly_positive(den as int, pow2(k) as int);
    lemma_pow2_adds(53, k);
    assert(num <= pow2(53) * (den * pow2(k))) by (nonlinear_arith)
        requires
            num == den * q + num % den,
            num % den < den,
            q + 1 <= pow2(53) * pow2(k),
            den > 0,
    ;
    lemma_nearest_even_bounds(num, den * pow2(k), pow2(53));
    if k > 0 {
        lemma_pow2_adds(52, k);
        assert(num >= pow2(52) * (den * pow2(k))) by (nonlinear_arith)
            requires
                num == den * q + num % den,
                num % den >= 0,
                q >= pow2(52) * pow2(k),
                den > 0,
        ;
        lemma_nearest_even_bounds(num, den * pow2(k), pow2(52));
    }
}

proof fn lemma_encoding_monotone_same_den(num1: nat, num2: nat, den: nat)
    requires
        den > 0,
        num1 <= num2,
    ensures
        unbounded_encoding(num1, den) <= unbounded_encoding(num2, den),
{
    let k1 = spacing(num1 / den);
    let k2 = spacing(num2 / den);
    lemma_div_is_ordered(num1 as int, num2 as int, den as int);
    lemma_spacing_monotone(num1 / den, num2 / den);
    lemma_significand_bounds(num1, den);
    lemma_significand_bounds(num2, den);
    if k1 == k2 {
        lemma_pow2_pos(k1);
        lemma_mul_strictly_positive(den as int, pow2(k1) as int);
        lemma_nearest_even_monotone(num1, num2, den * pow2(k1));
    } else {
        assert((k1 + 1) * HIDDEN <= k2 * HIDDEN) by (nonlinear_arith)
            requires
                k1 + 1 <= k2,
        ;
        assert((k1 + 1) * HIDDEN == k1 * HIDDEN + HIDDEN) by (nonlinear_arith);
    }
}

/// Rounding never reverses the order of two ratios.
pub proof fn lemma_encoding_monotone(num1: nat, den1: nat, num2: nat, den2: nat)
    requires
        den1 > 0,
        den2 > 0,
        num1 * den2 <= num2 * den1,
    ensures
        unbounded_encoding(num1, den1) <= unbounded_encoding(num2, den2),
        rounded_magnitude(num1, den1) <= rounded_magnitude(num2, den2),
{
    lemma_encoding_scaled(num1, den1, den2);
    lemma_encoding_scaled(num2, den2, den1);
    lemma_mul_is_commutative(den1 as int, den2 as int);
    lemma_mul_strictly_positive(den1 as int, den2 as int);
    lemma_encoding_monotone_same_den(num1 * den2, num2 * den1, den1 * den2);
}

} // verus!
