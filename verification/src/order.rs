//! Facts about binary64 arithmetic: exact results stay exact, and rounding
//! keeps the order.

use vstd::prelude::*;
use vstd::arithmetic::power2::*;
use vstd::arithmetic::mul::*;
use vstd::arithmetic::div_mod::*;
use crate::binary64::{Binary64, SIGN};
use crate::rounding::{HIDDEN, INFINITE};

verus! {

/// The units of finite numbers are ordered as their encodings are.
pub proof fn lemma_units_order(a: Binary64, b: Binary64)
    requires
        a.finite(),
        b.finite(),
    ensures
        a.magnitude() <= b.magnitude() <==> a.units() <= b.units(),
{
    if a.magnitude() < b.magnitude() {
        lemma_units_strict(a, b);
    }
    if b.magnitude() < a.magnitude() {
        lemma_units_strict(b, a);
    }
    if a.magnitude() == b.magnitude() {
        assert(a.scale() == b.scale());
        assert(a.significand() == b.significand());
    }
}

proof fn lemma_units_strict(a: Binary64, b: Binary64)
    requires
        a.finite(),
        b.finite(),
        a.magnitude() < b.magnitude(),
    ensures
        a.units() < b.units(),
{
    crate::binary64::lemma_significand(a);
    crate::binary64::lemma_significand(b);
    let (ka, kb) = (a.scale(), b.scale());
    let (ma, mb) = (a.significand(), b.significand());
    lemma_pow2_pos(ka);
    if ka == kb {
        lemma_mul_strict_inequality(ma as int, mb as int, pow2(ka) as int);
    } else {
        assert(ka < kb);
        lemma_pow2_unfold(ka + 1);
        crate::rounding::lemma_pow2_monotone(ka + 1, kb);
        let (pa, pb) = (pow2(ka), pow2(kb));
        lemma_mul_strict_inequality(ma as int, 2 * HIDDEN as int, pa as int);
        lemma_mul_inequality(HIDDEN as int, mb as int, pb as int);
        assert((2 * HIDDEN) * pa <= HIDDEN * pb) by (nonlinear_arith)
            requires
                pb >= 2 * pa,
        ;
    }
}

/// Rounding leaves a representable magnitude as it is.
pub proof fn lemma_exact(x: Binary64, c: nat)
    requires
        x.finite(),
        c > 0,
    ensures
        crate::rounding::rounded_magnitude(x.units() * c, c) == x.magnitude(),
{
    crate::binary64::lemma_significand(x);
    crate::rounding::lemma_pow2_52();
    let u = x.units();
    let k = x.scale();
    let m = x.significand();
    lemma_mul_basics_3(c as int);
    crate::rounding::lemma_encoding_scaled(u, 1, c);
    lemma_div_basics(u as int);
    lemma_pow2_adds(53, k);
    lemma_pow2_adds(52, k);
    lemma_pow2_pos(k);
    assert(u < pow2(53 + k)) by {
        lemma_mul_strict_inequality(m as int, 2 * HIDDEN as int, pow2(k) as int);
    }
    if k > 0 {
        lemma_mul_inequality(HIDDEN as int, m as int, pow2(k) as int);
    }
    crate::rounding::lemma_spacing_unique(u, k);
    lemma_fundamental_div_mod_converse(u as int, pow2(k) as int, m as int, 0);
    assert(crate::rounding::nearest_even(u, 1 * pow2(k)) == m);
}

/// A rounded number is a number, of the given sign.
pub proof fn lemma_rounded_sign(negative: bool, num: nat, den: nat)
    ensures
        Binary64::rounded(negative, num, den).negative() == negative,
        Binary64::rounded(negative, num, den).magnitude()
            == crate::rounding::rounded_magnitude(num, den),
        !Binary64::rounded(negative, num, den).nan(),
{
}

/// Rounding a representable number gives the number itself.
pub proof fn lemma_rounded_exact(x: Binary64, c: nat)
    requires
        x.finite(),
        c > 0,
    ensures
        Binary64::rounded(x.negative(), x.units() * c, c) == x,
{
    lemma_exact(x, c);
}

/// A positive ratio of at least one unit is not rounded to zero.
pub proof fn lemma_rounded_positive(num: nat, den: nat)
    requires
        den > 0,
        num >= den,
    ensures
        crate::rounding::rounded_magnitude(num, den) > 0,
{
    let one = Binary64 { bits: 1 };
    crate::rounding::lemma_pow2_52();
    assert(one.units() == 1);
    lemma_exact(one, 1);
    crate::rounding::lemma_encoding_monotone(1, 1, num, den);
}

/// A number below zero in order has negative units, and so on.
proof fn lemma_signed_units_order(x: Binary64, y: Binary64)
    requires
        x.finite(),
        y.finite(),
        x.order() <= y.order(),
    ensures
        x.signed_units() <= y.signed_units(),
{
    lemma_units_order(x, y);
    lemma_units_order(y, x);
    crate::binary64::lemma_significand(x);
    crate::binary64::lemma_significand(y);
}

/// Finite numbers are ordered as their signed units are.
pub proof fn lemma_order_is_units(x: Binary64, y: Binary64)
    requires
        x.finite(),
        y.finite(),
    ensures
        x.order() <= y.order() <==> x.signed_units() <= y.signed_units(),
        x.order() < y.order() <==> x.signed_units() < y.signed_units(),
{
    lemma_units_order(x, y);
    lemma_units_order(y, x);
    crate::binary64::lemma_significand(x);
    crate::binary64::lemma_significand(y);
}

/// Rounding sums of units keeps their order.
proof fn lemma_signed_rounding_order(s: int, t: int)
    requires
        s <= t,
    ensures
        s < 0 && t < 0 ==> Binary64::rounded(true, (-s) as nat, 1).order() <= Binary64::rounded(
            true,
            (-t) as nat,
            1,
        ).order(),
        s > 0 && t > 0 ==> Binary64::rounded(false, s as nat, 1).order() <= Binary64::rounded(
            false,
            t as nat,
            1,
        ).order(),
{
    if s < 0 && t < 0 {
        crate::rounding::lemma_encoding_monotone((-t) as nat, 1, (-s) as nat, 1);
    }
    if s > 0 && t > 0 {
        crate::rounding::lemma_encoding_monotone(s as nat, 1, t as nat, 1);
    }
}

/// Adding to a larger number gives no smaller sum.
pub proof fn lemma_sum_monotone(a: Binary64, x: Binary64, y: Binary64)
    requires
        !x.nan(),
        !y.nan(),
        x.order() <= y.order(),
        !a.sum(x).nan(),
        !a.sum(y).nan(),
    ensures
        a.sum(x).order() <= a.sum(y).order(),
{
    reveal(Binary64::sum);
    if a.finite() && x.finite() && y.finite() {
        lemma_signed_units_order(x, y);
        let s = a.signed_units() + x.signed_units();
        let t = a.signed_units() + y.signed_units();
        lemma_signed_rounding_order(s, t);
    }
}

/// Larger summands that are not negative give no smaller sum.
pub proof fn lemma_sum_monotone_both(a: Binary64, b: Binary64, x: Binary64, y: Binary64)
    requires
        nonnegative(a),
        nonnegative(b),
        nonnegative(x),
        nonnegative(y),
        a.order() <= b.order(),
        x.order() <= y.order(),
    ensures
        a.sum(x).order() <= b.sum(y).order(),
{
    lemma_sum_nonnegative(a, x);
    lemma_sum_nonnegative(a, y);
    lemma_sum_nonnegative(b, y);
    lemma_sum_monotone(a, x, y);
    lemma_sum_commutes(a, y);
    lemma_sum_commutes(b, y);
    lemma_sum_monotone(y, a, b);
}

/// Addition is commutative, but for which NaN comes out.
pub proof fn lemma_sum_commutes(a: Binary64, b: Binary64)
    ensures
        a.sum(b) == b.sum(a),
{
    reveal(Binary64::sum);
    if a.infinite() && b.infinite() && a.negative() == b.negative() {
        assert(a.bits == b.bits);
    }
}

/// A NaN operand gives a NaN.
pub proof fn lemma_nan_propagates(a: Binary64, b: Binary64)
    ensures
        a.nan() || b.nan() ==> a.sum(b).nan() && a.product(b).nan() && a.quotient(b).nan(),
        a.nan() || b.nan() ==> a.difference(b).nan(),
{
    reveal(Binary64::sum);
    reveal(Binary64::difference);
    reveal(Binary64::product);
    reveal(Binary64::quotient);
}

/// A number that is not below zero; it may be a negative zero.
pub open spec fn nonnegative(x: Binary64) -> bool {
    !x.nan() && x.order() >= 0
}

pub proof fn lemma_integer_order(i: int, j: int)
    requires
        0 <= i <= j,
    ensures
        nonnegative(Binary64::integer(i)),
        nonnegative(Binary64::integer(j)),
        Binary64::integer(i).order() <= Binary64::integer(j).order(),
{
    reveal(Binary64::integer);
    lemma_mul_inequality(i, j, pow2(1074) as int);
    crate::rounding::lemma_encoding_monotone(
        i as nat * pow2(1074),
        1,
        j as nat * pow2(1074),
        1,
    );
}

/// Adding a non-negative number does not lessen a non-negative one.
pub proof fn lemma_sum_nonnegative(a: Binary64, b: Binary64)
    requires
        nonnegative(a),
        nonnegative(b),
    ensures
        nonnegative(a.sum(b)),
        a.order() <= a.sum(b).order(),
{
    reveal(Binary64::sum);
    if a.finite() && b.finite() {
        crate::binary64::lemma_significand(a);
        crate::binary64::lemma_significand(b);
        let t = a.units() + b.units();
        lemma_exact(a, 1);
        crate::rounding::lemma_encoding_monotone(a.units(), 1, t, 1);
    }
}

/// A product with a zero is a zero.
proof fn lemma_product_with_zero(a: Binary64, b: Binary64)
    requires
        a.magnitude() == 0 || b.magnitude() == 0,
        !a.product(b).nan(),
    ensures
        a.product(b).order() == 0,
{
    reveal(Binary64::product);
    crate::binary64::lemma_significand(a);
    crate::binary64::lemma_significand(b);
    lemma_mul_by_zero_is_zero(a.units() as int);
    lemma_mul_by_zero_is_zero(b.units() as int);
    lemma_pow2_pos(1074);
    crate::binary64::lemma_rounded_zero(a.negative() != b.negative(), pow2(1074));
}

pub proof fn lemma_product_nonnegative(a: Binary64, b: Binary64)
    requires
        nonnegative(a),
        nonnegative(b),
        !a.product(b).nan(),
    ensures
        nonnegative(a.product(b)),
{
    if a.magnitude() == 0 || b.magnitude() == 0 {
        lemma_product_with_zero(a, b);
    } else {
        reveal(Binary64::product);
    }
}

/// Multiplication is commutative.
pub proof fn lemma_product_commutes(a: Binary64, b: Binary64)
    ensures
        a.product(b) == b.product(a),
{
    reveal(Binary64::product);
    lemma_mul_is_commutative(a.units() as int, b.units() as int);
}

/// Finite numbers have a product.
pub proof fn lemma_product_is_number(a: Binary64, b: Binary64)
    requires
        a.finite(),
        b.finite(),
    ensures
        !a.product(b).nan(),
{
    reveal(Binary64::product);
    lemma_rounded_sign(a.negative() != b.negative(), a.units() * b.units(), pow2(1074));
}

/// A number has a quotient by a finite positive one.
pub proof fn lemma_quotient_is_number(x: Binary64, c: Binary64)
    requires
        !x.nan(),
        c.finite(),
        c.order() > 0,
    ensures
        !x.quotient(c).nan(),
{
    reveal(Binary64::quotient);
    if x.finite() {
        lemma_rounded_sign(x.negative() != c.negative(), x.units() * pow2(1074), c.units());
    }
}

/// Multiplying a larger number gives no smaller product.
pub proof fn lemma_product_monotone(a: Binary64, x: Binary64, y: Binary64)
    requires
        nonnegative(a),
        nonnegative(x),
        nonnegative(y),
        x.order() <= y.order(),
        !a.product(x).nan(),
        !a.product(y).nan(),
    ensures
        a.product(x).order() <= a.product(y).order(),
{
    lemma_product_nonnegative(a, y);
    if a.magnitude() == 0 || x.magnitude() == 0 {
        lemma_product_with_zero(a, x);
    } else {
        reveal(Binary64::product);
        if a.finite() && x.finite() && y.finite() {
            lemma_units_order(x, y);
            lemma_mul_left_inequality_nat(a.units(), x.units(), y.units());
            lemma_pow2_pos(1074);
            lemma_mul_inequality(
                (a.units() * x.units()) as int,
                (a.units() * y.units()) as int,
                pow2(1074) as int,
            );
            crate::rounding::lemma_encoding_monotone(
                a.units() * x.units(),
                pow2(1074),
                a.units() * y.units(),
                pow2(1074),
            );
        }
    }
}

proof fn lemma_mul_left_inequality_nat(a: nat, x: nat, y: nat)
    requires
        x <= y,
    ensures
        a * x <= a * y,
{
    lemma_mul_inequality(x as int, y as int, a as int);
    lemma_mul_is_commutative(a as int, x as int);
    lemma_mul_is_commutative(a as int, y as int);
}

/// A zero over a positive number is a zero.
proof fn lemma_quotient_of_zero(x: Binary64, c: Binary64)
    requires
        x.magnitude() == 0,
        !c.nan(),
        c.order() > 0,
    ensures
        x.quotient(c).order() == 0,
{
    reveal(Binary64::quotient);
    if c.finite() {
        crate::binary64::lemma_significand(x);
        crate::binary64::lemma_significand(c);
        lemma_mul_by_zero_is_zero(pow2(1074) as int);
        crate::binary64::lemma_rounded_zero(x.negative() != c.negative(), c.units());
    }
}

pub proof fn lemma_quotient_nonnegative(x: Binary64, c: Binary64)
    requires
        nonnegative(x),
        !c.nan(),
        c.order() > 0,
        !x.quotient(c).nan(),
    ensures
        nonnegative(x.quotient(c)),
{
    if x.magnitude() == 0 {
        lemma_quotient_of_zero(x, c);
    } else {
        reveal(Binary64::quotient);
    }
}

/// Dividing a larger number gives no smaller quotient.
pub proof fn lemma_quotient_monotone(x: Binary64, y: Binary64, c: Binary64)
    requires
        nonnegative(x),
        nonnegative(y),
        !c.nan(),
        c.order() > 0,
        x.order() <= y.order(),
        !x.quotient(c).nan(),
        !y.quotient(c).nan(),
    ensures
        x.quotient(c).order() <= y.quotient(c).order(),
{
    lemma_quotient_nonnegative(y, c);
    if x.magnitude() == 0 {
        lemma_quotient_of_zero(x, c);
    } else {
        reveal(Binary64::quotient);
        if c.finite() && x.finite() && y.finite() {
            crate::binary64::lemma_significand(c);
            lemma_units_order(x, y);
            lemma_mul_inequality(x.units() as int, y.units() as int, pow2(1074) as int);
            lemma_mul_inequality(
                (x.units() * pow2(1074)) as int,
                (y.units() * pow2(1074)) as int,
                c.units() as int,
            );
            crate::rounding::lemma_encoding_monotone(
                x.units() * pow2(1074),
                c.units(),
                y.units() * pow2(1074),
                c.units(),
            );
        }
    }
}

/// Dividing by a smaller positive number gives no smaller quotient.
pub proof fn lemma_quotient_antitone(x: Binary64, c: Binary64, d: Binary64)
    requires
        nonnegative(x),
        c.finite(),
        d.finite(),
        0 < d.order() <= c.order(),
    ensures
        x.quotient(c).order() <= x.quotient(d).order(),
{
    lemma_quotient_is_number(x, c);
    lemma_quotient_is_number(x, d);
    lemma_quotient_nonnegative(x, d);
    if x.magnitude() == 0 {
        lemma_quotient_of_zero(x, c);
    } else {
        reveal(Binary64::quotient);
        if x.finite() {
            crate::binary64::lemma_significand(c);
            crate::binary64::lemma_significand(d);
            lemma_units_order(d, c);
            let num = x.units() * pow2(1074);
            lemma_mul_left_inequality_nat(num, d.units(), c.units());
            crate::rounding::lemma_encoding_monotone(num, c.units(), num, d.units());
        }
    }
}

pub open spec fn distance(a: nat, b: nat) -> int {
    if a < b {
        b - a
    } else {
        a - b
    }
}

pub proof fn lemma_distance_scaled(a: nat, b: nat, c: nat)
    ensures
        distance(a * c, b * c) == distance(a, b) * c,
{
    lemma_mul_is_distributive_sub_other_way(c as int, a as int, b as int);
    lemma_mul_is_distributive_sub_other_way(c as int, b as int, a as int);
    if a < b {
        lemma_mul_inequality(a as int, b as int, c as int);
    } else {
        lemma_mul_inequality(b as int, a as int, c as int);
    }
}

/// No integer is nearer, and of two that are equally near the even one is taken.
proof fn lemma_nearest_even_is_nearest(num: nat, den: nat, j: nat)
    requires
        den > 0,
    ensures
        ({
            let m = crate::rounding::nearest_even(num, den);
            &&& distance(m * den, num) <= distance(j * den, num)
            &&& distance(m * den, num) == distance(j * den, num) && j != m ==> m % 2
                == 0
        }),
{
    let q = num / den;
    let r = num % den;
    let m = crate::rounding::nearest_even(num, den);
    lemma_fundamental_div_mod(num as int, den as int);
    lemma_mul_is_commutative(q as int, den as int);
    assert(q * den == num - r);
    assert((q + 1) * den == num - r + den) by (nonlinear_arith)
        requires
            q * den == num - r,
    ;
    if j < q {
        assert(j * den <= num - r - den) by (nonlinear_arith)
            requires
                j + 1 <= q,
                q * den == num - r,
                den > 0,
        ;
    } else if j > q + 1 {
        assert(j * den >= num - r + 2 * den) by (nonlinear_arith)
            requires
                j >= q + 2,
                q * den == num - r,
                den > 0,
        ;
    }
}

/// What a finite rounded magnitude stands for.
proof fn lemma_decode(x: Binary64, m: nat, k: nat)
    requires
        x.finite(),
        x.magnitude() == m + k * HIDDEN,
        m <= 2 * HIDDEN,
        k > 0 ==> m >= HIDDEN,
    ensures
        x.units() == m * pow2(k),
{
    crate::binary64::lemma_significand(x);
    let (s, t) = (x.significand(), x.scale());
    assert(s + t * HIDDEN == m + k * HIDDEN);
    if m < 2 * HIDDEN {
        assert(t == k && s == m) by (nonlinear_arith)
            requires
                s + t * HIDDEN == m + k * HIDDEN,
                0 <= s < 2 * HIDDEN,
                0 <= m < 2 * HIDDEN,
                t > 0 ==> s >= HIDDEN,
                k > 0 ==> m >= HIDDEN,
        ;
    } else {
        assert(t == k + 1 && s == HIDDEN) by (nonlinear_arith)
            requires
                s + t * HIDDEN == m + k * HIDDEN,
                0 <= s < 2 * HIDDEN,
                m == 2 * HIDDEN,
                t > 0 ==> s >= HIDDEN,
                t >= 0,
                k >= 0,
        ;
        lemma_pow2_unfold(k + 1);
        assert(HIDDEN * (2 * pow2(k)) == (2 * HIDDEN) * pow2(k)) by (nonlinear_arith);
    }
}

/// No finite number is nearer to `num / den` units than the rounded one, and
/// if another is equally near then the rounded one has an even significand.
pub proof fn law_rounding_is_nearest(num: nat, den: nat, other: Binary64)
    requires
        den > 0,
        Binary64::rounded(false, num, den).finite(),
        other.finite(),
    ensures
        ({
            let near = Binary64::rounded(false, num, den);
            &&& distance(near.units() * den, num) <= distance(other.units() * den, num)
            &&& distance(near.units() * den, num) == distance(other.units() * den, num)
                && other.units() != near.units() ==> near.bits % 2 == 0
        }),
{
    let near = Binary64::rounded(false, num, den);
    let q = num / den;
    let k = crate::rounding::spacing(q);
    let p = pow2(k);
    let step = den * p;
    let m = crate::rounding::nearest_even(num, step);
    lemma_pow2_pos(k);
    lemma_mul_strictly_positive(den as int, p as int);
    crate::rounding::lemma_significand_bounds(num, den);
    lemma_decode(near, m, k);
    assert((m * p) * den == m * step) by (nonlinear_arith)
        requires
            step == den * p,
    ;
    crate::binary64::lemma_significand(other);
    let u = other.units();
    if other.scale() >= k {
        let t = (other.scale() - k) as nat;
        let j = other.significand() * pow2(t);
        lemma_pow2_adds(t, k);
        assert(u * den == j * step) by (nonlinear_arith)
            requires
                u == other.significand() * (pow2(t) * p),
                j == other.significand() * pow2(t),
                step == den * p,
        ;
        lemma_nearest_even_is_nearest(num, step, j);
        if j == m {
            assert(u == m * p) by (nonlinear_arith)
                requires
                    u == other.significand() * (pow2(t) * p),
                    m == other.significand() * pow2(t),
            ;
        }
        if m % 2 == 0 {
            assert(near.bits % 2 == 0) by (nonlinear_arith)
                requires
                    near.bits == m + k * HIDDEN,
                    m % 2 == 0,
            ;
        }
    } else {
        let t = other.scale();
        lemma_pow2_unfold(t + 1);
        crate::rounding::lemma_pow2_monotone(t + 1, k);
        lemma_pow2_pos(t);
        lemma_mul_strict_inequality(
            other.significand() as int,
            2 * HIDDEN as int,
            pow2(t) as int,
        );
        assert(u < HIDDEN * p) by (nonlinear_arith)
            requires
                u < (2 * HIDDEN) * pow2(t),
                p >= 2 * pow2(t),
        ;
        assert(u * den < HIDDEN * step) by (nonlinear_arith)
            requires
                u < HIDDEN * p,
                step == den * p,
                den > 0,
        ;
        lemma_nearest_even_is_nearest(num, step, HIDDEN as nat);
        // the number itself is not below the grid's first place
        crate::rounding::lemma_spacing_bounds(q);
        crate::rounding::lemma_pow2_52();
        lemma_pow2_adds(52, k);
        lemma_fundamental_div_mod(num as int, den as int);
        assert(num >= 0x10_0000_0000_0000 * step) by (nonlinear_arith)
            requires
                num == den * q + num % den,
                num % den >= 0,
                q >= 0x10_0000_0000_0000 * p,
                step == den * p,
                den > 0,
        ;
    }
}

/// `2^53` times `n`.
pub open spec fn parts(n: int) -> int {
    0x20_0000_0000_0000 * n
}

/// A finite rounded number differs from `num / den` units by at most one part
/// in `2^53` of it, or else by at most half a unit; the latter only if `num /
/// den` need not be a whole number of units.
pub proof fn law_rounding_error(num: nat, den: nat)
    requires
        den > 0,
        Binary64::rounded(false, num, den).finite(),
    ensures
        ({
            let error = distance(Binary64::rounded(false, num, den).units() * den, num);
            ||| parts(error) <= num
            ||| 2 * error <= den && den > 1
        }),
{
    let near = Binary64::rounded(false, num, den);
    let q = num / den;
    let k = crate::rounding::spacing(q);
    let p = pow2(k);
    let step = den * p;
    let m = crate::rounding::nearest_even(num, step);
    crate::rounding::lemma_pow2_52();
    lemma_pow2_pos(k);
    lemma_mul_strictly_positive(den as int, p as int);
    crate::rounding::lemma_significand_bounds(num, den);
    lemma_decode(near, m, k);
    assert((m * p) * den == m * step) by (nonlinear_arith)
        requires
            step == den * p,
    ;
    let f = num / step;
    lemma_fundamental_div_mod(num as int, step as int);
    lemma_mul_is_commutative(f as int, step as int);
    assert((f + 1) * step == f * step + step) by (nonlinear_arith);
    let error = distance(near.units() * den, num);
    assert(2 * error <= step);
    if k == 0 {
        lemma_mul_basics(den as int);
        assert(step == den);
        if den == 1 {
            assert(error == 0);
        }
    } else {
        crate::rounding::lemma_spacing_bounds(q);
        lemma_pow2_adds(52, k);
        lemma_fundamental_div_mod(num as int, den as int);
        assert(num >= 0x10_0000_0000_0000 * step) by (nonlinear_arith)
            requires
                num == den * q + num % den,
                num % den >= 0,
                q >= 0x10_0000_0000_0000 * p,
                step == den * p,
                den > 0,
        ;
    }
}

/// A number of at most 53 significant binary digits is rounded to itself.
pub proof fn lemma_grid_exact(m: nat, e: nat)
    requires
        m < pow2(53),
        e <= 2045,
    ensures
        Binary64::rounded(false, m * pow2(e), 1).finite(),
        Binary64::rounded(false, m * pow2(e), 1).units() == m * pow2(e),
{
    let q = m * pow2(e);
    let k = crate::rounding::spacing(q);
    crate::rounding::lemma_pow2_52();
    crate::rounding::lemma_spacing_bounds(q);
    lemma_pow2_pos(e);
    lemma_pow2_pos(k);
    lemma_pow2_adds(53, e);
    lemma_mul_strict_inequality(m as int, pow2(53) as int, pow2(e) as int);
    assert(q < pow2(53 + e));
    if k > e {
        crate::rounding::lemma_pow2_monotone(53 + e, 52 + k);
    }
    let f = (e - k) as nat;
    lemma_pow2_adds(f, k);
    let n = m * pow2(f);
    assert(q == n * pow2(k)) by (nonlinear_arith)
        requires
            q == m * (pow2(f) * pow2(k)),
            n == m * pow2(f),
    ;
    lemma_div_basics(q as int);
    lemma_fundamental_div_mod_converse(q as int, pow2(k) as int, n as int, 0);
    assert(crate::rounding::nearest_even(q, 1 * pow2(k)) == n);
    crate::rounding::lemma_significand_bounds(q, 1);
    lemma_pow2_adds(53, k);
    assert(n < pow2(53)) by (nonlinear_arith)
        requires
            n * pow2(k) < pow2(53) * pow2(k),
            pow2(k) > 0,
    ;
    let x = Binary64::rounded(false, q, 1);
    assert(k * (HIDDEN as nat) <= 2045 * (HIDDEN as nat)) by (nonlinear_arith)
        requires
            k <= 2045,
    ;
    assert(x.magnitude() == n + k * HIDDEN);
    lemma_decode(x, n, k);
}

/// A number that is at most a power of two is rounded to at most that.
pub proof fn lemma_rounded_at_most(num: nat, den: nat, k: nat)
    requires
        den > 0,
        k <= 2045,
        num <= den * pow2(k),
    ensures
        Binary64::rounded(false, num, den).finite(),
        Binary64::rounded(false, num, den).units() <= pow2(k),
        crate::rounding::rounded_magnitude(num, den) < INFINITE,
{
    crate::rounding::lemma_pow2_52();
    lemma_mul_basics(pow2(k) as int);
    lemma_grid_exact(1, k);
    let top = Binary64::rounded(false, 1 * pow2(k), 1);
    lemma_mul_is_commutative(den as int, pow2(k) as int);
    crate::rounding::lemma_encoding_monotone(num, den, pow2(k), 1);
    let x = Binary64::rounded(false, num, den);
    lemma_rounded_sign(false, num, den);
    lemma_units_order(x, top);
}

/// A number is rounded to infinity just if it lies half a place or more above
/// the largest finite one.
pub proof fn law_rounding_overflows_to_infinity(num: nat, den: nat)
    requires
        den > 0,
    ensures
        Binary64::rounded(false, num, den).infinite() <==> 2 * num >= den * ((4 * HIDDEN - 1)
            * pow2(2045)),
{
    let q = num / den;
    let k = crate::rounding::spacing(q);
    let p = pow2(k);
    let top = pow2(2045);
    let m = crate::rounding::nearest_even(num, den * p);
    lemma_pow2_pos(k);
    lemma_pow2_pos(2045);
    lemma_mul_strictly_positive(den as int, p as int);
    crate::rounding::lemma_significand_bounds(num, den);
    crate::rounding::lemma_spacing_bounds(q);
    crate::rounding::lemma_pow2_52();
    lemma_fundamental_div_mod(num as int, den as int);
    let bound = (4 * HIDDEN - 1) * top;
    if k > 2045 {
        lemma_pow2_adds(52, k);
        lemma_pow2_unfold(2046);
        crate::rounding::lemma_pow2_monotone(2046, k);
        assert(2 * q >= bound) by (nonlinear_arith)
            requires
                q >= HIDDEN * p,
                p >= 2 * top,
                bound == (4 * HIDDEN - 1) * top,
                top > 0,
        ;
        assert(2 * num >= den * bound) by (nonlinear_arith)
            requires
                num == den * q + num % den,
                num % den >= 0,
                2 * q >= bound,
                den > 0,
        ;
        assert(m + k * HIDDEN >= INFINITE) by (nonlinear_arith)
            requires
                m >= HIDDEN,
                k >= 2046,
        ;
    } else if k < 2045 {
        lemma_pow2_adds(53, k);
        lemma_pow2_unfold(2045);
        crate::rounding::lemma_pow2_monotone(k, 2044);
        assert(2 * (q + 1) <= 2 * HIDDEN * top) by (nonlinear_arith)
            requires
                q + 1 <= (2 * HIDDEN) * p,
                top >= 2 * p,
        ;
        assert(2 * HIDDEN * top < bound) by (nonlinear_arith)
            requires
                bound == (4 * HIDDEN - 1) * top,
                top > 0,
        ;
        assert(2 * num < den * bound) by (nonlinear_arith)
            requires
                num == den * q + num % den,
                num % den < den,
                2 * (q + 1) < bound,
                den > 0,
        ;
        assert(m + k * HIDDEN < INFINITE) by (nonlinear_arith)
            requires
                m <= 2 * HIDDEN,
                k <= 2044,
        ;
    } else {
        let step = den * p;
        let j = num / step;
        let r = num % step;
        lemma_fundamental_div_mod(num as int, step as int);
        assert(den * bound == (4 * HIDDEN - 1) * step) by (nonlinear_arith)
            requires
                bound == (4 * HIDDEN - 1) * p,
                step == den * p,
        ;
        // below 2^53 places, so that only the last place can round up to it
        assert(j < 2 * HIDDEN) by {
            crate::rounding::lemma_spacing_bounds(q);
            lemma_pow2_adds(53, k);
            assert(num < (2 * HIDDEN) * step) by (nonlinear_arith)
                requires
                    num == den * q + num % den,
                    num % den < den,
                    q + 1 <= (2 * HIDDEN) * p,
                    step == den * p,
                    den > 0,
            ;
            assert(j < 2 * HIDDEN) by (nonlinear_arith)
                requires
                    num < (2 * HIDDEN) * step,
                    num == step * j + r,
                    r >= 0,
                    step > 0,
            ;
        }
        if j == 2 * HIDDEN - 1 {
            assert(step * j == (2 * HIDDEN - 1) * step) by (nonlinear_arith)
                requires
                    j == 2 * HIDDEN - 1,
            ;
            assert((4 * HIDDEN - 1) * step == 2 * ((2 * HIDDEN - 1) * step) + step)
                by (nonlinear_arith);
        } else {
            assert(2 * num < (4 * HIDDEN - 1) * step) by (nonlinear_arith)
                requires
                    num == step * j + r,
                    r < step,
                    j <= 2 * HIDDEN - 2,
                    step > 0,
            ;
        }
    }
}

} // verus!
