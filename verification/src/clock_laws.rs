//! What ages are, in terms of the nanoseconds that have passed.

use vstd::prelude::*;
use vstd::arithmetic::power2::*;
use vstd::arithmetic::mul::*;
use crate::binary64::Binary64;
use crate::clock::Instant;

verus! {

/// The nanoseconds from one moment to another, 0 if the other is not later.
pub open spec fn nanos_between(started: Instant, now: Instant) -> nat {
    if now.nanos > started.nanos {
        (now.nanos - started.nanos) as nat
    } else {
        0
    }
}

/// Integers of at most 53 binary digits are represented exactly.
pub proof fn lemma_integer_exact(n: nat)
    requires
        n < 0x20_0000_0000_0000,
    ensures
        Binary64::integer(n as int).finite(),
        !Binary64::integer(n as int).negative(),
        Binary64::integer(n as int).units() == n * pow2(1074),
{
    crate::rounding::lemma_pow2_52();
    crate::order::lemma_grid_exact(n, 1074);
    crate::order::lemma_rounded_sign(false, n * pow2(1074), 1);
    reveal(Binary64::integer);
}

/// A fraction of a second, in seconds.
proof fn lemma_fraction(part: nat)
    requires
        part < 1_000_000_000,
    ensures
        ({
            let x = Binary64::integer(part as int).quotient(Binary64::integer(1_000_000_000));
            &&& x.finite()
            &&& !x.negative()
            &&& part == 0 ==> x.units() == 0
            &&& crate::order::parts(
                crate::order::distance(x.units() * 1_000_000_000, part * pow2(1074)),
            ) <= part * pow2(1074)
        }),
{
    let p = pow2(1074);
    let (a, b) = (Binary64::integer(part as int), Binary64::integer(1_000_000_000));
    let x = a.quotient(b);
    lemma_integer_exact(part);
    lemma_integer_exact(1_000_000_000);
    crate::rounding::lemma_pow2_52();
    lemma_pow2_pos(1074);
    lemma2_to64();
    lemma2_to64_rest();
    lemma_pow2_adds(64, 64);
    crate::rounding::lemma_pow2_monotone(128, 1074);
    crate::binary64::lemma_significand(a);
    crate::binary64::lemma_significand(b);
    let num = (part * p) * p;
    let den = 1_000_000_000 * p;
    assert(num <= den * p) by (nonlinear_arith)
        requires
            num == (part * p) * p,
            den == 1_000_000_000 * p,
            part <= 1_000_000_000,
            p > 0,
    ;
    assert(x == Binary64::rounded(false, num, den)) by {
        reveal(Binary64::quotient);
    }
    crate::order::lemma_rounded_sign(false, num, den);
    crate::order::lemma_rounded_at_most(num, den, 1074);
    crate::order::law_rounding_error(num, den);
    let u = x.units();
    let error = crate::order::distance(u * den, num);
    if part == 0 {
        lemma_mul_basics(p as int);
        lemma_mul_by_zero_is_zero(p as int);
        crate::binary64::lemma_rounded_zero(false, den);
        crate::binary64::lemma_significand(x);
    } else {
        assert(0x20_0000_0000_0000 * error <= num) by {
            if 2 * error <= den {
                assert(0x10_0000_0000_0000 * den <= num) by (nonlinear_arith)
                    requires
                        den == 1_000_000_000 * p,
                        num == (part * p) * p,
                        part >= 1,
                        p >= 0x1_0000_0000_0000_0000_0000_0000_0000_0000,
                ;
            }
        }
        let small = crate::order::distance(u * 1_000_000_000, part * p);
        assert(u * den == (u * 1_000_000_000) * p) by (nonlinear_arith)
            requires
                den == 1_000_000_000 * p,
        ;
        crate::order::lemma_distance_scaled(u * 1_000_000_000, part * p, p);
        assert(0x20_0000_0000_0000 * small <= part * p) by (nonlinear_arith)
            requires
                0x20_0000_0000_0000 * (small * p) <= (part * p) * p,
                p > 0,
        ;
    }
}

/// An age is formed of its whole seconds and of the rest over `10^9`.
pub proof fn law_age_in_steps(started: Instant, now: Instant)
    ensures
        ({
            let nanos = nanos_between(started, now) as int;
            started.age_at(now) == Binary64::integer(nanos / 1_000_000_000).sum(
                Binary64::integer(nanos % 1_000_000_000).quotient(
                    Binary64::integer(1_000_000_000),
                ),
            )
        }),
{
}

/// An age is the nanoseconds that have passed over `10^9`, up to rounding: it is
/// off by at most three parts in `2^53`, and not at all for whole seconds.
pub proof fn law_age_is_nanoseconds_over_a_billion(started: Instant, now: Instant)
    ensures
        ({
            let age = started.age_at(now);
            let nanos = nanos_between(started, now);
            &&& age.finite()
            &&& !age.negative()
            &&& crate::order::parts(
                crate::order::distance(age.units() * 1_000_000_000, nanos * pow2(1074)),
            ) <= 3 * (nanos * pow2(1074))
            &&& nanos % 1_000_000_000 == 0 ==> age.units() * 1_000_000_000 == nanos * pow2(1074)
        }),
{
    let age = started.age_at(now);
    let nanos = nanos_between(started, now);
    let p = pow2(1074);
    let (whole, part) = (nanos / 1_000_000_000, nanos % 1_000_000_000);
    let a = Binary64::integer(whole as int);
    let x = Binary64::integer(part as int).quotient(Binary64::integer(1_000_000_000));
    lemma_integer_exact(whole);
    lemma_fraction(part);
    lemma_pow2_pos(1074);
    assert(age == a.sum(x));
    let total = a.units() + x.units();
    lemma2_to64();
    lemma2_to64_rest();
    lemma_pow2_adds(62, 1074);
    let t = part * p;
    assert(t <= 1_000_000_000 * p) by (nonlinear_arith)
        requires
            t == part * p,
            part <= 1_000_000_000,
            p >= 0,
    ;
    let w = whole * p;
    assert(w <= 0x1_0000_0000_0000 * p) by (nonlinear_arith)
        requires
            w == whole * p,
            whole <= 0x1_0000_0000_0000,
            p >= 0,
    ;
    assert(nanos * p == 1_000_000_000 * w + t) by (nonlinear_arith)
        requires
            nanos == 1_000_000_000 * whole + part,
            w == whole * p,
            t == part * p,
    ;
    crate::order::lemma_rounded_at_most(total, 1, 1136);
    crate::order::lemma_rounded_sign(false, total, 1);
    crate::binary64::lemma_significand(a);
    crate::binary64::lemma_significand(x);
    assert(age.finite() && !age.negative()) by {
        reveal(Binary64::sum);
    }
    crate::error_laws::lemma_sum_error(a, x);
    if part == 0 {
        assert(age.units() == total) by {
            reveal(Binary64::sum);
            crate::order::lemma_rounded_exact(a, 1);
            crate::formula_laws::lemma_zero();
        }
        assert(t == 0);
    }
}

} // verus!
