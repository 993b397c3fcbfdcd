//! How far rounding takes the plain estimate and the blended prompt size from
//! their exact values.

use vstd::prelude::*;
use vstd::arithmetic::power2::*;
use vstd::arithmetic::mul::*;
use crate::binary64::Binary64;
use crate::expected_wait::PreparedExpectedWait;

verus! {

/// `(queued + dispatched) / throughput + penalty` before any rounding, as the
/// numerator over the throughput; every number is taken in units of `2^-1074`.
pub open spec fn unrounded_wait(e: PreparedExpectedWait, dispatched: u64) -> nat {
    (e.queued_tokens.units() + dispatched as nat * pow2(1074)) * pow2(1074) + e.kv_wait.units()
        * e.throughput.units()
}

/// The sum of numbers that are not negative rounds the sum of their units.
pub proof fn lemma_sum_error(a: Binary64, b: Binary64)
    requires
        crate::order::nonnegative(a),
        crate::order::nonnegative(b),
        a.sum(b).finite(),
    ensures
        a.finite(),
        b.finite(),
        crate::order::parts(crate::order::distance(a.sum(b).units(), a.units() + b.units()))
            <= a.units() + b.units(),
{
    reveal(Binary64::sum);
    assert(a.finite() && b.finite());
    crate::binary64::lemma_significand(a);
    crate::binary64::lemma_significand(b);
    let total = a.units() + b.units();
    if total > 0 {
        crate::order::law_rounding_error(total, 1);
    } else {
        crate::formula_laws::lemma_zero();
        crate::binary64::lemma_significand(a.sum(b));
    }
}

/// The error of an integer, which is at most one part in `2^53`.
pub proof fn lemma_integer_error(n: u64)
    requires
        Binary64::integer(n as int).finite(),
    ensures
        crate::order::parts(crate::order::distance(
            Binary64::integer(n as int).units(),
            n as nat * pow2(1074),
        )) <= n as nat * pow2(1074),
{
    reveal(Binary64::integer);
    crate::order::law_rounding_error(n as nat * pow2(1074), 1);
}

/// The product of numbers that are not negative rounds that of their units.
pub proof fn lemma_product_error(a: Binary64, b: Binary64)
    requires
        a.finite(),
        b.finite(),
        a.product(b).finite(),
    ensures
        ({
            let exact = a.units() * b.units();
            let error = crate::order::distance(a.product(b).units() * pow2(1074), exact);
            ||| crate::order::parts(error) <= exact
            ||| 2 * error <= pow2(1074)
        }),
{
    reveal(Binary64::product);
    let exact = a.units() * b.units();
    let plain = Binary64::rounded(false, exact, pow2(1074));
    lemma_pow2_pos(1074);
    crate::order::lemma_rounded_sign(a.negative() != b.negative(), exact, pow2(1074));
    crate::order::lemma_rounded_sign(false, exact, pow2(1074));
    assert(plain.magnitude() == a.product(b).magnitude());
    assert(plain.units() == a.product(b).units());
    crate::order::law_rounding_error(exact, pow2(1074));
}

/// A quotient by a positive number rounds that of their units.
pub proof fn lemma_quotient_error(x: Binary64, c: Binary64)
    requires
        x.finite(),
        c.finite(),
        c.order() > 0,
        x.quotient(c).finite(),
    ensures
        ({
            let exact = x.units() * pow2(1074);
            let error = crate::order::distance(x.quotient(c).units() * c.units(), exact);
            2 * crate::order::parts(error) <= 2 * exact + crate::order::parts(c.units() as int)
        }),
{
    reveal(Binary64::quotient);
    let exact = x.units() * pow2(1074);
    let plain = Binary64::rounded(false, exact, c.units());
    crate::binary64::lemma_significand(c);
    crate::order::lemma_rounded_sign(x.negative() != c.negative(), exact, c.units());
    crate::order::lemma_rounded_sign(false, exact, c.units());
    assert(plain.magnitude() == x.quotient(c).magnitude());
    assert(plain.units() == x.quotient(c).units());
    crate::order::law_rounding_error(exact, c.units());
}

/// How the four roundings of a plain estimate add up: `x` is the exact work,
/// `e1` and `e2` its errors, `r` the rounded delay and `w` the rounded wait.
proof fn lemma_errors_add_up(
    x: nat,
    e1: int,
    s: nat,
    r: nat,
    k: nat,
    w: nat,
    p: nat,
    t: nat,
)
    requires
        t > 0,
        crate::order::parts(crate::order::distance((x + e1) as nat, x)) <= x,
        x + e1 >= 0,
        crate::order::parts(crate::order::distance(s, (x + e1) as nat)) <= x + e1,
        2 * crate::order::parts(crate::order::distance(r * t, s * p)) <= 2 * (s * p)
            + crate::order::parts(t as int),
        crate::order::parts(crate::order::distance(w, r + k)) <= r + k,
    ensures
        crate::order::parts(crate::order::distance(w * t, x * p + k * t)) <= 5 * (x * p + k * t)
            + crate::order::parts(t as int),
{
    let a = s - x;
    let e = if e1 < 0 {
        -e1
    } else {
        e1
    };
    let b = if a < 0 {
        -a
    } else {
        a
    };
    let g = w - (r + k);
    let h = if g < 0 {
        -g
    } else {
        g
    };
    assert(0x20_0000_0000_0000 * e <= x);
    assert(0x20_0000_0000_0000 * b <= 2 * x + e);
    let (xp, ep, bp, sp, ap) = (x * p, e * p, b * p, s * p, a * p);
    let (rt, kt, gt, ht, wt) = (r * t, k * t, g * t, h * t, w * t);
    assert(0x20_0000_0000_0000 * ep <= xp) by (nonlinear_arith)
        requires
            0x20_0000_0000_0000 * e <= x,
            ep == e * p,
            xp == x * p,
            p >= 0,
    ;
    assert(0x20_0000_0000_0000 * bp <= 2 * xp + ep) by (nonlinear_arith)
        requires
            0x20_0000_0000_0000 * b <= 2 * x + e,
            bp == b * p,
            ep == e * p,
            xp == x * p,
            p >= 0,
    ;
    assert(0x20_0000_0000_0000 * ht <= rt + kt) by (nonlinear_arith)
        requires
            0x20_0000_0000_0000 * h <= r + k,
            ht == h * t,
            rt == r * t,
            kt == k * t,
            t >= 0,
    ;
    assert(sp == xp + ap) by (nonlinear_arith)
        requires
            s == x + a,
            sp == s * p,
            xp == x * p,
            ap == a * p,
    ;
    assert(wt == rt + kt + gt) by (nonlinear_arith)
        requires
            w == r + k + g,
            wt == w * t,
            rt == r * t,
            kt == k * t,
            gt == g * t,
    ;
    assert(-bp <= ap <= bp) by (nonlinear_arith)
        requires
            -b <= a <= b,
            ap == a * p,
            bp == b * p,
            p >= 0,
    ;
    assert(-ht <= gt <= ht) by (nonlinear_arith)
        requires
            -h <= g <= h,
            gt == g * t,
            ht == h * t,
            t >= 0,
    ;
    assert(xp >= 0 && kt >= 0 && rt >= 0 && sp >= 0) by (nonlinear_arith)
        requires
            xp == x * p,
            kt == k * t,
            rt == r * t,
            sp == s * p,
            x >= 0,
            p >= 0,
            k >= 0,
            t >= 0,
            r >= 0,
            s >= 0,
    ;
}

/// The plain estimate is its formula up to rounding: it differs from the exact
/// wait by at most five parts in `2^53` of it and one unit of `2^-1074`.
pub proof fn law_plain_wait_is_exact_up_to_rounding(
    queued: Binary64,
    throughput: Binary64,
    usage: Binary64,
    weight: Binary64,
    dispatched: u64,
)
    requires
        crate::formula_laws::plain_inputs(queued, throughput, usage, weight),
        PreparedExpectedWait::prepared(queued, throughput, usage, weight).wait(
            dispatched,
        ).finite(),
    ensures
        ({
            let e = PreparedExpectedWait::prepared(queued, throughput, usage, weight);
            let exact = unrounded_wait(e, dispatched);
            crate::order::parts(crate::order::distance(
                e.wait(dispatched).units() * throughput.units(),
                exact,
            )) <= 5 * exact + crate::order::parts(throughput.units() as int)
        }),
{
    let e = PreparedExpectedWait::prepared(queued, throughput, usage, weight);
    let d = Binary64::integer(dispatched as int);
    let work = queued.sum(d);
    let delay = work.quotient(throughput);
    let p = pow2(1074);
    crate::formula_laws::lemma_zero();
    crate::formula_laws::lemma_penalty_nonnegative(usage, weight);
    crate::order::lemma_integer_order(dispatched as int, dispatched as int);
    crate::order::lemma_sum_nonnegative(queued, d);
    crate::order::lemma_quotient_is_number(work, throughput);
    crate::order::lemma_quotient_nonnegative(work, throughput);
    lemma_sum_error(delay, e.kv_wait);
    assert(work.finite()) by {
        reveal(Binary64::quotient);
    }
    lemma_sum_error(queued, d);
    lemma_integer_error(dispatched);
    crate::binary64::lemma_significand(throughput);
    lemma_quotient_error(work, throughput);
    let x = queued.units() + dispatched as nat * p;
    let e1 = d.units() - dispatched as nat * p;
    lemma_errors_add_up(
        x,
        e1,
        work.units(),
        delay.units(),
        e.kv_wait.units(),
        e.wait(dispatched).units(),
        p,
        throughput.units(),
    );
}

/// What dispatched tokens add to the plain estimate is their number over the
/// throughput, whatever the queue and the penalty, up to the rounding of the
/// two waits.
pub proof fn law_plain_wait_rises_by_dispatch_over_throughput(
    queued: Binary64,
    throughput: Binary64,
    usage: Binary64,
    weight: Binary64,
    fewer: u64,
    more: u64,
)
    requires
        crate::formula_laws::plain_inputs(queued, throughput, usage, weight),
        fewer <= more,
        PreparedExpectedWait::prepared(queued, throughput, usage, weight).wait(more).finite(),
    ensures
        ({
            let e = PreparedExpectedWait::prepared(queued, throughput, usage, weight);
            let rise = e.wait(more).units() - e.wait(fewer).units();
            let exact_rise = (more - fewer) * pow2(1074) * pow2(1074);
            let error = rise * throughput.units() - exact_rise;
            let bound = 5 * (unrounded_wait(e, fewer) + unrounded_wait(e, more)) + 2
                * crate::order::parts(throughput.units() as int);
            -bound <= crate::order::parts(error) <= bound
        }),
{
    let e = PreparedExpectedWait::prepared(queued, throughput, usage, weight);
    crate::formula_laws::lemma_zero();
    crate::formula_laws::law_plain_wait_grows_with_dispatch(
        queued,
        throughput,
        usage,
        weight,
        fewer,
        more,
    );
    law_plain_wait_is_exact_up_to_rounding(queued, throughput, usage, weight, fewer);
    law_plain_wait_is_exact_up_to_rounding(queued, throughput, usage, weight, more);
    let (p, t) = (pow2(1074), throughput.units());
    let (w1, w2) = (e.wait(fewer).units(), e.wait(more).units());
    assert((w2 - w1) * t == w2 * t - w1 * t) by (nonlinear_arith);
    let q = queued.units();
    assert((q + more * p) * p - (q + fewer * p) * p == (more - fewer) * p * p)
        by (nonlinear_arith);
}

/// How the roundings of a weighted average add up: `x` is the exact weighted
/// sum and `v` the sum of the weights, `c`, `s` and `t` are rounded sums and `r`
/// is the rounded average.
proof fn lemma_average_errors_add_up(
    x: nat,
    v: nat,
    c: nat,
    s: nat,
    t: nat,
    r: nat,
    p: nat,
    low: nat,
    high: nat,
)
    requires
        0 < p <= t,
        low * v <= x <= high * v,
        crate::order::parts(crate::order::distance(c * p, x)) <= x + crate::order::parts(p as int),
        crate::order::parts(crate::order::distance(s, c)) <= c,
        crate::order::parts(crate::order::distance(t, v)) <= v,
        2 * crate::order::parts(crate::order::distance(r * t, s * p)) <= 2 * (s * p)
            + crate::order::parts(t as int),
    ensures
        crate::order::parts(r as int) <= crate::order::parts(high + 2int) + 5 * high,
        crate::order::parts(low as int) <= crate::order::parts(r + 2int) + 5 * low,
{
    let (cp, sp, rt) = (c * p, s * p, r * t);
    let (hv, ht, lv, lt) = (high * v, high * t, low * v, low * t);
    let g = s - c;
    let gp = g * p;
    assert(0x20_0000_0000_0000 * gp <= cp && -0x20_0000_0000_0000 * gp <= cp) by (nonlinear_arith)
        requires
            0x20_0000_0000_0000 * g <= c,
            -0x20_0000_0000_0000 * g <= c,
            gp == g * p,
            cp == c * p,
            p > 0,
    ;
    assert(sp == cp + gp) by (nonlinear_arith)
        requires
            s == c + g,
            sp == s * p,
            cp == c * p,
            gp == g * p,
    ;
    let h = t - v;
    assert(0x20_0000_0000_0000 * (ht - hv) <= hv && 0x20_0000_0000_0000 * (hv - ht) <= hv)
        by (nonlinear_arith)
        requires
            0x20_0000_0000_0000 * h <= v,
            -0x20_0000_0000_0000 * h <= v,
            t == v + h,
            ht == high * t,
            hv == high * v,
            high >= 0,
    ;
    assert(0x20_0000_0000_0000 * (lt - lv) <= lv && 0x20_0000_0000_0000 * (lv - lt) <= lv)
        by (nonlinear_arith)
        requires
            0x20_0000_0000_0000 * h <= v,
            -0x20_0000_0000_0000 * h <= v,
            t == v + h,
            lt == low * t,
            lv == low * v,
            low >= 0,
    ;
    assert(cp >= 0 && sp >= 0 && rt >= 0 && hv >= 0 && ht >= 0 && lv >= 0 && lt >= 0)
        by (nonlinear_arith)
        requires
            cp == c * p,
            sp == s * p,
            rt == r * t,
            hv == high * v,
            ht == high * t,
            lv == low * v,
            lt == low * t,
            c >= 0,
            s >= 0,
            r >= 0,
            p >= 0,
            t >= 0,
            v >= 0,
            high >= 0,
            low >= 0,
    ;
    assert(0x20_0000_0000_0000 * rt <= 0x20_0000_0000_0000 * (ht + 2 * t) + 5 * ht);
    assert(0x20_0000_0000_0000 * lt <= 0x20_0000_0000_0000 * (rt + 2 * t) + 5 * lt);
    assert(0x20_0000_0000_0000 * r <= 0x20_0000_0000_0000 * (high + 2) + 5 * high)
        by (nonlinear_arith)
        requires
            0x20_0000_0000_0000 * rt <= 0x20_0000_0000_0000 * (ht + 2 * t) + 5 * ht,
            rt == r * t,
            ht == high * t,
            t > 0,
    ;
    assert(0x20_0000_0000_0000 * low <= 0x20_0000_0000_0000 * (r + 2) + 5 * low)
        by (nonlinear_arith)
        requires
            0x20_0000_0000_0000 * lt <= 0x20_0000_0000_0000 * (rt + 2 * t) + 5 * lt,
            rt == r * t,
            lt == low * t,
            t > 0,
    ;
}

/// A blend is a weighted average up to rounding.
proof fn lemma_blend_bounds(
    prior: Binary64,
    prior_samples: u32,
    median: Binary64,
    samples: u64,
    low: nat,
    high: nat,
)
    requires
        crate::order::nonnegative(prior),
        prior.finite(),
        crate::order::nonnegative(median),
        median.finite(),
        samples > 0,
        crate::config::blended_size(prior, prior_samples, median, samples).finite(),
        prior_samples > 0 ==> low <= prior.units() <= high,
        low <= median.units() <= high,
    ensures
        ({
            let blend = crate::config::blended_size(
                prior,
                prior_samples,
                median,
                samples,
            ).units();
            &&& crate::order::parts(blend as int) <= crate::order::parts(high + 2int) + 5 * high
            &&& crate::order::parts(low as int) <= crate::order::parts(blend + 2int) + 5 * low
        }),
{
    let pw = Binary64::integer(prior_samples as int);
    let ow = Binary64::integer(samples as int);
    let (a, b) = (prior.product(pw), median.product(ow));
    let total = a.sum(b);
    let weight = pw.sum(ow);
    let blend = total.quotient(weight);
    let p = pow2(1074);
    crate::formula_laws::lemma_zero();
    crate::formula_laws::lemma_one();
    lemma_pow2_pos(1074);
    crate::order::lemma_integer_order(prior_samples as int, prior_samples as int);
    crate::order::lemma_integer_order(1, samples as int);
    crate::order::lemma_sum_commutes(pw, ow);
    crate::order::lemma_sum_nonnegative(ow, pw);
    crate::formula_laws::law_blending_weight_is_positive(prior_samples, samples);
    lemma_integer_finite(prior_samples as u64);
    lemma_integer_finite(samples);
    assert(weight.finite()) by {
        lemma_sample_weight_finite(prior_samples, samples);
    }
    crate::order::lemma_product_is_number(prior, pw);
    crate::order::lemma_product_is_number(median, ow);
    crate::order::lemma_product_nonnegative(prior, pw);
    crate::order::lemma_product_nonnegative(median, ow);
    crate::order::lemma_sum_nonnegative(a, b);
    assert(total.finite()) by {
        reveal(Binary64::quotient);
    }
    lemma_sum_error(a, b);
    lemma_sum_error(pw, ow);
    lemma_product_error(prior, pw);
    lemma_product_error(median, ow);
    lemma_quotient_error(total, weight);
    let (x1, x2) = (prior.units() * pw.units(), median.units() * ow.units());
    let v = pw.units() + ow.units();
    let c = a.units() + b.units();
    assert(c * p == a.units() * p + b.units() * p) by (nonlinear_arith)
        requires
            c == a.units() + b.units(),
    ;
    assert(low * v <= x1 + x2 <= high * v) by {
        crate::binary64::lemma_significand(pw);
        let (o, w) = (ow.units(), pw.units());
        let (f, m) = (prior.units(), median.units());
        if prior_samples == 0 {
            assert(w == 0);
        }
        assert(low * (w + o) <= f * w + m * o <= high * (w + o)) by (nonlinear_arith)
            requires
                w == 0 || low <= f <= high,
                low <= m <= high,
                w >= 0,
                o >= 0,
        ;
    }
    assert(p <= weight.units()) by {
        crate::order::lemma_units_order(Binary64::integer(1), weight);
    }
    lemma_average_errors_add_up(
        x1 + x2,
        v,
        c,
        total.units(),
        weight.units(),
        blend.units(),
        p,
        low,
        high,
    );
}

/// Integers of the machine are far below infinity.
pub proof fn lemma_integer_finite(n: u64)
    ensures
        Binary64::integer(n as int).finite(),
        Binary64::integer(n as int).units() <= 2 * pow2(1138),
        !Binary64::integer(n as int).negative(),
{
    let big = Binary64 { bits: 0x43f0_0000_0000_0000 };
    crate::rounding::lemma_pow2_52();
    assert(big.scale() == 1086);
    assert(big.significand() == 0x10_0000_0000_0000);
    lemma_pow2_adds(52, 1086);
    assert(big.units() == pow2(1138));
    lemma2_to64();
    lemma2_to64_rest();
    lemma_pow2_adds(64, 1074);
    lemma_mul_inequality(n as int, pow2(64) as int, pow2(1074) as int);
    crate::order::lemma_exact(big, 1);
    crate::rounding::lemma_encoding_monotone(n as nat * pow2(1074), 1, big.units(), 1);
    reveal(Binary64::integer);
    crate::order::lemma_rounded_sign(false, n as nat * pow2(1074), 1);
    crate::order::lemma_units_order(Binary64::integer(n as int), big);
}

pub proof fn lemma_sample_weight_finite(prior_samples: u32, samples: u64)
    ensures
        Binary64::integer(prior_samples as int).sum(Binary64::integer(samples as int)).finite(),
{
    let pw = Binary64::integer(prior_samples as int);
    let ow = Binary64::integer(samples as int);
    let big = Binary64 { bits: 0x4410_0000_0000_0000 };
    lemma_integer_finite(prior_samples as u64);
    lemma_integer_finite(samples);
    crate::rounding::lemma_pow2_52();
    assert(big.scale() == 1088);
    assert(big.significand() == 0x10_0000_0000_0000);
    lemma_pow2_adds(52, 1088);
    lemma_pow2_unfold(1140);
    lemma_pow2_unfold(1139);
    assert(big.units() == 4 * pow2(1138));
    let total = pw.units() + ow.units();
    crate::order::lemma_exact(big, 1);
    crate::rounding::lemma_encoding_monotone(total, 1, big.units(), 1);
    reveal(Binary64::sum);
    crate::order::lemma_rounded_sign(false, total, 1);
}

/// A blended prompt size lies between the prior and the median, up to rounding:
/// it is beyond neither by more than five parts in `2^53` and two units of
/// `2^-1074`.
pub proof fn law_blend_lies_between(
    prior: Binary64,
    prior_samples: u32,
    median: Binary64,
    samples: u64,
)
    requires
        Binary64::integer(0).at_most(prior),
        prior.finite(),
        Binary64::integer(0).at_most(median),
        median.finite(),
        samples > 0,
        crate::config::blended_size(prior, prior_samples, median, samples).finite(),
    ensures
        ({
            let blend = crate::config::blended_size(
                prior,
                prior_samples,
                median,
                samples,
            ).units();
            let (a, b) = (prior.units(), median.units());
            let (low, high) = if a <= b {
                (a, b)
            } else {
                (b, a)
            };
            &&& crate::order::parts(blend as int) <= crate::order::parts(high + 2int) + 5 * high
            &&& crate::order::parts(low as int) <= crate::order::parts(blend + 2int) + 5 * low
        }),
{
    crate::formula_laws::lemma_zero();
    let (a, b) = (prior.units(), median.units());
    if a <= b {
        lemma_blend_bounds(prior, prior_samples, median, samples, a, b);
    } else {
        lemma_blend_bounds(prior, prior_samples, median, samples, b, a);
    }
}

/// A blend with a prior of no samples is the median, up to rounding.
pub proof fn law_blend_without_prior_is_the_median(prior: Binary64, median: Binary64, samples: u64)
    requires
        Binary64::integer(0).at_most(prior),
        prior.finite(),
        Binary64::integer(0).at_most(median),
        median.finite(),
        samples > 0,
        crate::config::blended_size(prior, 0, median, samples).finite(),
    ensures
        ({
            let blend = crate::config::blended_size(prior, 0, median, samples).units();
            crate::order::parts(crate::order::distance(blend, median.units())) <= 5
                * median.units() + crate::order::parts(2)
        }),
{
    crate::formula_laws::lemma_zero();
    lemma_blend_bounds(prior, 0, median, samples, median.units(), median.units());
}

} // verus!
