//! What a wait is, in terms of the numbers that it is made of, up to rounding.
//!
//! Numbers are taken in units of `2^-1074`; one is `2^1074` units.

use vstd::prelude::*;
use vstd::arithmetic::power2::*;
use vstd::arithmetic::mul::*;
use crate::binary64::Binary64;
use crate::expected_wait::{ExpectedWait, PreparedExpectedWait};

verus! {

/// Whether every coefficient of an estimate is a finite number of the right sign.
pub open spec fn usable_inputs(e: ExpectedWait) -> bool {
    &&& crate::validation_laws::zero_or_above(e.queued_tokens)
    &&& crate::validation_laws::above_zero(e.throughput)
    &&& crate::validation_laws::zero_or_above(e.base_overhead_secs)
    &&& crate::validation_laws::zero_or_above(e.queue_work_correction)
    &&& crate::validation_laws::zero_or_above(e.dispatch_blocking_factor)
    &&& crate::validation_laws::zero_or_above(e.kv_wait)
}

/// Whether the numbers of an estimate are at most `2^200` and its throughput at
/// least `2^-200`.
pub open spec fn moderate_inputs(e: ExpectedWait) -> bool {
    &&& e.queued_tokens.units() <= pow2(1274)
    &&& e.throughput.units() >= pow2(874)
    &&& e.base_overhead_secs.units() <= pow2(1274)
    &&& e.queue_work_correction.units() <= pow2(1274)
    &&& e.dispatch_blocking_factor.units() <= pow2(1274)
    &&& e.kv_wait.units() <= pow2(1274)
}

/// `base + correction * (queued + blocking * dispatched) / throughput + penalty`
/// before any rounding, as the numerator over the throughput.
pub open spec fn exact_wait(e: ExpectedWait, dispatched: u64) -> nat {
    (e.base_overhead_secs.units() + e.kv_wait.units()) * e.throughput.units()
        + e.queue_work_correction.units() * (e.queued_tokens.units()
        + e.dispatch_blocking_factor.units() * dispatched as nat)
}

/// A product in the form that the bounds below use.
proof fn lemma_product_bound(a: Binary64, b: Binary64)
    requires
        a.finite(),
        b.finite(),
        a.product(b).finite(),
    ensures
        ({
            let exact = a.units() * b.units();
            let error = crate::order::distance(a.product(b).units() * pow2(1074), exact);
            2 * crate::order::parts(error) <= 2 * exact + crate::order::parts(pow2(1074) as int)
        }),
{
    crate::error_laws::lemma_product_error(a, b);
}

/// How the roundings of the dispatched part add up.
proof fn lemma_work_error(q: nat, rho: nat, d: nat, n: nat, b: nat, w: nat, p: nat)
    requires
        p > 0,
        crate::order::parts(crate::order::distance(n, d * p)) <= d * p,
        2 * crate::order::parts(crate::order::distance(b * p, rho * n)) <= 2 * (rho * n)
            + crate::order::parts(p as int),
        crate::order::parts(crate::order::distance(w, q + b)) <= q + b,
    ensures
        2 * crate::order::parts(crate::order::distance(w, q + rho * d)) <= 8 * (q + rho * d)
            + crate::order::parts(2),
{
    let g = rho * d;
    let gp = g * p;
    let rn = rho * n;
    let h = n - d * p;
    assert(rho * (d * p) == gp) by (nonlinear_arith)
        requires
            gp == (rho * d) * p,
    ;
    assert(0x20_0000_0000_0000 * (rn - gp) <= gp && 0x20_0000_0000_0000 * (gp - rn) <= gp)
        by (nonlinear_arith)
        requires
            rn == rho * n,
            rho * (d * p) == gp,
            0x20_0000_0000_0000 * (n - d * p) <= d * p,
            0x20_0000_0000_0000 * (d * p - n) <= d * p,
            rho >= 0,
    ;
    let bp = b * p;
    assert(0x40_0000_0000_0000 * (bp - gp) <= 5 * gp + 0x20_0000_0000_0000 * p);
    assert(0x40_0000_0000_0000 * (gp - bp) <= 5 * gp + 0x20_0000_0000_0000 * p);
    assert(0x40_0000_0000_0000 * (b - g) <= 5 * g + 0x20_0000_0000_0000) by (nonlinear_arith)
        requires
            0x40_0000_0000_0000 * (bp - gp) <= 5 * gp + 0x20_0000_0000_0000 * p,
            bp == b * p,
            gp == g * p,
            p > 0,
    ;
    assert(0x40_0000_0000_0000 * (g - b) <= 5 * g + 0x20_0000_0000_0000) by (nonlinear_arith)
        requires
            0x40_0000_0000_0000 * (gp - bp) <= 5 * gp + 0x20_0000_0000_0000 * p,
            bp == b * p,
            gp == g * p,
            p > 0,
    ;
    assert(g >= 0) by (nonlinear_arith)
        requires
            g == rho * d,
            rho >= 0,
            d >= 0,
    ;
}

/// How the roundings of the delay add up.
proof fn lemma_delay_error(y: nat, al: nat, w: nat, a: nat, r: nat, p: nat, t: nat)
    requires
        p > 0,
        2 * crate::order::parts(crate::order::distance(w, y)) <= 8 * y + crate::order::parts(2),
        2 * crate::order::parts(crate::order::distance(a * p, al * w)) <= 2 * (al * w)
            + crate::order::parts(p as int),
        2 * crate::order::parts(crate::order::distance(r * t, a * p)) <= 2 * (a * p)
            + crate::order::parts(t as int),
    ensures
        2 * crate::order::parts(crate::order::distance(r * t, al * y)) <= 14 * (al * y)
            + crate::order::parts(4int * al + 2 * p + 2 * t),
{
    let (aw, ay, ap, rt) = (al * w, al * y, a * p, r * t);
    assert(0x40_0000_0000_0000 * (aw - ay) <= 8 * ay + 0x40_0000_0000_0000 * al &&
        0x40_0000_0000_0000 * (ay - aw) <= 8 * ay + 0x40_0000_0000_0000 * al)
        by (nonlinear_arith)
        requires
            aw == al * w,
            ay == al * y,
            0x40_0000_0000_0000 * (w - y) <= 8 * y + 0x40_0000_0000_0000,
            0x40_0000_0000_0000 * (y - w) <= 8 * y + 0x40_0000_0000_0000,
            al >= 0,
    ;
    assert(ay >= 0 && aw >= 0 && ap >= 0 && rt >= 0) by (nonlinear_arith)
        requires
            aw == al * w,
            ay == al * y,
            ap == a * p,
            rt == r * t,
            al >= 0,
            w >= 0,
            y >= 0,
            a >= 0,
            p >= 0,
            r >= 0,
            t >= 0,
    ;
}

/// How the roundings of the last sums add up.
proof fn lemma_total_error(
    ba: nat,
    k: nat,
    z: nat,
    r: nat,
    s: nat,
    w: nat,
    t: nat,
    al: nat,
    p: nat,
)
    requires
        t > 0,
        2 * crate::order::parts(crate::order::distance(r * t, z)) <= 14 * z + crate::order::parts(
            4int * al + 2 * p + 2 * t,
        ),
        crate::order::parts(crate::order::distance(s, ba + r)) <= ba + r,
        crate::order::parts(crate::order::distance(w, s + k)) <= s + k,
    ensures
        ({
            let exact = (ba + k) * t + z;
            crate::order::parts(crate::order::distance(w * t, exact)) <= 10 * exact
                + crate::order::parts(4int * al + 2 * p + 2 * t)
        }),
{
    let (rt, st, wt, bt, kt) = (r * t, s * t, w * t, ba * t, k * t);
    assert((ba + k) * t == bt + kt) by (nonlinear_arith)
        requires
            bt == ba * t,
            kt == k * t,
    ;
    assert(0x20_0000_0000_0000 * (st - bt - rt) <= bt + rt && 0x20_0000_0000_0000 * (bt + rt - st)
        <= bt + rt) by (nonlinear_arith)
        requires
            st == s * t,
            bt == ba * t,
            rt == r * t,
            0x20_0000_0000_0000 * (s - ba - r) <= ba + r,
            0x20_0000_0000_0000 * (ba + r - s) <= ba + r,
            t > 0,
    ;
    assert(0x20_0000_0000_0000 * (wt - st - kt) <= st + kt && 0x20_0000_0000_0000 * (st + kt - wt)
        <= st + kt) by (nonlinear_arith)
        requires
            wt == w * t,
            st == s * t,
            kt == k * t,
            0x20_0000_0000_0000 * (w - s - k) <= s + k,
            0x20_0000_0000_0000 * (s + k - w) <= s + k,
            t > 0,
    ;
    assert(bt >= 0 && kt >= 0 && rt >= 0 && st >= 0) by (nonlinear_arith)
        requires
            bt == ba * t,
            kt == k * t,
            rt == r * t,
            st == s * t,
            ba >= 0,
            k >= 0,
            r >= 0,
            s >= 0,
            t >= 0,
    ;
}

/// The steps of a wait are numbers that are not negative.
proof fn lemma_steps(e: ExpectedWait, dispatched: u64)
    requires
        usable_inputs(e),
        e.wait(dispatched).finite(),
    ensures
        ({
            let d = Binary64::integer(dispatched as int);
            let blocking = e.dispatch_blocking_factor.product(d);
            let work = e.queued_tokens.sum(blocking);
            let corrected = e.queue_work_correction.product(work);
            let delay = corrected.quotient(e.throughput);
            let started = e.base_overhead_secs.sum(delay);
            &&& blocking.finite() && crate::order::nonnegative(blocking)
            &&& work.finite() && crate::order::nonnegative(work)
            &&& corrected.finite() && crate::order::nonnegative(corrected)
            &&& delay.finite() && crate::order::nonnegative(delay)
            &&& started.finite() && crate::order::nonnegative(started)
        }),
{
    crate::validation_laws::lemma_zero_or_above(e.queued_tokens);
    crate::validation_laws::lemma_zero_or_above(e.base_overhead_secs);
    crate::validation_laws::lemma_zero_or_above(e.queue_work_correction);
    crate::validation_laws::lemma_zero_or_above(e.dispatch_blocking_factor);
    crate::validation_laws::lemma_zero_or_above(e.kv_wait);
    crate::validation_laws::lemma_above_zero(e.throughput);
    let d = Binary64::integer(dispatched as int);
    let blocking = e.dispatch_blocking_factor.product(d);
    let work = e.queued_tokens.sum(blocking);
    let corrected = e.queue_work_correction.product(work);
    let delay = corrected.quotient(e.throughput);
    let started = e.base_overhead_secs.sum(delay);
    crate::formula_laws::lemma_wait_of_numbers(e, dispatched);
    crate::order::lemma_integer_order(dispatched as int, dispatched as int);
    crate::error_laws::lemma_integer_finite(dispatched);
    crate::order::lemma_product_nonnegative(e.dispatch_blocking_factor, d);
    crate::order::lemma_sum_nonnegative(e.queued_tokens, blocking);
    crate::order::lemma_product_nonnegative(e.queue_work_correction, work);
    crate::order::lemma_quotient_nonnegative(corrected, e.throughput);
    crate::order::lemma_sum_nonnegative(e.base_overhead_secs, delay);
    crate::error_laws::lemma_sum_error(started, e.kv_wait);
    crate::error_laws::lemma_sum_error(e.base_overhead_secs, delay);
    assert(corrected.finite()) by {
        reveal(Binary64::quotient);
    }
    assert(work.finite()) by {
        reveal(Binary64::product);
    }
    crate::error_laws::lemma_sum_error(e.queued_tokens, blocking);
}

/// The wait is its formula up to rounding: it is off by at most ten parts in
/// `2^53` of the exact wait and a few of the smallest numbers in each step.
pub proof fn law_wait_is_exact_up_to_rounding(e: ExpectedWait, dispatched: u64)
    requires
        usable_inputs(e),
        e.wait(dispatched).finite(),
    ensures
        ({
            let exact = exact_wait(e, dispatched);
            let steps = 4 * e.queue_work_correction.units() + 2 * pow2(1074) + 2
                * e.throughput.units();
            &&& crate::validation_laws::zero_or_above(e.wait(dispatched))
            &&& crate::order::parts(
                crate::order::distance(e.wait(dispatched).units() * e.throughput.units(), exact),
            ) <= 10 * exact + crate::order::parts(steps as int)
        }),
{
    lemma_steps(e, dispatched);
    crate::validation_laws::lemma_zero_or_above(e.queued_tokens);
    crate::validation_laws::lemma_zero_or_above(e.base_overhead_secs);
    crate::validation_laws::lemma_zero_or_above(e.queue_work_correction);
    crate::validation_laws::lemma_zero_or_above(e.dispatch_blocking_factor);
    crate::validation_laws::lemma_zero_or_above(e.kv_wait);
    crate::validation_laws::lemma_above_zero(e.throughput);
    let d = Binary64::integer(dispatched as int);
    let blocking = e.dispatch_blocking_factor.product(d);
    let work = e.queued_tokens.sum(blocking);
    let corrected = e.queue_work_correction.product(work);
    let delay = corrected.quotient(e.throughput);
    let started = e.base_overhead_secs.sum(delay);
    let (p, t) = (pow2(1074), e.throughput.units());
    lemma_pow2_pos(1074);
    crate::error_laws::lemma_integer_finite(dispatched);
    crate::error_laws::lemma_integer_error(dispatched);
    lemma_product_bound(e.dispatch_blocking_factor, d);
    crate::error_laws::lemma_sum_error(e.queued_tokens, blocking);
    lemma_work_error(
        e.queued_tokens.units(),
        e.dispatch_blocking_factor.units(),
        dispatched as nat,
        d.units(),
        blocking.units(),
        work.units(),
        p,
    );
    let y = e.queued_tokens.units() + e.dispatch_blocking_factor.units() * dispatched as nat;
    let al = e.queue_work_correction.units();
    lemma_product_bound(e.queue_work_correction, work);
    crate::error_laws::lemma_quotient_error(corrected, e.throughput);
    lemma_delay_error(y, al, work.units(), corrected.units(), delay.units(), p, t);
    crate::error_laws::lemma_sum_error(e.base_overhead_secs, delay);
    crate::error_laws::lemma_sum_error(started, e.kv_wait);
    crate::order::lemma_sum_nonnegative(started, e.kv_wait);
    crate::validation_laws::lemma_zero_or_above(e.wait(dispatched));
    lemma_total_error(
        e.base_overhead_secs.units(),
        e.kv_wait.units(),
        al * y,
        delay.units(),
        started.units(),
        e.wait(dispatched).units(),
        t,
        al,
        p,
    );
}

/// A bound on a product.
pub proof fn lemma_product_at_most(a: Binary64, b: Binary64, i: nat, j: nat)
    requires
        a.finite(),
        b.finite(),
        a.units() <= pow2(i),
        b.units() <= pow2(j),
        1074 <= i + j <= 3119,
    ensures
        a.product(b).finite(),
        a.product(b).units() <= pow2((i + j - 1074) as nat),
{
    let k = (i + j - 1074) as nat;
    lemma_pow2_adds(i, j);
    lemma_pow2_adds(1074, k);
    lemma_pow2_pos(1074);
    let exact = a.units() * b.units();
    assert(exact <= pow2(i) * pow2(j)) by (nonlinear_arith)
        requires
            exact == a.units() * b.units(),
            a.units() <= pow2(i),
            b.units() <= pow2(j),
    ;
    crate::order::lemma_rounded_at_most(exact, pow2(1074), k);
    let plain = Binary64::rounded(false, exact, pow2(1074));
    crate::order::lemma_rounded_sign(false, exact, pow2(1074));
    crate::order::lemma_rounded_sign(a.negative() != b.negative(), exact, pow2(1074));
    reveal(Binary64::product);
    assert(plain.magnitude() == a.product(b).magnitude());
}

/// A bound on a sum.
pub proof fn lemma_sum_at_most(a: Binary64, b: Binary64, i: nat)
    requires
        crate::order::nonnegative(a),
        crate::order::nonnegative(b),
        a.finite(),
        b.finite(),
        a.units() <= pow2(i),
        b.units() <= pow2(i),
        i + 1 <= 2045,
    ensures
        a.sum(b).finite(),
        a.sum(b).units() <= pow2(i + 1),
{
    lemma_pow2_unfold(i + 1);
    crate::binary64::lemma_significand(a);
    crate::binary64::lemma_significand(b);
    let total = a.units() + b.units();
    crate::order::lemma_rounded_at_most(total, 1, i + 1);
    reveal(Binary64::sum);
    crate::formula_laws::lemma_zero();
    if total == 0 {
        crate::binary64::lemma_significand(a.sum(b));
    }
}

/// A bound on a quotient.
pub proof fn lemma_quotient_at_most(a: Binary64, c: Binary64, i: nat, j: nat)
    requires
        a.finite(),
        c.finite(),
        c.order() > 0,
        a.units() <= pow2(i),
        c.units() >= pow2(j),
        j <= i + 1074 <= j + 2045,
    ensures
        a.quotient(c).finite(),
        a.quotient(c).units() <= pow2((i + 1074 - j) as nat),
{
    let k = (i + 1074 - j) as nat;
    lemma_pow2_adds(i, 1074);
    lemma_pow2_adds(j, k);
    lemma_pow2_pos(k);
    crate::binary64::lemma_significand(c);
    let exact = a.units() * pow2(1074);
    assert(exact <= c.units() * pow2(k)) by (nonlinear_arith)
        requires
            exact == a.units() * pow2(1074),
            a.units() <= pow2(i),
            c.units() >= pow2(j),
            pow2(i) * pow2(1074) == pow2(j) * pow2(k),
    ;
    crate::order::lemma_rounded_at_most(exact, c.units(), k);
    let plain = Binary64::rounded(false, exact, c.units());
    crate::order::lemma_rounded_sign(false, exact, c.units());
    crate::order::lemma_rounded_sign(a.negative() != c.negative(), exact, c.units());
    reveal(Binary64::quotient);
    assert(plain.magnitude() == a.quotient(c).magnitude());
}

/// Moderate numbers have a finite wait, whatever is dispatched.
pub proof fn law_moderate_wait_is_finite(e: ExpectedWait, dispatched: u64)
    requires
        usable_inputs(e),
        moderate_inputs(e),
    ensures
        e.wait(dispatched).finite(),
{
    crate::validation_laws::lemma_zero_or_above(e.queued_tokens);
    crate::validation_laws::lemma_zero_or_above(e.base_overhead_secs);
    crate::validation_laws::lemma_zero_or_above(e.queue_work_correction);
    crate::validation_laws::lemma_zero_or_above(e.dispatch_blocking_factor);
    crate::validation_laws::lemma_zero_or_above(e.kv_wait);
    crate::validation_laws::lemma_above_zero(e.throughput);
    let d = Binary64::integer(dispatched as int);
    let blocking = e.dispatch_blocking_factor.product(d);
    let work = e.queued_tokens.sum(blocking);
    let corrected = e.queue_work_correction.product(work);
    let delay = corrected.quotient(e.throughput);
    let started = e.base_overhead_secs.sum(delay);
    crate::error_laws::lemma_integer_finite(dispatched);
    crate::order::lemma_integer_order(dispatched as int, dispatched as int);
    lemma_pow2_unfold(1139);
    lemma_product_at_most(e.dispatch_blocking_factor, d, 1274, 1139);
    crate::order::lemma_product_nonnegative(e.dispatch_blocking_factor, d);
    crate::rounding::lemma_pow2_monotone(1274, 1339);
    lemma_sum_at_most(e.queued_tokens, blocking, 1339);
    crate::order::lemma_sum_nonnegative(e.queued_tokens, blocking);
    lemma_product_at_most(e.queue_work_correction, work, 1274, 1340);
    crate::order::lemma_product_nonnegative(e.queue_work_correction, work);
    lemma_quotient_at_most(corrected, e.throughput, 1540, 874);
    crate::order::lemma_quotient_nonnegative(corrected, e.throughput);
    crate::rounding::lemma_pow2_monotone(1274, 1740);
    lemma_sum_at_most(e.base_overhead_secs, delay, 1740);
    crate::order::lemma_sum_nonnegative(e.base_overhead_secs, delay);
    crate::rounding::lemma_pow2_monotone(1274, 1741);
    lemma_sum_at_most(started, e.kv_wait, 1741);
}

/// The plain estimate is the calibrated one with a base of 0 and coefficients of
/// 1, so the laws of the one are laws of the other.
pub proof fn law_plain_wait_is_the_neutral_one(e: PreparedExpectedWait, dispatched: u64)
    ensures
        crate::formula_laws::same_number(
            e.wait(dispatched),
            (ExpectedWait {
                queued_tokens: e.queued_tokens,
                throughput: e.throughput,
                base_overhead_secs: Binary64 { bits: 0 },
                queue_work_correction: Binary64 { bits: 0x3ff0_0000_0000_0000 },
                dispatch_blocking_factor: Binary64 { bits: 0x3ff0_0000_0000_0000 },
                kv_wait: e.kv_wait,
            }).wait(dispatched),
        ),
{
    crate::formula_laws::lemma_zero();
    crate::formula_laws::lemma_one();
    let zero = Binary64::integer(0);
    let one = Binary64::integer(1);
    let d = Binary64::integer(dispatched as int);
    let work = e.queued_tokens.sum(one.product(d));
    let plain = e.queued_tokens.sum(d);
    crate::formula_laws::lemma_one_times(d);
    crate::formula_laws::lemma_same_sum(one.product(d), d, e.queued_tokens);
    crate::formula_laws::lemma_one_times(work);
    crate::formula_laws::lemma_same_transitive(one.product(work), work, plain);
    crate::formula_laws::lemma_same_quotient(one.product(work), plain, e.throughput);
    let ours = one.product(work).quotient(e.throughput);
    let theirs = plain.quotient(e.throughput);
    crate::formula_laws::lemma_zero_plus(ours);
    crate::formula_laws::lemma_same_transitive(zero.sum(ours), ours, theirs);
    crate::formula_laws::lemma_same_sum(zero.sum(ours), theirs, e.kv_wait);
}

/// What estimates are prepared of, unchanged but for the usage, of which only the
/// penalty is kept.
pub proof fn law_prepared_inputs(
    queued: Binary64,
    throughput: Binary64,
    usage: Binary64,
    base: Binary64,
    correction: Binary64,
    blocking: Binary64,
    threshold: Binary64,
    weight: Binary64,
)
    ensures
        ({
            let e = ExpectedWait::prepared(
                queued,
                throughput,
                usage,
                base,
                correction,
                blocking,
                threshold,
                weight,
            );
            &&& e.queued_tokens == queued
            &&& e.throughput == throughput
            &&& e.base_overhead_secs == base
            &&& e.queue_work_correction == correction
            &&& e.dispatch_blocking_factor == blocking
            &&& e.kv_wait == crate::expected_wait::kv_penalty_above(usage, threshold, weight)
        }),
        ({
            let e = PreparedExpectedWait::prepared(queued, throughput, usage, weight);
            &&& e.queued_tokens == queued
            &&& e.throughput == throughput
            &&& e.kv_wait == crate::expected_wait::kv_penalty(usage, weight)
        }),
{
}

/// A wait is formed in this order, with one rounding in each step, whatever the
/// numbers are.
pub proof fn law_wait_in_steps(e: ExpectedWait, plain: PreparedExpectedWait, dispatched: u64)
    ensures
        ({
            let sent = Binary64::integer(dispatched as int);
            let work = e.queued_tokens.sum(e.dispatch_blocking_factor.product(sent));
            let delay = e.queue_work_correction.product(work).quotient(e.throughput);
            e.wait(dispatched) == e.base_overhead_secs.sum(delay).sum(e.kv_wait)
        }),
        ({
            let sent = Binary64::integer(dispatched as int);
            let delay = plain.queued_tokens.sum(sent).quotient(plain.throughput);
            plain.wait(dispatched) == delay.sum(plain.kv_wait)
        }),
{
}

/// A penalty is formed in this order, with one rounding in each step, for a usage
/// from 0 to 0.999; a usage that is not a number gives no number.
pub proof fn law_penalty_in_steps(usage: Binary64, threshold: Binary64, weight: Binary64)
    ensures
        usage.finite() && 0 <= usage.signed_units() <= highest_usage().units() ==> {
            let room = Binary64 { bits: 0x3ff0_0000_0000_0000 }.difference(usage);
            let excess = usage.difference(threshold);
            let counted = if !excess.nan() && !excess.negative() && excess.magnitude() > 0 {
                excess
            } else {
                Binary64 { bits: 0 }
            };
            &&& crate::expected_wait::kv_penalty(usage, weight) == weight.product(usage).quotient(
                room,
            )
            &&& crate::expected_wait::kv_penalty_above(usage, threshold, weight)
                == weight.product(counted).quotient(room)
        },
        usage.infinite() && !usage.negative() ==> {
            &&& crate::expected_wait::kv_penalty(usage, weight) == crate::expected_wait::kv_penalty(
                highest_usage(),
                weight,
            )
            &&& crate::expected_wait::kv_penalty_above(usage, threshold, weight)
                == crate::expected_wait::kv_penalty_above(highest_usage(), threshold, weight)
        },
        usage.infinite() && usage.negative() || usage.finite() && usage.signed_units() < 0 ==> {
            &&& crate::expected_wait::kv_penalty(usage, weight) == crate::expected_wait::kv_penalty(
                Binary64 { bits: 0 },
                weight,
            )
            &&& crate::expected_wait::kv_penalty_above(usage, threshold, weight)
                == crate::expected_wait::kv_penalty_above(Binary64 { bits: 0 }, threshold, weight)
        },
        usage.finite() && usage.signed_units() > highest_usage().units() ==> {
            &&& crate::expected_wait::kv_penalty(usage, weight) == crate::expected_wait::kv_penalty(
                highest_usage(),
                weight,
            )
            &&& crate::expected_wait::kv_penalty_above(usage, threshold, weight)
                == crate::expected_wait::kv_penalty_above(highest_usage(), threshold, weight)
        },
        usage.nan() ==> crate::expected_wait::kv_penalty(usage, weight).nan()
            && crate::expected_wait::kv_penalty_above(usage, threshold, weight).nan(),
{
    crate::formula_laws::lemma_zero();
    crate::formula_laws::lemma_one();
    crate::formula_laws::lemma_high_usage_bits();
    lemma_pow2_pos(1021);
    let zero = Binary64 { bits: 0 };
    lemma_bounded(zero);
    if usage.finite() {
        lemma_bounded(usage);
    } else {
        lemma_bounded(highest_usage());
    }
    assert(zero.signed_units() == 0);
    let one = Binary64::integer(1);
    if usage.nan() {
        crate::order::lemma_nan_propagates(one, usage);
        let room = one.difference(usage);
        crate::order::lemma_nan_propagates(weight.product(usage), room);
        let part = crate::expected_wait::positive_part(usage.difference(threshold));
        crate::order::lemma_nan_propagates(weight.product(part), room);
    }
}

/// 0.999, the highest usage that counts.
pub open spec fn highest_usage() -> Binary64 {
    Binary64 { bits: 0x3fef_f7ce_d916_872b }
}

/// The difference of numbers rounds that of their units.
proof fn lemma_difference_error(a: Binary64, b: Binary64)
    requires
        crate::validation_laws::zero_or_above(a),
        crate::validation_laws::zero_or_above(b),
        b.units() < a.units(),
    ensures
        a.difference(b).finite(),
        !a.difference(b).negative(),
        a.difference(b).units() > 0,
        crate::order::parts(
            crate::order::distance(a.difference(b).units(), (a.units() - b.units()) as nat),
        ) <= a.units() - b.units(),
{
    crate::validation_laws::lemma_zero_or_above(a);
    crate::validation_laws::lemma_zero_or_above(b);
    let z = b.negation();
    assert(z.magnitude() == b.magnitude());
    assert(z.negative() != b.negative());
    assert(z.units() == b.units());
    let total = (a.units() - b.units()) as nat;
    crate::order::lemma_exact(a, 1);
    crate::rounding::lemma_encoding_monotone(total, 1, a.units(), 1);
    crate::order::lemma_rounded_sign(false, total, 1);
    crate::order::lemma_rounded_positive(total, 1);
    let d = Binary64::rounded(false, total, 1);
    crate::binary64::lemma_significand(d);
    crate::order::law_rounding_error(total, 1);
    reveal(Binary64::difference);
    reveal(Binary64::sum);
}

/// How the roundings of a penalty add up.
proof fn lemma_penalty_errors_add_up(
    excess: nat,
    room: nat,
    w: nat,
    e: nat,
    x: nat,
    r: nat,
    n: nat,
    p: nat,
)
    requires
        0 < room <= p,
        crate::order::parts(crate::order::distance(e, excess)) <= excess,
        2 * crate::order::parts(crate::order::distance(x * p, w * e)) <= 2 * (w * e)
            + crate::order::parts(p as int),
        crate::order::parts(crate::order::distance(r, room)) <= room,
        2 * crate::order::parts(crate::order::distance(n * r, x * p)) <= 2 * (x * p)
            + crate::order::parts(r as int),
    ensures
        crate::order::parts(crate::order::distance(n * room, w * excess)) <= 6 * (w * excess)
            + crate::order::parts(2int * p),
{
    let (we, wx, xp, nr, nm) = (w * e, w * excess, x * p, n * r, n * room);
    assert(0x20_0000_0000_0000 * (we - wx) <= wx && 0x20_0000_0000_0000 * (wx - we) <= wx)
        by (nonlinear_arith)
        requires
            we == w * e,
            wx == w * excess,
            0x20_0000_0000_0000 * (e - excess) <= excess,
            0x20_0000_0000_0000 * (excess - e) <= excess,
            w >= 0,
    ;
    assert(0x20_0000_0000_0000 * (nr - nm) <= nm && 0x20_0000_0000_0000 * (nm - nr) <= nm)
        by (nonlinear_arith)
        requires
            nr == n * r,
            nm == n * room,
            0x20_0000_0000_0000 * (r - room) <= room,
            0x20_0000_0000_0000 * (room - r) <= room,
            n >= 0,
    ;
    assert(we >= 0 && wx >= 0 && xp >= 0 && nr >= 0 && nm >= 0) by (nonlinear_arith)
        requires
            we == w * e,
            wx == w * excess,
            xp == x * p,
            nr == n * r,
            nm == n * room,
            w >= 0,
            e >= 0,
            excess >= 0,
            x >= 0,
            p >= 0,
            n >= 0,
            r >= 0,
            room >= 0,
    ;
}

/// The penalty is `weight * (usage - threshold) / (1 - usage)` up to rounding,
/// where the usage is above the threshold and at most 0.999: it is off by at most
/// six parts in `2^53` of that and two of the smallest numbers in each step.
pub proof fn law_penalty_is_exact_up_to_rounding(
    usage: Binary64,
    threshold: Binary64,
    weight: Binary64,
)
    requires
        crate::validation_laws::zero_or_above(usage),
        crate::validation_laws::zero_or_above(threshold),
        crate::validation_laws::zero_or_above(weight),
        threshold.units() < usage.units() <= highest_usage().units(),
        crate::expected_wait::kv_penalty_above(usage, threshold, weight).finite(),
    ensures
        ({
            let penalty = crate::expected_wait::kv_penalty_above(usage, threshold, weight);
            let exact = weight.units() * (usage.units() - threshold.units()) as nat;
            let room = (pow2(1074) - usage.units()) as nat;
            &&& usage.units() < pow2(1074)
            &&& crate::order::parts(crate::order::distance(penalty.units() * room, exact)) <= 6
                * exact + crate::order::parts(2int * pow2(1074))
        }),
{
    let penalty = crate::expected_wait::kv_penalty_above(usage, threshold, weight);
    let one = Binary64::integer(1);
    let p = pow2(1074);
    crate::formula_laws::lemma_zero();
    crate::formula_laws::lemma_one();
    crate::formula_laws::lemma_high_usage_bits();
    lemma_pow2_pos(1021);
    lemma_bounded(usage);
    let excess = usage.difference(threshold);
    lemma_difference_error(usage, threshold);
    crate::validation_laws::lemma_above_zero(excess);
    assert(crate::expected_wait::positive_part(excess) == excess);
    let room = one.difference(usage);
    lemma_difference_error(one, usage);
    crate::validation_laws::lemma_above_zero(room);
    crate::validation_laws::lemma_zero_or_above(weight);
    let part = weight.product(excess);
    crate::order::lemma_product_is_number(weight, excess);
    crate::order::lemma_product_nonnegative(weight, excess);
    assert(part.finite()) by {
        reveal(Binary64::quotient);
    }
    lemma_product_bound(weight, excess);
    crate::error_laws::lemma_quotient_error(part, room);
    lemma_penalty_errors_add_up(
        (usage.units() - threshold.units()) as nat,
        (p - usage.units()) as nat,
        weight.units(),
        excess.units(),
        part.units(),
        room.units(),
        penalty.units(),
        p,
    );
}

/// The usage that counts: at least 0 and at most 0.999.
proof fn lemma_bounded(usage: Binary64)
    requires
        usage.finite(),
    ensures
        ({
            let k = crate::expected_wait::bounded_usage(usage);
            &&& usage.signed_units() < 0 ==> k == Binary64::integer(0)
            &&& usage.signed_units() > highest_usage().units() ==> k == highest_usage()
            &&& 0 <= usage.signed_units() <= highest_usage().units() ==> k == usage
        }),
        crate::expected_wait::bounded_usage(highest_usage()) == highest_usage(),
{
    crate::formula_laws::lemma_zero();
    crate::formula_laws::lemma_high_usage_bits();
    let high = highest_usage();
    assert(high.finite() && !high.negative());
    crate::order::lemma_order_is_units(usage, Binary64::integer(0));
    crate::order::lemma_order_is_units(Binary64::integer(0), usage);
    crate::order::lemma_order_is_units(high, usage);
    lemma_pow2_pos(1021);
}

/// A usage above 0.999 has the penalty of 0.999, one below zero that of zero, and
/// one up to the threshold has none.
pub proof fn law_penalty_outside_the_usual_range(
    usage: Binary64,
    threshold: Binary64,
    weight: Binary64,
)
    requires
        usage.finite(),
        crate::validation_laws::zero_or_above(threshold),
        crate::validation_laws::zero_or_above(weight),
    ensures
        usage.signed_units() > highest_usage().units()
            ==> crate::expected_wait::kv_penalty_above(usage, threshold, weight)
            == crate::expected_wait::kv_penalty_above(highest_usage(), threshold, weight)
            && crate::expected_wait::kv_penalty(usage, weight) == crate::expected_wait::kv_penalty(
            highest_usage(),
            weight,
        ),
        usage.signed_units() <= threshold.units() || usage.signed_units() <= 0
            ==> crate::expected_wait::kv_penalty_above(usage, threshold, weight).magnitude() == 0,
        usage.signed_units() <= 0 ==> crate::expected_wait::kv_penalty(usage, weight).magnitude()
            == 0,
{
    crate::formula_laws::lemma_zero();
    crate::formula_laws::lemma_high_usage_bits();
    lemma_bounded(usage);
    crate::validation_laws::lemma_zero_or_above(threshold);
    crate::validation_laws::lemma_zero_or_above(weight);
    let k = crate::expected_wait::bounded_usage(usage);
    let high = highest_usage();
    if usage.signed_units() <= threshold.units() || usage.signed_units() <= 0 {
        crate::binary64::lemma_significand(usage);
        lemma_pow2_pos(1021);
        assert(k.signed_units() <= threshold.units());
        crate::order::lemma_order_is_units(k, threshold);
        crate::formula_laws::law_no_penalty_up_to_threshold(usage, threshold, weight);
    }
    if usage.signed_units() <= 0 {
        crate::binary64::lemma_significand(usage);
        assert(k.magnitude() == 0);
        crate::order::lemma_product_commutes(weight, k);
        crate::formula_laws::lemma_zero_times(k, weight);
        crate::formula_laws::lemma_room(usage);
        crate::formula_laws::lemma_zero_over(
            weight.product(k),
            Binary64::integer(1).difference(k),
        );
    }
}

/// Without a threshold the penalty is that above a threshold of zero.
pub proof fn law_plain_penalty_has_no_threshold(usage: Binary64, weight: Binary64)
    requires
        !usage.nan(),
    ensures
        crate::formula_laws::same_number(
            crate::expected_wait::kv_penalty_above(usage, Binary64 { bits: 0 }, weight),
            crate::expected_wait::kv_penalty(usage, weight),
        ),
{
    crate::formula_laws::lemma_zero();
    let zero = Binary64::integer(0);
    let k = crate::expected_wait::bounded_usage(usage);
    let part = crate::expected_wait::positive_part(k.difference(zero));
    let room = Binary64::integer(1).difference(k);
    crate::formula_laws::lemma_minus_zero(k);
    crate::formula_laws::law_usage_is_bounded(usage);
    crate::formula_laws::lemma_same_product(part, k, weight);
    crate::formula_laws::lemma_same_quotient(weight.product(part), weight.product(k), room);
}

} // verus!
