//! What holds of the wait formula and of the estimates made with it.

use vstd::prelude::*;
use vstd::arithmetic::power2::*;
use vstd::arithmetic::mul::*;
use vstd::arithmetic::div_mod::*;
use crate::binary64::Binary64;
use crate::config::{EstimatedWaitConfig, PreparedWait};
use crate::expected_wait::{ExpectedWait, PreparedExpectedWait};
use crate::load::{LoadView, SchedulerLoadSnapshot};

verus! {

/// Two results that are the same number, or both not a number. They may differ
/// in the sign of a zero.
pub open spec fn same_number(a: Binary64, b: Binary64) -> bool {
    (a.nan() && b.nan()) || a.equals(b)
}

pub proof fn lemma_zero()
    ensures
        Binary64::integer(0).bits == 0,
        Binary64::integer(0).order() == 0,
        Binary64::integer(0).finite(),
        Binary64::integer(0).units() == 0,
{
    reveal(Binary64::integer);
    lemma_mul_by_zero_is_zero(pow2(1074) as int);
    crate::binary64::lemma_rounded_zero(false, 1);
    crate::binary64::lemma_significand(Binary64 { bits: 0 });
}

pub proof fn lemma_one()
    ensures
        Binary64::integer(1).bits == 0x3ff0_0000_0000_0000,
        Binary64::integer(1).finite(),
        Binary64::integer(1).units() == pow2(1074),
{
    reveal(Binary64::integer);
    let one = Binary64 { bits: 0x3ff0_0000_0000_0000 };
    assert(one.scale() == 1022);
    assert(one.significand() == 0x10_0000_0000_0000);
    crate::rounding::lemma_pow2_52();
    lemma_pow2_adds(52, 1022);
    assert(one.units() == pow2(1074));
    crate::order::lemma_rounded_exact(one, 1);
}

pub proof fn lemma_same_sum(a: Binary64, b: Binary64, c: Binary64)
    requires
        same_number(a, b),
    ensures
        same_number(a.sum(c), b.sum(c)),
        same_number(c.sum(a), c.sum(b)),
{
    crate::order::lemma_nan_propagates(a, c);
    crate::order::lemma_nan_propagates(b, c);
    crate::order::lemma_sum_commutes(a, c);
    crate::order::lemma_sum_commutes(b, c);
    if a.bits != b.bits && !a.nan() {
        reveal(Binary64::sum);
        crate::binary64::lemma_significand(a);
        crate::binary64::lemma_significand(b);
        assert(a.signed_units() == 0 && b.signed_units() == 0);
    }
    lemma_self_same(a.sum(c));
    lemma_self_same(c.sum(a));
}

proof fn lemma_self_same(a: Binary64)
    ensures
        same_number(a, a),
{
}

pub proof fn lemma_same_product(a: Binary64, b: Binary64, c: Binary64)
    requires
        same_number(a, b),
    ensures
        same_number(c.product(a), c.product(b)),
{
    crate::order::lemma_nan_propagates(c, a);
    crate::order::lemma_nan_propagates(c, b);
    if a.bits != b.bits && !a.nan() {
        reveal(Binary64::product);
        crate::binary64::lemma_significand(a);
        crate::binary64::lemma_significand(b);
        if c.finite() {
            lemma_mul_by_zero_is_zero(c.units() as int);
            lemma_pow2_pos(1074);
            crate::binary64::lemma_rounded_zero(c.negative() != a.negative(), pow2(1074));
            crate::binary64::lemma_rounded_zero(c.negative() != b.negative(), pow2(1074));
        }
    }
    lemma_self_same(c.product(a));
}

pub proof fn lemma_same_quotient(a: Binary64, b: Binary64, c: Binary64)
    requires
        same_number(a, b),
    ensures
        same_number(a.quotient(c), b.quotient(c)),
{
    crate::order::lemma_nan_propagates(a, c);
    crate::order::lemma_nan_propagates(b, c);
    if a.bits != b.bits && !a.nan() {
        reveal(Binary64::quotient);
        crate::binary64::lemma_significand(a);
        crate::binary64::lemma_significand(b);
        if c.finite() && c.magnitude() > 0 {
            crate::binary64::lemma_significand(c);
            lemma_mul_by_zero_is_zero(pow2(1074) as int);
            crate::binary64::lemma_rounded_zero(c.negative() != a.negative(), c.units());
            crate::binary64::lemma_rounded_zero(c.negative() != b.negative(), c.units());
        }
    }
    lemma_self_same(a.quotient(c));
}

pub proof fn lemma_same_transitive(a: Binary64, b: Binary64, c: Binary64)
    requires
        same_number(a, b),
        same_number(b, c),
    ensures
        same_number(a, c),
{
}

pub proof fn lemma_one_times(x: Binary64)
    ensures
        same_number(Binary64::integer(1).product(x), x),
{
    lemma_one();
    crate::order::lemma_nan_propagates(Binary64::integer(1), x);
    if !x.nan() {
        reveal(Binary64::product);
        if x.finite() {
            lemma_pow2_pos(1074);
            lemma_mul_is_commutative(pow2(1074) as int, x.units() as int);
            crate::order::lemma_rounded_exact(x, pow2(1074));
        } else {
            assert(Binary64::infinity(x.negative()).order() == x.order());
        }
    }
}

pub proof fn lemma_zero_plus(x: Binary64)
    ensures
        same_number(Binary64::integer(0).sum(x), x),
{
    lemma_zero();
    crate::order::lemma_nan_propagates(Binary64::integer(0), x);
    if !x.nan() {
        reveal(Binary64::sum);
        if x.finite() {
            crate::order::lemma_rounded_exact(x, 1);
            crate::binary64::lemma_significand(x);
        }
    }
}

pub proof fn lemma_minus_zero(x: Binary64)
    ensures
        same_number(x.difference(Binary64::integer(0)), x),
{
    lemma_zero();
    let z = Binary64::integer(0).negation();
    reveal(Binary64::difference);
    crate::order::lemma_nan_propagates(x, z);
    if !x.nan() {
        reveal(Binary64::sum);
        assert(z.magnitude() == 0);
        crate::binary64::lemma_significand(z);
        if x.finite() {
            crate::order::lemma_rounded_exact(x, 1);
            crate::binary64::lemma_significand(x);
        }
    }
}

/// A base of 0, a correction and a blocking factor of 1 and a threshold of 0
/// reproduce the uncalibrated arithmetic.
pub proof fn law_neutral_calibration_is_uncalibrated(
    queued: Binary64,
    throughput: Binary64,
    usage: Binary64,
    weight: Binary64,
    dispatched: u64,
)
    ensures
        same_number(
            ExpectedWait::prepared(
                queued,
                throughput,
                usage,
                Binary64::integer(0),
                Binary64::integer(1),
                Binary64::integer(1),
                Binary64::integer(0),
                weight,
            ).wait(dispatched),
            PreparedExpectedWait::prepared(queued, throughput, usage, weight).wait(dispatched),
        ),
{
    let zero = Binary64::integer(0);
    let one = Binary64::integer(1);
    let d = Binary64::integer(dispatched as int);
    let work = queued.sum(one.product(d));
    let plain = queued.sum(d);
    lemma_one_times(d);
    lemma_same_sum(one.product(d), d, queued);
    lemma_one_times(work);
    lemma_same_transitive(one.product(work), work, plain);
    lemma_same_quotient(one.product(work), plain, throughput);
    let ours = one.product(work).quotient(throughput);
    let theirs = plain.quotient(throughput);
    lemma_zero_plus(ours);
    lemma_same_transitive(zero.sum(ours), ours, theirs);
    // the penalty
    let k = crate::expected_wait::bounded_usage(usage);
    let excess = k.difference(zero);
    let part = crate::expected_wait::positive_part(excess);
    let room = one.difference(k);
    let above = crate::expected_wait::kv_penalty_above(usage, zero, weight);
    let plain_penalty = crate::expected_wait::kv_penalty(usage, weight);
    lemma_minus_zero(k);
    lemma_zero();
    if k.nan() {
        crate::order::lemma_nan_propagates(one, k);
        crate::order::lemma_nan_propagates(weight.product(part), room);
        crate::order::lemma_nan_propagates(weight.product(k), room);
    } else {
        law_usage_is_bounded(usage);
        assert(same_number(part, k));
        lemma_same_product(part, k, weight);
        lemma_same_quotient(weight.product(part), weight.product(k), room);
    }
    assert(same_number(above, plain_penalty));
    lemma_same_sum(zero.sum(ours), theirs, above);
    lemma_same_sum(above, plain_penalty, theirs);
    lemma_same_transitive(
        zero.sum(ours).sum(above),
        theirs.sum(above),
        theirs.sum(plain_penalty),
    );
}

/// The formula sees a usage between 0 and 0.999.
pub proof fn law_usage_is_bounded(usage: Binary64)
    requires
        !usage.nan(),
    ensures
        Binary64::integer(0).at_most(crate::expected_wait::bounded_usage(usage)),
        crate::expected_wait::bounded_usage(usage).at_most(Binary64::ratio(999, 1000)),
{
    lemma_zero();
    lemma_ratio_sign(999, 1000);
}

proof fn lemma_ratio_sign(num: nat, den: nat)
    ensures
        crate::order::nonnegative(Binary64::ratio(num, den)),
        Binary64::ratio(num, den).order() >= 0,
{
    reveal(Binary64::ratio);
    crate::order::lemma_rounded_sign(false, num * pow2(1074), den);
}

/// KV usage at or below the threshold adds no penalty.
pub proof fn law_no_penalty_up_to_threshold(usage: Binary64, threshold: Binary64, weight: Binary64)
    requires
        weight.finite(),
        crate::expected_wait::bounded_usage(usage).at_most(threshold),
    ensures
        crate::expected_wait::kv_penalty_above(usage, threshold, weight).magnitude() == 0,
{
    let k = crate::expected_wait::bounded_usage(usage);
    lemma_zero();
    lemma_difference_not_positive(k, threshold);
    let zero = Binary64::integer(0);
    lemma_times_zero(weight);
    lemma_room(usage);
    lemma_zero_over(weight.product(zero), Binary64::integer(1).difference(k));
}

/// A weight of zero disables the penalty.
pub proof fn law_zero_weight_disables_penalty(
    usage: Binary64,
    threshold: Binary64,
    weight: Binary64,
)
    requires
        !usage.nan(),
        threshold.finite(),
        Binary64::integer(0).at_most(threshold),
        weight.magnitude() == 0,
    ensures
        crate::expected_wait::kv_penalty_above(usage, threshold, weight).magnitude() == 0,
{
    let k = crate::expected_wait::bounded_usage(usage);
    let excess = k.difference(threshold);
    let part = crate::expected_wait::positive_part(excess);
    lemma_zero();
    lemma_usage_finite(usage);
    lemma_penalty_part_finite(k, threshold);
    lemma_zero_times(weight, part);
    lemma_room(usage);
    lemma_zero_over(weight.product(part), Binary64::integer(1).difference(k));
}

proof fn lemma_times_zero(weight: Binary64)
    requires
        weight.finite(),
    ensures
        weight.product(Binary64::integer(0)).magnitude() == 0,
{
    lemma_zero();
    reveal(Binary64::product);
    lemma_mul_by_zero_is_zero(weight.units() as int);
    lemma_pow2_pos(1074);
    crate::binary64::lemma_rounded_zero(weight.negative(), pow2(1074));
}

pub proof fn lemma_zero_times(weight: Binary64, x: Binary64)
    requires
        weight.magnitude() == 0,
        x.finite(),
    ensures
        weight.product(x).magnitude() == 0,
{
    reveal(Binary64::product);
    crate::binary64::lemma_significand(weight);
    lemma_mul_by_zero_is_zero(x.units() as int);
    lemma_pow2_pos(1074);
    crate::binary64::lemma_rounded_zero(weight.negative() != x.negative(), pow2(1074));
}

pub proof fn lemma_zero_over(x: Binary64, y: Binary64)
    requires
        x.magnitude() == 0,
        !y.nan(),
        y.magnitude() > 0,
    ensures
        x.quotient(y).magnitude() == 0,
{
    reveal(Binary64::quotient);
    if y.finite() {
        crate::binary64::lemma_significand(x);
        crate::binary64::lemma_significand(y);
        lemma_mul_by_zero_is_zero(pow2(1074) as int);
        crate::binary64::lemma_rounded_zero(x.negative() != y.negative(), y.units());
    }
}

/// `x - y` is not above zero if `x` is at most `y`.
proof fn lemma_difference_not_positive(x: Binary64, y: Binary64)
    requires
        x.at_most(y),
    ensures
        crate::expected_wait::positive_part(x.difference(y)) == Binary64::integer(0),
{
    lemma_zero();
    reveal(Binary64::difference);
    reveal(Binary64::sum);
    let z = y.negation();
    assert(z.magnitude() == y.magnitude());
    assert(z.negative() != y.negative());
    if x.finite() && y.finite() {
        assert(z.units() == y.units());
        crate::order::lemma_units_order(x, y);
        crate::order::lemma_units_order(y, x);
        crate::binary64::lemma_significand(x);
        crate::binary64::lemma_significand(y);
        let total = x.signed_units() + z.signed_units();
        assert(total <= 0);
        if total < 0 {
            crate::order::lemma_rounded_sign(true, (-total) as nat, 1);
        }
    }
}

/// The largest usage that the formula sees is below one.
proof fn lemma_high_usage()
    ensures
        Binary64::ratio(999, 1000).finite(),
        Binary64::ratio(999, 1000).units() < pow2(1074),
        !Binary64::ratio(999, 1000).negative(),
{
    reveal(Binary64::ratio);
    // 999/1000 lies below 1 - 2^-10, which is representable
    let below = Binary64 { bits: 0x3fef_f800_0000_0000 };
    assert(below.scale() == 1021);
    assert(below.significand() == 0x1f_f800_0000_0000);
    crate::rounding::lemma_pow2_52();
    lemma_pow2_adds(52, 1021);
    lemma_pow2_unfold(1074);
    lemma_pow2_pos(1021);
    let p = pow2(1021);
    assert(pow2(1074) == 0x20_0000_0000_0000 * p);
    assert(below.units() == 0x1f_f800_0000_0000 * p);
    assert((999 * pow2(1074)) * 1 <= below.units() * 1000) by (nonlinear_arith)
        requires
            pow2(1074) == 0x20_0000_0000_0000 * p,
            below.units() == 0x1f_f800_0000_0000 * p,
    ;
    crate::order::lemma_exact(below, 1);
    crate::rounding::lemma_encoding_monotone(999 * pow2(1074), 1000, below.units(), 1);
    let high = Binary64::rounded(false, 999 * pow2(1074), 1000);
    crate::order::lemma_rounded_sign(false, 999 * pow2(1074), 1000);
    crate::order::lemma_units_order(high, below);
}

proof fn lemma_usage_finite(usage: Binary64)
    requires
        !usage.nan(),
    ensures
        crate::expected_wait::bounded_usage(usage).finite(),
        crate::expected_wait::bounded_usage(usage).signed_units() < pow2(1074),
        crate::expected_wait::bounded_usage(usage).order() >= 0,
{
    lemma_zero();
    lemma_high_usage();
    let k = crate::expected_wait::bounded_usage(usage);
    let high = Binary64::ratio(999, 1000);
    lemma_pow2_pos(1074);
    law_usage_is_bounded(usage);
    if k.negative() {
        crate::binary64::lemma_significand(k);
    } else {
        crate::order::lemma_units_order(k, high);
    }
}

/// `1 - k` is a positive number for every usage that the formula sees.
pub proof fn lemma_room(usage: Binary64)
    requires
        !crate::expected_wait::bounded_usage(usage).nan(),
    ensures
        crate::order::nonnegative(
            Binary64::integer(1).difference(crate::expected_wait::bounded_usage(usage)),
        ),
        Binary64::integer(1).difference(
            crate::expected_wait::bounded_usage(usage),
        ).magnitude() > 0,
        Binary64::integer(1).difference(crate::expected_wait::bounded_usage(usage)).finite(),
{
    let k = crate::expected_wait::bounded_usage(usage);
    if usage.nan() {
        assert(k == usage);
    }
    lemma_one();
    lemma_usage_finite(usage);
    reveal(Binary64::difference);
    reveal(Binary64::sum);
    let z = k.negation();
    assert(z.magnitude() == k.magnitude());
    assert(z.units() == k.units());
    let total = Binary64::integer(1).signed_units() + z.signed_units();
    crate::binary64::lemma_significand(k);
    assert(total > 0);
    crate::order::lemma_rounded_sign(false, total as nat, 1);
    crate::order::lemma_rounded_positive(total as nat, 1);
    let one = Binary64::integer(1);
    crate::order::lemma_exact(one, 1);
    crate::rounding::lemma_encoding_monotone(total as nat, 1, one.units(), 1);
}

/// What is left of a usage above a threshold is at most the usage.
proof fn lemma_penalty_part_finite(k: Binary64, threshold: Binary64)
    requires
        k.finite(),
        k.order() >= 0,
        threshold.finite(),
        Binary64::integer(0).at_most(threshold),
    ensures
        crate::expected_wait::positive_part(k.difference(threshold)).finite(),
        crate::order::nonnegative(
            crate::expected_wait::positive_part(k.difference(threshold)),
        ),
{
    lemma_zero();
    reveal(Binary64::difference);
    reveal(Binary64::sum);
    let z = threshold.negation();
    assert(z.magnitude() == threshold.magnitude());
    assert(z.units() == threshold.units());
    crate::binary64::lemma_significand(k);
    crate::binary64::lemma_significand(threshold);
    let total = k.signed_units() + z.signed_units();
    if total > 0 {
        assert(total <= k.units());
        crate::order::lemma_rounded_sign(false, total as nat, 1);
        crate::order::lemma_exact(k, 1);
        crate::rounding::lemma_encoding_monotone(total as nat, 1, k.units(), 1);
    } else if total < 0 {
        crate::order::lemma_rounded_sign(true, (-total) as nat, 1);
    }
}

/// What validation says of the numbers that an estimate is made with.
proof fn lemma_valid_numbers(config: EstimatedWaitConfig)
    requires
        config.valid(),
    ensures
        crate::order::nonnegative(config.estimated_wait_kv_pressure_weight),
        config.estimated_wait_kv_pressure_weight.finite(),
        crate::order::nonnegative(config.estimated_wait_kv_pressure_threshold),
        config.estimated_wait_kv_pressure_threshold.finite(),
        crate::order::nonnegative(config.estimated_wait_base_overhead_secs),
        crate::order::nonnegative(config.estimated_wait_queue_work_correction),
        crate::order::nonnegative(config.estimated_wait_dispatch_blocking_factor),
        crate::config::positive_finite(config.estimated_wait_fallback_prefill_throughput),
        config.max_estimated_wait_secs matches Some(secs) ==> crate::config::positive_finite(secs),
        crate::config::positive_finite(config.estimated_wait_max_snapshot_age_secs),
        config.estimated_wait_mean_prefill_tokens > 0,
{
    lemma_zero();
    let fields = config.checked_fields();
    assert(fields[0].acceptable());
    assert(fields[1].acceptable());
    assert(fields[2].acceptable());
    assert(fields[3].acceptable());
    assert(fields[4].acceptable());
    assert(fields[5].acceptable());
    assert(fields[6].acceptable());
    assert(fields[7].acceptable());
    assert(fields[8].acceptable());
}

/// The capacity of an estimate is a positive number.
pub proof fn law_capacity_is_positive(config: EstimatedWaitConfig, load: LoadView)
    requires
        config.valid(),
    ensures
        config.prepared(load) matches Some(prepared) ==> crate::config::positive_finite(
            prepared.effective_prefill_capacity,
        ) && prepared.estimate.throughput == prepared.effective_prefill_capacity,
{
    lemma_valid_numbers(config);
}

/// The assumed prompt size of a rank is not negative.
proof fn lemma_prompt_size_nonnegative(config: EstimatedWaitConfig, rank: SchedulerLoadSnapshot)
    requires
        !config.prompt_size(rank).nan(),
    ensures
        crate::order::nonnegative(config.prompt_size(rank)),
{
    lemma_zero();
    crate::order::lemma_integer_order(
        config.estimated_wait_queue_tokens_per_request as int,
        config.estimated_wait_queue_tokens_per_request as int,
    );
    crate::order::lemma_integer_order(
        config.estimated_wait_mean_prefill_tokens as int,
        config.estimated_wait_mean_prefill_tokens as int,
    );
    match crate::config::observed_prompt_size(rank) {
        Some((median, count)) => {
            let prior = config.prompt_size_prior();
            let pw = Binary64::integer(config.estimated_wait_prompt_size_prior_samples as int);
            let ow = Binary64::integer(count as int);
            law_blending_weight_is_positive(
                config.estimated_wait_prompt_size_prior_samples,
                count,
            );
            crate::order::lemma_integer_order(
                config.estimated_wait_prompt_size_prior_samples as int,
                config.estimated_wait_prompt_size_prior_samples as int,
            );
            crate::order::lemma_integer_order(count as int, count as int);
            let top = prior.product(pw).sum(median.product(ow));
            crate::order::lemma_nan_propagates(top, pw.sum(ow));
            crate::order::lemma_nan_propagates(prior.product(pw), median.product(ow));
            crate::order::lemma_product_nonnegative(prior, pw);
            crate::order::lemma_product_nonnegative(median, ow);
            crate::order::lemma_sum_nonnegative(prior.product(pw), median.product(ow));
            crate::order::lemma_quotient_nonnegative(top, pw.sum(ow));
        },
        None => {},
    }
}

/// A blend of a prior with at least one sample never divides by zero.
pub proof fn law_blending_weight_is_positive(prior_samples: u32, samples: u64)
    requires
        samples > 0,
    ensures
        Binary64::integer(0).less(
            Binary64::integer(prior_samples as int).sum(Binary64::integer(samples as int)),
        ),
{
    let pw = Binary64::integer(prior_samples as int);
    let ow = Binary64::integer(samples as int);
    lemma_zero();
    lemma_one();
    crate::order::lemma_integer_order(prior_samples as int, prior_samples as int);
    crate::order::lemma_integer_order(1, samples as int);
    crate::order::lemma_sum_nonnegative(ow, pw);
    crate::order::lemma_sum_commutes(ow, pw);
}

/// The backlog of a usable rank is not negative.
proof fn lemma_rank_backlog_nonnegative(config: EstimatedWaitConfig, rank: SchedulerLoadSnapshot)
    requires
        rank.well_formed(),
        !config.rank_backlog(rank).nan(),
    ensures
        crate::order::nonnegative(config.rank_backlog(rank)),
        rank.tokens_unavailable() ==> crate::order::nonnegative(config.prompt_size(rank)),
{
    if rank.tokens_unavailable() {
        let reqs = Binary64::integer(rank.num_waiting_reqs as int);
        let size = config.prompt_size(rank);
        crate::order::lemma_nan_propagates(reqs, size);
        crate::order::lemma_integer_order(
            rank.num_waiting_reqs as int,
            rank.num_waiting_reqs as int,
        );
        lemma_prompt_size_nonnegative(config, rank);
        crate::order::lemma_product_nonnegative(reqs, size);
    } else {
        crate::order::lemma_integer_order(
            rank.num_waiting_uncached_tokens as int,
            rank.num_waiting_uncached_tokens as int,
        );
    }
}

/// The backlog of usable ranks is not negative.
proof fn lemma_backlog_nonnegative(
    config: EstimatedWaitConfig,
    ranks: Seq<SchedulerLoadSnapshot>,
    signal: spec_fn(SchedulerLoadSnapshot) -> Binary64,
)
    requires
        signal == (|rank: SchedulerLoadSnapshot| config.rank_backlog(rank)),
        forall|i: int| 0 <= i < ranks.len() ==> (#[trigger] ranks[i]).well_formed(),
        !crate::load::total(ranks, signal).nan(),
    ensures
        crate::order::nonnegative(crate::load::total(ranks, signal)),
    decreases ranks.len(),
{
    if ranks.len() == 0 {
        lemma_zero();
    } else {
        let rest = crate::load::total(ranks.drop_last(), signal);
        let rank = ranks.last();
        let own = signal(rank);
        crate::order::lemma_nan_propagates(rest, own);
        assert(ranks[ranks.len() - 1].well_formed());
        assert forall|i: int| 0 <= i < ranks.drop_last().len() implies (
        #[trigger] ranks.drop_last()[i]).well_formed() by {
            assert(ranks.drop_last()[i] == ranks[i]);
        }
        lemma_backlog_nonnegative(config, ranks.drop_last(), signal);
        lemma_rank_backlog_nonnegative(config, rank);
        crate::order::lemma_sum_nonnegative(rest, own);
    }
}

/// A wait that is a number was made of numbers.
pub proof fn lemma_wait_of_numbers(e: ExpectedWait, dispatched: u64)
    requires
        !e.wait(dispatched).nan(),
    ensures
        ({
            let blocking = e.dispatch_blocking_factor.product(
                Binary64::integer(dispatched as int),
            );
            let work = e.queued_tokens.sum(blocking);
            let corrected = e.queue_work_correction.product(work);
            let delay = corrected.quotient(e.throughput);
            &&& !e.queued_tokens.nan()
            &&& !blocking.nan()
            &&& !work.nan()
            &&& !corrected.nan()
            &&& !delay.nan()
            &&& !e.base_overhead_secs.sum(delay).nan()
        }),
{
    let blocking = e.dispatch_blocking_factor.product(Binary64::integer(dispatched as int));
    let work = e.queued_tokens.sum(blocking);
    let corrected = e.queue_work_correction.product(work);
    let delay = corrected.quotient(e.throughput);
    crate::order::lemma_nan_propagates(e.base_overhead_secs.sum(delay), e.kv_wait);
    crate::order::lemma_nan_propagates(e.base_overhead_secs, delay);
    crate::order::lemma_nan_propagates(corrected, e.throughput);
    crate::order::lemma_nan_propagates(e.queue_work_correction, work);
    crate::order::lemma_nan_propagates(e.queued_tokens, blocking);
}

/// More queued or dispatched tokens never make a wait shorter.
proof fn lemma_wait_monotone(e: ExpectedWait, queued: Binary64, fewer: u64, more: u64)
    requires
        crate::order::nonnegative(e.queued_tokens),
        crate::order::nonnegative(queued),
        e.queued_tokens.order() <= queued.order(),
        fewer <= more,
        crate::order::nonnegative(e.dispatch_blocking_factor),
        crate::order::nonnegative(e.queue_work_correction),
        crate::config::positive_finite(e.throughput),
        !e.wait(fewer).nan(),
        !(ExpectedWait { queued_tokens: queued, ..e }).wait(more).nan(),
    ensures
        e.wait(fewer).at_most((ExpectedWait { queued_tokens: queued, ..e }).wait(more)),
{
    let f = ExpectedWait { queued_tokens: queued, ..e };
    lemma_zero();
    lemma_wait_of_numbers(e, fewer);
    lemma_wait_of_numbers(f, more);
    let rho = e.dispatch_blocking_factor;
    let alpha = e.queue_work_correction;
    let (d1, d2) = (Binary64::integer(fewer as int), Binary64::integer(more as int));
    crate::order::lemma_integer_order(fewer as int, more as int);
    let (b1, b2) = (rho.product(d1), rho.product(d2));
    let (w1, w2) = (e.queued_tokens.sum(b1), queued.sum(b2));
    let (a1, a2) = (alpha.product(w1), alpha.product(w2));
    let (q1, q2) = (a1.quotient(e.throughput), a2.quotient(e.throughput));
    let (s1, s2) = (e.base_overhead_secs.sum(q1), e.base_overhead_secs.sum(q2));
    crate::order::lemma_product_nonnegative(rho, d1);
    crate::order::lemma_product_nonnegative(rho, d2);
    crate::order::lemma_product_monotone(rho, d1, d2);
    crate::order::lemma_sum_nonnegative(e.queued_tokens, b1);
    crate::order::lemma_sum_nonnegative(queued, b2);
    crate::order::lemma_sum_monotone_both(e.queued_tokens, queued, b1, b2);
    crate::order::lemma_product_nonnegative(alpha, w1);
    crate::order::lemma_product_nonnegative(alpha, w2);
    crate::order::lemma_product_monotone(alpha, w1, w2);
    crate::order::lemma_quotient_monotone(a1, a2, e.throughput);
    crate::order::lemma_sum_monotone(e.base_overhead_secs, q1, q2);
    crate::order::lemma_sum_commutes(s1, e.kv_wait);
    crate::order::lemma_sum_commutes(s2, e.kv_wait);
    crate::order::lemma_sum_monotone(e.kv_wait, s1, s2);
}

/// What is dispatched to a worker never makes its expected wait shorter.
pub proof fn law_wait_grows_with_dispatch(
    config: EstimatedWaitConfig,
    load: LoadView,
    prepared: PreparedWait,
    fewer: u64,
    more: u64,
)
    requires
        config.valid(),
        config.prepared(load) == Some(prepared),
        fewer <= more,
        !prepared.estimate.wait(fewer).nan(),
        !prepared.estimate.wait(more).nan(),
    ensures
        prepared.estimate.wait(fewer).at_most(prepared.estimate.wait(more)),
{
    let e = prepared.estimate;
    lemma_valid_numbers(config);
    law_capacity_is_positive(config, load);
    lemma_wait_of_numbers(e, fewer);
    let signal = |rank: SchedulerLoadSnapshot| config.rank_backlog(rank);
    lemma_backlog_nonnegative(config, load.ranks, signal);
    lemma_wait_monotone(e, e.queued_tokens, fewer, more);
}

/// Whether two reports tell the same but for the queues, and no rank's queue is
/// shorter in the second: its tokens where the rank tells them, and its waiting
/// requests where it does not.
pub open spec fn queues_grow(
    ranks: Seq<SchedulerLoadSnapshot>,
    others: Seq<SchedulerLoadSnapshot>,
) -> bool {
    &&& ranks.len() == others.len()
    &&& forall|i: int| 0 <= i < ranks.len() ==> queue_grows(#[trigger] ranks[i], others[i])
}

pub open spec fn queue_grows(rank: SchedulerLoadSnapshot, other: SchedulerLoadSnapshot) -> bool {
    &&& other == SchedulerLoadSnapshot {
        num_waiting_reqs: other.num_waiting_reqs,
        num_waiting_uncached_tokens: other.num_waiting_uncached_tokens,
        ..rank
    }
    &&& if rank.tokens_unavailable() {
        rank.num_waiting_reqs <= other.num_waiting_reqs
    } else {
        rank.num_waiting_uncached_tokens <= other.num_waiting_uncached_tokens
    }
}

proof fn lemma_rank_backlog_grows(
    config: EstimatedWaitConfig,
    rank: SchedulerLoadSnapshot,
    other: SchedulerLoadSnapshot,
)
    requires
        queue_grows(rank, other),
        rank.well_formed(),
        other.well_formed(),
        !config.rank_backlog(rank).nan(),
        !config.rank_backlog(other).nan(),
    ensures
        config.rank_backlog(rank).order() <= config.rank_backlog(other).order(),
{
    lemma_rank_backlog_nonnegative(config, rank);
    if rank.tokens_unavailable() {
        let (x, y) = (rank.num_waiting_reqs as int, other.num_waiting_reqs as int);
        let size = config.prompt_size(rank);
        assert(config.prompt_size(other) == size);
        crate::order::lemma_integer_order(x, y);
        crate::order::lemma_product_commutes(Binary64::integer(x), size);
        crate::order::lemma_product_commutes(Binary64::integer(y), size);
        crate::order::lemma_product_monotone(size, Binary64::integer(x), Binary64::integer(y));
    } else {
        crate::order::lemma_integer_order(
            rank.num_waiting_uncached_tokens as int,
            other.num_waiting_uncached_tokens as int,
        );
    }
}

proof fn lemma_backlog_grows(
    config: EstimatedWaitConfig,
    ranks: Seq<SchedulerLoadSnapshot>,
    others: Seq<SchedulerLoadSnapshot>,
    signal: spec_fn(SchedulerLoadSnapshot) -> Binary64,
)
    requires
        signal == (|rank: SchedulerLoadSnapshot| config.rank_backlog(rank)),
        queues_grow(ranks, others),
        forall|i: int| 0 <= i < ranks.len() ==> (#[trigger] ranks[i]).well_formed(),
        forall|i: int| 0 <= i < others.len() ==> (#[trigger] others[i]).well_formed(),
        !crate::load::total(ranks, signal).nan(),
        !crate::load::total(others, signal).nan(),
    ensures
        crate::load::total(ranks, signal).order() <= crate::load::total(others, signal).order(),
    decreases ranks.len(),
{
    if ranks.len() > 0 {
        let (r, o) = (ranks.drop_last(), others.drop_last());
        let last = ranks.len() - 1;
        assert(ranks[last].well_formed() && others[last].well_formed());
        assert forall|i: int| 0 <= i < r.len() implies (#[trigger] r[i]).well_formed() by {
            assert(r[i] == ranks[i]);
        }
        assert forall|i: int| 0 <= i < o.len() implies (#[trigger] o[i]).well_formed() by {
            assert(o[i] == others[i]);
        }
        assert forall|i: int| 0 <= i < r.len() implies queue_grows(#[trigger] r[i], o[i]) by {
            assert(queue_grows(ranks[i], others[i]));
        }
        let (x, y) = (signal(ranks[last]), signal(others[last]));
        crate::order::lemma_nan_propagates(crate::load::total(r, signal), x);
        crate::order::lemma_nan_propagates(crate::load::total(o, signal), y);
        lemma_backlog_grows(config, r, o, signal);
        lemma_backlog_nonnegative(config, r, signal);
        lemma_backlog_nonnegative(config, o, signal);
        lemma_rank_backlog_nonnegative(config, ranks[last]);
        lemma_rank_backlog_nonnegative(config, others[last]);
        lemma_rank_backlog_grows(config, ranks[last], others[last]);
        crate::order::lemma_sum_monotone_both(
            crate::load::total(r, signal),
            crate::load::total(o, signal),
            x,
            y,
        );
    }
}

proof fn lemma_last_prompt_size_agrees(
    config: EstimatedWaitConfig,
    ranks: Seq<SchedulerLoadSnapshot>,
    others: Seq<SchedulerLoadSnapshot>,
)
    requires
        queues_grow(ranks, others),
    ensures
        config.last_prompt_size(ranks) == config.last_prompt_size(others),
    decreases ranks.len(),
{
    if ranks.len() > 0 {
        let (r, o) = (ranks.drop_last(), others.drop_last());
        assert(queue_grows(ranks[ranks.len() - 1], others[ranks.len() - 1]));
        assert forall|i: int| 0 <= i < r.len() implies queue_grows(#[trigger] r[i], o[i]) by {
            assert(queue_grows(ranks[i], others[i]));
        }
        lemma_last_prompt_size_agrees(config, r, o);
    }
}

/// What a report tells beside its queues does not depend on them.
proof fn lemma_queues_tell_no_rates(
    ranks: Seq<SchedulerLoadSnapshot>,
    others: Seq<SchedulerLoadSnapshot>,
)
    requires
        queues_grow(ranks, others),
    ensures
        crate::config::reported_capacity(ranks) == crate::config::reported_capacity(others),
        crate::load::mean_token_usage(ranks) == crate::load::mean_token_usage(others),
{
    let usage = |rank: SchedulerLoadSnapshot| rank.token_usage;
    let generation = |rank: SchedulerLoadSnapshot| rank.gen_throughput;
    let prefill = |rank: SchedulerLoadSnapshot| rank.prefill_throughput;
    let learned = |rank: SchedulerLoadSnapshot| rank.learned_prefill_capacity;
    assert forall|i: int| 0 <= i < ranks.len() implies {
        let (rank, other) = (ranks[i], #[trigger] others[i]);
        &&& usage(other) == usage(rank)
        &&& generation(other) == generation(rank)
        &&& prefill(other) == prefill(rank)
        &&& learned(other) == learned(rank)
        &&& other.prefill_capacity_learning_active == rank.prefill_capacity_learning_active
    } by {
        assert(queue_grows(ranks[i], others[i]));
    }
    lemma_total_agrees(ranks, others, usage);
    lemma_total_agrees(ranks, others, generation);
    lemma_total_if_complete_agrees(ranks, others, prefill);
    lemma_total_if_complete_agrees(ranks, others, learned);
    if crate::config::learns_capacity(ranks) {
        let i = choose|i: int|
            0 <= i < ranks.len() && (#[trigger] ranks[i]).prefill_capacity_learning_active is Some;
        assert(others[i].prefill_capacity_learning_active is Some);
    }
    if crate::config::learns_capacity(others) {
        let i = choose|i: int|
            0 <= i < others.len() && (
            #[trigger] others[i]).prefill_capacity_learning_active is Some;
        assert(ranks[i].prefill_capacity_learning_active is Some);
    }
    let zero = Binary64::integer(0);
    if forall|i: int| 0 <= i < ranks.len() ==> zero.at_most((#[trigger] ranks[i]).gen_throughput) {
        assert forall|i: int| 0 <= i < others.len() implies zero.at_most(
            (#[trigger] others[i]).gen_throughput,
        ) by {
            assert(zero.at_most(ranks[i].gen_throughput));
        }
    }
    if forall|i: int| 0 <= i < others.len() ==> zero.at_most(
        (#[trigger] others[i]).gen_throughput,
    ) {
        assert forall|i: int| 0 <= i < ranks.len() implies zero.at_most(
            (#[trigger] ranks[i]).gen_throughput,
        ) by {
            assert(zero.at_most(others[i].gen_throughput));
        }
    }
}

/// A longer queue never makes the expected wait shorter, whether it is told in
/// tokens or in waiting requests, and changes nothing else of the estimate.
pub proof fn law_wait_grows_with_queue(
    config: EstimatedWaitConfig,
    load: LoadView,
    longer: LoadView,
    prepared: PreparedWait,
    other: PreparedWait,
    dispatched: u64,
)
    requires
        config.valid(),
        queues_grow(load.ranks, longer.ranks),
        config.prepared(load) == Some(prepared),
        config.prepared(longer) == Some(other),
        !prepared.estimate.wait(dispatched).nan(),
        !other.estimate.wait(dispatched).nan(),
    ensures
        prepared.estimate.wait(dispatched).at_most(other.estimate.wait(dispatched)),
        prepared.proxy == other.proxy,
        prepared.fallback == other.fallback,
        prepared.blended_prompt_size == other.blended_prompt_size,
        prepared.effective_prefill_capacity == other.effective_prefill_capacity,
{
    let (ranks, others) = (load.ranks, longer.ranks);
    let (e, f) = (prepared.estimate, other.estimate);
    lemma_queues_tell_no_rates(ranks, others);
    lemma_last_prompt_size_agrees(config, ranks, others);
    assert(prepared.proxy == other.proxy) by {
        if prepared.proxy {
            let i = choose|i: int|
                0 <= i < ranks.len() && (#[trigger] ranks[i]).tokens_unavailable();
            assert(queue_grows(ranks[i], others[i]));
            assert(others[i].tokens_unavailable());
        }
        if other.proxy {
            let i = choose|i: int|
                0 <= i < others.len() && (#[trigger] others[i]).tokens_unavailable();
            assert(queue_grows(ranks[i], others[i]));
            assert(ranks[i].tokens_unavailable());
        }
    }
    lemma_valid_numbers(config);
    law_capacity_is_positive(config, load);
    lemma_wait_of_numbers(e, dispatched);
    lemma_wait_of_numbers(f, dispatched);
    let signal = |rank: SchedulerLoadSnapshot| config.rank_backlog(rank);
    lemma_backlog_nonnegative(config, ranks, signal);
    lemma_backlog_nonnegative(config, others, signal);
    lemma_backlog_grows(config, ranks, others, signal);
    assert(f == ExpectedWait { queued_tokens: f.queued_tokens, ..e });
    lemma_wait_monotone(e, f.queued_tokens, dispatched, dispatched);
}

/// The numbers that a plain estimate is meant to be made of.
pub open spec fn plain_inputs(
    queued: Binary64,
    throughput: Binary64,
    usage: Binary64,
    weight: Binary64,
) -> bool {
    &&& queued.finite() && Binary64::integer(0).at_most(queued)
    &&& throughput.finite() && Binary64::integer(0).less(throughput)
    &&& weight.finite() && Binary64::integer(0).at_most(weight)
    &&& !usage.nan()
}

/// The penalty is not negative.
pub proof fn lemma_penalty_nonnegative(usage: Binary64, weight: Binary64)
    requires
        crate::order::nonnegative(weight),
        weight.finite(),
        !usage.nan(),
    ensures
        crate::order::nonnegative(crate::expected_wait::kv_penalty(usage, weight)),
{
    let k = crate::expected_wait::bounded_usage(usage);
    let room = Binary64::integer(1).difference(k);
    lemma_usage_finite(usage);
    lemma_room(usage);
    crate::order::lemma_product_is_number(weight, k);
    crate::order::lemma_product_nonnegative(weight, k);
    crate::order::lemma_quotient_is_number(weight.product(k), room);
    crate::order::lemma_quotient_nonnegative(weight.product(k), room);
}

/// The plain estimate is a number that is not negative, and what is dispatched
/// never makes it shorter.
pub proof fn law_plain_wait_grows_with_dispatch(
    queued: Binary64,
    throughput: Binary64,
    usage: Binary64,
    weight: Binary64,
    fewer: u64,
    more: u64,
)
    requires
        plain_inputs(queued, throughput, usage, weight),
        fewer <= more,
    ensures
        ({
            let e = PreparedExpectedWait::prepared(queued, throughput, usage, weight);
            &&& Binary64::integer(0).at_most(e.wait(fewer))
            &&& e.wait(fewer).at_most(e.wait(more))
        }),
{
    let e = PreparedExpectedWait::prepared(queued, throughput, usage, weight);
    lemma_zero();
    lemma_penalty_nonnegative(usage, weight);
    let (d1, d2) = (Binary64::integer(fewer as int), Binary64::integer(more as int));
    crate::order::lemma_integer_order(fewer as int, more as int);
    let (w1, w2) = (queued.sum(d1), queued.sum(d2));
    crate::order::lemma_sum_nonnegative(queued, d1);
    crate::order::lemma_sum_nonnegative(queued, d2);
    crate::order::lemma_sum_monotone(queued, d1, d2);
    crate::order::lemma_quotient_is_number(w1, throughput);
    crate::order::lemma_quotient_is_number(w2, throughput);
    let (q1, q2) = (w1.quotient(throughput), w2.quotient(throughput));
    crate::order::lemma_quotient_nonnegative(w1, throughput);
    crate::order::lemma_quotient_nonnegative(w2, throughput);
    crate::order::lemma_quotient_monotone(w1, w2, throughput);
    crate::order::lemma_sum_nonnegative(q1, e.kv_wait);
    crate::order::lemma_sum_nonnegative(q2, e.kv_wait);
    crate::order::lemma_sum_monotone_both(q1, q2, e.kv_wait, e.kv_wait);
}

/// Dispatched and queued tokens weigh the same: a wait is that of an estimate
/// whose queue holds the dispatched tokens already.
pub proof fn law_dispatched_tokens_weigh_as_queued(
    queued: Binary64,
    throughput: Binary64,
    usage: Binary64,
    weight: Binary64,
    dispatched: u64,
)
    ensures
        same_number(
            PreparedExpectedWait::prepared(queued, throughput, usage, weight).wait(dispatched),
            PreparedExpectedWait::prepared(
                queued.sum(Binary64::integer(dispatched as int)),
                throughput,
                usage,
                weight,
            ).wait(0),
        ),
{
    let zero = Binary64::integer(0);
    let work = queued.sum(Binary64::integer(dispatched as int));
    let penalty = crate::expected_wait::kv_penalty(usage, weight);
    lemma_zero_plus(work);
    crate::order::lemma_sum_commutes(work, zero);
    lemma_same_quotient(work.sum(zero), work, throughput);
    lemma_same_sum(work.sum(zero).quotient(throughput), work.quotient(throughput), penalty);
}

/// The largest usage that the formula sees, and the room that it leaves.
pub proof fn lemma_high_usage_bits()
    ensures
        Binary64::ratio(999, 1000).bits == 0x3fef_f7ce_d916_872b,
        Binary64::ratio(999, 1000).units() == 0x1f_f7ce_d916_872b * pow2(1021),
        Binary64::integer(1).difference(Binary64::ratio(999, 1000)).units() == 0x831_26e9_78d5
            * pow2(1021),
        pow2(1074) == 0x20_0000_0000_0000 * pow2(1021),
{
    let p = pow2(1021);
    lemma_pow2_pos(1021);
    crate::rounding::lemma_pow2_52();
    lemma_pow2_adds(53, 1021);
    lemma_pow2_adds(52, 1021);
    let top = pow2(1074);
    assert(top == 0x20_0000_0000_0000 * p);
    let num = 999 * top;
    let q = num / 1000;
    assert(pow2(1073) <= q < top);
    crate::rounding::lemma_spacing_unique(q, 1021);
    // 999 * 2^53 is 1000 * 0x1ff7ced916872b and 8 more
    assert(num == 0x1f_f7ce_d916_872b * (1000 * p) + 8 * p);
    lemma_fundamental_div_mod_converse(
        num as int,
        (1000 * p) as int,
        0x1f_f7ce_d916_872b,
        (8 * p) as int,
    );
    assert(crate::rounding::nearest_even(num, 1000 * p) == 0x1f_f7ce_d916_872b);
    reveal(Binary64::ratio);
    let high = Binary64 { bits: 0x3fef_f7ce_d916_872b };
    assert(Binary64::ratio(999, 1000) == high);
    assert(high.scale() == 1021);
    assert(high.significand() == 0x1f_f7ce_d916_872b);
    let room = Binary64 { bits: 0x3f50_624d_d2f1_aa00 };
    assert(room.scale() == 1012);
    assert(room.significand() == 0x10_624d_d2f1_aa00);
    lemma2_to64();
    lemma_pow2_adds(9, 1012);
    assert(room.units() == 0x831_26e9_78d5 * p);
    lemma_one();
    reveal(Binary64::difference);
    reveal(Binary64::sum);
    let z = high.negation();
    assert(z.magnitude() == high.magnitude());
    assert(z.units() == high.units());
    assert(Binary64::integer(1).signed_units() + z.signed_units() == room.units());
    crate::order::lemma_rounded_exact(room, 1);
}

/// A usage that is not lower leaves no more room.
proof fn lemma_usage_order(lower: Binary64, higher: Binary64)
    requires
        lower.at_most(higher),
    ensures
        ({
            let k = crate::expected_wait::bounded_usage(lower);
            let l = crate::expected_wait::bounded_usage(higher);
            let one = Binary64::integer(1);
            &&& !k.nan() && !l.nan()
            &&& k.order() <= l.order()
            &&& 0 < one.difference(l).order() <= one.difference(k).order()
        }),
{
    lemma_zero();
    lemma_ratio_sign(999, 1000);
    let k = crate::expected_wait::bounded_usage(lower);
    let l = crate::expected_wait::bounded_usage(higher);
    let one = Binary64::integer(1);
    law_usage_is_bounded(lower);
    law_usage_is_bounded(higher);
    lemma_room(lower);
    lemma_room(higher);
    assert(k.negation().order() == -k.order());
    assert(l.negation().order() == -l.order());
    assert(one.sum(l.negation()).order() <= one.sum(k.negation()).order()
        && one.difference(l) == one.sum(l.negation()) && one.difference(k) == one.sum(
        k.negation(),
    )) by {
        reveal(Binary64::difference);
        crate::order::lemma_sum_monotone(one, l.negation(), k.negation());
    }
}

/// `x / c` does not fall as `x` rises and `c` falls.
proof fn lemma_quotient_order(x: Binary64, y: Binary64, c: Binary64, d: Binary64)
    requires
        crate::order::nonnegative(x),
        crate::order::nonnegative(y),
        x.order() <= y.order(),
        c.finite(),
        d.finite(),
        0 < d.order() <= c.order(),
    ensures
        x.quotient(c).at_most(y.quotient(d)),
{
    crate::order::lemma_quotient_is_number(x, c);
    crate::order::lemma_quotient_is_number(y, c);
    crate::order::lemma_quotient_is_number(y, d);
    crate::order::lemma_quotient_monotone(x, y, c);
    crate::order::lemma_quotient_antitone(y, c, d);
}

/// KV usage that rises never lowers the penalty, with a threshold or without.
pub proof fn law_penalty_grows_with_usage(
    lower: Binary64,
    higher: Binary64,
    threshold: Binary64,
    weight: Binary64,
)
    requires
        lower.at_most(higher),
        weight.finite(),
        Binary64::integer(0).at_most(weight),
        threshold.finite(),
        Binary64::integer(0).at_most(threshold),
    ensures
        crate::expected_wait::kv_penalty(lower, weight).at_most(
            crate::expected_wait::kv_penalty(higher, weight),
        ),
        crate::expected_wait::kv_penalty_above(lower, threshold, weight).at_most(
            crate::expected_wait::kv_penalty_above(higher, threshold, weight),
        ),
{
    lemma_zero();
    lemma_usage_order(lower, higher);
    lemma_usage_finite(lower);
    lemma_usage_finite(higher);
    lemma_room(lower);
    lemma_room(higher);
    let k = crate::expected_wait::bounded_usage(lower);
    let l = crate::expected_wait::bounded_usage(higher);
    let one = Binary64::integer(1);
    let (c, d) = (one.difference(k), one.difference(l));
    crate::order::lemma_product_is_number(weight, k);
    crate::order::lemma_product_is_number(weight, l);
    crate::order::lemma_product_nonnegative(weight, k);
    crate::order::lemma_product_nonnegative(weight, l);
    crate::order::lemma_product_monotone(weight, k, l);
    lemma_quotient_order(weight.product(k), weight.product(l), c, d);
    lemma_penalty_part_finite(k, threshold);
    lemma_penalty_part_finite(l, threshold);
    let x = crate::expected_wait::positive_part(k.difference(threshold));
    let y = crate::expected_wait::positive_part(l.difference(threshold));
    assert(x.order() <= y.order()) by {
        let z = threshold.negation();
        reveal(Binary64::difference);
        crate::order::lemma_sum_commutes(k, z);
        crate::order::lemma_sum_commutes(l, z);
        assert(z.finite());
        lemma_finite_sum_is_number(z, k);
        lemma_finite_sum_is_number(z, l);
        crate::order::lemma_sum_monotone(z, k, l);
    }
    crate::order::lemma_product_is_number(weight, x);
    crate::order::lemma_product_is_number(weight, y);
    crate::order::lemma_product_nonnegative(weight, x);
    crate::order::lemma_product_nonnegative(weight, y);
    crate::order::lemma_product_monotone(weight, x, y);
    lemma_quotient_order(weight.product(x), weight.product(y), c, d);
}

proof fn lemma_finite_sum_is_number(a: Binary64, b: Binary64)
    requires
        a.finite(),
        b.finite(),
    ensures
        !a.sum(b).nan(),
{
    reveal(Binary64::sum);
    let total = a.signed_units() + b.signed_units();
    if total < 0 {
        crate::order::lemma_rounded_sign(true, (-total) as nat, 1);
    } else if total > 0 {
        crate::order::lemma_rounded_sign(false, total as nat, 1);
    }
}

/// The penalty at the largest usage that the formula sees is finite where 999
/// times the weight is.
proof fn lemma_highest_penalty_finite(weight: Binary64)
    requires
        weight.finite(),
        crate::order::nonnegative(weight),
        weight.product(Binary64::integer(999)).finite(),
    ensures
        crate::expected_wait::kv_penalty(Binary64::ratio(999, 1000), weight).finite(),
{
    let high = Binary64::ratio(999, 1000);
    let room = Binary64::integer(1).difference(high);
    let part = weight.product(high);
    let p = pow2(1021);
    let top = pow2(1074);
    lemma_zero();
    lemma_high_usage_bits();
    lemma_room(high);
    lemma_ratio_sign(999, 1000);
    assert(crate::expected_wait::bounded_usage(high) == high);
    lemma_pow2_pos(1021);
    crate::order::lemma_product_is_number(weight, high);
    crate::order::lemma_product_nonnegative(weight, high);
    let w = weight.units();
    // 999 is represented exactly
    let k = Binary64 { bits: 0x408f_3800_0000_0000 };
    assert(k.scale() == 1031);
    assert(k.significand() == 0x1f_3800_0000_0000);
    lemma2_to64();
    lemma_pow2_adds(10, 1021);
    assert(k.units() == 999 * top);
    crate::order::lemma_rounded_exact(k, 1);
    assert(Binary64::integer(999) == k) by {
        reveal(Binary64::integer);
    }
    assert(part.finite()) by {
        lemma_one();
        lemma_one_times(weight);
        assert(high.order() <= Binary64::integer(1).order());
        crate::order::lemma_product_commutes(Binary64::integer(1), weight);
        crate::order::lemma_product_monotone(weight, high, Binary64::integer(1));
    }
    crate::error_laws::lemma_product_error(weight, high);
    let x = part.units();
    let n = x * top;
    let d = room.units();
    assert(crate::expected_wait::kv_penalty(high, weight).magnitude()
        == crate::rounding::rounded_magnitude(n, d)) by {
        reveal(Binary64::quotient);
        crate::binary64::lemma_significand(room);
        crate::order::lemma_rounded_sign(part.negative() != room.negative(), n, d);
    }
    let h = high.units();
    let error = crate::order::distance(n, w * h);
    assert(w * h == 0x1f_f7ce_d916_872b * (w * p)) by (nonlinear_arith)
        requires
            h == 0x1f_f7ce_d916_872b * p,
    ;
    assert(w * d == 0x831_26e9_78d5 * (w * p)) by (nonlinear_arith)
        requires
            d == 0x831_26e9_78d5 * p,
    ;
    assert(w * p >= 0) by (nonlinear_arith);
    if crate::order::parts(error) <= w * h {
        assert(n <= 999 * (w * d));
        let exact = w * k.units();
        assert(weight.product(k).magnitude() == crate::rounding::rounded_magnitude(
            exact,
            top,
        )) by {
            reveal(Binary64::product);
            crate::order::lemma_rounded_sign(weight.negative() != k.negative(), exact, top);
        }
        assert(n * top <= exact * d) by (nonlinear_arith)
            requires
                n <= 999 * (w * d),
                exact == w * (999 * top),
                top >= 0,
        ;
        crate::rounding::lemma_encoding_monotone(n, d, exact, top);
    } else {
        // a weight this small has a small penalty
        assert(2 * error <= top);
        assert(w * p <= pow2(53) * p) by {
            crate::rounding::lemma_pow2_52();
        }
        let small = Binary64 { bits: 0x0410_0000_0000_0000 };
        assert(small.scale() == 64);
        assert(small.significand() == 0x10_0000_0000_0000);
        crate::rounding::lemma_pow2_52();
        assert(small.units() == 0x10_0000_0000_0000 * pow2(64));
        lemma2_to64_rest();
        let u = small.units();
        assert(n <= 0x400_0000_0000_0000_0000_0000_0000 * p);
        assert(n * 1 <= u * d) by (nonlinear_arith)
            requires
                n <= 0x400_0000_0000_0000_0000_0000_0000 * p,
                u >= 0x400_0000_0000_0000_0000_0000_0000,
                d == 0x831_26e9_78d5 * p,
                p > 0,
        ;
        crate::order::lemma_exact(small, 1);
        crate::rounding::lemma_encoding_monotone(n, d, small.units(), 1);
    }
}

/// The penalty is finite where 999 times the weight is, with a threshold or
/// without.
pub proof fn law_penalty_is_finite(usage: Binary64, threshold: Binary64, weight: Binary64)
    requires
        !usage.nan(),
        weight.finite(),
        Binary64::integer(0).at_most(weight),
        weight.product(Binary64::integer(999)).finite(),
        threshold.finite(),
        Binary64::integer(0).at_most(threshold),
    ensures
        crate::expected_wait::kv_penalty(usage, weight).finite(),
        crate::expected_wait::kv_penalty_above(usage, threshold, weight).finite(),
{
    lemma_zero();
    lemma_ratio_sign(999, 1000);
    let high = Binary64::ratio(999, 1000);
    let k = crate::expected_wait::bounded_usage(usage);
    let room = Binary64::integer(1).difference(k);
    law_usage_is_bounded(usage);
    lemma_usage_finite(usage);
    lemma_room(usage);
    lemma_highest_penalty_finite(weight);
    assert(crate::expected_wait::bounded_usage(k) == k);
    law_penalty_grows_with_usage(k, high, threshold, weight);
    lemma_penalty_nonnegative(usage, weight);
    lemma_penalty_part_finite(k, threshold);
    let x = crate::expected_wait::positive_part(k.difference(threshold));
    assert(x.order() <= k.order()) by {
        lemma_minus_zero(k);
        let z = threshold.negation();
        let zero = Binary64::integer(0).negation();
        reveal(Binary64::difference);
        assert(z.finite() && zero.finite());
        lemma_finite_sum_is_number(k, z);
        lemma_finite_sum_is_number(k, zero);
        crate::order::lemma_sum_monotone(k, z, zero);
    }
    crate::order::lemma_product_is_number(weight, x);
    crate::order::lemma_product_is_number(weight, k);
    crate::order::lemma_product_nonnegative(weight, x);
    crate::order::lemma_product_nonnegative(weight, k);
    crate::order::lemma_product_monotone(weight, x, k);
    lemma_quotient_order(weight.product(x), weight.product(k), room, room);
    crate::order::lemma_quotient_is_number(weight.product(x), room);
    crate::order::lemma_quotient_nonnegative(weight.product(x), room);
}

/// A report in which every rank tells its queued tokens, zero included, is
/// taken at its word: the backlog is their sum, whatever the configuration
/// assumes of waiting requests.
pub proof fn law_reported_tokens_are_exact(
    config: EstimatedWaitConfig,
    ranks: Seq<SchedulerLoadSnapshot>,
)
    requires
        forall|i: int| 0 <= i < ranks.len() ==> !(#[trigger] ranks[i]).tokens_unavailable(),
    ensures
        config.backlog(ranks) == crate::load::total(
            ranks,
            |rank: SchedulerLoadSnapshot|
                Binary64::integer(rank.num_waiting_uncached_tokens as int),
        ),
        config.last_prompt_size(ranks) is None,
    decreases ranks.len(),
{
    if ranks.len() > 0 {
        let rest = ranks.drop_last();
        assert forall|i: int| 0 <= i < rest.len() implies !(
        #[trigger] rest[i]).tokens_unavailable() by {
            assert(rest[i] == ranks[i]);
        }
        law_reported_tokens_are_exact(config, rest);
        assert(!ranks[ranks.len() - 1].tokens_unavailable());
    }
}

/// The live rates of a backend that learns its capacity are not its capacity:
/// reports that differ in them alone give the same capacity.
pub proof fn law_live_rates_are_not_learned_capacity(
    ranks: Seq<SchedulerLoadSnapshot>,
    others: Seq<SchedulerLoadSnapshot>,
)
    requires
        crate::config::learns_capacity(ranks),
        ranks.len() == others.len(),
        forall|i: int|
            0 <= i < ranks.len() ==> (#[trigger] others[i]) == (SchedulerLoadSnapshot {
                gen_throughput: others[i].gen_throughput,
                prefill_throughput: others[i].prefill_throughput,
                ..ranks[i]
            }),
    ensures
        crate::config::reported_capacity(ranks) == crate::config::reported_capacity(others),
{
    let i = choose|i: int|
        0 <= i < ranks.len() && (#[trigger] ranks[i]).prefill_capacity_learning_active is Some;
    assert(others[i].prefill_capacity_learning_active is Some);
    let known = |rank: SchedulerLoadSnapshot| rank.learned_prefill_capacity;
    assert forall|j: int| 0 <= j < ranks.len() implies known(#[trigger] others[j]) == known(
        ranks[j],
    ) by {}
    lemma_total_if_complete_agrees(ranks, others, known);
}

proof fn lemma_total_if_complete_agrees(
    ranks: Seq<SchedulerLoadSnapshot>,
    others: Seq<SchedulerLoadSnapshot>,
    known: spec_fn(SchedulerLoadSnapshot) -> Option<Binary64>,
)
    requires
        ranks.len() == others.len(),
        forall|i: int| 0 <= i < ranks.len() ==> known(#[trigger] others[i]) == known(ranks[i]),
    ensures
        crate::load::total_if_complete(ranks, known) == crate::load::total_if_complete(
            others,
            known,
        ),
{
    if forall|j: int| 0 <= j < ranks.len() ==> known(#[trigger] ranks[j]) is Some {
        assert forall|j: int| 0 <= j < others.len() implies known(
            #[trigger] others[j],
        ) is Some by {
            assert(known(ranks[j]) is Some);
        }
    }
    if forall|j: int| 0 <= j < others.len() ==> known(#[trigger] others[j]) is Some {
        assert forall|j: int| 0 <= j < ranks.len() implies known(#[trigger] ranks[j]) is Some by {
            assert(known(others[j]) is Some);
        }
    }
    lemma_total_agrees(ranks, others, |rank: SchedulerLoadSnapshot| known(rank).unwrap());
}

proof fn lemma_total_agrees(
    ranks: Seq<SchedulerLoadSnapshot>,
    others: Seq<SchedulerLoadSnapshot>,
    signal: spec_fn(SchedulerLoadSnapshot) -> Binary64,
)
    requires
        ranks.len() == others.len(),
        forall|i: int| 0 <= i < ranks.len() ==> signal(#[trigger] others[i]) == signal(ranks[i]),
    ensures
        crate::load::total(ranks, signal) == crate::load::total(others, signal),
    decreases ranks.len(),
{
    if ranks.len() > 0 {
        let (r, o) = (ranks.drop_last(), others.drop_last());
        assert forall|i: int| 0 <= i < r.len() implies signal(#[trigger] o[i]) == signal(r[i]) by {
            assert(o[i] == others[i] && r[i] == ranks[i]);
        }
        lemma_total_agrees(r, o, signal);
        assert(signal(others[ranks.len() - 1]) == signal(ranks[ranks.len() - 1]));
    }
}

/// The default configuration passes validation and sets no budget.
pub proof fn law_default_config_is_valid_and_sets_no_budget()
    ensures
        EstimatedWaitConfig::default_config().valid(),
        EstimatedWaitConfig::default_config().budget(None) is None,
{
    let config = EstimatedWaitConfig::default_config();
    lemma_zero();
    lemma_one();
    lemma_positive_integer(1);
    lemma_positive_integer(2000);
    lemma_positive_integer(1024);
    lemma_positive_integer(30);
    lemma_weight_default();
    let fields = config.checked_fields();
    assert forall|i: int| 0 <= i < fields.len() implies (#[trigger] fields[i]).acceptable() by {
        assert(fields[0].acceptable());
        assert(fields[1].acceptable());
        assert(fields[2].acceptable());
        assert(fields[3].acceptable());
        assert(fields[4].acceptable());
        assert(fields[5].acceptable());
        assert(fields[6].acceptable());
        assert(fields[7].acceptable());
        assert(fields[8].acceptable());
    }
}

/// Integers that are not too large are positive finite numbers.
proof fn lemma_positive_integer(n: nat)
    requires
        0 < n < 0x1_0000_0000,
    ensures
        crate::config::positive_finite(Binary64::integer(n as int)),
{
    lemma_zero();
    lemma_one();
    crate::order::lemma_integer_order(1, n as int);
    crate::order::lemma_integer_order(n as int, 0x1_0000_0000);
    // 2^32 is representable
    let big = Binary64 { bits: 0x41f0_0000_0000_0000 };
    assert(big.scale() == 1054);
    assert(big.significand() == 0x10_0000_0000_0000);
    crate::rounding::lemma_pow2_52();
    lemma2_to64();
    lemma_pow2_adds(52, 1054);
    lemma_pow2_adds(32, 1074);
    crate::order::lemma_rounded_exact(big, 1);
    reveal(Binary64::integer);
}

proof fn lemma_weight_default()
    ensures
        crate::config::positive_finite(crate::expected_wait::kv_pressure_weight_default()),
{
    reveal(Binary64::ratio);
    lemma_zero();
    lemma_one();
    let p = pow2(1074);
    lemma_pow2_pos(1074);
    crate::order::lemma_rounded_sign(false, 15 * p, 100);
    lemma2_to64();
    crate::rounding::lemma_pow2_monotone(7, 1074);
    crate::order::lemma_rounded_positive(15 * p, 100);
    crate::order::lemma_exact(Binary64::integer(1), 1);
    crate::rounding::lemma_encoding_monotone(15 * p, 100, p, 1);
}

} // verus!
