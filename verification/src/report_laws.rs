//! What is made of a load report, in terms of what its ranks tell.

use vstd::prelude::*;
use vstd::arithmetic::power2::*;
use vstd::arithmetic::mul::*;
use crate::binary64::Binary64;
use crate::config::{EstimatedWaitConfig, PreparedWait};
use crate::expected_wait::ExpectedWait;
use crate::load::{LoadView, SchedulerLoadSnapshot};

verus! {

/// Numbers added up from the first on, starting with zero.
pub open spec fn added(values: Seq<Binary64>) -> Binary64
    decreases values.len(),
{
    if values.len() == 0 {
        Binary64 { bits: 0 }
    } else {
        added(values.drop_last()).sum(values.last())
    }
}

proof fn lemma_total_is_added(
    ranks: Seq<SchedulerLoadSnapshot>,
    signal: spec_fn(SchedulerLoadSnapshot) -> Binary64,
    values: Seq<Binary64>,
)
    requires
        values.len() == ranks.len(),
        forall|i: int| 0 <= i < ranks.len() ==> values[i] == signal(#[trigger] ranks[i]),
    ensures
        crate::load::total(ranks, signal) == added(values),
    decreases ranks.len(),
{
    crate::formula_laws::lemma_zero();
    if ranks.len() > 0 {
        let (r, v) = (ranks.drop_last(), values.drop_last());
        assert forall|i: int| 0 <= i < r.len() implies v[i] == signal(#[trigger] r[i]) by {
            assert(r[i] == ranks[i]);
        }
        lemma_total_is_added(r, signal, v);
        assert(values.last() == signal(ranks[ranks.len() - 1]));
    }
}

/// The generation rates of the ranks.
pub open spec fn generation_rates(ranks: Seq<SchedulerLoadSnapshot>) -> Seq<Binary64> {
    ranks.map_values(|rank: SchedulerLoadSnapshot| rank.gen_throughput)
}

/// The prefill rates of ranks that all tell one.
pub open spec fn prefill_rates(ranks: Seq<SchedulerLoadSnapshot>) -> Seq<Binary64> {
    ranks.map_values(|rank: SchedulerLoadSnapshot| rank.prefill_throughput.unwrap())
}

/// The learned capacities of ranks that all have one.
pub open spec fn learned_capacities(ranks: Seq<SchedulerLoadSnapshot>) -> Seq<Binary64> {
    ranks.map_values(|rank: SchedulerLoadSnapshot| rank.learned_prefill_capacity.unwrap())
}

/// The usage ratios of the ranks.
pub open spec fn usages(ranks: Seq<SchedulerLoadSnapshot>) -> Seq<Binary64> {
    ranks.map_values(|rank: SchedulerLoadSnapshot| rank.token_usage)
}

pub open spec fn all_tell_prefill_rates(ranks: Seq<SchedulerLoadSnapshot>) -> bool {
    forall|i: int| 0 <= i < ranks.len() ==> (#[trigger] ranks[i]).prefill_throughput is Some
}

pub open spec fn all_have_learned_capacities(ranks: Seq<SchedulerLoadSnapshot>) -> bool {
    forall|i: int| 0 <= i < ranks.len() ==> (#[trigger] ranks[i]).learned_prefill_capacity is Some
}

/// What a worker has is what its ranks have together, and its usage is their
/// average. A rate that some rank does not tell is unknown.
pub proof fn law_ranks_add_up(ranks: Seq<SchedulerLoadSnapshot>)
    ensures
        crate::load::gen_throughput_total(ranks) == added(generation_rates(ranks)),
        crate::load::prefill_throughput_total(ranks) == if all_tell_prefill_rates(ranks) {
            Some(added(prefill_rates(ranks)))
        } else {
            None
        },
        crate::load::learned_capacity_total(ranks) == if all_have_learned_capacities(ranks) {
            Some(added(learned_capacities(ranks)))
        } else {
            None
        },
        ranks.len() > 0 ==> crate::load::mean_token_usage(ranks) == added(usages(ranks)).quotient(
            Binary64::integer(ranks.len() as int),
        ),
        ranks.len() == 0 ==> crate::load::mean_token_usage(ranks).bits == 0,
{
    crate::formula_laws::lemma_zero();
    let generation = |rank: SchedulerLoadSnapshot| rank.gen_throughput;
    let usage = |rank: SchedulerLoadSnapshot| rank.token_usage;
    lemma_total_is_added(ranks, generation, generation_rates(ranks));
    lemma_total_is_added(ranks, usage, usages(ranks));
    let prefill = |rank: SchedulerLoadSnapshot| rank.prefill_throughput;
    let learned = |rank: SchedulerLoadSnapshot| rank.learned_prefill_capacity;
    if all_tell_prefill_rates(ranks) {
        assert(forall|i: int| 0 <= i < ranks.len() ==> prefill(#[trigger] ranks[i]) is Some);
        lemma_total_is_added(
            ranks,
            |rank: SchedulerLoadSnapshot| prefill(rank).unwrap(),
            prefill_rates(ranks),
        );
    } else {
        let i = choose|i: int|
            0 <= i < ranks.len() && (#[trigger] ranks[i]).prefill_throughput is None;
        assert(prefill(ranks[i]) is None);
    }
    if all_have_learned_capacities(ranks) {
        assert(forall|i: int| 0 <= i < ranks.len() ==> learned(#[trigger] ranks[i]) is Some);
        lemma_total_is_added(
            ranks,
            |rank: SchedulerLoadSnapshot| learned(rank).unwrap(),
            learned_capacities(ranks),
        );
    } else {
        let i = choose|i: int|
            0 <= i < ranks.len() && (#[trigger] ranks[i]).learned_prefill_capacity is None;
        assert(learned(ranks[i]) is None);
    }
}

/// Whether some rank learns its capacity.
pub open spec fn some_rank_learns(ranks: Seq<SchedulerLoadSnapshot>) -> bool {
    exists|i: int|
        0 <= i < ranks.len() && (#[trigger] ranks[i]).prefill_capacity_learning_active is Some
}

/// Whether every generation rate is a number that is not below zero.
pub open spec fn generation_rates_in_range(ranks: Seq<SchedulerLoadSnapshot>) -> bool {
    forall|i: int|
        0 <= i < ranks.len() ==> {
            let rate = (#[trigger] ranks[i]).gen_throughput;
            crate::validation_laws::zero_or_above(rate) || (rate.infinite() && !rate.negative())
        }
}

/// Where some rank learns its capacity, a report tells what the ranks have
/// learned if all have and it is above zero, and no rate takes its place.
pub proof fn law_learned_capacity(ranks: Seq<SchedulerLoadSnapshot>)
    requires
        some_rank_learns(ranks),
    ensures
        crate::config::reported_capacity(ranks) == if all_have_learned_capacities(ranks)
            && crate::validation_laws::above_zero(added(learned_capacities(ranks))) {
            Some(added(learned_capacities(ranks)))
        } else {
            None
        },
{
    law_ranks_add_up(ranks);
    crate::validation_laws::lemma_above_zero(added(learned_capacities(ranks)));
}

/// Where no rank learns its capacity, a report tells the prefill rate if every
/// rank tells one and it is above zero, whatever the generation rates are. Only
/// otherwise is it the generation rate, if that is above zero and no rank's is
/// below. Only if that cannot be used either does the report tell none.
pub proof fn law_live_capacity(ranks: Seq<SchedulerLoadSnapshot>)
    requires
        !some_rank_learns(ranks),
    ensures
        ({
            let prefill = added(prefill_rates(ranks));
            let generation = added(generation_rates(ranks));
            let prefill_counts = all_tell_prefill_rates(ranks)
                && crate::validation_laws::above_zero(prefill);
            &&& prefill_counts ==> crate::config::reported_capacity(ranks) == Some(prefill)
            &&& !prefill_counts && crate::validation_laws::above_zero(generation)
                && generation_rates_in_range(ranks) ==> crate::config::reported_capacity(ranks)
                == Some(generation)
            &&& !prefill_counts && !(crate::validation_laws::above_zero(generation)
                && generation_rates_in_range(ranks)) ==> crate::config::reported_capacity(
                ranks,
            ) is None
        }),
{
    law_ranks_add_up(ranks);
    crate::formula_laws::lemma_zero();
    crate::validation_laws::lemma_above_zero(added(prefill_rates(ranks)));
    crate::validation_laws::lemma_above_zero(added(generation_rates(ranks)));
    let zero = Binary64::integer(0);
    assert forall|i: int| 0 <= i < ranks.len() implies {
        let rate = (#[trigger] ranks[i]).gen_throughput;
        zero.at_most(rate) <==> crate::validation_laws::zero_or_above(rate) || (rate.infinite()
            && !rate.negative())
    } by {
        crate::validation_laws::lemma_zero_or_above(ranks[i].gen_throughput);
    }
    if generation_rates_in_range(ranks) {
        assert(forall|i: int|
            0 <= i < ranks.len() ==> zero.at_most((#[trigger] ranks[i]).gen_throughput));
    } else {
        let i = choose|i: int|
            0 <= i < ranks.len() && {
                let rate = (#[trigger] ranks[i]).gen_throughput;
                !(crate::validation_laws::zero_or_above(rate) || (rate.infinite()
                    && !rate.negative()))
            };
        assert(!zero.at_most(ranks[i].gen_throughput));
    }
}

/// Reports that differ in generation rates alone tell the same capacity if they
/// tell a prefill rate above zero.
pub proof fn law_generation_rates_do_not_override_prefill_rates(
    ranks: Seq<SchedulerLoadSnapshot>,
    others: Seq<SchedulerLoadSnapshot>,
)
    requires
        !some_rank_learns(ranks),
        all_tell_prefill_rates(ranks),
        crate::validation_laws::above_zero(added(prefill_rates(ranks))),
        ranks.len() == others.len(),
        forall|i: int|
            0 <= i < ranks.len() ==> (#[trigger] others[i]) == (SchedulerLoadSnapshot {
                gen_throughput: others[i].gen_throughput,
                ..ranks[i]
            }),
    ensures
        crate::config::reported_capacity(ranks) == crate::config::reported_capacity(others),
{
    assert(prefill_rates(ranks) =~= prefill_rates(others)) by {
        assert forall|i: int| 0 <= i < ranks.len() implies prefill_rates(ranks)[i]
            == prefill_rates(others)[i] by {
            assert(others[i].prefill_throughput == ranks[i].prefill_throughput);
        }
    }
    assert(all_tell_prefill_rates(others)) by {
        assert forall|i: int| 0 <= i < others.len() implies (
        #[trigger] others[i]).prefill_throughput is Some by {
            assert(ranks[i].prefill_throughput is Some);
        }
    }
    if some_rank_learns(others) {
        let i = choose|i: int|
            0 <= i < others.len() && (
            #[trigger] others[i]).prefill_capacity_learning_active is Some;
        assert(ranks[i].prefill_capacity_learning_active is Some);
    }
    law_live_capacity(ranks);
    law_live_capacity(others);
}

/// The prompt size that is assumed before any is observed: the proxy if one is
/// configured, and else the mean.
pub open spec fn assumed_tokens(config: EstimatedWaitConfig) -> nat {
    if config.estimated_wait_queue_tokens_per_request > 0 {
        config.estimated_wait_queue_tokens_per_request as nat
    } else {
        config.estimated_wait_mean_prefill_tokens as nat
    }
}

/// Whether a rank has observed prompt sizes: a median above zero of at least one
/// sample.
pub open spec fn observes_prompts(rank: SchedulerLoadSnapshot) -> bool {
    &&& rank.median_request_prefill_kv_computed_tokens is Some
    &&& crate::validation_laws::above_zero(
        rank.median_request_prefill_kv_computed_tokens.unwrap(),
    )
    &&& rank.prefill_size_sample_count is Some
    &&& rank.prefill_size_sample_count.unwrap() > 0
}

proof fn lemma_observation(rank: SchedulerLoadSnapshot)
    ensures
        crate::config::observed_prompt_size(rank) == if observes_prompts(rank) {
            Some(
                (
                    rank.median_request_prefill_kv_computed_tokens.unwrap(),
                    rank.prefill_size_sample_count.unwrap(),
                ),
            )
        } else {
            None
        },
{
    if rank.median_request_prefill_kv_computed_tokens is Some {
        crate::validation_laws::lemma_above_zero(
            rank.median_request_prefill_kv_computed_tokens.unwrap(),
        );
    }
}

/// Without observed prompt sizes, a rank that learns its capacity is taken at the
/// assumed size, and another at the average that it tells, if that is above zero,
/// and else at the proxy.
pub proof fn law_prompt_size_without_observation(
    config: EstimatedWaitConfig,
    rank: SchedulerLoadSnapshot,
)
    requires
        !observes_prompts(rank),
    ensures
        ({
            let average = rank.avg_request_prefill_kv_computed_tokens;
            let size = config.prompt_size(rank);
            if rank.prefill_capacity_learning_active is Some {
                &&& size.finite() && !size.negative()
                &&& size.units() == assumed_tokens(config) * pow2(1074)
            } else if average is Some && crate::validation_laws::above_zero(average.unwrap()) {
                size == average.unwrap()
            } else {
                &&& size.finite() && !size.negative()
                &&& size.units() == config.estimated_wait_queue_tokens_per_request as nat * pow2(
                    1074,
                )
            }
        }),
{
    lemma_observation(rank);
    crate::clock_laws::lemma_integer_exact(config.estimated_wait_queue_tokens_per_request as nat);
    crate::clock_laws::lemma_integer_exact(config.estimated_wait_mean_prefill_tokens as nat);
    if rank.avg_request_prefill_kv_computed_tokens is Some {
        crate::validation_laws::lemma_above_zero(
            rank.avg_request_prefill_kv_computed_tokens.unwrap(),
        );
    }
}

/// How the roundings of a weighted mean add up: `x` is the weighted sum and `v` the
/// sum of the weights as they are represented, `xe` and `ve` are the exact ones.
proof fn lemma_mean_errors_add_up(
    xe: nat,
    ve: nat,
    x: nat,
    v: nat,
    c: nat,
    s: nat,
    t: nat,
    r: nat,
    p: nat,
)
    requires
        p > 0,
        ve > 0,
        crate::order::parts(crate::order::distance(x, xe * p)) <= xe * p,
        crate::order::parts(crate::order::distance(v, ve * p)) <= ve * p,
        crate::order::parts(crate::order::distance(c * p, x)) <= x + crate::order::parts(p as int),
        crate::order::parts(crate::order::distance(s, c)) <= c,
        crate::order::parts(crate::order::distance(t, v)) <= v,
        2 * crate::order::parts(crate::order::distance(r * t, s * p)) <= 2 * (s * p)
            + crate::order::parts(t as int),
    ensures
        crate::order::parts(crate::order::distance(r * ve, xe)) <= 8 * xe + crate::order::parts(
            4int * ve,
        ),
{
    let (xp, vp, cp, sp) = (xe * p, ve * p, c * p, s * p);
    let (rt, rv, rp) = (r * t, r * v, r * vp);
    let g = s - c;
    let gp = g * p;
    assert(0x20_0000_0000_0000 * gp <= cp && -0x20_0000_0000_0000 * gp <= cp) by (nonlinear_arith)
        requires
            0x20_0000_0000_0000 * g <= c,
            -0x20_0000_0000_0000 * g <= c,
            gp == g * p,
            cp == c * p,
            p > 0,
    ;
    assert(sp == cp + gp) by (nonlinear_arith)
        requires
            s == c + g,
            sp == s * p,
            cp == c * p,
            gp == g * p,
    ;
    assert(0x20_0000_0000_0000 * (rt - rv) <= rv && 0x20_0000_0000_0000 * (rv - rt) <= rv)
        by (nonlinear_arith)
        requires
            rt == r * t,
            rv == r * v,
            0x20_0000_0000_0000 * (t - v) <= v,
            0x20_0000_0000_0000 * (v - t) <= v,
            r >= 0,
    ;
    assert(0x20_0000_0000_0000 * (rv - rp) <= rp && 0x20_0000_0000_0000 * (rp - rv) <= rp)
        by (nonlinear_arith)
        requires
            rv == r * v,
            rp == r * vp,
            0x20_0000_0000_0000 * (v - vp) <= vp,
            0x20_0000_0000_0000 * (vp - v) <= vp,
            r >= 0,
    ;
    assert(p <= vp) by (nonlinear_arith)
        requires
            vp == ve * p,
            ve >= 1,
            p > 0,
    ;
    assert(xp >= 0 && cp >= 0 && sp >= 0 && rt >= 0 && rv >= 0 && rp >= 0) by (nonlinear_arith)
        requires
            xp == xe * p,
            cp == c * p,
            sp == s * p,
            rt == r * t,
            rv == r * v,
            rp == r * vp,
            xe >= 0,
            c >= 0,
            s >= 0,
            r >= 0,
            p >= 0,
            t >= 0,
            v >= 0,
            vp >= 0,
    ;
    let q = r * ve;
    assert(rp == q * p) by (nonlinear_arith)
        requires
            rp == r * (ve * p),
            q == r * ve,
    ;
    assert(0x20_0000_0000_0000 * (rp - xp) <= 8 * xp + 0x80_0000_0000_0000 * vp);
    assert(0x20_0000_0000_0000 * (xp - rp) <= 8 * xp + 0x80_0000_0000_0000 * vp);
    assert(0x20_0000_0000_0000 * (q - xe) <= 8 * xe + 0x80_0000_0000_0000 * ve)
        by (nonlinear_arith)
        requires
            0x20_0000_0000_0000 * (rp - xp) <= 8 * xp + 0x80_0000_0000_0000 * vp,
            rp == q * p,
            xp == xe * p,
            vp == ve * p,
            p > 0,
    ;
    assert(0x20_0000_0000_0000 * (xe - q) <= 8 * xe + 0x80_0000_0000_0000 * ve)
        by (nonlinear_arith)
        requires
            0x20_0000_0000_0000 * (xp - rp) <= 8 * xp + 0x80_0000_0000_0000 * vp,
            rp == q * p,
            xp == xe * p,
            vp == ve * p,
            p > 0,
    ;
}

/// A rank that has observed prompt sizes is taken at the mean of the assumed size
/// and its median, weighted by the configured number of prior samples and its own
/// number of samples, whatever else it tells. This holds up to rounding: the size
/// is off by at most eight parts in `2^53` and four units of `2^-1074`. It is
/// finite for every median up to `2^904`.
pub proof fn law_observed_prompt_size_is_a_weighted_mean(
    config: EstimatedWaitConfig,
    rank: SchedulerLoadSnapshot,
)
    requires
        observes_prompts(rank),
    ensures
        ({
            let size = config.prompt_size(rank);
            let median = rank.median_request_prefill_kv_computed_tokens.unwrap().units();
            let samples = rank.prefill_size_sample_count.unwrap() as nat;
            let prior = assumed_tokens(config) * pow2(1074);
            let prior_samples = config.estimated_wait_prompt_size_prior_samples as nat;
            let exact = prior * prior_samples + median * samples;
            &&& median <= pow2(1978) ==> size.finite()
            &&& size.finite() ==> crate::order::parts(
                crate::order::distance(size.units() * (prior_samples + samples), exact),
            ) <= 8 * exact + crate::order::parts(4int * (prior_samples + samples))
        }),
{
    lemma_observation(rank);
    let m = rank.median_request_prefill_kv_computed_tokens.unwrap();
    let count = rank.prefill_size_sample_count.unwrap();
    let ps = config.estimated_wait_prompt_size_prior_samples;
    let prior = config.prompt_size_prior();
    let pw = Binary64::integer(ps as int);
    let ow = Binary64::integer(count as int);
    let (a, b) = (prior.product(pw), m.product(ow));
    let total = a.sum(b);
    let weight = pw.sum(ow);
    let size = config.prompt_size(rank);
    let p = pow2(1074);
    assert(size == total.quotient(weight));
    crate::clock_laws::lemma_integer_exact(config.estimated_wait_queue_tokens_per_request as nat);
    crate::clock_laws::lemma_integer_exact(config.estimated_wait_mean_prefill_tokens as nat);
    crate::clock_laws::lemma_integer_exact(ps as nat);
    crate::formula_laws::lemma_one();
    lemma_pow2_pos(1074);
    assert(prior.units() == assumed_tokens(config) * p);
    crate::validation_laws::lemma_zero_or_above(prior);
    crate::validation_laws::lemma_above_zero(m);
    crate::order::lemma_integer_order(ps as int, ps as int);
    crate::order::lemma_integer_order(1, count as int);
    crate::error_laws::lemma_integer_finite(count);
    crate::order::lemma_sum_commutes(pw, ow);
    crate::order::lemma_sum_nonnegative(ow, pw);
    crate::formula_laws::law_blending_weight_is_positive(ps, count);
    crate::error_laws::lemma_sample_weight_finite(ps, count);
    crate::order::lemma_product_is_number(prior, pw);
    crate::order::lemma_product_is_number(m, ow);
    crate::order::lemma_product_nonnegative(prior, pw);
    crate::order::lemma_product_nonnegative(m, ow);
    crate::order::lemma_sum_nonnegative(a, b);
    assert(weight.units() >= p) by {
        crate::order::lemma_units_order(Binary64::integer(1), weight);
    }
    if m.units() <= pow2(1978) {
        lemma2_to64();
        lemma_pow2_adds(32, 1074);
        lemma_mul_inequality(assumed_tokens(config) as int, pow2(32) as int, p as int);
        lemma_mul_inequality(ps as int, pow2(32) as int, p as int);
        lemma_pow2_unfold(1139);
        crate::wait_laws::lemma_product_at_most(prior, pw, 1106, 1106);
        crate::wait_laws::lemma_product_at_most(m, ow, 1978, 1139);
        crate::rounding::lemma_pow2_monotone(1138, 2043);
        crate::wait_laws::lemma_sum_at_most(a, b, 2043);
        crate::formula_laws::lemma_zero();
        crate::wait_laws::lemma_quotient_at_most(total, weight, 2044, 1074);
    }
    if size.finite() {
        assert(total.finite()) by {
            reveal(Binary64::quotient);
        }
        crate::formula_laws::lemma_zero();
        crate::error_laws::lemma_sum_error(a, b);
        crate::error_laws::lemma_sum_error(pw, ow);
        crate::error_laws::lemma_product_error(prior, pw);
        crate::error_laws::lemma_product_error(m, ow);
        crate::error_laws::lemma_quotient_error(total, weight);
        crate::error_laws::lemma_integer_error(count);
        let (f, mu) = (prior.units(), m.units());
        let (w, o) = (pw.units(), ow.units());
        let (x1, x2) = (f * w, mu * o);
        let (n, k) = (ps as nat, count as nat);
        let c = a.units() + b.units();
        assert(c * p == a.units() * p + b.units() * p) by (nonlinear_arith)
            requires
                c == a.units() + b.units(),
        ;
        let xe = f * n + mu * k;
        let ve = n + k;
        assert(x1 == (f * n) * p) by (nonlinear_arith)
            requires
                x1 == f * w,
                w == n * p,
        ;
        let mk = (mu * k) * p;
        assert(xe * p == x1 + mk) by (nonlinear_arith)
            requires
                xe == f * n + mu * k,
                x1 == (f * n) * p,
                mk == (mu * k) * p,
        ;
        assert(ve * p == n * p + k * p) by (nonlinear_arith)
            requires
                ve == n + k,
        ;
        assert(0x20_0000_0000_0000 * (x2 - mk) <= mk && 0x20_0000_0000_0000 * (mk - x2) <= mk)
            by (nonlinear_arith)
            requires
                x2 == mu * o,
                mk == (mu * k) * p,
                0x20_0000_0000_0000 * (o - k * p) <= k * p,
                0x20_0000_0000_0000 * (k * p - o) <= k * p,
                mu >= 0,
        ;
        assert(x1 >= 0) by (nonlinear_arith)
            requires
                x1 == f * w,
                f >= 0,
                w >= 0,
        ;
        assert(w >= 0);
        lemma_mean_errors_add_up(
            xe,
            ve,
            x1 + x2,
            w + o,
            c,
            total.units(),
            weight.units(),
            size.units(),
            p,
        );
    }
}

/// The mean is formed in this order, with one rounding in each step.
pub proof fn law_observed_prompt_size_in_steps(
    config: EstimatedWaitConfig,
    rank: SchedulerLoadSnapshot,
)
    requires
        observes_prompts(rank),
    ensures
        ({
            let prior = Binary64::integer(assumed_tokens(config) as int);
            let median = rank.median_request_prefill_kv_computed_tokens.unwrap();
            let prior_weight = Binary64::integer(
                config.estimated_wait_prompt_size_prior_samples as int,
            );
            let weight = Binary64::integer(rank.prefill_size_sample_count.unwrap() as int);
            config.prompt_size(rank) == prior.product(prior_weight).sum(
                median.product(weight),
            ).quotient(prior_weight.sum(weight))
        }),
{
    lemma_observation(rank);
}

/// Two ranks with the same median and number of samples are taken at the same
/// prompt size, whatever else they tell.
pub proof fn law_observation_alone_gives_the_prompt_size(
    config: EstimatedWaitConfig,
    rank: SchedulerLoadSnapshot,
    other: SchedulerLoadSnapshot,
)
    requires
        observes_prompts(rank),
        rank.median_request_prefill_kv_computed_tokens
            == other.median_request_prefill_kv_computed_tokens,
        rank.prefill_size_sample_count == other.prefill_size_sample_count,
    ensures
        config.prompt_size(rank) == config.prompt_size(other),
{
    lemma_observation(rank);
    lemma_observation(other);
}

/// Whether a rank says that it cannot tell its queued tokens.
pub open spec fn cannot_tell_tokens(rank: SchedulerLoadSnapshot) -> bool {
    rank.num_waiting_uncached_tokens_available == Some(false)
}

/// The backlog grows rank by rank: by the queued tokens of one that tells them,
/// and by the waiting requests at their assumed size of one that cannot.
pub proof fn law_backlog_grows_rank_by_rank(
    config: EstimatedWaitConfig,
    ranks: Seq<SchedulerLoadSnapshot>,
    rank: SchedulerLoadSnapshot,
)
    ensures
        config.backlog(Seq::empty()).bits == 0,
        config.backlog(ranks.push(rank)) == config.backlog(ranks).sum(
            if cannot_tell_tokens(rank) {
                Binary64::integer(rank.num_waiting_reqs as int).product(config.prompt_size(rank))
            } else {
                Binary64::integer(rank.num_waiting_uncached_tokens as int)
            },
        ),
{
    crate::formula_laws::lemma_zero();
    let signal = |rank: SchedulerLoadSnapshot| config.rank_backlog(rank);
    let more = ranks.push(rank);
    assert(more.drop_last() =~= ranks);
    assert(more.last() == rank);
    assert(crate::load::total(more, signal) == crate::load::total(ranks, signal).sum(
        signal(rank),
    ));
}

/// The tokens that ranks tell, together.
pub open spec fn tokens_told(ranks: Seq<SchedulerLoadSnapshot>) -> int
    decreases ranks.len(),
{
    if ranks.len() == 0 {
        0
    } else {
        tokens_told(ranks.drop_last()) + ranks.last().num_waiting_uncached_tokens
    }
}

proof fn lemma_integers_add(i: int, j: int)
    requires
        0 <= i,
        0 <= j,
        i + j < 0x20_0000_0000_0000,
    ensures
        Binary64::integer(i).sum(Binary64::integer(j)) == Binary64::integer(i + j),
{
    crate::clock_laws::lemma_integer_exact(i as nat);
    crate::clock_laws::lemma_integer_exact(j as nat);
    crate::formula_laws::lemma_zero();
    let p = pow2(1074);
    lemma_pow2_pos(1074);
    assert(i * p + j * p == (i + j) * p) by (nonlinear_arith);
    let (a, b) = (Binary64::integer(i), Binary64::integer(j));
    let total = a.signed_units() + b.signed_units();
    assert(total == (i + j) * p);
    if i + j > 0 {
        assert(total > 0) by (nonlinear_arith)
            requires
                total == (i + j) * p,
                i + j > 0,
                p > 0,
        ;
    } else {
        assert(i == 0 && j == 0);
        assert(total == 0) by (nonlinear_arith)
            requires
                total == (i + j) * p,
                i + j == 0,
        ;
    }
    assert(a.sum(b) == Binary64::integer(i + j)) by {
        reveal(Binary64::sum);
        if total > 0 {
            reveal(Binary64::integer);
        }
    }
}

/// Where every rank tells its queued tokens, the backlog is exactly their sum, for
/// every sum below `2^53`.
pub proof fn law_told_tokens_add_up_exactly(
    config: EstimatedWaitConfig,
    ranks: Seq<SchedulerLoadSnapshot>,
)
    requires
        forall|i: int|
            0 <= i < ranks.len() ==> !cannot_tell_tokens(#[trigger] ranks[i])
                && ranks[i].num_waiting_uncached_tokens >= 0,
        tokens_told(ranks) < 0x20_0000_0000_0000,
    ensures
        tokens_told(ranks) >= 0,
        config.backlog(ranks).finite(),
        !config.backlog(ranks).negative(),
        config.backlog(ranks).units() == tokens_told(ranks) * pow2(1074),
        config.backlog(ranks) == Binary64::integer(tokens_told(ranks)),
    decreases ranks.len(),
{
    crate::formula_laws::lemma_zero();
    if ranks.len() == 0 {
        lemma_mul_by_zero_is_zero(pow2(1074) as int);
        law_backlog_grows_rank_by_rank(config, ranks, SchedulerLoadSnapshot {
            num_waiting_reqs: 0,
            num_waiting_uncached_tokens: 0,
            num_waiting_uncached_tokens_available: None,
            token_usage: Binary64 { bits: 0 },
            gen_throughput: Binary64 { bits: 0 },
            prefill_throughput: None,
            avg_request_prefill_kv_computed_tokens: None,
            median_request_prefill_kv_computed_tokens: None,
            prefill_size_sample_count: None,
            prefill_capacity_learning_active: None,
            learned_prefill_capacity: None,
            prefill_capacity_sample_count: None,
        });
        assert(ranks =~= Seq::empty());
    } else {
        let rest = ranks.drop_last();
        let last = ranks[ranks.len() - 1];
        assert(!cannot_tell_tokens(last) && last.num_waiting_uncached_tokens >= 0);
        assert forall|i: int| 0 <= i < rest.len() implies !cannot_tell_tokens(#[trigger] rest[i])
            && rest[i].num_waiting_uncached_tokens >= 0 by {
            assert(rest[i] == ranks[i]);
        }
        law_told_tokens_add_up_exactly(config, rest);
        law_backlog_grows_rank_by_rank(config, rest, last);
        assert(rest.push(last) =~= ranks);
        lemma_integers_add(tokens_told(rest), last.num_waiting_uncached_tokens as int);
        crate::clock_laws::lemma_integer_exact(tokens_told(ranks) as nat);
    }
}

/// Whether a report is complete and can be used: it has ranks, as many as it says
/// if it says, whose counts are not negative and whose usage is finite, and the
/// assumed prompt size of a rank that cannot tell its tokens is not zero.
pub open spec fn can_be_used(config: EstimatedWaitConfig, load: LoadView) -> bool {
    &&& load.ranks.len() > 0
    &&& load.dp_rank_count <= 0 || load.dp_rank_count == load.ranks.len()
    &&& forall|i: int|
        0 <= i < load.ranks.len() ==> {
            let rank = #[trigger] load.ranks[i];
            &&& rank.num_waiting_reqs >= 0
            &&& rank.num_waiting_uncached_tokens >= 0
            &&& rank.token_usage.finite()
            &&& cannot_tell_tokens(rank) && config.prompt_size(rank).finite()
                ==> config.prompt_size(rank).units() > 0
        }
}

/// The capacity that an estimate goes by: what the report tells, and else the
/// configured fallback.
pub open spec fn capacity_in_use(
    config: EstimatedWaitConfig,
    ranks: Seq<SchedulerLoadSnapshot>,
) -> Binary64 {
    match crate::config::reported_capacity(ranks) {
        Some(capacity) => capacity,
        None => config.estimated_wait_fallback_prefill_throughput,
    }
}

/// The estimate that a report and a configuration give.
pub open spec fn estimate_in_use(config: EstimatedWaitConfig, load: LoadView) -> ExpectedWait {
    ExpectedWait {
        queued_tokens: config.backlog(load.ranks),
        throughput: capacity_in_use(config, load.ranks),
        base_overhead_secs: config.estimated_wait_base_overhead_secs,
        queue_work_correction: config.estimated_wait_queue_work_correction,
        dispatch_blocking_factor: config.estimated_wait_dispatch_blocking_factor,
        kv_wait: crate::expected_wait::kv_penalty_above(
            crate::load::mean_token_usage(load.ranks),
            config.estimated_wait_kv_pressure_threshold,
            config.estimated_wait_kv_pressure_weight,
        ),
    }
}

proof fn lemma_usable(config: EstimatedWaitConfig, load: LoadView)
    ensures
        config.usable(load) <==> can_be_used(config, load),
{
    crate::formula_laws::lemma_zero();
    let zero = Binary64::integer(0);
    assert forall|i: int| 0 <= i < load.ranks.len() implies {
        let rank = #[trigger] load.ranks[i];
        let size = config.prompt_size(rank);
        size.equals(zero) <==> size.finite() && size.units() == 0
    } by {
        let size = config.prompt_size(load.ranks[i]);
        if size.finite() {
            crate::binary64::lemma_significand(size);
        }
    }
    if config.usable(load) {
        assert forall|i: int| 0 <= i < load.ranks.len() implies {
            let rank = #[trigger] load.ranks[i];
            &&& rank.num_waiting_reqs >= 0
            &&& rank.num_waiting_uncached_tokens >= 0
            &&& rank.token_usage.finite()
            &&& cannot_tell_tokens(rank) && config.prompt_size(rank).finite()
                ==> config.prompt_size(rank).units() > 0
        } by {
            assert(load.ranks[i].well_formed());
            assert(config.backlog_known(load.ranks[i]));
        }
    }
}

/// An estimate is made of a report just if it can be used and gives a finite wait.
/// It says whether some rank could not tell its tokens, whether the fallback stood
/// in, and which capacity it goes by.
pub proof fn law_estimate_of_a_report(config: EstimatedWaitConfig, load: LoadView)
    ensures
        config.prepared(load) is Some <==> can_be_used(config, load) && estimate_in_use(
            config,
            load,
        ).wait(0).finite(),
        config.prepared(load) matches Some(prepared) ==> {
            &&& prepared.estimate == estimate_in_use(config, load)
            &&& prepared.effective_prefill_capacity == capacity_in_use(config, load.ranks)
            &&& prepared.fallback <==> crate::config::reported_capacity(load.ranks) is None
            &&& prepared.proxy <==> exists|i: int|
                0 <= i < load.ranks.len() && cannot_tell_tokens(#[trigger] load.ranks[i])
            &&& prepared.blended_prompt_size is Some <==> prepared.proxy
        },
{
    lemma_usable(config, load);
    lemma_last_prompt_size(config, load.ranks);
    if exists|i: int| 0 <= i < load.ranks.len() && cannot_tell_tokens(#[trigger] load.ranks[i]) {
        let i = choose|i: int|
            0 <= i < load.ranks.len() && cannot_tell_tokens(#[trigger] load.ranks[i]);
        assert(load.ranks[i].tokens_unavailable());
    }
    if exists|i: int| 0 <= i < load.ranks.len() && (#[trigger] load.ranks[i]).tokens_unavailable() {
        let i = choose|i: int|
            0 <= i < load.ranks.len() && (#[trigger] load.ranks[i]).tokens_unavailable();
        assert(cannot_tell_tokens(load.ranks[i]));
    }
}

proof fn lemma_last_prompt_size(config: EstimatedWaitConfig, ranks: Seq<SchedulerLoadSnapshot>)
    ensures
        config.last_prompt_size(ranks) is Some <==> exists|i: int|
            0 <= i < ranks.len() && cannot_tell_tokens(#[trigger] ranks[i]),
    decreases ranks.len(),
{
    if ranks.len() > 0 {
        let rest = ranks.drop_last();
        let last = ranks[ranks.len() - 1];
        lemma_last_prompt_size(config, rest);
        if exists|i: int| 0 <= i < rest.len() && cannot_tell_tokens(#[trigger] rest[i]) {
            let i = choose|i: int| 0 <= i < rest.len() && cannot_tell_tokens(#[trigger] rest[i]);
            assert(cannot_tell_tokens(ranks[i]));
        }
        if exists|i: int| 0 <= i < ranks.len() && cannot_tell_tokens(#[trigger] ranks[i]) {
            let i = choose|i: int| 0 <= i < ranks.len() && cannot_tell_tokens(#[trigger] ranks[i]);
            if i < rest.len() {
                assert(cannot_tell_tokens(rest[i]));
            }
        }
    }
}

/// A report has a score just if an estimate can be made of it whose wait with the
/// dispatched tokens is finite: that wait, whether some rank could not tell its
/// tokens, and whether the fallback stood in.
pub proof fn law_score_of_a_report(config: EstimatedWaitConfig, load: LoadView, dispatched: u64)
    ensures
        ({
            let estimate = estimate_in_use(config, load);
            let score = config.scored(load, dispatched);
            &&& score is Some <==> can_be_used(config, load) && estimate.wait(0).finite()
                && estimate.wait(dispatched).finite()
            &&& score matches Some((seconds, proxy, fallback)) ==> {
                &&& seconds == estimate.wait(dispatched)
                &&& proxy <==> exists|i: int|
                    0 <= i < load.ranks.len() && cannot_tell_tokens(#[trigger] load.ranks[i])
                &&& fallback <==> crate::config::reported_capacity(load.ranks) is None
            }
        }),
{
    law_estimate_of_a_report(config, load);
}

/// The prompt size that an estimate shows is that of the last rank that could not
/// tell its tokens.
pub proof fn law_estimate_shows_the_last_prompt_size(
    config: EstimatedWaitConfig,
    load: LoadView,
    prepared: PreparedWait,
    i: int,
)
    requires
        config.prepared(load) == Some(prepared),
        0 <= i < load.ranks.len(),
        cannot_tell_tokens(load.ranks[i]),
        forall|j: int|
            i < j < load.ranks.len() ==> !cannot_tell_tokens(#[trigger] load.ranks[j]),
    ensures
        prepared.blended_prompt_size == Some(config.prompt_size(load.ranks[i])),
{
    lemma_last_is(config, load.ranks, i);
}

proof fn lemma_last_is(config: EstimatedWaitConfig, ranks: Seq<SchedulerLoadSnapshot>, i: int)
    requires
        0 <= i < ranks.len(),
        cannot_tell_tokens(ranks[i]),
        forall|j: int| i < j < ranks.len() ==> !cannot_tell_tokens(#[trigger] ranks[j]),
    ensures
        config.last_prompt_size(ranks) == Some(config.prompt_size(ranks[i])),
    decreases ranks.len(),
{
    let rest = ranks.drop_last();
    if i < ranks.len() - 1 {
        assert(!cannot_tell_tokens(ranks[ranks.len() - 1]));
        assert(rest[i] == ranks[i]);
        assert forall|j: int| i < j < rest.len() implies !cannot_tell_tokens(
            #[trigger] rest[j],
        ) by {
            assert(rest[j] == ranks[j]);
        }
        lemma_last_is(config, rest, i);
    }
}

} // verus!
