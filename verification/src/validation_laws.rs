//! Which configurations pass validation, in terms of the configured numbers.

use vstd::prelude::*;
use vstd::arithmetic::power2::*;
use crate::binary64::Binary64;
use crate::config::{ConfigErrorView, EstimatedWaitConfig};

verus! {

/// A finite number above zero.
pub open spec fn above_zero(x: Binary64) -> bool {
    x.finite() && !x.negative() && x.units() > 0
}

/// A finite number that is zero or above; zero may have a sign.
pub open spec fn zero_or_above(x: Binary64) -> bool {
    x.finite() && (x.negative() ==> x.units() == 0)
}

/// A number above zero is one that is finite and greater than zero.
pub proof fn lemma_above_zero(x: Binary64)
    ensures
        above_zero(x) <==> crate::config::positive_finite(x),
        above_zero(x) <==> x.finite() && x.order() > 0,
{
    crate::formula_laws::lemma_zero();
    if x.finite() {
        crate::binary64::lemma_significand(x);
    }
}

/// A number that is not below zero is one of order zero or more.
pub proof fn lemma_zero_or_above(x: Binary64)
    ensures
        zero_or_above(x) <==> x.finite() && x.order() >= 0,
        zero_or_above(x) ==> crate::order::nonnegative(x) && x.signed_units() == x.units(),
{
    if x.finite() {
        crate::binary64::lemma_significand(x);
    }
}

/// A number is at most one just if it has at most the units of one.
proof fn lemma_at_most_one(x: Binary64)
    requires
        zero_or_above(x),
    ensures
        Binary64::integer(1).less(x) <==> x.units() > pow2(1074),
{
    let one = Binary64::integer(1);
    crate::formula_laws::lemma_one();
    lemma_zero_or_above(x);
    lemma_pow2_pos(1074);
    crate::binary64::lemma_significand(x);
    crate::order::lemma_units_order(x, one);
}

/// Whether the configured numbers are what they have to be: the budget, if
/// there is one, the fallback throughput, the mean prefill tokens and the
/// maximum age above zero, the coefficients zero or above, and the threshold at
/// most one.
pub open spec fn numbers_in_range(config: EstimatedWaitConfig) -> bool {
    &&& config.max_estimated_wait_secs matches Some(budget) ==> above_zero(budget)
    &&& above_zero(config.estimated_wait_fallback_prefill_throughput)
    &&& config.estimated_wait_mean_prefill_tokens > 0
    &&& above_zero(config.estimated_wait_max_snapshot_age_secs)
    &&& zero_or_above(config.estimated_wait_kv_pressure_weight)
    &&& zero_or_above(config.estimated_wait_base_overhead_secs)
    &&& zero_or_above(config.estimated_wait_queue_work_correction)
    &&& zero_or_above(config.estimated_wait_dispatch_blocking_factor)
    &&& zero_or_above(config.estimated_wait_kv_pressure_threshold)
    &&& config.estimated_wait_kv_pressure_threshold.units() <= pow2(1074)
}

proof fn lemma_tokens_above_zero(tokens: u32)
    ensures
        above_zero(Binary64::integer(tokens as int)) <==> tokens > 0,
        zero_or_above(Binary64::integer(tokens as int)),
{
    crate::formula_laws::lemma_zero();
    crate::formula_laws::lemma_one();
    crate::error_laws::lemma_integer_finite(tokens as u64);
    lemma_above_zero(Binary64::integer(tokens as int));
    if tokens > 0 {
        crate::order::lemma_integer_order(1, tokens as int);
    }
}

proof fn lemma_required(x: Binary64, name: Seq<char>)
    ensures
        (crate::config::CheckedField { name, value: x, allow_zero: false }).acceptable()
            <==> above_zero(x),
        (crate::config::CheckedField { name, value: x, allow_zero: true }).acceptable()
            <==> zero_or_above(x),
{
    crate::formula_laws::lemma_zero();
    lemma_above_zero(x);
    lemma_zero_or_above(x);
}

/// The error that names a required number.
pub open spec fn not_above_zero(field: Seq<char>, value: Binary64) -> ConfigErrorView {
    ConfigErrorView { field, value, reason: "Must be finite and > 0"@ }
}

/// The error that names a coefficient.
pub open spec fn below_zero(field: Seq<char>, value: Binary64) -> ConfigErrorView {
    ConfigErrorView { field, value, reason: "Must be finite and >= 0"@ }
}

/// What has to be said of a configuration: nothing if its numbers are in range,
/// and otherwise which number comes first that is not.
pub open spec fn complaint(config: EstimatedWaitConfig) -> Option<ConfigErrorView> {
    let weight = config.estimated_wait_kv_pressure_weight;
    let threshold = config.estimated_wait_kv_pressure_threshold;
    let base = config.estimated_wait_base_overhead_secs;
    let correction = config.estimated_wait_queue_work_correction;
    let blocking = config.estimated_wait_dispatch_blocking_factor;
    let fallback = config.estimated_wait_fallback_prefill_throughput;
    let age = config.estimated_wait_max_snapshot_age_secs;
    if config.max_estimated_wait_secs is Some && !above_zero(
        config.max_estimated_wait_secs.unwrap(),
    ) {
        Some(
            not_above_zero("max_estimated_wait_secs"@, config.max_estimated_wait_secs.unwrap()),
        )
    } else if !zero_or_above(weight) {
        Some(below_zero("estimated_wait_kv_pressure_weight"@, weight))
    } else if !zero_or_above(threshold) {
        Some(below_zero("estimated_wait_kv_pressure_threshold"@, threshold))
    } else if !zero_or_above(base) {
        Some(below_zero("estimated_wait_base_overhead_secs"@, base))
    } else if !zero_or_above(correction) {
        Some(below_zero("estimated_wait_queue_work_correction"@, correction))
    } else if !zero_or_above(blocking) {
        Some(below_zero("estimated_wait_dispatch_blocking_factor"@, blocking))
    } else if !above_zero(fallback) {
        Some(not_above_zero("estimated_wait_fallback_prefill_throughput"@, fallback))
    } else if config.estimated_wait_mean_prefill_tokens == 0 {
        Some(not_above_zero("estimated_wait_mean_prefill_tokens"@, Binary64 { bits: 0 }))
    } else if !above_zero(age) {
        Some(not_above_zero("estimated_wait_max_snapshot_age_secs"@, age))
    } else if threshold.units() > pow2(1074) {
        Some(
            ConfigErrorView {
                field: "estimated_wait_kv_pressure_threshold"@,
                value: threshold,
                reason: "Must be finite and between 0 and 1"@,
            },
        )
    } else {
        None
    }
}

proof fn lemma_checks(config: EstimatedWaitConfig)
    ensures
        ({
            let fields = config.checked_fields();
            &&& fields.len() == 9
            &&& fields[0].acceptable() <==> (config.max_estimated_wait_secs matches Some(budget)
                ==> above_zero(budget))
            &&& fields[1].acceptable() <==> zero_or_above(config.estimated_wait_kv_pressure_weight)
            &&& fields[2].acceptable() <==> zero_or_above(
                config.estimated_wait_kv_pressure_threshold,
            )
            &&& fields[3].acceptable() <==> zero_or_above(config.estimated_wait_base_overhead_secs)
            &&& fields[4].acceptable() <==> zero_or_above(
                config.estimated_wait_queue_work_correction,
            )
            &&& fields[5].acceptable() <==> zero_or_above(
                config.estimated_wait_dispatch_blocking_factor,
            )
            &&& fields[6].acceptable() <==> above_zero(
                config.estimated_wait_fallback_prefill_throughput,
            )
            &&& fields[7].acceptable() <==> config.estimated_wait_mean_prefill_tokens > 0
            &&& fields[8].acceptable() <==> above_zero(config.estimated_wait_max_snapshot_age_secs)
        }),
{
    let fields = config.checked_fields();
    crate::formula_laws::lemma_one();
    lemma_pow2_pos(1074);
    lemma_tokens_above_zero(config.estimated_wait_mean_prefill_tokens);
    lemma_required(fields[0].value, fields[0].name);
    lemma_required(fields[1].value, fields[1].name);
    lemma_required(fields[2].value, fields[2].name);
    lemma_required(fields[3].value, fields[3].name);
    lemma_required(fields[4].value, fields[4].name);
    lemma_required(fields[5].value, fields[5].name);
    lemma_required(fields[6].value, fields[6].name);
    lemma_required(fields[7].value, fields[7].name);
    lemma_required(fields[8].value, fields[8].name);
}

/// Validation accepts just the configurations whose numbers are in range: every
/// positive budget, throughput and age, however small, is accepted.
pub proof fn law_validation_accepts_numbers_in_range(config: EstimatedWaitConfig)
    ensures
        config.valid() <==> numbers_in_range(config),
{
    let fields = config.checked_fields();
    lemma_checks(config);
    if zero_or_above(config.estimated_wait_kv_pressure_threshold) {
        lemma_at_most_one(config.estimated_wait_kv_pressure_threshold);
    }
    if config.all_acceptable() {
        assert(fields[0].acceptable());
        assert(fields[1].acceptable());
        assert(fields[2].acceptable());
        assert(fields[3].acceptable());
        assert(fields[4].acceptable());
        assert(fields[5].acceptable());
        assert(fields[6].acceptable());
        assert(fields[7].acceptable());
        assert(fields[8].acceptable());
    }
}

/// Validation fails with the complaint about the first number out of range, and
/// with no other.
pub proof fn law_validation_names_the_first_number_out_of_range(
    config: EstimatedWaitConfig,
    error: ConfigErrorView,
)
    ensures
        config.refused_with(error) <==> complaint(config) == Some(error),
        config.valid() <==> complaint(config) is None,
{
    let fields = config.checked_fields();
    lemma_checks(config);
    law_validation_accepts_numbers_in_range(config);
    crate::formula_laws::lemma_zero();
    if zero_or_above(config.estimated_wait_kv_pressure_threshold) {
        lemma_at_most_one(config.estimated_wait_kv_pressure_threshold);
    }
    if config.all_acceptable() {
        assert(fields[0].acceptable());
        assert(fields[1].acceptable());
        assert(fields[2].acceptable());
        assert(fields[3].acceptable());
        assert(fields[4].acceptable());
        assert(fields[5].acceptable());
        assert(fields[6].acceptable());
        assert(fields[7].acceptable());
        assert(fields[8].acceptable());
        assert(forall|i: int| !#[trigger] config.first_invalid(i));
    } else {
        let first: int = if !fields[0].acceptable() {
            0
        } else if !fields[1].acceptable() {
            1
        } else if !fields[2].acceptable() {
            2
        } else if !fields[3].acceptable() {
            3
        } else if !fields[4].acceptable() {
            4
        } else if !fields[5].acceptable() {
            5
        } else if !fields[6].acceptable() {
            6
        } else if !fields[7].acceptable() {
            7
        } else {
            8
        };
        assert(config.first_invalid(first));
        assert forall|i: int| #[trigger] config.first_invalid(i) implies i == first by {
            if i < first {
                assert(fields[i].acceptable());
            }
            if first < i {
                assert(fields[first].acceptable());
            }
        }
        assert(complaint(config) == Some(fields[first].error()));
    }
}

} // verus!
