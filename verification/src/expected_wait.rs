//! Expected-wait arithmetic shared by routing and admission.
//!
//! Callers own signal validation and missing-data fallbacks. This module only
//! evaluates the common score once those inputs have been resolved.

use vstd::prelude::*;
use crate::binary64::Binary64;

verus! {

/// Token estimate for a request without a known token count.
pub const DEFAULT_MEAN_PREFILL_TOKENS: u32 = 1024;

/// Default KV-pressure time penalty, in seconds: 0.15.
pub open spec fn kv_pressure_weight_default() -> Binary64 {
    Binary64::ratio(15, 100)
}

/// Fallback aggregate throughput, in tokens per second: 2000.
pub open spec fn throughput_default() -> Binary64 {
    Binary64::integer(2000)
}

/// Default KV-pressure time penalty, in seconds.
pub fn default_kv_pressure_weight() -> (weight: Binary64)
    ensures
        weight == kv_pressure_weight_default(),
{
    Binary64::from_ratio(15, 100)
}

/// Fallback aggregate throughput, in tokens per second.
pub fn default_throughput() -> (throughput: Binary64)
    ensures
        throughput == throughput_default(),
{
    Binary64::from_u64(2000)
}

/// The KV usage that the formula sees: `usage`, but at least 0 and at most
/// 0.999, where the penalty has its pole one step beyond. NaN stays NaN.
pub open spec fn bounded_usage(usage: Binary64) -> Binary64 {
    if usage.less(Binary64::integer(0)) {
        Binary64::integer(0)
    } else if Binary64::ratio(999, 1000).less(usage) {
        Binary64::ratio(999, 1000)
    } else {
        usage
    }
}

/// `max(0, x)`, which is 0 for NaN.
pub open spec fn positive_part(x: Binary64) -> Binary64 {
    if Binary64::integer(0).less(x) {
        x
    } else {
        Binary64::integer(0)
    }
}

/// `weight * k / (1 - k)` at the bounded usage `k`.
pub open spec fn kv_penalty(usage: Binary64, weight: Binary64) -> Binary64 {
    let k = bounded_usage(usage);
    weight.product(k).quotient(Binary64::integer(1).difference(k))
}

/// `weight * max(0, k - threshold) / (1 - k)` at the bounded usage `k`.
pub open spec fn kv_penalty_above(
    usage: Binary64,
    threshold: Binary64,
    weight: Binary64,
) -> Binary64 {
    let k = bounded_usage(usage);
    weight.product(positive_part(k.difference(threshold))).quotient(
        Binary64::integer(1).difference(k),
    )
}

fn bound_usage(usage: Binary64) -> (k: Binary64)
    ensures
        k == bounded_usage(usage),
{
    let low: Binary64 = Binary64::from_u64(0);
    let high: Binary64 = Binary64::from_ratio(999, 1000);
    if usage.lt(low) {
        low
    } else if high.lt(usage) {
        high
    } else {
        usage
    }
}

/// Expected-wait inputs prepared from one worker-load snapshot.
///
/// The snapshot fields stay fixed until the next load poll; callers can update
/// the estimate between polls with the tokens dispatched since that snapshot.
#[derive(Clone, Copy, Debug)]
pub struct PreparedExpectedWait {
    pub queued_tokens: Binary64,
    pub throughput: Binary64,
    pub kv_wait: Binary64,
}

impl PreparedExpectedWait {
    /// `(queued + dispatched) / throughput + kv_wait`.
    pub open spec fn wait(self, dispatched_tokens: u64) -> Binary64 {
        self.queued_tokens.sum(Binary64::integer(dispatched_tokens as int)).quotient(
            self.throughput,
        ).sum(self.kv_wait)
    }

    pub open spec fn prepared(
        queued_tokens: Binary64,
        throughput: Binary64,
        usage: Binary64,
        weight: Binary64,
    ) -> PreparedExpectedWait {
        PreparedExpectedWait { queued_tokens, throughput, kv_wait: kv_penalty(usage, weight) }
    }

    pub fn new(
        queued_tokens: Binary64,
        throughput: Binary64,
        usage: Binary64,
        weight: Binary64,
    ) -> (result: PreparedExpectedWait)
        ensures
            result == PreparedExpectedWait::prepared(queued_tokens, throughput, usage, weight),
    {
        let k: Binary64 = bound_usage(usage);
        PreparedExpectedWait {
            queued_tokens,
            throughput,
            kv_wait: weight.mul(k).div(Binary64::from_u64(1).sub(k)),
        }
    }

    /// The estimate after `dispatched_tokens` more have been sent to the worker.
    pub fn seconds(self, dispatched_tokens: u64) -> (seconds: Binary64)
        ensures
            seconds == self.wait(dispatched_tokens),
    {
        self.queued_tokens.add(Binary64::from_u64(dispatched_tokens)).div(self.throughput).add(
            self.kv_wait,
        )
    }
}

/// Expected-wait inputs with the calibration coefficients of a deployment.
#[derive(Clone, Copy, Debug)]
pub struct ExpectedWait {
    pub queued_tokens: Binary64,
    pub throughput: Binary64,
    pub base_overhead_secs: Binary64,
    pub queue_work_correction: Binary64,
    pub dispatch_blocking_factor: Binary64,
    pub kv_wait: Binary64,
}

impl ExpectedWait {
    /// `base + correction * (queued + blocking * dispatched) / throughput + kv_wait`.
    pub open spec fn wait(self, dispatched_tokens: u64) -> Binary64 {
        let work = self.queued_tokens.sum(
            self.dispatch_blocking_factor.product(Binary64::integer(dispatched_tokens as int)),
        );
        self.base_overhead_secs.sum(
            self.queue_work_correction.product(work).quotient(self.throughput),
        ).sum(self.kv_wait)
    }

    pub open spec fn prepared(
        queued_tokens: Binary64,
        throughput: Binary64,
        usage: Binary64,
        base_overhead_secs: Binary64,
        queue_work_correction: Binary64,
        dispatch_blocking_factor: Binary64,
        kv_pressure_threshold: Binary64,
        kv_pressure_weight: Binary64,
    ) -> ExpectedWait {
        ExpectedWait {
            queued_tokens,
            throughput,
            base_overhead_secs,
            queue_work_correction,
            dispatch_blocking_factor,
            kv_wait: kv_penalty_above(usage, kv_pressure_threshold, kv_pressure_weight),
        }
    }

    pub fn calibrated(
        queued_tokens: Binary64,
        throughput: Binary64,
        usage: Binary64,
        base_overhead_secs: Binary64,
        queue_work_correction: Binary64,
        dispatch_blocking_factor: Binary64,
        kv_pressure_threshold: Binary64,
        kv_pressure_weight: Binary64,
    ) -> (result: ExpectedWait)
        ensures
            result == ExpectedWait::prepared(
                queued_tokens,
                throughput,
                usage,
                base_overhead_secs,
                queue_work_correction,
                dispatch_blocking_factor,
                kv_pressure_threshold,
                kv_pressure_weight,
            ),
    {
        let k: Binary64 = bound_usage(usage);
        let excess: Binary64 = k.sub(kv_pressure_threshold);
        let zero: Binary64 = Binary64::from_u64(0);
        let pressure: Binary64 = if zero.lt(excess) {
            excess
        } else {
            zero
        };
        ExpectedWait {
            queued_tokens,
            throughput,
            base_overhead_secs,
            queue_work_correction,
            dispatch_blocking_factor,
            kv_wait: kv_pressure_weight.mul(pressure).div(Binary64::from_u64(1).sub(k)),
        }
    }

    /// The estimate after `dispatched_tokens` more have been sent to the worker.
    pub fn seconds(self, dispatched_tokens: u64) -> (seconds: Binary64)
        ensures
            seconds == self.wait(dispatched_tokens),
    {
        let dispatched: Binary64 = Binary64::from_u64(dispatched_tokens);
        let work: Binary64 = self.queued_tokens.add(self.dispatch_blocking_factor.mul(dispatched));
        self.base_overhead_secs.add(self.queue_work_correction.mul(work).div(self.throughput)).add(
            self.kv_wait,
        )
    }
}

} // verus!
