//! Configuration of the estimated-wait guard, and the estimate that it makes
//! of a load report.

use vstd::prelude::*;
use crate::binary64::Binary64;
use crate::expected_wait::{
    ExpectedWait, DEFAULT_MEAN_PREFILL_TOKENS, default_kv_pressure_weight, default_throughput,
};
use crate::load::{LoadView, SchedulerLoadSnapshot, WorkerLoadResponse};
use crate::worker::Worker;

verus! {

/// Why a configuration is refused.
#[derive(Clone, Debug)]
pub enum ConfigError {
    InvalidValue { field: String, value: Binary64, reason: String },
}

/// The mathematical counterpart of [`ConfigError`].
pub struct ConfigErrorView {
    pub field: Seq<char>,
    pub value: Binary64,
    pub reason: Seq<char>,
}

impl View for ConfigError {
    type V = ConfigErrorView;

    open spec fn view(&self) -> ConfigErrorView {
        match self {
            ConfigError::InvalidValue { field, value, reason } => ConfigErrorView {
                field: field@,
                value: *value,
                reason: reason@,
            },
        }
    }
}

/// All defaults are starting points for calibration, not capacity guarantees.
#[derive(Clone, Copy, Debug)]
pub struct EstimatedWaitConfig {
    pub max_estimated_wait_secs: Option<Binary64>,
    pub estimated_wait_kv_pressure_weight: Binary64,
    pub estimated_wait_kv_pressure_threshold: Binary64,
    pub estimated_wait_base_overhead_secs: Binary64,
    pub estimated_wait_queue_work_correction: Binary64,
    pub estimated_wait_dispatch_blocking_factor: Binary64,
    pub estimated_wait_mean_prefill_tokens: u32,
    pub estimated_wait_fallback_prefill_throughput: Binary64,
    pub estimated_wait_prompt_size_prior_samples: u32,
    /// Zero disables the waiting-request compatibility proxy.
    pub estimated_wait_queue_tokens_per_request: u32,
    pub estimated_wait_max_snapshot_age_secs: Binary64,
    /// Record would-reject decisions without enforcing estimated-wait budgets.
    pub estimated_wait_shadow: bool,
}

/// The estimate made of one report, with how it came about.
#[derive(Clone, Copy, Debug)]
pub struct PreparedWait {
    pub estimate: ExpectedWait,
    /// Waiting requests stood in for queued tokens on some rank.
    pub proxy: bool,
    /// The configured throughput stood in for a reported one.
    pub fallback: bool,
    /// The tokens per waiting request of the last rank that needed them.
    pub blended_prompt_size: Option<Binary64>,
    pub effective_prefill_capacity: Binary64,
}

/// A configured number, its name, and whether it may be zero.
pub struct CheckedField {
    pub name: Seq<char>,
    pub value: Binary64,
    pub allow_zero: bool,
}

impl CheckedField {
    /// Finite and at least zero, or above zero where zero is not allowed.
    pub open spec fn acceptable(self) -> bool {
        &&& self.value.finite()
        &&& !self.value.less(Binary64::integer(0))
        &&& self.allow_zero || !self.value.equals(Binary64::integer(0))
    }

    pub open spec fn error(self) -> ConfigErrorView {
        ConfigErrorView {
            field: self.name,
            value: self.value,
            reason: if self.allow_zero {
                "Must be finite and >= 0"@
            } else {
                "Must be finite and > 0"@
            },
        }
    }
}

/// Finite and above zero.
pub open spec fn positive_finite(value: Binary64) -> bool {
    value.finite() && Binary64::integer(0).less(value)
}

/// The value, if it is there and is finite and above zero.
pub open spec fn positive_only(value: Option<Binary64>) -> Option<Binary64> {
    match value {
        Some(v) if positive_finite(v) => Some(v),
        _ => None,
    }
}

fn is_positive_finite(value: Binary64) -> (b: bool)
    ensures
        b == positive_finite(value),
{
    value.is_finite() && Binary64::from_u64(0).lt(value)
}

fn keep_positive(value: Option<Binary64>) -> (kept: Option<Binary64>)
    ensures
        kept == positive_only(value),
{
    match value {
        Some(v) => {
            if is_positive_finite(v) {
                Some(v)
            } else {
                None
            }
        },
        None => None,
    }
}

impl EstimatedWaitConfig {
    /// The configured numbers, in the order in which they are checked.
    pub open spec fn checked_fields(self) -> Seq<CheckedField> {
        seq![
            CheckedField {
                name: "max_estimated_wait_secs"@,
                value: match self.max_estimated_wait_secs {
                    Some(secs) => secs,
                    None => Binary64::integer(1),
                },
                allow_zero: false,
            },
            CheckedField {
                name: "estimated_wait_kv_pressure_weight"@,
                value: self.estimated_wait_kv_pressure_weight,
                allow_zero: true,
            },
            CheckedField {
                name: "estimated_wait_kv_pressure_threshold"@,
                value: self.estimated_wait_kv_pressure_threshold,
                allow_zero: true,
            },
            CheckedField {
                name: "estimated_wait_base_overhead_secs"@,
                value: self.estimated_wait_base_overhead_secs,
                allow_zero: true,
            },
            CheckedField {
                name: "estimated_wait_queue_work_correction"@,
                value: self.estimated_wait_queue_work_correction,
                allow_zero: true,
            },
            CheckedField {
                name: "estimated_wait_dispatch_blocking_factor"@,
                value: self.estimated_wait_dispatch_blocking_factor,
                allow_zero: true,
            },
            CheckedField {
                name: "estimated_wait_fallback_prefill_throughput"@,
                value: self.estimated_wait_fallback_prefill_throughput,
                allow_zero: false,
            },
            CheckedField {
                name: "estimated_wait_mean_prefill_tokens"@,
                value: Binary64::integer(self.estimated_wait_mean_prefill_tokens as int),
                allow_zero: false,
            },
            CheckedField {
                name: "estimated_wait_max_snapshot_age_secs"@,
                value: self.estimated_wait_max_snapshot_age_secs,
                allow_zero: false,
            },
        ]
    }

    /// Whether the number at `i` is the first that is not acceptable.
    pub open spec fn first_invalid(self, i: int) -> bool {
        let fields = self.checked_fields();
        &&& 0 <= i < fields.len()
        &&& !fields[i].acceptable()
        &&& forall|j: int| 0 <= j < i ==> (#[trigger] fields[j]).acceptable()
    }

    pub open spec fn all_acceptable(self) -> bool {
        let fields = self.checked_fields();
        forall|i: int| 0 <= i < fields.len() ==> (#[trigger] fields[i]).acceptable()
    }

    pub open spec fn threshold_above_one(self) -> bool {
        Binary64::integer(1).less(self.estimated_wait_kv_pressure_threshold)
    }

    /// Whether the configuration passes validation.
    pub open spec fn valid(self) -> bool {
        self.all_acceptable() && !self.threshold_above_one()
    }

    /// Whether validation fails with this error.
    pub open spec fn refused_with(self, error: ConfigErrorView) -> bool {
        ||| exists|i: int| #[trigger]
            self.first_invalid(i) && error == self.checked_fields()[i].error()
        ||| self.all_acceptable() && self.threshold_above_one() && error == (ConfigErrorView {
            field: "estimated_wait_kv_pressure_threshold"@,
            value: self.estimated_wait_kv_pressure_threshold,
            reason: "Must be finite and between 0 and 1"@,
        })
    }

    /// Checks the configured numbers and reports the first that cannot be used.
    pub fn validate(&self) -> (result: Result<(), ConfigError>)
        ensures
            result is Ok <==> self.valid(),
            result matches Err(error) ==> self.refused_with(error@),
    {
        let budget: Binary64 = match self.max_estimated_wait_secs {
            Some(secs) => secs,
            None => Binary64::from_u64(1),
        };
        let zero: Binary64 = Binary64::from_u64(0);
        let ghost spec_fields = self.checked_fields();
        let fields: [(&str, Binary64, bool); 9] = [
            ("max_estimated_wait_secs", budget, false),
            ("estimated_wait_kv_pressure_weight", self.estimated_wait_kv_pressure_weight, true),
            (
                "estimated_wait_kv_pressure_threshold",
                self.estimated_wait_kv_pressure_threshold,
                true,
            ),
            ("estimated_wait_base_overhead_secs", self.estimated_wait_base_overhead_secs, true),
            (
                "estimated_wait_queue_work_correction",
                self.estimated_wait_queue_work_correction,
                true,
            ),
            (
                "estimated_wait_dispatch_blocking_factor",
                self.estimated_wait_dispatch_blocking_factor,
                true,
            ),
            (
                "estimated_wait_fallback_prefill_throughput",
                self.estimated_wait_fallback_prefill_throughput,
                false,
            ),
            (
                "estimated_wait_mean_prefill_tokens",
                Binary64::from_u32(self.estimated_wait_mean_prefill_tokens),
                false,
            ),
            (
                "estimated_wait_max_snapshot_age_secs",
                self.estimated_wait_max_snapshot_age_secs,
                false,
            ),
        ];
        let mut i: usize = 0;
        while i < 9
            invariant
                i <= 9,
                zero == Binary64::integer(0),
                spec_fields == self.checked_fields(),
                spec_fields.len() == 9,
                forall|j: int|
                    #![trigger spec_fields[j]]
                    0 <= j < 9 ==> {
                        &&& fields@[j].0@ == spec_fields[j].name
                        &&& fields@[j].1 == spec_fields[j].value
                        &&& fields@[j].2 == spec_fields[j].allow_zero
                    },
                forall|j: int| 0 <= j < i ==> (#[trigger] spec_fields[j]).acceptable(),
            decreases 9 - i,
        {
            let (field, value, allow_zero) = fields[i];
            assert(spec_fields[i as int].name == field@);
            if !value.is_finite() || value.lt(zero) || (!allow_zero && value.eq(zero)) {
                assert(self.first_invalid(i as int));
                let reason: &str = if allow_zero {
                    "Must be finite and >= 0"
                } else {
                    "Must be finite and > 0"
                };
                return Err(
                    ConfigError::InvalidValue {
                        field: field.to_owned(),
                        value,
                        reason: reason.to_owned(),
                    },
                );
            }
            i = i + 1;
        }
        if Binary64::from_u64(1).lt(self.estimated_wait_kv_pressure_threshold) {
            return Err(
                ConfigError::InvalidValue {
                    field: "estimated_wait_kv_pressure_threshold".to_owned(),
                    value: self.estimated_wait_kv_pressure_threshold,
                    reason: "Must be finite and between 0 and 1".to_owned(),
                },
            );
        }
        Ok(())
    }
}

impl EstimatedWaitConfig {
    pub open spec fn default_config() -> EstimatedWaitConfig {
        EstimatedWaitConfig {
            max_estimated_wait_secs: None,
            estimated_wait_kv_pressure_weight: crate::expected_wait::kv_pressure_weight_default(),
            estimated_wait_kv_pressure_threshold: Binary64::integer(0),
            estimated_wait_base_overhead_secs: Binary64::integer(0),
            estimated_wait_queue_work_correction: Binary64::integer(1),
            estimated_wait_dispatch_blocking_factor: Binary64::integer(1),
            estimated_wait_mean_prefill_tokens: DEFAULT_MEAN_PREFILL_TOKENS,
            estimated_wait_fallback_prefill_throughput: crate::expected_wait::throughput_default(),
            estimated_wait_prompt_size_prior_samples: 32,
            estimated_wait_queue_tokens_per_request: 0,
            estimated_wait_max_snapshot_age_secs: Binary64::integer(30),
            estimated_wait_shadow: false,
        }
    }

    /// The budget of a worker: its own, or else the gateway's.
    pub open spec fn budget(self, own: Option<Binary64>) -> Option<Binary64> {
        if own is Some {
            own
        } else {
            self.max_estimated_wait_secs
        }
    }

    /// Resolves a worker's override of the gateway budget.
    pub fn threshold(&self, worker: &Worker) -> (threshold: Option<Binary64>)
        ensures
            threshold == self.budget(worker.max_estimated_wait_secs),
    {
        match worker.max_estimated_wait_secs {
            Some(secs) => Some(secs),
            None => self.max_estimated_wait_secs,
        }
    }
}

impl Default for EstimatedWaitConfig {
    fn default() -> (config: EstimatedWaitConfig)
        ensures
            config == EstimatedWaitConfig::default_config(),
    {
        EstimatedWaitConfig {
            max_estimated_wait_secs: None,
            estimated_wait_kv_pressure_weight: default_kv_pressure_weight(),
            estimated_wait_kv_pressure_threshold: Binary64::from_u64(0),
            estimated_wait_base_overhead_secs: Binary64::from_u64(0),
            estimated_wait_queue_work_correction: Binary64::from_u64(1),
            estimated_wait_dispatch_blocking_factor: Binary64::from_u64(1),
            estimated_wait_mean_prefill_tokens: DEFAULT_MEAN_PREFILL_TOKENS,
            estimated_wait_fallback_prefill_throughput: default_throughput(),
            estimated_wait_prompt_size_prior_samples: 32,
            estimated_wait_queue_tokens_per_request: 0,
            estimated_wait_max_snapshot_age_secs: Binary64::from_u64(30),
            estimated_wait_shadow: false,
        }
    }
}

/// The median prompt size of a rank and the number of samples behind it, if
/// both can be used.
pub open spec fn observed_prompt_size(rank: SchedulerLoadSnapshot) -> Option<(Binary64, u64)> {
    match (
        positive_only(rank.median_request_prefill_kv_computed_tokens),
        rank.prefill_size_sample_count,
    ) {
        (Some(median), Some(count)) if count > 0 => Some((median, count)),
        _ => None,
    }
}

/// The average of `prior` and `median`, weighted by their numbers of samples.
pub open spec fn blended_size(
    prior: Binary64,
    prior_samples: u32,
    median: Binary64,
    samples: u64,
) -> Binary64 {
    let prior_weight = Binary64::integer(prior_samples as int);
    let observed_weight = Binary64::integer(samples as int);
    prior.product(prior_weight).sum(median.product(observed_weight)).quotient(
        prior_weight.sum(observed_weight),
    )
}

impl EstimatedWaitConfig {
    /// The prompt size that is assumed before any is observed.
    pub open spec fn prompt_size_prior(self) -> Binary64 {
        if self.estimated_wait_queue_tokens_per_request > 0 {
            Binary64::integer(self.estimated_wait_queue_tokens_per_request as int)
        } else {
            Binary64::integer(self.estimated_wait_mean_prefill_tokens as int)
        }
    }

    /// The tokens that one waiting request of a rank stands for. Zero if
    /// nothing is observed and no proxy is configured.
    pub open spec fn prompt_size(self, rank: SchedulerLoadSnapshot) -> Binary64 {
        match observed_prompt_size(rank) {
            Some((median, count)) => blended_size(
                self.prompt_size_prior(),
                self.estimated_wait_prompt_size_prior_samples,
                median,
                count,
            ),
            None => if rank.prefill_capacity_learning_active is Some {
                self.prompt_size_prior()
            } else {
                match positive_only(rank.avg_request_prefill_kv_computed_tokens) {
                    Some(average) => average,
                    None => Binary64::integer(self.estimated_wait_queue_tokens_per_request as int),
                }
            },
        }
    }

    /// The queued tokens of a rank: as reported, or its waiting requests at
    /// their assumed size.
    pub open spec fn rank_backlog(self, rank: SchedulerLoadSnapshot) -> Binary64 {
        if rank.tokens_unavailable() {
            Binary64::integer(rank.num_waiting_reqs as int).product(self.prompt_size(rank))
        } else {
            Binary64::integer(rank.num_waiting_uncached_tokens as int)
        }
    }

    pub open spec fn backlog(self, ranks: Seq<SchedulerLoadSnapshot>) -> Binary64 {
        crate::load::total(ranks, |rank: SchedulerLoadSnapshot| self.rank_backlog(rank))
    }

    /// Whether the backlog of a rank can be told.
    pub open spec fn backlog_known(self, rank: SchedulerLoadSnapshot) -> bool {
        rank.tokens_unavailable() ==> !self.prompt_size(rank).equals(Binary64::integer(0))
    }

    /// The assumed prompt size of the last rank that needed one.
    pub open spec fn last_prompt_size(self, ranks: Seq<SchedulerLoadSnapshot>) -> Option<Binary64>
        decreases ranks.len(),
    {
        if ranks.len() == 0 {
            None
        } else if ranks.last().tokens_unavailable() {
            Some(self.prompt_size(ranks.last()))
        } else {
            self.last_prompt_size(ranks.drop_last())
        }
    }

    /// Whether a report is complete and every rank of it can be used.
    pub open spec fn usable(self, load: LoadView) -> bool {
        let ranks = load.ranks;
        &&& ranks.len() > 0
        &&& load.dp_rank_count > 0 ==> load.dp_rank_count == ranks.len()
        &&& forall|i: int| 0 <= i < ranks.len() ==> (#[trigger] ranks[i]).well_formed()
        &&& forall|i: int| 0 <= i < ranks.len() ==> self.backlog_known(#[trigger] ranks[i])
    }

    /// The estimate of a report, if one can be made.
    pub open spec fn prepared(self, load: LoadView) -> Option<PreparedWait> {
        let ranks = load.ranks;
        let reported = reported_capacity(ranks);
        let throughput = match reported {
            Some(value) => value,
            None => self.estimated_wait_fallback_prefill_throughput,
        };
        let estimate = ExpectedWait::prepared(
            self.backlog(ranks),
            throughput,
            crate::load::mean_token_usage(ranks),
            self.estimated_wait_base_overhead_secs,
            self.estimated_wait_queue_work_correction,
            self.estimated_wait_dispatch_blocking_factor,
            self.estimated_wait_kv_pressure_threshold,
            self.estimated_wait_kv_pressure_weight,
        );
        if self.usable(load) && estimate.wait(0).finite() {
            Some(
                PreparedWait {
                    estimate,
                    proxy: exists|i: int|
                        0 <= i < ranks.len() && (#[trigger] ranks[i]).tokens_unavailable(),
                    fallback: reported is None,
                    blended_prompt_size: self.last_prompt_size(ranks),
                    effective_prefill_capacity: throughput,
                },
            )
        } else {
            None
        }
    }
}

/// Whether the backend learns its capacity, so that its live rates are demand.
pub open spec fn learns_capacity(ranks: Seq<SchedulerLoadSnapshot>) -> bool {
    exists|i: int|
        0 <= i < ranks.len() && (#[trigger] ranks[i]).prefill_capacity_learning_active is Some
}

/// The generation throughput, if it is positive and no rank's is negative.
pub open spec fn live_generation(ranks: Seq<SchedulerLoadSnapshot>) -> Option<Binary64> {
    let generation = crate::load::gen_throughput_total(ranks);
    if positive_finite(generation) && forall|i: int|
        0 <= i < ranks.len() ==> Binary64::integer(0).at_most((#[trigger] ranks[i]).gen_throughput) {
        Some(generation)
    } else {
        None
    }
}

/// The throughput that a report gives: what a learning backend has learned, or
/// else the live prefill rate, or else the live generation rate.
pub open spec fn reported_capacity(ranks: Seq<SchedulerLoadSnapshot>) -> Option<Binary64> {
    if learns_capacity(ranks) {
        positive_only(crate::load::learned_capacity_total(ranks))
    } else {
        match positive_only(crate::load::prefill_throughput_total(ranks)) {
            Some(prefill) => Some(prefill),
            None => live_generation(ranks),
        }
    }
}

fn find_reported_capacity(load: &WorkerLoadResponse) -> (capacity: Option<Binary64>)
    ensures
        capacity == reported_capacity(load.loads@),
{
    let n: usize = load.loads.len();
    let zero: Binary64 = Binary64::from_u64(0);
    let mut learns: bool = false;
    let mut none_negative: bool = true;
    let mut i: usize = 0;
    while i < n
        invariant
            n == load.loads@.len(),
            i <= n,
            zero == Binary64::integer(0),
            learns == (exists|j: int|
                0 <= j < i && (#[trigger] load.loads@[j]).prefill_capacity_learning_active is Some),
            none_negative == (forall|j: int|
                0 <= j < i ==> zero.at_most((#[trigger] load.loads@[j]).gen_throughput)),
        decreases n - i,
    {
        let ghost at = load.loads@[i as int];
        if load.loads[i].prefill_capacity_learning_active.is_some() {
            learns = true;
        }
        if !zero.le(load.loads[i].gen_throughput) {
            none_negative = false;
        }
        i = i + 1;
    }
    if learns {
        // Counter rates of such a backend are observed demand, not capacity.
        return keep_positive(load.total_learned_prefill_capacity());
    }
    match keep_positive(load.total_prefill_throughput()) {
        Some(prefill) => Some(prefill),
        None => {
            let generation: Binary64 = load.total_gen_throughput();
            if is_positive_finite(generation) && none_negative {
                Some(generation)
            } else {
                None
            }
        },
    }
}

impl EstimatedWaitConfig {
    fn find_prompt_size(&self, rank: &SchedulerLoadSnapshot) -> (size: Binary64)
        ensures
            size == self.prompt_size(*rank),
    {
        let prior: Binary64 = if self.estimated_wait_queue_tokens_per_request > 0 {
            Binary64::from_u32(self.estimated_wait_queue_tokens_per_request)
        } else {
            Binary64::from_u32(self.estimated_wait_mean_prefill_tokens)
        };
        match (
            keep_positive(rank.median_request_prefill_kv_computed_tokens),
            rank.prefill_size_sample_count,
        ) {
            (Some(median), Some(count)) if count > 0 => {
                let prior_weight: Binary64 = Binary64::from_u32(
                    self.estimated_wait_prompt_size_prior_samples,
                );
                let observed_weight: Binary64 = Binary64::from_u64(count);
                return prior.mul(prior_weight).add(median.mul(observed_weight)).div(
                    prior_weight.add(observed_weight),
                );
            },
            _ => {},
        }
        if rank.prefill_capacity_learning_active.is_some() {
            return prior;
        }
        match keep_positive(rank.avg_request_prefill_kv_computed_tokens) {
            Some(average) => average,
            None => Binary64::from_u32(self.estimated_wait_queue_tokens_per_request),
        }
    }

    /// Makes the estimate of a load report, at ingestion and never while a
    /// worker is being selected.
    pub fn prepare(&self, load: &WorkerLoadResponse) -> (result: Option<PreparedWait>)
        ensures
            result == self.prepared(load@),
    {
        let n: usize = load.loads.len();
        let ghost ranks = load.loads@;
        if n == 0 || (load.dp_rank_count > 0 && load.dp_rank_count as usize != n) {
            return None;
        }
        let mut proxy: bool = false;
        let mut blended_prompt_size: Option<Binary64> = None;
        let mut queued: Binary64 = Binary64::from_u64(0);
        let ghost signal = |rank: SchedulerLoadSnapshot| self.rank_backlog(rank);
        let mut i: usize = 0;
        while i < n
            invariant
                n == ranks.len(),
                ranks == load.loads@,
                i <= n,
                signal == (|rank: SchedulerLoadSnapshot| self.rank_backlog(rank)),
                queued == crate::load::total(ranks.take(i as int), signal),
                blended_prompt_size == self.last_prompt_size(ranks.take(i as int)),
                proxy == (exists|j: int|
                    0 <= j < i && (#[trigger] ranks[j]).tokens_unavailable()),
                forall|j: int| 0 <= j < i ==> (#[trigger] ranks[j]).well_formed(),
                forall|j: int| 0 <= j < i ==> self.backlog_known(#[trigger] ranks[j]),
            decreases n - i,
        {
            let rank: SchedulerLoadSnapshot = load.loads[i];
            assert(rank == ranks[i as int]);
            proof {
                crate::load::lemma_total_step(ranks, i as int, signal);
                assert(ranks.take(i + 1).drop_last() =~= ranks.take(i as int));
                assert(ranks.take(i + 1).last() == rank);
            }
            if !rank.is_well_formed() {
                return None;
            }
            if rank.has_unavailable_tokens() {
                let size: Binary64 = self.find_prompt_size(&rank);
                if size.eq(Binary64::from_u64(0)) {
                    assert(!self.backlog_known(ranks[i as int]));
                    return None;
                }
                blended_prompt_size = Some(size);
                proxy = true;
                queued = queued.add(Binary64::from_i32(rank.num_waiting_reqs).mul(size));
            } else {
                queued = queued.add(Binary64::from_i32(rank.num_waiting_uncached_tokens));
            }
            i = i + 1;
        }
        assert(ranks.take(n as int) =~= ranks);
        let reported: Option<Binary64> = find_reported_capacity(load);
        let (throughput, fallback) = match reported {
            Some(value) => (value, false),
            None => (self.estimated_wait_fallback_prefill_throughput, true),
        };
        let estimate: ExpectedWait = ExpectedWait::calibrated(
            queued,
            throughput,
            load.effective_token_usage(),
            self.estimated_wait_base_overhead_secs,
            self.estimated_wait_queue_work_correction,
            self.estimated_wait_dispatch_blocking_factor,
            self.estimated_wait_kv_pressure_threshold,
            self.estimated_wait_kv_pressure_weight,
        );
        if estimate.seconds(0).is_finite() {
            Some(
                PreparedWait {
                    estimate,
                    proxy,
                    fallback,
                    blended_prompt_size,
                    effective_prefill_capacity: throughput,
                },
            )
        } else {
            None
        }
    }

    /// The wait of a report after `dispatched` more tokens, if it is finite, with
    /// how the estimate came about.
    pub open spec fn scored(self, load: LoadView, dispatched: u64) -> Option<
        (Binary64, bool, bool),
    > {
        match self.prepared(load) {
            Some(prepared) => if prepared.estimate.wait(dispatched).finite() {
                Some((prepared.estimate.wait(dispatched), prepared.proxy, prepared.fallback))
            } else {
                None
            },
            None => None,
        }
    }

    /// The estimate of a report after `dispatched` more tokens, with whether
    /// it rests on the waiting-request proxy and on the fallback throughput.
    pub fn score(&self, load: &WorkerLoadResponse, dispatched: u64) -> (result: Option<
        (Binary64, bool, bool),
    >)
        ensures
            result == self.scored(load@, dispatched),
    {
        match self.prepare(load) {
            Some(prepared) => {
                let seconds: Binary64 = prepared.estimate.seconds(dispatched);
                if seconds.is_finite() {
                    Some((seconds, prepared.proxy, prepared.fallback))
                } else {
                    None
                }
            },
            None => None,
        }
    }
}

} // verus!
