use estimated_wait::binary64::Binary64;
use estimated_wait::config::{ConfigError, EstimatedWaitConfig};
use estimated_wait::load::{SchedulerLoadSnapshot, WorkerLoadResponse};
use estimated_wait::worker::Worker;

fn b(x: f64) -> Binary64 {
    Binary64::from_bits(x.to_bits())
}

fn f(x: Binary64) -> f64 {
    f64::from_bits(x.to_bits())
}

fn error_of(config: EstimatedWaitConfig) -> (String, f64, String) {
    match config.validate() {
        Err(ConfigError::InvalidValue { field, value, reason }) => (field, f(value), reason),
        Ok(()) => panic!("accepted"),
    }
}

fn refused(config: EstimatedWaitConfig, field: &str, value: f64, reason: &str) {
    let error = error_of(config);
    assert_eq!(error.0, field);
    assert_eq!(error.1.to_bits(), value.to_bits());
    assert_eq!(error.2, reason);
}

fn rank() -> SchedulerLoadSnapshot {
    SchedulerLoadSnapshot { gen_throughput: b(100.0), ..Default::default() }
}

fn report(loads: Vec<SchedulerLoadSnapshot>) -> WorkerLoadResponse {
    WorkerLoadResponse { loads, ..Default::default() }
}

fn plain() -> EstimatedWaitConfig {
    EstimatedWaitConfig { estimated_wait_kv_pressure_weight: b(0.0), ..Default::default() }
}

#[test]
fn defaults_have_their_documented_values() {
    let config = EstimatedWaitConfig::default();
    assert!(config.max_estimated_wait_secs.is_none());
    assert_eq!(f(config.estimated_wait_kv_pressure_weight), 0.15);
    assert_eq!(f(config.estimated_wait_kv_pressure_threshold), 0.0);
    assert_eq!(f(config.estimated_wait_base_overhead_secs), 0.0);
    assert_eq!(f(config.estimated_wait_queue_work_correction), 1.0);
    assert_eq!(f(config.estimated_wait_dispatch_blocking_factor), 1.0);
    assert_eq!(config.estimated_wait_mean_prefill_tokens, 1024);
    assert_eq!(f(config.estimated_wait_fallback_prefill_throughput), 2000.0);
    assert_eq!(config.estimated_wait_prompt_size_prior_samples, 32);
    assert_eq!(config.estimated_wait_queue_tokens_per_request, 0);
    assert_eq!(f(config.estimated_wait_max_snapshot_age_secs), 30.0);
    assert!(!config.estimated_wait_shadow);
    assert!(config.validate().is_ok());
}

#[test]
fn each_required_number_must_be_positive() {
    let reason = "Must be finite and > 0";
    for bad in [0.0, -0.0, -1.0, f64::NAN, f64::INFINITY, f64::NEG_INFINITY] {
        refused(
            EstimatedWaitConfig { max_estimated_wait_secs: Some(b(bad)), ..Default::default() },
            "max_estimated_wait_secs",
            bad,
            reason,
        );
        refused(
            EstimatedWaitConfig {
                estimated_wait_fallback_prefill_throughput: b(bad),
                ..Default::default()
            },
            "estimated_wait_fallback_prefill_throughput",
            bad,
            reason,
        );
        refused(
            EstimatedWaitConfig {
                estimated_wait_max_snapshot_age_secs: b(bad),
                ..Default::default()
            },
            "estimated_wait_max_snapshot_age_secs",
            bad,
            reason,
        );
    }
    refused(
        EstimatedWaitConfig { estimated_wait_mean_prefill_tokens: 0, ..Default::default() },
        "estimated_wait_mean_prefill_tokens",
        0.0,
        reason,
    );
}

#[test]
fn each_coefficient_must_not_be_negative() {
    let reason = "Must be finite and >= 0";
    for bad in [-1.0, -1e-300, f64::NAN, f64::INFINITY] {
        refused(
            EstimatedWaitConfig {
                estimated_wait_kv_pressure_weight: b(bad),
                ..Default::default()
            },
            "estimated_wait_kv_pressure_weight",
            bad,
            reason,
        );
        refused(
            EstimatedWaitConfig {
                estimated_wait_kv_pressure_threshold: b(bad),
                ..Default::default()
            },
            "estimated_wait_kv_pressure_threshold",
            bad,
            reason,
        );
        refused(
            EstimatedWaitConfig {
                estimated_wait_base_overhead_secs: b(bad),
                ..Default::default()
            },
            "estimated_wait_base_overhead_secs",
            bad,
            reason,
        );
        refused(
            EstimatedWaitConfig {
                estimated_wait_queue_work_correction: b(bad),
                ..Default::default()
            },
            "estimated_wait_queue_work_correction",
            bad,
            reason,
        );
        refused(
            EstimatedWaitConfig {
                estimated_wait_dispatch_blocking_factor: b(bad),
                ..Default::default()
            },
            "estimated_wait_dispatch_blocking_factor",
            bad,
            reason,
        );
    }
}

#[test]
fn coefficients_may_be_zero() {
    for zero in [0.0, -0.0] {
        let config = EstimatedWaitConfig {
            estimated_wait_kv_pressure_weight: b(zero),
            estimated_wait_kv_pressure_threshold: b(zero),
            estimated_wait_base_overhead_secs: b(zero),
            estimated_wait_queue_work_correction: b(zero),
            estimated_wait_dispatch_blocking_factor: b(zero),
            ..Default::default()
        };
        assert!(config.validate().is_ok());
    }
}

#[test]
fn pressure_threshold_is_a_ratio() {
    let with = |threshold: f64| EstimatedWaitConfig {
        estimated_wait_kv_pressure_threshold: b(threshold),
        ..Default::default()
    };
    assert!(with(1.0).validate().is_ok());
    refused(
        with(1.0 + f64::EPSILON),
        "estimated_wait_kv_pressure_threshold",
        1.0 + f64::EPSILON,
        "Must be finite and between 0 and 1",
    );
}

#[test]
fn the_first_unusable_number_is_reported() {
    let config = EstimatedWaitConfig {
        estimated_wait_kv_pressure_threshold: b(7.0),
        estimated_wait_max_snapshot_age_secs: b(0.0),
        ..Default::default()
    };
    assert_eq!(error_of(config).0, "estimated_wait_max_snapshot_age_secs");
    let config = EstimatedWaitConfig {
        estimated_wait_base_overhead_secs: b(-2.0),
        estimated_wait_mean_prefill_tokens: 0,
        ..Default::default()
    };
    assert_eq!(error_of(config).0, "estimated_wait_base_overhead_secs");
}

#[test]
fn worker_budget_takes_precedence_over_the_gateways() {
    let worker = |own: Option<f64>| Worker {
        url: "http://a:1".to_string(),
        incarnation: 1,
        available: true,
        max_estimated_wait_secs: own.map(b),
    };
    let gateway = EstimatedWaitConfig { max_estimated_wait_secs: Some(b(2.0)), ..plain() };
    assert_eq!(gateway.threshold(&worker(Some(4.0))).map(f), Some(4.0));
    assert_eq!(gateway.threshold(&worker(None)).map(f), Some(2.0));
    assert_eq!(plain().threshold(&worker(Some(4.0))).map(f), Some(4.0));
    assert!(plain().threshold(&worker(None)).is_none());
}

#[test]
fn rank_aggregates_are_sums_and_means() {
    let first = SchedulerLoadSnapshot {
        token_usage: b(0.25),
        prefill_throughput: Some(b(30.0)),
        learned_prefill_capacity: Some(b(7.0)),
        ..rank()
    };
    let second = SchedulerLoadSnapshot {
        token_usage: b(0.5),
        prefill_throughput: Some(b(12.0)),
        ..rank()
    };
    let both = report(vec![first, second]);
    assert_eq!(f(both.effective_token_usage()), 0.375);
    assert_eq!(f(both.total_gen_throughput()), 200.0);
    assert_eq!(both.total_prefill_throughput().map(f), Some(42.0));
    assert!(both.total_learned_prefill_capacity().is_none());
    assert_eq!(report(vec![first]).total_learned_prefill_capacity().map(f), Some(7.0));
    assert!(report(vec![first, rank()]).total_prefill_throughput().is_none());
    let empty = WorkerLoadResponse::default();
    assert_eq!(f(empty.effective_token_usage()), 0.0);
    assert_eq!(f(empty.total_gen_throughput()), 0.0);
}

#[test]
fn rank_count_must_match_where_it_is_told() {
    for (count, usable) in [(-3, true), (0, true), (1, true), (2, false)] {
        let load = WorkerLoadResponse { dp_rank_count: count, loads: vec![rank()] };
        assert_eq!(plain().prepare(&load).is_some(), usable);
    }
}

#[test]
fn negative_rank_throughput_rules_out_the_generation_rate() {
    let negative = SchedulerLoadSnapshot { gen_throughput: b(-1.0), ..rank() };
    let prepared = plain().prepare(&report(vec![rank(), negative])).unwrap();
    assert!(prepared.fallback);
    assert_eq!(f(prepared.effective_prefill_capacity), 2000.0);
    let prepared = plain().prepare(&report(vec![rank(), rank()])).unwrap();
    assert!(!prepared.fallback);
    assert_eq!(f(prepared.effective_prefill_capacity), 200.0);
}

#[test]
fn live_rates_of_a_learning_backend_are_not_its_capacity() {
    for (generation, prefill) in [(1.0, None), (1e6, Some(3.0)), (0.0, Some(1e9))] {
        let learning = SchedulerLoadSnapshot {
            gen_throughput: b(generation),
            prefill_throughput: prefill.map(b),
            prefill_capacity_learning_active: Some(true),
            learned_prefill_capacity: Some(b(40.0)),
            ..Default::default()
        };
        let prepared = plain().prepare(&report(vec![learning])).unwrap();
        assert_eq!(f(prepared.effective_prefill_capacity), 40.0);
        assert!(!prepared.fallback);
        let cold = SchedulerLoadSnapshot { learned_prefill_capacity: None, ..learning };
        let prepared = plain().prepare(&report(vec![cold])).unwrap();
        assert_eq!(f(prepared.effective_prefill_capacity), 2000.0);
        assert!(prepared.fallback);
    }
}

#[test]
fn unusable_learned_capacity_falls_back() {
    for bad in [0.0, -5.0, f64::NAN, f64::INFINITY] {
        let learning = SchedulerLoadSnapshot {
            prefill_capacity_learning_active: Some(false),
            learned_prefill_capacity: Some(b(bad)),
            ..rank()
        };
        assert!(plain().prepare(&report(vec![learning])).unwrap().fallback);
    }
}

#[test]
fn reported_tokens_are_exact_whatever_the_proxy() {
    for proxy in [0, 1, 5000] {
        let config = EstimatedWaitConfig {
            estimated_wait_queue_tokens_per_request: proxy,
            ..plain()
        };
        let told = SchedulerLoadSnapshot {
            num_waiting_reqs: 9,
            num_waiting_uncached_tokens: 300,
            ..rank()
        };
        let prepared = config.prepare(&report(vec![told])).unwrap();
        assert_eq!(f(prepared.estimate.queued_tokens), 300.0);
        assert!(!prepared.proxy);
        assert!(prepared.blended_prompt_size.is_none());
    }
}

#[test]
fn blend_weighs_prior_and_median_by_their_samples() {
    let unavailable = SchedulerLoadSnapshot {
        num_waiting_uncached_tokens_available: Some(false),
        num_waiting_reqs: 2,
        median_request_prefill_kv_computed_tokens: Some(b(40.0)),
        prefill_size_sample_count: Some(96),
        ..rank()
    };
    let config = EstimatedWaitConfig { estimated_wait_mean_prefill_tokens: 200, ..plain() };
    let prepared = config.prepare(&report(vec![unavailable])).unwrap();
    // (200 * 32 + 40 * 96) / 128
    assert_eq!(prepared.blended_prompt_size.map(f), Some(80.0));
    assert_eq!(f(prepared.estimate.queued_tokens), 160.0);
    let explicit = EstimatedWaitConfig {
        estimated_wait_queue_tokens_per_request: 1000,
        ..config
    };
    let prepared = explicit.prepare(&report(vec![unavailable])).unwrap();
    // (1000 * 32 + 40 * 96) / 128
    assert_eq!(prepared.blended_prompt_size.map(f), Some(280.0));
    let no_prior = EstimatedWaitConfig {
        estimated_wait_prompt_size_prior_samples: 0,
        ..config
    };
    let prepared = no_prior.prepare(&report(vec![unavailable])).unwrap();
    assert_eq!(prepared.blended_prompt_size.map(f), Some(40.0));
    let unsampled = SchedulerLoadSnapshot { prefill_size_sample_count: Some(0), ..unavailable };
    assert!(config.prepare(&report(vec![unsampled])).is_none());
}

#[test]
fn estimates_that_overflow_are_not_made() {
    let config = EstimatedWaitConfig {
        estimated_wait_queue_work_correction: b(f64::MAX),
        ..plain()
    };
    let busy = SchedulerLoadSnapshot { num_waiting_uncached_tokens: 1000, ..rank() };
    assert!(config.prepare(&report(vec![busy])).is_none());
    assert!(config.prepare(&report(vec![rank()])).is_some());
    assert!(config.score(&report(vec![rank()]), 1 << 40).is_none());
}

#[test]
fn a_longer_queue_never_means_less_wait() {
    let config = EstimatedWaitConfig {
        estimated_wait_queue_tokens_per_request: 300,
        ..Default::default()
    };
    let told = |tokens: i32| SchedulerLoadSnapshot {
        num_waiting_uncached_tokens: tokens,
        token_usage: b(0.5),
        ..rank()
    };
    let untold = |requests: i32| SchedulerLoadSnapshot {
        num_waiting_reqs: requests,
        num_waiting_uncached_tokens_available: Some(false),
        ..rank()
    };
    let base = config.prepare(&report(vec![told(100), untold(2)])).unwrap();
    assert_eq!(f(base.estimate.queued_tokens), 700.0);
    for (tokens, requests) in [(100, 2), (101, 2), (100, 3), (i32::MAX, i32::MAX)] {
        let longer = config.prepare(&report(vec![told(tokens), untold(requests)])).unwrap();
        for dispatched in [0, 1, 1024, u64::MAX] {
            let less = f(base.estimate.seconds(dispatched));
            let more = f(longer.estimate.seconds(dispatched));
            assert!(less <= more);
        }
        assert_eq!(base.proxy, longer.proxy);
        assert_eq!(base.fallback, longer.fallback);
        assert_eq!(base.blended_prompt_size.map(f), longer.blended_prompt_size.map(f));
        assert_eq!(
            f(base.effective_prefill_capacity),
            f(longer.effective_prefill_capacity)
        );
    }
}

#[test]
fn a_blend_lies_between_prior_and_median() {
    for prior in [1u32, 100, 1024, u32::MAX] {
        for prior_samples in [0u32, 1, 32, u32::MAX] {
            for median in [1e-300, 0.3, 80.0, 1e9] {
                for samples in [1u64, 3, 320, u64::MAX] {
                    let config = EstimatedWaitConfig {
                        estimated_wait_mean_prefill_tokens: prior,
                        estimated_wait_prompt_size_prior_samples: prior_samples,
                        ..plain()
                    };
                    let unavailable = SchedulerLoadSnapshot {
                        num_waiting_uncached_tokens_available: Some(false),
                        median_request_prefill_kv_computed_tokens: Some(b(median)),
                        prefill_size_sample_count: Some(samples),
                        ..rank()
                    };
                    let prepared = config.prepare(&report(vec![unavailable])).unwrap();
                    let blend = f(prepared.blended_prompt_size.unwrap());
                    let slack = 1.0 + 4.0 * f64::EPSILON;
                    let (low, high) = (median.min(f64::from(prior)), median.max(f64::from(prior)));
                    assert!(low <= blend * slack && blend <= high * slack);
                    if prior_samples == 0 {
                        assert!(median <= blend * slack && blend <= median * slack);
                    }
                }
            }
        }
    }
}
