use estimated_wait::admission::{EstimatedWaitAdmission, PollWatermark, ShedResponse};
use estimated_wait::binary64::Binary64;
use estimated_wait::clock::Instant;
use estimated_wait::config::EstimatedWaitConfig;
use estimated_wait::load::{SchedulerLoadSnapshot, WorkerLoadResponse};
use estimated_wait::metric::{Counter, Metric, Metrics};
use estimated_wait::worker::Worker;

const SECOND: u64 = 1_000_000_000;
const START: u64 = 1_000 * SECOND;
const POLL_INTERVAL: u64 = 10;

fn b(x: f64) -> Binary64 {
    Binary64::from_bits(x.to_bits())
}

fn f(x: Binary64) -> f64 {
    f64::from_bits(x.to_bits())
}

fn config() -> EstimatedWaitConfig {
    EstimatedWaitConfig {
        max_estimated_wait_secs: Some(b(2.0)),
        estimated_wait_kv_pressure_weight: b(0.0),
        estimated_wait_mean_prefill_tokens: 100,
        estimated_wait_fallback_prefill_throughput: b(100.0),
        ..Default::default()
    }
}

fn load(tokens: Option<i32>, waiting: i32, throughput: f64, kv: f64) -> WorkerLoadResponse {
    WorkerLoadResponse {
        loads: vec![SchedulerLoadSnapshot {
            num_waiting_uncached_tokens: tokens.unwrap_or_default(),
            num_waiting_uncached_tokens_available: Some(tokens.is_some()),
            num_waiting_reqs: waiting,
            gen_throughput: b(throughput),
            token_usage: b(kv),
            ..Default::default()
        }],
        ..Default::default()
    }
}

fn score(
    config: &EstimatedWaitConfig,
    load: &WorkerLoadResponse,
    dispatched: u64,
) -> Option<(f64, bool, bool)> {
    config
        .score(load, dispatched)
        .map(|(seconds, proxy, fallback)| (f(seconds), proxy, fallback))
}

/// A gateway with its guard, a clock and the observations so far.
struct Gateway {
    admission: EstimatedWaitAdmission,
    metrics: Metrics,
    now: Instant,
    incarnations: u64,
    next_pick: usize,
}

impl Gateway {
    fn new() -> Gateway {
        Gateway {
            admission: EstimatedWaitAdmission::new(),
            metrics: Metrics::new(),
            now: Instant { nanos: START },
            incarnations: 0,
            next_pick: 0,
        }
    }

    fn with(config: EstimatedWaitConfig) -> Gateway {
        let mut gateway = Gateway::new();
        gateway.admission.configure(config);
        gateway
    }

    fn tick(&mut self) -> Instant {
        self.now = Instant { nanos: self.now.nanos + 1 };
        self.now
    }

    fn ago(&self, secs: u64) -> Instant {
        Instant { nanos: self.now.nanos - secs * SECOND }
    }

    fn worker(&mut self, url: &str) -> Worker {
        self.incarnations += 1;
        Worker {
            url: url.to_string(),
            incarnation: self.incarnations,
            available: true,
            max_estimated_wait_secs: None,
        }
    }

    fn worker_with_budget(&mut self, url: &str, budget: f64) -> Worker {
        Worker { max_estimated_wait_secs: Some(b(budget)), ..self.worker(url) }
    }

    fn register(&mut self, worker: &Worker) {
        self.admission.worker_added(worker, &mut self.metrics);
    }

    fn remove(&mut self, worker: &Worker) {
        self.admission.worker_removed(worker, &mut self.metrics);
    }

    fn replace(&mut self, old: &Worker, new: &Worker) {
        self.register(new);
        self.remove(old);
    }

    fn poll_started(&mut self, worker: &Worker) -> Option<PollWatermark> {
        self.admission.poll_started(worker)
    }

    fn publish_load(
        &mut self,
        worker: &Worker,
        load: Option<&WorkerLoadResponse>,
        stamp: Option<PollWatermark>,
        started: Instant,
    ) {
        self.admission.publish(worker, load, stamp, started, self.now, &mut self.metrics);
    }

    fn publish(&mut self, worker: &Worker, tokens: i32) {
        let stamp = self.poll_started(worker);
        let started = self.tick();
        self.publish_load(worker, Some(&load(Some(tokens), 0, 100.0, 0.0)), stamp, started);
    }

    fn check(&mut self, pool: &[Worker]) -> Result<(), ShedResponse> {
        let now = self.now;
        self.admission.begin().unwrap().check(pool, "m", POLL_INTERVAL, now, &mut self.metrics)
    }

    fn credit(&mut self, worker: &Worker, tokens: Option<&[u32]>) {
        let now = self.now;
        self.admission.begin().unwrap().credit(worker, tokens, now, &mut self.metrics);
    }

    /// Admits a request, selects an available worker in turn and credits it.
    fn select_from(&mut self, pool: &[Worker]) -> Result<Option<Worker>, ShedResponse> {
        let now = self.now;
        let mut guard = self.admission.begin().unwrap();
        guard.check(pool, "m", POLL_INTERVAL, now, &mut self.metrics)?;
        let available: Vec<&Worker> = pool.iter().filter(|w| w.available).collect();
        if available.is_empty() {
            return Ok(None);
        }
        let worker = available[self.next_pick % available.len()];
        self.next_pick += 1;
        guard.credit(worker, None, now, &mut self.metrics);
        Ok(Some(worker.clone()))
    }

    fn dispatched(&self, worker: &Worker) -> u64 {
        self.admission.entry_at(&worker.url).unwrap().total_dispatched
    }

    fn count(&self, wanted: Counter) -> usize {
        self.metrics
            .events
            .iter()
            .filter(|event| match event {
                Metric::Count { counter, model } => *counter == wanted && model == "m",
                Metric::Observe { .. } => false,
            })
            .count()
    }
}

#[test]
fn estimated_wait_late_old_poll_preserves_replacement_sample() {
    let mut gateway = Gateway::with(config());
    let old = gateway.worker("http://a:1");
    gateway.register(&old);
    gateway.publish(&old, 0);
    let replacement = gateway.worker("http://a:1");
    gateway.replace(&old, &replacement);
    for reset in [false, true] {
        if reset {
            gateway.admission.clear(&mut gateway.metrics);
            assert!(gateway.poll_started(&old).is_none());
        }
        gateway.publish(&replacement, 200);
        assert!(gateway.poll_started(&old).is_none());
        gateway.credit(&old, Some(&[0; 100]));
        assert!(gateway.check(&[replacement.clone()]).is_err());
        assert_eq!(gateway.dispatched(&replacement), 0);
    }
}

#[test]
fn estimated_wait_missing_http_tokens_uses_configured_proxy() {
    let config = EstimatedWaitConfig {
        estimated_wait_queue_tokens_per_request: 100,
        ..config()
    };
    // a report without the numeric field is marked unavailable
    let report = load(None, 10, 100.0, 0.0);
    assert_eq!(score(&config, &report, 0), Some((10.0, true, false)));
    let no_proxy = EstimatedWaitConfig {
        estimated_wait_queue_tokens_per_request: 0,
        ..config
    };
    assert!(score(&no_proxy, &report, 0).is_none());
    for availability in [None, Some(true), Some(false)] {
        let mut report = load(Some(0), 10, 100.0, 0.0);
        report.loads[0].num_waiting_uncached_tokens_available = availability;
        let expected = if availability == Some(false) {
            (10.0, true, false)
        } else {
            (0.0, false, false)
        };
        assert_eq!(score(&config, &report, 0), Some(expected));
    }
}

#[test]
fn vllm_dynamic_prefill_metrics_override_static_fallbacks() {
    let config = EstimatedWaitConfig {
        estimated_wait_queue_tokens_per_request: 100,
        estimated_wait_fallback_prefill_throughput: b(10.0),
        ..config()
    };
    let mut report = load(None, 2, 50.0, 0.0);
    report.loads[0].prefill_throughput = Some(b(200.0));
    report.loads[0].avg_request_prefill_kv_computed_tokens = Some(b(1000.0));
    assert_eq!(score(&config, &report, 0), Some((10.0, true, false)));
}

#[test]
fn sparse_vllm_rate_cannot_collapse_calibrated_capacity() {
    let config = EstimatedWaitConfig {
        estimated_wait_fallback_prefill_throughput: b(2000.0),
        ..config()
    };
    let mut report = load(None, 0, 2.5, 0.0);
    report.loads[0].prefill_throughput = Some(b(10.0));
    report.loads[0].avg_request_prefill_kv_computed_tokens = Some(b(20.0));
    report.loads[0].prefill_capacity_learning_active = Some(false);

    assert_eq!(score(&config, &report, 1024), Some((0.512, true, true)));
}

#[test]
fn cold_vllm_histogram_uses_configured_prompt_prior() {
    let mut report = load(None, 1, 100.0, 0.0);
    report.loads[0].avg_request_prefill_kv_computed_tokens = Some(b(20.0));
    report.loads[0].prefill_capacity_learning_active = Some(false);

    assert_eq!(score(&config(), &report, 0), Some((1.0, true, true)));
}

#[test]
fn tiny_vllm_observation_is_blended_with_prompt_prior() {
    let mut report = load(None, 1, 100.0, 0.0);
    report.loads[0].median_request_prefill_kv_computed_tokens = Some(b(20.0));
    report.loads[0].prefill_size_sample_count = Some(1);
    let score = score(&config(), &report, 0).unwrap().0;
    let expected_tokens = (100.0 * 32.0 + 20.0) / 33.0;
    assert!((score - expected_tokens / 100.0).abs() < 1e-10);
}

#[test]
fn representative_vllm_observations_converge_toward_median() {
    let mut report = load(None, 1, 100.0, 0.0);
    report.loads[0].median_request_prefill_kv_computed_tokens = Some(b(80.0));
    report.loads[0].prefill_size_sample_count = Some(320);
    let score = score(&config(), &report, 0).unwrap().0;
    let expected_tokens: f64 = (100.0 * 32.0 + 80.0 * 320.0) / 352.0;
    assert!((score - expected_tokens / 100.0).abs() < 1e-10);
    assert!((expected_tokens - 80.0).abs() < 2.0);
}

#[test]
fn calibrated_coefficients_match_formula_and_defaults_match_legacy() {
    let state = load(Some(300), 0, 100.0, 0.5);
    let legacy = score(&config(), &state, 100).unwrap().0;
    assert!((legacy - 4.0).abs() < f64::EPSILON);

    let calibrated = EstimatedWaitConfig {
        estimated_wait_base_overhead_secs: b(0.25),
        estimated_wait_queue_work_correction: b(0.5),
        estimated_wait_dispatch_blocking_factor: b(0.25),
        estimated_wait_kv_pressure_threshold: b(0.4),
        estimated_wait_kv_pressure_weight: b(2.0),
        ..config()
    };
    // 0.25 + 0.5 * (300 + 0.25 * 100) / 100 + 2 * (0.5 - 0.4) / 0.5
    assert!((score(&calibrated, &state, 100).unwrap().0 - 2.275).abs() < 1e-10);
}

#[test]
fn qualified_learned_capacity_replaces_fallback_even_when_lower() {
    let mut report = load(None, 0, 10.0, 0.0);
    report.loads[0].avg_request_prefill_kv_computed_tokens = Some(b(100.0));
    report.loads[0].prefill_capacity_learning_active = Some(false);
    assert_eq!(score(&config(), &report, 100), Some((1.0, true, true)));

    report.loads[0].learned_prefill_capacity = Some(b(40.0));
    report.loads[0].prefill_capacity_sample_count = Some(8);
    assert_eq!(score(&config(), &report, 100), Some((2.5, true, false)));
}

#[test]
fn formula_uses_exact_tokens_live_throughput_and_mean_rank_kv() {
    let config = EstimatedWaitConfig {
        estimated_wait_kv_pressure_weight: b(0.5),
        ..config()
    };
    let mut state = load(Some(100), 80, 50.0, 0.25);
    state.loads.push(SchedulerLoadSnapshot {
        num_waiting_uncached_tokens: 200,
        gen_throughput: b(50.0),
        token_usage: b(0.75),
        ..Default::default()
    });
    assert_eq!(score(&config, &state, 100), Some((4.5, false, false)));
}

#[test]
fn exact_zero_is_preserved_and_proxy_is_explicit_per_rank() {
    let mut config = config();
    assert_eq!(
        score(&config, &load(Some(0), 10, 0.0, 0.0), 0),
        Some((0.0, false, true))
    );
    assert!(score(&config, &load(None, 0, 100.0, 0.0), 0).is_none());
    config.estimated_wait_queue_tokens_per_request = 100;
    let mut state = load(Some(0), 10, 50.0, 0.0);
    state.loads.push(SchedulerLoadSnapshot {
        num_waiting_uncached_tokens: 0,
        num_waiting_uncached_tokens_available: Some(false),
        num_waiting_reqs: 2,
        gen_throughput: b(50.0),
        ..Default::default()
    });
    assert_eq!(score(&config, &state, 0), Some((2.0, true, false)));
}

#[test]
fn invalid_data_fails_open_and_invalid_throughput_uses_fallback() {
    for rate in [0.0, -1.0, f64::NAN, f64::INFINITY] {
        assert_eq!(
            score(&config(), &load(Some(200), 0, rate, 0.0), 0),
            Some((2.0, false, true))
        );
    }
    assert!(score(&config(), &WorkerLoadResponse::default(), 0).is_none());
    let mut partial = load(Some(0), 0, 100.0, 0.0);
    partial.dp_rank_count = 2;
    assert!(score(&config(), &partial, 0).is_none());
    assert!(score(&config(), &load(Some(-1), 0, 100.0, 0.0), 0).is_none());
    assert!(score(&config(), &load(None, -1, 100.0, 0.0), 0).is_none());
    assert!(score(&config(), &load(Some(0), 0, 100.0, f64::NAN), 0).is_none());
    let config = EstimatedWaitConfig {
        estimated_wait_kv_pressure_weight: b(0.5),
        ..config()
    };
    let score = score(&config, &load(Some(0), 0, 100.0, 1.0), 0).unwrap().0;
    assert!((score - 499.5).abs() < 1e-8);
}

#[test]
fn configuration_rejects_invalid_numbers_and_defaults_to_disabled() {
    let mut admission = EstimatedWaitAdmission::new();
    admission.configure(EstimatedWaitConfig::default());
    assert!(admission.begin().is_none());
    for bad in [0.0, -1.0, f64::NAN, f64::INFINITY] {
        assert!(EstimatedWaitConfig {
            max_estimated_wait_secs: Some(b(bad)),
            ..config()
        }
        .validate()
        .is_err());
        assert!(EstimatedWaitConfig {
            estimated_wait_fallback_prefill_throughput: b(bad),
            ..config()
        }
        .validate()
        .is_err());
        assert!(EstimatedWaitConfig {
            estimated_wait_max_snapshot_age_secs: b(bad),
            ..config()
        }
        .validate()
        .is_err());
    }
    assert!(EstimatedWaitConfig {
        estimated_wait_mean_prefill_tokens: 0,
        ..config()
    }
    .validate()
    .is_err());
    assert!(EstimatedWaitConfig {
        estimated_wait_kv_pressure_weight: b(-1.0),
        ..config()
    }
    .validate()
    .is_err());
    assert!(config().validate().is_ok());
    let decoded = EstimatedWaitConfig::default();
    assert!(decoded.max_estimated_wait_secs.is_none());
    assert!(!decoded.estimated_wait_shadow);
    let shadow = EstimatedWaitConfig { estimated_wait_shadow: true, ..Default::default() };
    assert!(shadow.estimated_wait_shadow);
    assert!(shadow.max_estimated_wait_secs.is_none());
}

#[test]
fn admission_uses_minimum_and_unknown_workers_prevent_false_rejection() {
    let mut gateway = Gateway::with(config());
    let a = gateway.worker("http://a:1");
    let b = gateway.worker("http://b:1");
    let mut pool = [a.clone(), b.clone()];
    gateway.publish(&a, 200);
    assert!(gateway.check(&pool).is_ok());
    gateway.publish(&b, 199);
    assert!(gateway.check(&pool).is_ok());
    gateway.publish(&b, 200);
    let shed = gateway.check(&pool).unwrap_err();
    assert_eq!(shed.status, 503);
    assert_eq!(shed.error_code, "worker_overload_protection_shed");
    assert_eq!(shed.retry_after_secs, POLL_INTERVAL);
    assert!(!shed.retryable);
    gateway.publish(&b, 0);
    // an open circuit breaker makes the worker ineligible
    pool[1].available = false;
    assert!(gateway.check(&pool).is_err());
    gateway.publish(&pool[1], 0);
    assert!(gateway.check(&pool).is_err());
    pool[0].available = false;
    assert!(gateway.check(&pool).is_ok());
    assert!(gateway.check(&[]).is_ok());
}

#[test]
fn shadow_counts_only_would_reject_decisions_and_keeps_credit() {
    let mut gateway = Gateway::with(EstimatedWaitConfig {
        estimated_wait_shadow: true,
        ..config()
    });
    let a = gateway.worker("http://a:1");
    let b = gateway.worker("http://b:1");
    let mut pool = [a.clone(), b.clone()];
    gateway.publish(&a, 200);
    // Missing, below-budget, stale and empty pools are not would-rejects.
    assert!(gateway.check(&pool).is_ok());
    gateway.publish(&b, 199);
    assert!(gateway.check(&pool).is_ok());
    let stamp = gateway.poll_started(&b);
    let started = gateway.tick();
    gateway.publish_load(&b, Some(&load(Some(200), 0, 100.0, 0.0)), stamp, started);
    gateway.now = Instant { nanos: gateway.now.nanos + 31 * SECOND };
    gateway.publish(&a, 200);
    assert!(gateway.check(&pool).is_ok());
    assert!(gateway.check(&[]).is_ok());
    assert_eq!(gateway.count(Counter::ShadowRejections), 0);

    // All workers at budget still reach policy selection and reserve credit.
    gateway.publish(&b, 200);
    for _ in 0..4 {
        assert!(gateway.select_from(&pool).unwrap().is_some());
    }
    assert_eq!(gateway.dispatched(&a) + gateway.dispatched(&b), 400);
    assert_eq!(gateway.count(Counter::ShadowRejections), 4);
    assert_eq!(gateway.count(Counter::Rejections), 0);

    // Shadow mode does not remove the independent static veto.
    pool[0].available = false;
    pool[1].available = false;
    assert!(gateway.select_from(&pool).unwrap().is_none());
}

#[test]
fn shadow_requires_a_budget_and_observes_worker_only_overrides() {
    let mut gateway = Gateway::with(EstimatedWaitConfig {
        estimated_wait_shadow: true,
        ..Default::default()
    });
    assert!(gateway.admission.begin().is_none());
    let worker = gateway.worker_with_budget("http://override:1", 2.0);
    gateway.register(&worker);
    assert!(gateway.admission.needs_load(&worker));
    gateway.publish(&worker, 4000);
    assert!(gateway.check(&[worker.clone()]).is_ok());
    let entry = gateway.admission.entry_at(&worker.url).unwrap();
    assert!(entry.sample.unwrap().overloaded.unwrap());
}

#[test]
fn concurrent_placements_credit_once_and_recover_on_fresh_poll() {
    let mut gateway = Gateway::with(config());
    let worker = gateway.worker("http://a:1");
    let pool = [worker.clone()];
    gateway.publish(&worker, 0);
    // each placement holds the guard from its check to its credit
    let admitted = (0..16).filter(|_| gateway.select_from(&pool).is_ok()).count();
    assert_eq!(admitted, 2);
    gateway.publish(&worker, 0);
    assert!(gateway.select_from(&pool).unwrap().is_some());
}

#[test]
fn in_flight_poll_retains_new_credit_and_failure_invalidates_snapshot() {
    let mut gateway = Gateway::with(config());
    let worker = gateway.worker("http://a:1");
    gateway.publish(&worker, 0);
    gateway.credit(&worker, None);
    let stamp = gateway.poll_started(&worker);
    gateway.credit(&worker, Some(&[0; 200]));
    let started = gateway.tick();
    gateway.publish_load(&worker, Some(&load(Some(0), 0, 100.0, 0.0)), stamp, started);
    assert!(gateway.check(&[worker.clone()]).is_err());
    gateway.publish(&worker, 0);
    assert!(gateway.check(&[worker.clone()]).is_ok());
    gateway.publish(&worker, 200);
    let stamp = gateway.poll_started(&worker);
    let started = gateway.tick();
    gateway.publish_load(&worker, None, stamp, started);
    assert!(gateway.check(&[worker.clone()]).is_ok());
}

#[test]
fn stale_and_evicted_samples_cannot_be_resurrected_by_late_polls() {
    let mut gateway = Gateway::with(config());
    let old = gateway.worker("http://a:1");
    let stamp = gateway.poll_started(&old);
    let started = gateway.ago(31);
    gateway.publish_load(&old, Some(&load(Some(200), 0, 100.0, 0.0)), stamp, started);
    assert!(gateway.check(&[old.clone()]).is_ok());
    let late = gateway.poll_started(&old);
    gateway.admission.evict(&old, &mut gateway.metrics);
    gateway.publish(&old, 200);
    let started = gateway.tick();
    gateway.publish_load(&old, Some(&load(Some(0), 0, 100.0, 0.0)), late, started);
    assert!(gateway.check(&[old.clone()]).is_err());
    let late = gateway.poll_started(&old);
    let replacement = gateway.worker("http://a:1");
    gateway.register(&replacement);
    gateway.publish(&replacement, 200);
    let started = gateway.tick();
    gateway.publish_load(&old, Some(&load(Some(0), 0, 100.0, 0.0)), late, started);
    gateway.admission.evict(&old, &mut gateway.metrics);
    assert!(gateway.check(&[replacement]).is_err());
}

#[test]
fn per_worker_budget_enables_admission_and_survives_monitor_reset() {
    let mut gateway = Gateway::with(EstimatedWaitConfig::default());
    assert!(gateway.admission.begin().is_none());
    let worker = gateway.worker_with_budget("http://override:1", 2.0);
    gateway.register(&worker);
    assert!(gateway.admission.needs_load(&worker));
    gateway.publish(&worker, 4000);
    assert!(gateway.check(&[worker.clone()]).is_err());
    gateway.admission.clear(&mut gateway.metrics);
    assert!(
        gateway.admission.enabled(),
        "monitor reset must retain worker configuration"
    );
    assert!(gateway.check(&[worker.clone()]).is_ok());
    gateway.publish(&worker, 200);
    let late = gateway.poll_started(&worker);
    let replacement = gateway.worker_with_budget("http://override:1", 4.0);
    gateway.replace(&worker, &replacement);
    gateway.publish(&replacement, 200);
    let started = gateway.tick();
    gateway.publish_load(&worker, Some(&load(Some(1000), 0, 100.0, 0.0)), late, started);
    assert!(gateway.check(&[replacement.clone()]).is_ok());
    gateway.remove(&replacement);
    assert!(gateway.admission.begin().is_none());
}

#[test]
fn worker_budget_overrides_gateway_and_unprotected_peer_fails_open() {
    let mut gateway = Gateway::with(config());
    let protected = gateway.worker_with_budget("http://override:2", 4.0);
    gateway.register(&protected);
    gateway.publish(&protected, 300);
    assert!(gateway.check(&[protected.clone()]).is_ok());
    gateway.publish(&protected, 400);
    assert!(gateway.check(&[protected.clone()]).is_err());

    let mut standalone = Gateway::new();
    standalone.register(&protected);
    standalone.publish(&protected, 400);
    let unprotected = gateway.worker("http://unprotected:1");
    assert!(!standalone.admission.needs_load(&unprotected));
    assert!(standalone.check(&[protected, unprotected]).is_ok());
}

#[test]
fn later_failed_poll_fences_an_older_successful_poll() {
    let mut gateway = Gateway::with(config());
    let worker = gateway.worker("http://ordering:1");
    let started = gateway.ago(1);
    let old = gateway.poll_started(&worker);
    let new = gateway.poll_started(&worker);
    let now = gateway.now;
    gateway.publish_load(&worker, None, new, now);
    gateway.publish_load(&worker, Some(&load(Some(200), 0, 100.0, 0.0)), old, started);
    assert!(gateway.check(&[worker]).is_ok());
}
