use estimated_wait::admission::{AdmissionGuard, EstimatedWaitAdmission};
use estimated_wait::binary64::Binary64;
use estimated_wait::clock::Instant;
use estimated_wait::config::EstimatedWaitConfig;
use estimated_wait::ledger::Entry;
use estimated_wait::load::{SchedulerLoadSnapshot, WorkerLoadResponse};
use estimated_wait::metric::{Counter, Gauge, Metric, Metrics, UnknownReason};
use estimated_wait::worker::Worker;

const SECOND: u64 = 1_000_000_000;

fn b(x: f64) -> Binary64 {
    Binary64::from_bits(x.to_bits())
}

fn f(x: Binary64) -> f64 {
    f64::from_bits(x.to_bits())
}

fn at(secs: u64) -> Instant {
    Instant { nanos: secs * SECOND }
}

fn worker(url: &str, incarnation: u64) -> Worker {
    Worker { url: url.to_string(), incarnation, available: true, max_estimated_wait_secs: None }
}

fn config() -> EstimatedWaitConfig {
    EstimatedWaitConfig {
        max_estimated_wait_secs: Some(b(2.0)),
        estimated_wait_kv_pressure_weight: b(0.0),
        estimated_wait_mean_prefill_tokens: 100,
        estimated_wait_fallback_prefill_throughput: b(100.0),
        ..Default::default()
    }
}

fn guarded(config: EstimatedWaitConfig) -> EstimatedWaitAdmission {
    let mut admission = EstimatedWaitAdmission::new();
    admission.configure(config);
    admission
}

fn queue(tokens: i32) -> WorkerLoadResponse {
    WorkerLoadResponse {
        loads: vec![SchedulerLoadSnapshot {
            num_waiting_uncached_tokens: tokens,
            gen_throughput: b(100.0),
            ..Default::default()
        }],
        ..Default::default()
    }
}

fn publish(admission: &mut EstimatedWaitAdmission, worker: &Worker, tokens: i32, started: Instant) {
    let stamp = admission.poll_started(worker);
    let load = queue(tokens);
    admission.publish(worker, Some(&load), stamp, started, started, &mut Metrics::new());
}

fn rejects(admission: &mut EstimatedWaitAdmission, pool: &[Worker], now: Instant) -> bool {
    admission.begin().unwrap().check_cohort(pool, "m", now, &mut Metrics::new())
}

fn credit(admission: &mut EstimatedWaitAdmission, worker: &Worker, tokens: usize) {
    let tokens = vec![0u32; tokens];
    let mut guard = admission.begin().unwrap();
    guard.credit(worker, Some(&tokens), at(1), &mut Metrics::new());
}

fn entry(admission: &EstimatedWaitAdmission, url: &str) -> Option<Entry> {
    admission.entry_at(&url.to_string())
}

/// Observations as exported: name, label and value.
fn exported(metrics: &Metrics) -> Vec<(String, String, f64)> {
    metrics
        .events
        .iter()
        .map(|event| match event {
            Metric::Observe { gauge, worker, value } => {
                (gauge.name().to_string(), worker.clone(), f(*value))
            }
            Metric::Count { counter, model } => {
                let label = match counter {
                    Counter::Unknown(reason) => format!("{}/{}", model, reason.label()),
                    _ => model.clone(),
                };
                (counter.name().to_string(), label, 1.0)
            }
        })
        .collect()
}

fn observation(name: &str, label: &str, value: f64) -> (String, String, f64) {
    (name.to_string(), label.to_string(), value)
}

#[test]
fn metric_names_are_the_documented_ones() {
    assert_eq!(Gauge::Seconds.name(), "smg_estimated_wait_seconds");
    assert_eq!(Gauge::ThresholdSeconds.name(), "smg_estimated_wait_threshold_seconds");
    assert_eq!(Gauge::SnapshotAgeSeconds.name(), "smg_estimated_wait_snapshot_age_seconds");
    assert_eq!(Gauge::DataUsable.name(), "smg_estimated_wait_data_usable");
    assert_eq!(Gauge::QueueProxy.name(), "smg_estimated_wait_queue_proxy");
    assert_eq!(Gauge::ThroughputFallback.name(), "smg_estimated_wait_throughput_fallback");
    assert_eq!(Gauge::BlendedPromptTokens.name(), "smg_estimated_wait_blended_prompt_tokens");
    assert_eq!(
        Gauge::EffectivePrefillCapacity.name(),
        "smg_estimated_wait_effective_prefill_capacity"
    );
    assert_eq!(
        Counter::Unknown(UnknownReason::Missing).name(),
        "smg_estimated_wait_unknown_total"
    );
    assert_eq!(Counter::Rejections.name(), "smg_estimated_wait_rejections_total");
    assert_eq!(Counter::ShadowRejections.name(), "smg_estimated_wait_shadow_rejections_total");
    assert_eq!(UnknownReason::Missing.label(), "missing");
    assert_eq!(UnknownReason::Stale.label(), "stale");
    assert_eq!(UnknownReason::Unusable.label(), "unusable");
}

#[test]
fn ages_are_seconds_since_the_poll_began() {
    let start = Instant { nanos: 5 * SECOND + 250_000_000 };
    assert_eq!(f(start.elapsed_secs(Instant { nanos: 36 * SECOND })), 30.75);
    assert_eq!(f(start.elapsed_secs(start)), 0.0);
    assert_eq!(f(start.elapsed_secs(at(1))), 0.0);
    for nanos in [1, 999_999_999, SECOND + 1, u64::MAX] {
        let native = (nanos / SECOND) as f64 + (nanos % SECOND) as f64 / 1e9;
        assert_eq!(f(at(0).elapsed_secs(Instant { nanos })), native);
    }
}

#[test]
fn publication_records_the_sample_and_its_verdict() {
    let mut admission = guarded(config());
    let a = worker("http://a:1", 1);
    let stamp = admission.poll_started(&a);
    let mut metrics = Metrics::new();
    admission.publish(&a, Some(&queue(150)), stamp, at(10), at(12), &mut metrics);
    assert_eq!(
        exported(&metrics),
        vec![
            observation("smg_estimated_wait_threshold_seconds", "http://a:1", 2.0),
            observation("smg_estimated_wait_queue_proxy", "http://a:1", 0.0),
            observation("smg_estimated_wait_throughput_fallback", "http://a:1", 0.0),
            observation("smg_estimated_wait_blended_prompt_tokens", "http://a:1", -1.0),
            observation("smg_estimated_wait_effective_prefill_capacity", "http://a:1", 100.0),
            observation("smg_estimated_wait_seconds", "http://a:1", 1.5),
            observation("smg_estimated_wait_snapshot_age_seconds", "http://a:1", 2.0),
            observation("smg_estimated_wait_data_usable", "http://a:1", 1.0),
        ]
    );
    let known = entry(&admission, "http://a:1").unwrap();
    assert_eq!(known.last_published.unwrap().nanos, 10 * SECOND);
    assert_eq!(known.sample.unwrap().overloaded, Some(false));
}

#[test]
fn failed_poll_records_unusable_data_only() {
    let mut admission = guarded(config());
    let a = worker("http://a:1", 1);
    publish(&mut admission, &a, 200, at(10));
    let stamp = admission.poll_started(&a);
    let mut metrics = Metrics::new();
    admission.publish(&a, None, stamp, at(11), at(11), &mut metrics);
    assert_eq!(
        exported(&metrics),
        vec![observation("smg_estimated_wait_data_usable", "http://a:1", 0.0)]
    );
    let known = entry(&admission, "http://a:1").unwrap();
    assert!(known.sample.is_none());
    assert_eq!(known.last_published.unwrap().nanos, 11 * SECOND);
}

#[test]
fn a_poll_without_watermark_changes_nothing() {
    let mut admission = EstimatedWaitAdmission::new();
    let a = worker("http://a:1", 1);
    let mut metrics = Metrics::new();
    admission.publish(&a, Some(&queue(1)), None, at(1), at(1), &mut metrics);
    assert!(metrics.events.is_empty());
    // the configuration was not even read
    admission.configure(config());
    assert!(admission.enabled());
}

#[test]
fn configuration_is_fixed_by_its_first_use() {
    let a = worker("http://a:1", 1);
    let mut admission = guarded(config());
    admission.configure(EstimatedWaitConfig::default());
    assert!(admission.enabled());
    let mut admission = EstimatedWaitAdmission::new();
    assert!(!admission.enabled());
    assert!(!admission.needs_load(&a));
    admission.configure(config());
    assert!(!admission.enabled());
    assert!(!admission.needs_load(&a));
    assert!(admission.config().max_estimated_wait_secs.is_none());
}

#[test]
fn a_budget_is_compared_inclusively() {
    let mut admission = guarded(config());
    let a = worker("http://a:1", 1);
    for (tokens, rejected) in [(199, false), (200, true), (201, true)] {
        publish(&mut admission, &a, tokens, at(10 + tokens as u64));
        assert_eq!(rejects(&mut admission, &[a.clone()], at(10 + tokens as u64)), rejected);
    }
}

#[test]
fn a_sample_is_stale_only_beyond_the_maximum_age() {
    let mut admission = guarded(config());
    let a = worker("http://a:1", 1);
    publish(&mut admission, &a, 500, at(10));
    assert!(rejects(&mut admission, &[a.clone()], at(40)));
    let later = Instant { nanos: 40 * SECOND + 1 };
    let mut metrics = Metrics::new();
    let guard = admission.begin().unwrap();
    assert!(!guard.check_cohort(&[a.clone()], "m", later, &mut metrics));
    assert_eq!(
        exported(&metrics),
        vec![
            observation("smg_estimated_wait_unknown_total", "m/stale", 1.0),
            observation("smg_estimated_wait_data_usable", "http://a:1", 0.0),
        ]
    );
}

#[test]
fn unknown_workers_are_counted_with_their_reason() {
    let mut admission = guarded(config());
    let a = worker("http://a:1", 1);
    let mut metrics = Metrics::new();
    assert!(!admission.begin().unwrap().check_cohort(&[a.clone()], "m", at(1), &mut metrics));
    let stamp = admission.poll_started(&a);
    admission.publish(&a, None, stamp, at(1), at(1), &mut Metrics::new());
    assert!(!admission.begin().unwrap().check_cohort(&[a.clone()], "m", at(1), &mut metrics));
    assert_eq!(
        exported(&metrics),
        vec![
            observation("smg_estimated_wait_unknown_total", "m/missing", 1.0),
            observation("smg_estimated_wait_data_usable", "http://a:1", 0.0),
            observation("smg_estimated_wait_unknown_total", "m/unusable", 1.0),
            observation("smg_estimated_wait_data_usable", "http://a:1", 0.0),
        ]
    );
}

#[test]
fn a_check_stops_at_the_first_permissive_worker() {
    let mut admission = guarded(config());
    let full = worker("http://full:1", 1);
    let free = worker("http://free:1", 2);
    let unknown = worker("http://unknown:1", 3);
    publish(&mut admission, &full, 500, at(1));
    publish(&mut admission, &free, 0, at(1));
    let mut metrics = Metrics::new();
    let pool = [full.clone(), free.clone(), unknown.clone()];
    assert!(admission.begin().unwrap().check(&pool, "m", 5, at(1), &mut metrics).is_ok());
    assert!(metrics.events.is_empty());
    let pool = [full, unknown, free];
    assert!(admission.begin().unwrap().check(&pool, "m", 5, at(1), &mut metrics).is_ok());
    assert_eq!(metrics.events.len(), 2);
}

#[test]
fn a_rejection_is_answered_and_counted_once() {
    let mut admission = guarded(config());
    let a = worker("http://a:1", 1);
    publish(&mut admission, &a, 500, at(1));
    for (interval, retry_after) in [(0, 1), (1, 1), (2, 2), (30, 30)] {
        let mut metrics = Metrics::new();
        let guard = admission.begin().unwrap();
        let shed = guard.check(&[a.clone()], "llama", interval, at(1), &mut metrics).unwrap_err();
        assert_eq!(shed.status, 503);
        assert_eq!(shed.error_code, "worker_overload_protection_shed");
        assert_eq!(shed.model, "llama");
        assert_eq!(shed.retry_after_secs, retry_after);
        assert!(!shed.retryable);
        assert_eq!(
            exported(&metrics),
            vec![observation("smg_estimated_wait_rejections_total", "llama", 1.0)]
        );
    }
    let mut metrics = Metrics::new();
    assert!(admission.begin().unwrap().check_cohort(&[a], "llama", at(1), &mut metrics));
    assert!(metrics.events.is_empty());
    let shed = AdmissionGuard::shed("other", 7, &mut metrics);
    assert_eq!(shed.model, "other");
    assert_eq!(metrics.events.len(), 1);
}

#[test]
fn shadow_mode_judges_as_enforcement_would() {
    for tokens in [199, 200] {
        let mut enforced = guarded(config());
        let mut shadow = guarded(EstimatedWaitConfig { estimated_wait_shadow: true, ..config() });
        let a = worker("http://a:1", 1);
        publish(&mut enforced, &a, tokens, at(1));
        publish(&mut shadow, &a, tokens, at(1));
        let would_reject = rejects(&mut enforced, &[a.clone()], at(1));
        assert_eq!(would_reject, tokens == 200);
        let mut metrics = Metrics::new();
        assert!(!shadow.begin().unwrap().check_cohort(&[a], "m", at(1), &mut metrics));
        let expected = if would_reject {
            vec![observation("smg_estimated_wait_shadow_rejections_total", "m", 1.0)]
        } else {
            vec![]
        };
        assert_eq!(exported(&metrics), expected);
    }
}

#[test]
fn credits_add_up_to_the_dispatched_total() {
    let mut admission = guarded(config());
    let a = worker("http://a:1", 1);
    credit(&mut admission, &a, 30);
    credit(&mut admission, &a, 0);
    credit(&mut admission, &a, 12);
    assert_eq!(entry(&admission, "http://a:1").unwrap().total_dispatched, 42);
    admission.begin().unwrap().credit(&a, None, at(1), &mut Metrics::new());
    assert_eq!(entry(&admission, "http://a:1").unwrap().total_dispatched, 142);
}

#[test]
fn credit_moves_a_worker_to_its_budget() {
    let mut admission = guarded(config());
    let a = worker("http://a:1", 1);
    publish(&mut admission, &a, 150, at(1));
    credit(&mut admission, &a, 49);
    assert!(!rejects(&mut admission, &[a.clone()], at(1)));
    let mut metrics = Metrics::new();
    admission.begin().unwrap().credit(&a, Some(&[7]), at(3), &mut metrics);
    assert_eq!(
        exported(&metrics),
        vec![
            observation("smg_estimated_wait_seconds", "http://a:1", 2.0),
            observation("smg_estimated_wait_snapshot_age_seconds", "http://a:1", 2.0),
            observation("smg_estimated_wait_data_usable", "http://a:1", 1.0),
        ]
    );
    assert!(rejects(&mut admission, &[a.clone()], at(1)));
    credit(&mut admission, &a, 1000);
    assert!(rejects(&mut admission, &[a], at(1)));
}

#[test]
fn publication_clears_just_the_credit_from_before_its_poll() {
    let mut admission = guarded(config());
    let a = worker("http://a:1", 1);
    credit(&mut admission, &a, 500);
    let stamp = admission.poll_started(&a);
    credit(&mut admission, &a, 20);
    credit(&mut admission, &a, 5);
    let mut metrics = Metrics::new();
    admission.publish(&a, Some(&queue(100)), stamp, at(2), at(2), &mut metrics);
    assert!(exported(&metrics).contains(&observation(
        "smg_estimated_wait_seconds",
        "http://a:1",
        1.25
    )));
    assert_eq!(entry(&admission, "http://a:1").unwrap().total_dispatched, 525);
}

#[test]
fn a_reset_fences_every_poll_under_way() {
    let mut admission = guarded(config());
    let a = worker("http://a:1", 1);
    let z = worker("http://z:1", 2);
    publish(&mut admission, &a, 500, at(1));
    publish(&mut admission, &z, 500, at(1));
    let late = admission.poll_started(&a);
    let mut metrics = Metrics::new();
    admission.clear(&mut metrics);
    let mut recorded = exported(&metrics);
    recorded.sort_by(|x, y| x.1.cmp(&y.1));
    assert_eq!(
        recorded,
        vec![
            observation("smg_estimated_wait_data_usable", "http://a:1", 0.0),
            observation("smg_estimated_wait_data_usable", "http://z:1", 0.0),
        ]
    );
    let mut metrics = Metrics::new();
    admission.publish(&a, Some(&queue(500)), late, at(9), at(9), &mut metrics);
    assert!(metrics.events.is_empty());
    for url in ["http://a:1", "http://z:1"] {
        let known = entry(&admission, url).unwrap();
        assert!(known.sample.is_none());
        assert!(known.last_published.is_none());
        assert_eq!(known.total_dispatched, 0);
    }
}

#[test]
fn a_removed_worker_cannot_come_back_by_its_poll() {
    let mut admission = guarded(config());
    let a = worker("http://a:1", 1);
    admission.worker_added(&a, &mut Metrics::new());
    let late = admission.poll_started(&a);
    let mut metrics = Metrics::new();
    admission.worker_removed(&a, &mut metrics);
    assert_eq!(
        exported(&metrics),
        vec![observation("smg_estimated_wait_data_usable", "http://a:1", 0.0)]
    );
    admission.publish(&a, Some(&queue(500)), late, at(9), at(9), &mut Metrics::new());
    assert!(entry(&admission, "http://a:1").is_none());
    let mut metrics = Metrics::new();
    admission.worker_removed(&a, &mut metrics);
    assert!(metrics.events.is_empty());
}

#[test]
fn a_later_poll_fences_an_earlier_one_and_an_equal_one_does_not() {
    let mut admission = guarded(config());
    let a = worker("http://a:1", 1);
    let first = admission.poll_started(&a);
    let second = admission.poll_started(&a);
    let third = admission.poll_started(&a);
    admission.publish(&a, Some(&queue(500)), second, at(5), at(5), &mut Metrics::new());
    admission.publish(&a, Some(&queue(0)), first, at(4), at(5), &mut Metrics::new());
    assert!(rejects(&mut admission, &[a.clone()], at(5)));
    admission.publish(&a, Some(&queue(0)), third, at(5), at(5), &mut Metrics::new());
    assert!(!rejects(&mut admission, &[a], at(5)));
}

#[test]
fn a_replaced_worker_has_no_effect() {
    let mut admission = guarded(config());
    let old = worker("http://a:1", 1);
    let new = worker("http://a:1", 2);
    admission.worker_added(&old, &mut Metrics::new());
    let mut metrics = Metrics::new();
    admission.worker_added(&new, &mut metrics);
    assert_eq!(
        exported(&metrics),
        vec![observation("smg_estimated_wait_data_usable", "http://a:1", 0.0)]
    );
    publish(&mut admission, &new, 500, at(1));
    let mut metrics = Metrics::new();
    admission.evict(&old, &mut metrics);
    admission.worker_removed(&old, &mut metrics);
    admission.begin().unwrap().credit(&old, None, at(1), &mut metrics);
    assert!(metrics.events.is_empty());
    assert!(admission.poll_started(&old).is_none());
    let known = entry(&admission, "http://a:1").unwrap();
    assert_eq!(known.source, 2);
    assert_eq!(known.total_dispatched, 0);
    assert!(rejects(&mut admission, &[new], at(1)));
    assert!(!rejects(&mut admission, &[old], at(1)));
}

#[test]
fn other_workers_are_untouched() {
    let mut admission = guarded(config());
    let a = worker("http://a:1", 1);
    let z = worker("http://z:1", 2);
    publish(&mut admission, &z, 500, at(1));
    publish(&mut admission, &a, 0, at(2));
    credit(&mut admission, &a, 3);
    admission.evict(&a, &mut Metrics::new());
    admission.worker_removed(&a, &mut Metrics::new());
    assert!(rejects(&mut admission, &[z], at(2)));
    assert!(entry(&admission, "http://a:1").is_none());
}

#[test]
fn removal_takes_back_a_registered_budget() {
    let mut admission = EstimatedWaitAdmission::new();
    let own = Worker { max_estimated_wait_secs: Some(b(3.0)), ..worker("http://a:1", 1) };
    let plain = worker("http://b:1", 2);
    admission.worker_added(&plain, &mut Metrics::new());
    assert!(!admission.enabled());
    admission.worker_added(&own, &mut Metrics::new());
    assert!(admission.enabled());
    admission.worker_removed(&plain, &mut Metrics::new());
    assert!(admission.enabled());
    admission.worker_removed(&own, &mut Metrics::new());
    assert!(!admission.enabled());
    assert!(admission.begin().is_none());
}

#[test]
fn without_a_budget_no_worker_is_polled_or_credited() {
    let mut admission = guarded(EstimatedWaitConfig::default());
    let own = Worker { max_estimated_wait_secs: Some(b(3.0)), ..worker("http://a:1", 1) };
    let plain = worker("http://b:1", 2);
    assert!(admission.poll_started(&plain).is_none());
    admission.worker_added(&own, &mut Metrics::new());
    let mut metrics = Metrics::new();
    admission.begin().unwrap().credit(&plain, None, at(1), &mut metrics);
    assert!(metrics.events.is_empty());
    assert!(entry(&admission, "http://b:1").is_none());
}

#[test]
fn each_start_of_an_entry_takes_one_generation() {
    let mut admission = guarded(config());
    let a = worker("http://a:1", 1);
    assert_eq!(admission.generations_left(), u64::MAX);
    admission.poll_started(&a);
    admission.poll_started(&a);
    assert_eq!(admission.generations_left(), u64::MAX - 1);
    admission.evict(&a, &mut Metrics::new());
    admission.clear(&mut Metrics::new());
    admission.worker_added(&a, &mut Metrics::new());
    assert_eq!(admission.generations_left(), u64::MAX - 4);
    admission.evict(&worker("http://a:1", 9), &mut Metrics::new());
    assert_eq!(admission.generations_left(), u64::MAX - 4);
    assert_eq!(entry(&admission, "http://a:1").unwrap().generation, 3);
}

#[test]
fn an_estimate_that_overflows_is_unknown() {
    let mut admission = guarded(EstimatedWaitConfig {
        estimated_wait_dispatch_blocking_factor: b(f64::MAX),
        ..config()
    });
    let a = worker("http://a:1", 1);
    publish(&mut admission, &a, 500, at(1));
    assert!(rejects(&mut admission, &[a.clone()], at(1)));
    credit(&mut admission, &a, 2);
    assert!(entry(&admission, "http://a:1").unwrap().sample.unwrap().overloaded.is_none());
    assert!(!rejects(&mut admission, &[a], at(1)));
}

#[test]
fn a_reset_gives_each_entry_a_generation_of_its_own() {
    let mut admission = guarded(config());
    let a = worker("http://a:1", 1);
    let z = worker("http://z:1", 2);
    admission.worker_added(&a, &mut Metrics::new());
    admission.worker_added(&z, &mut Metrics::new());
    assert_eq!(admission.entry_count(), 2);
    assert_eq!(admission.generations_left(), u64::MAX - 2);
    admission.clear(&mut Metrics::new());
    assert_eq!(admission.entry_count(), 2);
    assert_eq!(admission.generations_left(), u64::MAX - 4);
    let first = entry(&admission, "http://a:1").unwrap().generation;
    let second = entry(&admission, "http://z:1").unwrap().generation;
    assert!(first != second);
    assert!(first >= 2 && second >= 2);
}

#[test]
fn a_watermark_is_good_at_its_own_url_only() {
    let mut admission = guarded(config());
    let a = worker("http://a:1", 1);
    let z = worker("http://z:1", 2);
    admission.worker_added(&a, &mut Metrics::new());
    admission.worker_added(&z, &mut Metrics::new());
    admission.clear(&mut Metrics::new());
    let stamp = admission.poll_started(&a);
    let mut metrics = Metrics::new();
    admission.publish(&z, None, stamp, at(1), at(1), &mut metrics);
    assert!(metrics.events.is_empty());
    assert!(entry(&admission, "http://z:1").unwrap().last_published.is_none());
    let stamp = admission.poll_started(&a);
    admission.publish(&a, None, stamp, at(1), at(1), &mut metrics);
    assert!(entry(&admission, "http://a:1").unwrap().last_published.is_some());
}

#[test]
fn an_empty_ledger_is_reset_for_nothing() {
    let mut admission = guarded(config());
    let mut metrics = Metrics::new();
    admission.clear(&mut metrics);
    assert!(metrics.events.is_empty());
    assert_eq!(admission.entry_count(), 0);
    assert_eq!(admission.generations_left(), u64::MAX);
}

#[test]
fn a_published_estimate_is_the_published_report() {
    let a = worker("http://a:1", 1);
    for load in [Some(queue(150)), Some(queue(-1)), None] {
        let mut whole = guarded(config());
        let mut split = guarded(config());
        let (mut of_whole, mut of_split) = (Metrics::new(), Metrics::new());
        let stamp = whole.poll_started(&a);
        whole.publish(&a, load.as_ref(), stamp, at(3), at(4), &mut of_whole);
        let stamp = split.poll_started(&a);
        let settled = split.config();
        let prepared = load.as_ref().and_then(|load| settled.prepare(load));
        split.publish_estimate(&a, prepared, stamp, at(3), at(4), &mut of_split);
        assert_eq!(exported(&of_whole), exported(&of_split));
        let (x, y) = (entry(&whole, "http://a:1").unwrap(), entry(&split, "http://a:1").unwrap());
        assert_eq!(x.last_published.unwrap().nanos, y.last_published.unwrap().nanos);
        assert_eq!(
            x.sample.map(|sample| sample.overloaded),
            y.sample.map(|sample| sample.overloaded)
        );
    }
}

#[test]
fn no_credits_bring_a_worker_below_its_budget() {
    let mut admission = guarded(config());
    let a = worker("http://a:1", 1);
    let z = worker("http://z:1", 2);
    publish(&mut admission, &a, 200, at(1));
    publish(&mut admission, &z, 0, at(1));
    for tokens in [0, 1, 100, 7, 0, 5000] {
        credit(&mut admission, &a, tokens);
        credit(&mut admission, &z, tokens);
        assert!(rejects(&mut admission, &[a.clone()], at(1)));
        let sample = entry(&admission, "http://a:1").unwrap().sample.unwrap();
        assert_eq!(sample.overloaded, Some(true));
        assert_eq!(f(sample.prepared.effective_prefill_capacity), 100.0);
    }
}

#[test]
fn the_guard_is_on_while_more_budgets_are_added_than_removed() {
    let mut admission = guarded(EstimatedWaitConfig {
        estimated_wait_shadow: true,
        ..Default::default()
    });
    let own = |n: u64| Worker {
        max_estimated_wait_secs: Some(b(3.0)),
        ..worker(&format!("http://w{}:1", n), n)
    };
    let plain = worker("http://plain:1", 99);
    for n in 0..3 {
        admission.worker_added(&own(n), &mut Metrics::new());
        admission.worker_added(&plain, &mut Metrics::new());
        assert!(admission.enabled());
    }
    admission.clear(&mut Metrics::new());
    admission.evict(&own(0), &mut Metrics::new());
    publish(&mut admission, &own(1), 500, at(1));
    credit(&mut admission, &own(1), 7);
    assert!(admission.enabled());
    for n in 0..3 {
        assert!(admission.enabled());
        // whether it is available does not matter
        let gone = Worker { available: false, ..own(n) };
        admission.worker_removed(&gone, &mut Metrics::new());
        admission.worker_removed(&plain, &mut Metrics::new());
    }
    assert!(!admission.enabled());
    admission.clear(&mut Metrics::new());
    assert!(!admission.enabled());
}

#[test]
fn two_credits_are_one_of_their_joint_length() {
    let a = worker("http://a:1", 1);
    for published in [false, true] {
        for (first, second) in [(0, 0), (3, 4), (150, 50), (0, 200)] {
            let mut twice = guarded(config());
            let mut once = guarded(config());
            if published {
                publish(&mut twice, &a, 0, at(1));
                publish(&mut once, &a, 0, at(1));
            }
            credit(&mut twice, &a, first);
            credit(&mut twice, &a, second);
            let joint = vec![9u32; first + second];
            let mut guard = once.begin().unwrap();
            guard.credit(&a, Some(&joint), at(1), &mut Metrics::new());
            let x = entry(&twice, "http://a:1").unwrap();
            let y = entry(&once, "http://a:1").unwrap();
            assert_eq!(x.total_dispatched, y.total_dispatched);
            assert_eq!(x.generation, y.generation);
            assert_eq!(
                x.sample.map(|sample| sample.overloaded),
                y.sample.map(|sample| sample.overloaded)
            );
            assert_eq!(x.sample.is_some(), published);
        }
    }
}

#[test]
fn an_estimate_made_before_other_work_is_still_the_reports() {
    let a = worker("http://a:1", 1);
    let z = worker("http://z:1", 2);
    let mut admission = guarded(config());
    let settled = admission.config();
    let prepared = settled.prepare(&queue(200));
    let stamp = admission.poll_started(&a);
    admission.configure(EstimatedWaitConfig::default());
    publish(&mut admission, &z, 500, at(1));
    admission.evict(&z, &mut Metrics::new());
    admission.publish_estimate(&a, prepared, stamp, at(2), at(2), &mut Metrics::new());
    assert!(rejects(&mut admission, &[a], at(2)));
}
