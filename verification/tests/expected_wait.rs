use estimated_wait::binary64::Binary64;
use estimated_wait::expected_wait::{
    default_kv_pressure_weight, default_throughput, ExpectedWait, PreparedExpectedWait,
    DEFAULT_MEAN_PREFILL_TOKENS,
};

fn b(x: f64) -> Binary64 {
    Binary64::from_bits(x.to_bits())
}

fn f(x: Binary64) -> f64 {
    f64::from_bits(x.to_bits())
}

fn prepared(queued: f64, throughput: f64, usage: f64, weight: f64) -> PreparedExpectedWait {
    PreparedExpectedWait::new(b(queued), b(throughput), b(usage), b(weight))
}

fn calibrated(usage: f64, threshold: f64, weight: f64) -> ExpectedWait {
    ExpectedWait::calibrated(
        b(300.0),
        b(100.0),
        b(usage),
        b(0.25),
        b(0.5),
        b(0.25),
        b(threshold),
        b(weight),
    )
}

#[test]
fn combines_queued_dispatched_and_kv_wait() {
    let wait = prepared(800.0, 500.0, 0.5, 0.2);

    assert!((f(wait.seconds(200)) - 2.2).abs() < f64::EPSILON);
}

#[test]
fn clamps_kv_usage_to_formula_bounds() {
    let below_zero = f(prepared(0.0, 100.0, -1.0, 0.2).seconds(0));
    let at_upper_bound = f(prepared(0.0, 100.0, 0.999, 0.2).seconds(0));
    let above_one = f(prepared(0.0, 100.0, 2.0, 0.2).seconds(0));

    assert_eq!(below_zero, 0.0);
    assert!(at_upper_bound.is_finite());
    assert_eq!(above_one, at_upper_bound);
}

#[test]
fn constants_have_their_documented_values() {
    assert_eq!(f(default_kv_pressure_weight()), 0.15);
    assert_eq!(f(default_throughput()), 2000.0);
    assert_eq!(DEFAULT_MEAN_PREFILL_TOKENS, 1024);
}

#[test]
fn plain_estimate_is_the_native_one_to_the_bit() {
    for queued in [0.0, 1.0, 799.0, 1e9] {
        for throughput in [0.1, 3.0, 500.0, 2000.0] {
            for usage in [0.0, 0.1, 0.25, 0.5, 0.9, 0.999, 1.0, -3.0] {
                for dispatched in [0u64, 1, 1024, u64::MAX] {
                    let k = f64::clamp(usage, 0.0, 0.999);
                    let native = (queued + dispatched as f64) / throughput + 0.15 * k / (1.0 - k);
                    let ours = prepared(queued, throughput, usage, 0.15).seconds(dispatched);
                    assert_eq!(ours.to_bits(), native.to_bits());
                }
            }
        }
    }
}

#[test]
fn calibrated_estimate_follows_its_formula() {
    // 0.25 + 0.5 * (300 + 0.25 * 100) / 100 + 2 * (0.5 - 0.25) / 0.5
    assert_eq!(f(calibrated(0.5, 0.25, 2.0).seconds(100)), 2.875);
    assert_eq!(f(calibrated(0.5, 0.25, 2.0).seconds(0)), 2.75);
}

#[test]
fn usage_up_to_the_threshold_adds_nothing() {
    let without = f(calibrated(0.0, 0.0, 0.0).seconds(100));
    assert_eq!(without, 1.875);
    for usage in [-1.0, 0.0, 0.2, 0.4] {
        assert_eq!(f(calibrated(usage, 0.4, 2.0).seconds(100)), without);
    }
    assert!(f(calibrated(0.41, 0.4, 2.0).seconds(100)) > without);
}

#[test]
fn zero_weight_disables_the_penalty() {
    let without = f(calibrated(0.0, 0.0, 0.0).seconds(100));
    for usage in [0.0, 0.5, 0.999, 7.0] {
        assert_eq!(f(calibrated(usage, 0.0, 0.0).seconds(100)), without);
    }
}

#[test]
fn neutral_coefficients_reproduce_the_plain_estimate() {
    for usage in [0.0, 0.3, 0.75, 0.9999] {
        let neutral = ExpectedWait::calibrated(
            b(777.0),
            b(123.0),
            b(usage),
            b(0.0),
            b(1.0),
            b(1.0),
            b(0.0),
            b(0.15),
        );
        let plain = prepared(777.0, 123.0, usage, 0.15);
        for dispatched in [0, 1, 1024, 1 << 60] {
            assert_eq!(f(neutral.seconds(dispatched)), f(plain.seconds(dispatched)));
        }
    }
}

#[test]
fn more_dispatch_never_means_less_wait() {
    let wait = calibrated(0.5, 0.25, 2.0);
    let mut last = f(wait.seconds(0));
    for shift in 0..64 {
        let next = f(wait.seconds(1 << shift));
        assert!(next >= last);
        last = next;
    }
    assert!(f(wait.seconds(u64::MAX)) >= last);
}

#[test]
fn unusable_usage_gives_no_plain_estimate() {
    assert!(prepared(0.0, 100.0, f64::NAN, 0.2).seconds(0).is_nan());
}

#[test]
fn dispatched_tokens_weigh_as_queued_ones() {
    for queued in [0.0, 0.5, 800.0, 1e15] {
        for dispatched in [0u64, 1, 200, 1 << 60] {
            let sent = prepared(queued, 500.0, 0.5, 0.2).seconds(dispatched);
            let waiting = prepared(queued + dispatched as f64, 500.0, 0.5, 0.2).seconds(0);
            assert_eq!(f(sent), f(waiting));
        }
    }
}

#[test]
fn plain_wait_rises_by_dispatch_over_throughput() {
    for queued in [0.0, 300.0, 1e6] {
        for usage in [0.0, 0.5, 0.99] {
            let wait = prepared(queued, 512.0, usage, 0.25);
            assert!(f(wait.seconds(0)) >= 0.0);
            let rise = f(wait.seconds(1536)) - f(wait.seconds(512));
            assert!((rise - 2.0).abs() < 1e-9);
        }
    }
    let exact = prepared(512.0, 512.0, 0.5, 0.25);
    assert_eq!(f(exact.seconds(1536)) - f(exact.seconds(512)), 2.0);
}

#[test]
fn rising_usage_never_lowers_the_penalty() {
    for weight in [0.0, f64::from_bits(1), 0.15, 1e300] {
        let mut last = (0.0, 0.0);
        for step in -10..1100 {
            let usage = f64::from(step) / 1000.0;
            let plain = f(prepared(0.0, 1.0, usage, weight).kv_wait);
            let above = f(calibrated(usage, 0.4, weight).kv_wait);
            assert!(plain >= last.0 && above >= last.1);
            assert!(above <= plain);
            last = (plain, above);
        }
    }
}

#[test]
fn the_penalty_is_finite_where_999_times_the_weight_is() {
    // the quotient itself is rounded up
    let largest = f64::from_bits((f64::MAX / 999.0).to_bits() - 1);
    assert!((largest * 999.0).is_finite());
    for weight in [0.0, f64::from_bits(1), f64::MIN_POSITIVE, 1.0, largest] {
        for usage in [-1.0, 0.0, 0.5, 0.999, 1.0, f64::INFINITY] {
            assert!(prepared(0.0, 1.0, usage, weight).kv_wait.is_finite());
            assert!(calibrated(usage, 0.4, weight).kv_wait.is_finite());
        }
    }
    assert!(prepared(0.0, 1.0, 1.0, f64::MAX).kv_wait.is_infinite());
}
