//! Observations that the guard makes, for a recorder to export.

use vstd::prelude::*;
use crate::binary64::Binary64;

verus! {

/// A per-worker gauge.
#[derive(Clone, Copy, Debug, PartialEq, Eq, Structural)]
pub enum Gauge {
    Seconds,
    ThresholdSeconds,
    SnapshotAgeSeconds,
    DataUsable,
    QueueProxy,
    ThroughputFallback,
    BlendedPromptTokens,
    EffectivePrefillCapacity,
}

/// Why a worker's data could not be used.
#[derive(Clone, Copy, Debug, PartialEq, Eq, Structural)]
pub enum UnknownReason {
    Missing,
    Stale,
    Unusable,
}

/// A per-model counter.
#[derive(Clone, Copy, Debug, PartialEq, Eq, Structural)]
pub enum Counter {
    /// A pool check that failed open for want of data.
    Unknown(UnknownReason),
    /// An enforced rejection of a pool.
    Rejections,
    /// A pool check that would have rejected in enforcement mode.
    ShadowRejections,
}

impl Gauge {
    pub open spec fn spec_name(self) -> Seq<char> {
        match self {
            Gauge::Seconds => "smg_estimated_wait_seconds"@,
            Gauge::ThresholdSeconds => "smg_estimated_wait_threshold_seconds"@,
            Gauge::SnapshotAgeSeconds => "smg_estimated_wait_snapshot_age_seconds"@,
            Gauge::DataUsable => "smg_estimated_wait_data_usable"@,
            Gauge::QueueProxy => "smg_estimated_wait_queue_proxy"@,
            Gauge::ThroughputFallback => "smg_estimated_wait_throughput_fallback"@,
            Gauge::BlendedPromptTokens => "smg_estimated_wait_blended_prompt_tokens"@,
            Gauge::EffectivePrefillCapacity => "smg_estimated_wait_effective_prefill_capacity"@,
        }
    }

    /// The exported name.
    pub fn name(self) -> (name: &'static str)
        ensures
            name@ == self.spec_name(),
    {
        match self {
            Gauge::Seconds => "smg_estimated_wait_seconds",
            Gauge::ThresholdSeconds => "smg_estimated_wait_threshold_seconds",
            Gauge::SnapshotAgeSeconds => "smg_estimated_wait_snapshot_age_seconds",
            Gauge::DataUsable => "smg_estimated_wait_data_usable",
            Gauge::QueueProxy => "smg_estimated_wait_queue_proxy",
            Gauge::ThroughputFallback => "smg_estimated_wait_throughput_fallback",
            Gauge::BlendedPromptTokens => "smg_estimated_wait_blended_prompt_tokens",
            Gauge::EffectivePrefillCapacity => "smg_estimated_wait_effective_prefill_capacity",
        }
    }
}

impl UnknownReason {
    pub open spec fn spec_label(self) -> Seq<char> {
        match self {
            UnknownReason::Missing => "missing"@,
            UnknownReason::Stale => "stale"@,
            UnknownReason::Unusable => "unusable"@,
        }
    }

    /// The value of the `reason` label.
    pub fn label(self) -> (label: &'static str)
        ensures
            label@ == self.spec_label(),
    {
        match self {
            UnknownReason::Missing => "missing",
            UnknownReason::Stale => "stale",
            UnknownReason::Unusable => "unusable",
        }
    }
}

impl Counter {
    pub open spec fn spec_name(self) -> Seq<char> {
        match self {
            Counter::Unknown(_) => "smg_estimated_wait_unknown_total"@,
            Counter::Rejections => "smg_estimated_wait_rejections_total"@,
            Counter::ShadowRejections => "smg_estimated_wait_shadow_rejections_total"@,
        }
    }

    /// The exported name.
    pub fn name(self) -> (name: &'static str)
        ensures
            name@ == self.spec_name(),
    {
        match self {
            Counter::Unknown(_) => "smg_estimated_wait_unknown_total",
            Counter::Rejections => "smg_estimated_wait_rejections_total",
            Counter::ShadowRejections => "smg_estimated_wait_shadow_rejections_total",
        }
    }
}

/// One observation: a gauge is set, or a counter goes up by one.
#[derive(Debug)]
pub enum Metric {
    Observe { gauge: Gauge, worker: String, value: Binary64 },
    Count { counter: Counter, model: String },
}

/// The mathematical counterpart of [`Metric`].
pub enum MetricView {
    Observe { gauge: Gauge, worker: Seq<char>, value: Binary64 },
    Count { counter: Counter, model: Seq<char> },
}

impl View for Metric {
    type V = MetricView;

    open spec fn view(&self) -> MetricView {
        match self {
            Metric::Observe { gauge, worker, value } => MetricView::Observe {
                gauge: *gauge,
                worker: worker@,
                value: *value,
            },
            Metric::Count { counter, model } => MetricView::Count {
                counter: *counter,
                model: model@,
            },
        }
    }
}

pub open spec fn gauge(gauge: Gauge, worker: Seq<char>, value: Binary64) -> MetricView {
    MetricView::Observe { gauge, worker, value }
}

/// A gauge that is 1 or 0.
pub open spec fn flag(gauge: Gauge, worker: Seq<char>, on: bool) -> MetricView {
    MetricView::Observe { gauge, worker, value: Binary64::integer(if on { 1 } else { 0 }) }
}

pub open spec fn increment(counter: Counter, model: Seq<char>) -> MetricView {
    MetricView::Count { counter, model }
}

/// Observations in the order in which they were made.
#[derive(Debug)]
pub struct Metrics {
    pub events: Vec<Metric>,
}

impl View for Metrics {
    type V = Seq<MetricView>;

    open spec fn view(&self) -> Seq<MetricView> {
        self.events@.map_values(|event: Metric| event@)
    }
}

impl Metrics {
    pub fn new() -> (metrics: Metrics)
        ensures
            metrics@ == Seq::<MetricView>::empty(),
    {
        let metrics = Metrics { events: Vec::new() };
        assert(metrics@ =~= Seq::<MetricView>::empty());
        metrics
    }

    fn record(&mut self, event: Metric)
        ensures
            final(self)@ == old(self)@.push(event@),
    {
        self.events.push(event);
        assert(self@ =~= old(self)@.push(event@));
    }

    pub fn set(&mut self, gauge: Gauge, worker: &String, value: Binary64)
        ensures
            final(self)@ == old(self)@.push(self::gauge(gauge, worker@, value)),
    {
        self.record(Metric::Observe { gauge, worker: worker.clone(), value });
    }

    pub fn set_flag(&mut self, gauge: Gauge, worker: &String, on: bool)
        ensures
            final(self)@ == old(self)@.push(flag(gauge, worker@, on)),
    {
        let value: Binary64 = if on {
            Binary64::from_u64(1)
        } else {
            Binary64::from_u64(0)
        };
        self.record(Metric::Observe { gauge, worker: worker.clone(), value });
    }

    pub fn count(&mut self, counter: Counter, model: &str)
        ensures
            final(self)@ == old(self)@.push(increment(counter, model@)),
    {
        self.record(Metric::Count { counter, model: model.to_owned() });
    }
}

} // verus!
