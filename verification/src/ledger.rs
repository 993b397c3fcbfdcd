//! The state of the guard and its transitions, mathematically.
//!
//! The ledger holds one entry per worker URL. An entry counts the tokens that
//! were dispatched to its worker and keeps the last usable report of it. A poll
//! takes a watermark of the count before it asks the worker, so that what is
//! dispatched while the poll is under way survives its publication.

use vstd::prelude::*;
use crate::binary64::Binary64;
use crate::clock::Instant;
use crate::config::{EstimatedWaitConfig, PreparedWait};
use crate::load::LoadView;
use crate::metric::{Counter, Gauge, MetricView, UnknownReason};
use crate::worker::WorkerView;

verus! {

/// A published report of a worker.
#[derive(Clone, Copy, Debug)]
pub struct Sample {
    pub prepared: PreparedWait,
    /// When the poll began.
    pub started: Instant,
    /// The dispatched tokens that the report accounts for.
    pub watermark: u64,
    pub threshold: Binary64,
    /// Latched on publication and dispatch. The request path only reads it and
    /// checks freshness.
    pub overloaded: Option<bool>,
}

/// What the ledger knows of the worker at one URL.
#[derive(Clone, Copy, Debug)]
pub struct Entry {
    /// The incarnation that the entry belongs to.
    pub source: u64,
    /// Changes whenever earlier polls must no longer be believed.
    pub generation: u64,
    pub total_dispatched: u64,
    /// Kept for failed polls too, which supersede older successes.
    pub last_published: Option<Instant>,
    pub sample: Option<Sample>,
}

/// What a poll remembers of the entry from before it asked the worker.
pub struct Watermark {
    pub generation: u64,
    pub dispatched: u64,
}

/// What a pool check finds out about one eligible worker.
#[derive(Clone, Copy, Debug, PartialEq, Eq, Structural)]
pub enum Verdict {
    /// It has no budget.
    Unprotected,
    /// Its wait cannot be told.
    Unknown(UnknownReason),
    /// Its wait is below its budget.
    BelowBudget,
    /// Its wait is at or above its budget.
    AtBudget,
}

impl Sample {
    /// The wait after `total_dispatched` tokens in all, of which only those
    /// above the watermark are new.
    pub open spec fn wait(self, total_dispatched: u64) -> Binary64 {
        self.prepared.estimate.wait(
            if total_dispatched > self.watermark {
                (total_dispatched - self.watermark) as u64
            } else {
                0
            },
        )
    }

    /// The wait is compared inclusively to the budget.
    pub open spec fn latched(self, total_dispatched: u64) -> Sample {
        let seconds = self.wait(total_dispatched);
        Sample {
            overloaded: if seconds.finite() {
                Some(self.threshold.at_most(seconds))
            } else {
                None
            },
            ..self
        }
    }

    pub open spec fn stale(self, max_age_secs: Binary64, now: Instant) -> bool {
        max_age_secs.less(self.started.age_at(now))
    }
}

impl Entry {
    pub open spec fn fresh(source: u64, generation: u64) -> Entry {
        Entry { source, generation, total_dispatched: 0, last_published: None, sample: None }
    }

    pub open spec fn invalidated(self, generation: u64) -> Entry {
        Entry::fresh(self.source, generation)
    }

    /// The entry with its verdict brought up to date.
    pub open spec fn refreshed(self) -> Entry {
        Entry {
            sample: match self.sample {
                Some(sample) => Some(sample.latched(self.total_dispatched)),
                None => None,
            },
            ..self
        }
    }

    pub open spec fn credited(self, tokens: u64) -> Entry {
        Entry {
            total_dispatched: if self.total_dispatched + tokens <= u64::MAX {
                (self.total_dispatched + tokens) as u64
            } else {
                u64::MAX
            },
            ..self
        }.refreshed()
    }

    /// The entry after a poll that began at `started`. A failed poll, or a
    /// worker without a budget, leaves no sample.
    pub open spec fn reported(
        self,
        prepared: Option<PreparedWait>,
        threshold: Option<Binary64>,
        watermark: u64,
        started: Instant,
    ) -> Entry {
        Entry {
            last_published: Some(started),
            sample: match (prepared, threshold) {
                (Some(prepared), Some(threshold)) => Some(
                    Sample { prepared, started, watermark, threshold, overloaded: None },
                ),
                _ => None,
            },
            ..self
        }.refreshed()
    }

    pub open spec fn data_usable(self, max_age_secs: Binary64, now: Instant) -> bool {
        match self.sample {
            Some(sample) => sample.overloaded is Some && sample.started.age_at(now).at_most(
                max_age_secs,
            ),
            None => false,
        }
    }

    /// What is recorded when the verdict of this entry is latched.
    pub open spec fn refresh_metrics(
        self,
        url: Seq<char>,
        max_age_secs: Binary64,
        now: Instant,
    ) -> Seq<MetricView> {
        let usable = crate::metric::flag(
            Gauge::DataUsable,
            url,
            self.data_usable(max_age_secs, now),
        );
        match self.sample {
            Some(sample) => seq![
                crate::metric::gauge(Gauge::Seconds, url, sample.wait(self.total_dispatched)),
                crate::metric::gauge(Gauge::SnapshotAgeSeconds, url, sample.started.age_at(now)),
                usable,
            ],
            None => seq![usable],
        }
    }

    /// What is recorded of a sample when it is published.
    pub open spec fn sample_metrics(self, url: Seq<char>) -> Seq<MetricView> {
        match self.sample {
            Some(sample) => seq![
                crate::metric::gauge(Gauge::ThresholdSeconds, url, sample.threshold),
                crate::metric::flag(Gauge::QueueProxy, url, sample.prepared.proxy),
                crate::metric::flag(Gauge::ThroughputFallback, url, sample.prepared.fallback),
                crate::metric::gauge(
                    Gauge::BlendedPromptTokens,
                    url,
                    match sample.prepared.blended_prompt_size {
                        Some(size) => size,
                        None => Binary64::integer(-1),
                    },
                ),
                crate::metric::gauge(
                    Gauge::EffectivePrefillCapacity,
                    url,
                    sample.prepared.effective_prefill_capacity,
                ),
            ],
            None => seq![],
        }
    }
}

/// The state of the guard.
#[verifier::ext_equal]
pub struct AdmissionView {
    /// Fixed by whatever sets or reads it first.
    pub config: Option<EstimatedWaitConfig>,
    /// How many registered workers have a budget of their own.
    pub worker_overrides: usize,
    pub entries: Map<Seq<char>, Entry>,
    /// The next generation that no entry has had.
    pub next_generation: u64,
}

/// What is recorded when the data of these workers is given up.
pub open spec fn unusable_metrics(urls: Seq<Seq<char>>) -> Seq<MetricView> {
    urls.map_values(|url: Seq<char>| crate::metric::flag(Gauge::DataUsable, url, false))
}

impl AdmissionView {
    pub open spec fn empty() -> AdmissionView {
        AdmissionView {
            config: None,
            worker_overrides: 0,
            entries: Map::empty(),
            next_generation: 0,
        }
    }

    /// Every generation in use is below the next one, and no two entries have
    /// the same.
    pub open spec fn well_formed(self) -> bool {
        &&& forall|url: Seq<char>| #[trigger]
            self.entries.contains_key(url) ==> self.entries[url].generation < self.next_generation
        &&& forall|a: Seq<char>, b: Seq<char>| #[trigger]
            self.entries.contains_key(a) && #[trigger] self.entries.contains_key(b) && a != b
                ==> self.entries[a].generation != self.entries[b].generation
    }

    /// Whether one more generation can be issued.
    pub open spec fn has_generation(self) -> bool {
        self.next_generation < u64::MAX
    }

    /// Whether one more generation can be issued for each entry.
    pub open spec fn has_generation_per_entry(self) -> bool {
        self.next_generation + self.entries.len() <= u64::MAX
    }

    pub open spec fn effective_config(self) -> EstimatedWaitConfig {
        match self.config {
            Some(config) => config,
            None => EstimatedWaitConfig::default_config(),
        }
    }

    /// Reading the configuration fixes it.
    pub open spec fn settled(self) -> AdmissionView {
        AdmissionView { config: Some(self.effective_config()), ..self }
    }

    pub open spec fn configured(self, config: EstimatedWaitConfig) -> AdmissionView {
        match self.config {
            Some(_) => self,
            None => AdmissionView { config: Some(config), ..self },
        }
    }

    /// Whether any budget is set, by the gateway or by a worker.
    pub open spec fn enabled(self) -> bool {
        ||| self.config matches Some(config) && config.max_estimated_wait_secs is Some
        ||| self.worker_overrides > 0
    }

    pub open spec fn budget(self, worker: WorkerView) -> Option<Binary64> {
        self.effective_config().budget(worker.max_estimated_wait_secs)
    }

    /// Whether the entry at the worker's URL belongs to this incarnation of it.
    pub open spec fn owns(self, worker: WorkerView) -> bool {
        self.entries.contains_key(worker.url) && self.entries[worker.url].source
            == worker.incarnation
    }

    pub open spec fn with_entry(self, url: Seq<char>, entry: Entry) -> AdmissionView {
        AdmissionView { entries: self.entries.insert(url, entry), ..self }
    }

    /// The state in which the worker's URL has an entry.
    pub open spec fn with_worker(self, worker: WorkerView) -> AdmissionView {
        if self.entries.contains_key(worker.url) {
            self
        } else {
            AdmissionView {
                entries: self.entries.insert(
                    worker.url,
                    Entry::fresh(worker.incarnation, self.next_generation),
                ),
                next_generation: (self.next_generation + 1) as u64,
                ..self
            }
        }
    }

    /// Whether a poll or a credit of the worker starts an entry for its URL.
    pub open spec fn starts_entry(self, worker: WorkerView) -> bool {
        self.budget(worker) is Some && !self.entries.contains_key(worker.url)
    }

    /// A registration starts a new entry, whatever the URL had before.
    pub open spec fn worker_added(self, worker: WorkerView) -> AdmissionView {
        AdmissionView {
            entries: self.entries.insert(
                worker.url,
                Entry::fresh(worker.incarnation, self.next_generation),
            ),
            next_generation: (self.next_generation + 1) as u64,
            worker_overrides: if worker.max_estimated_wait_secs is Some {
                self.worker_overrides.wrapping_add(1)
            } else {
                self.worker_overrides
            },
            ..self
        }
    }

    pub open spec fn worker_added_metrics(self, worker: WorkerView) -> Seq<MetricView> {
        if self.entries.contains_key(worker.url) {
            seq![crate::metric::flag(Gauge::DataUsable, worker.url, false)]
        } else {
            seq![]
        }
    }

    /// A removal drops the entry of that incarnation only.
    pub open spec fn worker_removed(self, worker: WorkerView) -> AdmissionView {
        AdmissionView {
            entries: if self.owns(worker) {
                self.entries.remove(worker.url)
            } else {
                self.entries
            },
            worker_overrides: if worker.max_estimated_wait_secs is Some {
                self.worker_overrides.wrapping_sub(1)
            } else {
                self.worker_overrides
            },
            ..self
        }
    }

    /// What a removal or an eviction records.
    pub open spec fn dropped_metrics(self, worker: WorkerView) -> Seq<MetricView> {
        if self.owns(worker) {
            seq![crate::metric::flag(Gauge::DataUsable, worker.url, false)]
        } else {
            seq![]
        }
    }

    pub open spec fn poll_started(self, worker: WorkerView) -> AdmissionView {
        if self.budget(worker) is Some {
            self.settled().with_worker(worker)
        } else {
            self.settled()
        }
    }

    /// The watermark that a poll of the worker gets.
    pub open spec fn watermark(self, worker: WorkerView) -> Option<Watermark> {
        let state = self.poll_started(worker);
        if self.budget(worker) is Some && state.owns(worker) {
            Some(
                Watermark {
                    generation: state.entries[worker.url].generation,
                    dispatched: state.entries[worker.url].total_dispatched,
                },
            )
        } else {
            None
        }
    }

    /// Whether the result of a poll may still be published: the entry is of
    /// the poll's generation, and no poll that began later was published.
    pub open spec fn accepts(
        self,
        url: Seq<char>,
        watermark: Watermark,
        started: Instant,
    ) -> bool {
        &&& self.entries.contains_key(url)
        &&& self.entries[url].generation == watermark.generation
        &&& self.entries[url].last_published matches Some(last) ==> last.nanos <= started.nanos
    }

    /// The estimate of a poll's report, if there is one; none for a failed poll.
    pub open spec fn estimate_of(self, load: Option<LoadView>) -> Option<PreparedWait> {
        match load {
            Some(load) => self.effective_config().prepared(load),
            None => None,
        }
    }

    /// The entry that a poll leaves behind.
    pub open spec fn published_entry(
        self,
        worker: WorkerView,
        prepared: Option<PreparedWait>,
        watermark: Watermark,
        started: Instant,
    ) -> Entry {
        self.entries[worker.url].reported(
            prepared,
            self.budget(worker),
            watermark.dispatched,
            started,
        )
    }

    /// The state after a poll of which this estimate was made.
    pub open spec fn published_estimate(
        self,
        worker: WorkerView,
        prepared: Option<PreparedWait>,
        watermark: Option<Watermark>,
        started: Instant,
    ) -> AdmissionView {
        match watermark {
            None => self,
            Some(watermark) => if self.accepts(worker.url, watermark, started) {
                self.settled().with_entry(
                    worker.url,
                    self.published_entry(worker, prepared, watermark, started),
                )
            } else {
                self.settled()
            },
        }
    }

    pub open spec fn published_estimate_metrics(
        self,
        worker: WorkerView,
        prepared: Option<PreparedWait>,
        watermark: Option<Watermark>,
        started: Instant,
        now: Instant,
    ) -> Seq<MetricView> {
        match watermark {
            Some(watermark) if self.accepts(worker.url, watermark, started) => {
                let entry = self.published_entry(worker, prepared, watermark, started);
                entry.sample_metrics(worker.url) + entry.refresh_metrics(
                    worker.url,
                    self.effective_config().estimated_wait_max_snapshot_age_secs,
                    now,
                )
            },
            _ => seq![],
        }
    }

    /// The state after a poll that brought this report.
    pub open spec fn published(
        self,
        worker: WorkerView,
        load: Option<LoadView>,
        watermark: Option<Watermark>,
        started: Instant,
    ) -> AdmissionView {
        self.published_estimate(worker, self.estimate_of(load), watermark, started)
    }

    pub open spec fn published_metrics(
        self,
        worker: WorkerView,
        load: Option<LoadView>,
        watermark: Option<Watermark>,
        started: Instant,
        now: Instant,
    ) -> Seq<MetricView> {
        self.published_estimate_metrics(worker, self.estimate_of(load), watermark, started, now)
    }

    /// An eviction forgets what is known of the worker, and no poll that is
    /// under way can bring it back.
    pub open spec fn evicted(self, worker: WorkerView) -> AdmissionView {
        if self.owns(worker) {
            AdmissionView {
                next_generation: (self.next_generation + 1) as u64,
                ..self.with_entry(
                    worker.url,
                    self.entries[worker.url].invalidated(self.next_generation),
                )
            }
        } else {
            self
        }
    }

    /// Whether `urls` lists the URL of each entry once.
    pub open spec fn lists_urls(self, urls: Seq<Seq<char>>) -> bool {
        &&& urls.no_duplicates()
        &&& forall|url: Seq<char>| #[trigger]
            urls.contains(url) <==> self.entries.contains_key(url)
    }

    /// The same for every entry, in the order in which `urls` lists them; the
    /// registered budgets stay.
    pub open spec fn cleared(self, urls: Seq<Seq<char>>) -> AdmissionView {
        AdmissionView {
            entries: Map::new(
                |url: Seq<char>| self.entries.contains_key(url),
                |url: Seq<char>|
                    self.entries[url].invalidated(
                        (self.next_generation + urls.index_of(url)) as u64,
                    ),
            ),
            next_generation: (self.next_generation + urls.len()) as u64,
            ..self
        }
    }

    /// A reset gives each entry a generation of its own.
    pub proof fn lemma_cleared_well_formed(self, urls: Seq<Seq<char>>)
        requires
            self.lists_urls(urls),
            self.next_generation + urls.len() <= u64::MAX,
        ensures
            self.cleared(urls).well_formed(),
            forall|url: Seq<char>| #[trigger]
                self.cleared(urls).entries.contains_key(url) ==> self.next_generation
                    <= self.cleared(urls).entries[url].generation,
    {
        assert forall|url: Seq<char>| #[trigger] self.entries.contains_key(url) implies 0
            <= urls.index_of(url) < urls.len() && urls[urls.index_of(url)] == url by {
            assert(urls.contains(url));
        }
    }

    /// A list of the URLs is as long as there are entries.
    pub proof fn lemma_listed_count(self, urls: Seq<Seq<char>>)
        requires
            self.lists_urls(urls),
        ensures
            urls.len() == self.entries.len(),
    {
        urls.unique_seq_to_set();
        assert(urls.to_set() =~= self.entries.dom());
    }

    /// The tokens that a request counts for.
    pub open spec fn credit_of(self, tokens: Option<Seq<u32>>) -> u64 {
        match tokens {
            Some(tokens) => tokens.len() as u64,
            None => self.effective_config().estimated_wait_mean_prefill_tokens as u64,
        }
    }

    pub open spec fn credited(self, worker: WorkerView, tokens: Option<Seq<u32>>) -> AdmissionView {
        let state = self.with_worker(worker);
        if self.budget(worker) is None {
            self
        } else if state.owns(worker) {
            state.with_entry(
                worker.url,
                state.entries[worker.url].credited(self.credit_of(tokens)),
            )
        } else {
            state
        }
    }

    pub open spec fn credited_metrics(
        self,
        worker: WorkerView,
        tokens: Option<Seq<u32>>,
        now: Instant,
    ) -> Seq<MetricView> {
        let state = self.credited(worker, tokens);
        if self.budget(worker) is Some && state.owns(worker) {
            state.entries[worker.url].refresh_metrics(
                worker.url,
                self.effective_config().estimated_wait_max_snapshot_age_secs,
                now,
            )
        } else {
            seq![]
        }
    }

    /// What a pool check finds out about an eligible worker.
    pub open spec fn verdict(self, worker: WorkerView, now: Instant) -> Verdict {
        if self.budget(worker) is None {
            Verdict::Unprotected
        } else if !self.owns(worker) {
            Verdict::Unknown(UnknownReason::Missing)
        } else {
            let entry = self.entries[worker.url];
            match entry.sample {
                Some(sample) => if sample.stale(
                    self.effective_config().estimated_wait_max_snapshot_age_secs,
                    now,
                ) {
                    Verdict::Unknown(UnknownReason::Stale)
                } else {
                    match sample.overloaded {
                        Some(true) => Verdict::AtBudget,
                        Some(false) => Verdict::BelowBudget,
                        None => Verdict::Unknown(UnknownReason::Unusable),
                    }
                },
                None => Verdict::Unknown(
                    if entry.last_published is Some {
                        UnknownReason::Unusable
                    } else {
                        UnknownReason::Missing
                    },
                ),
            }
        }
    }

    /// Whether some worker is eligible and every eligible one is at its budget.
    pub open spec fn saturated(self, candidates: Seq<WorkerView>, now: Instant) -> bool {
        &&& exists|i: int| 0 <= i < candidates.len() && (#[trigger] candidates[i]).available
        &&& forall|i: int|
            0 <= i < candidates.len() && (#[trigger] candidates[i]).available ==> self.verdict(
                candidates[i],
                now,
            ) == Verdict::AtBudget
    }

    /// Whether the pool is to be refused.
    pub open spec fn rejects(self, candidates: Seq<WorkerView>, now: Instant) -> bool {
        self.saturated(candidates, now) && !self.effective_config().estimated_wait_shadow
    }

    /// Whether the worker at `i` is the first eligible one that is not at its
    /// budget; a pool check stops there.
    pub open spec fn first_permissive(
        self,
        candidates: Seq<WorkerView>,
        i: int,
        now: Instant,
    ) -> bool {
        &&& 0 <= i < candidates.len()
        &&& candidates[i].available
        &&& self.verdict(candidates[i], now) != Verdict::AtBudget
        &&& forall|j: int|
            0 <= j < i && (#[trigger] candidates[j]).available ==> self.verdict(candidates[j], now)
                == Verdict::AtBudget
    }

    /// What is recorded of the worker at which a pool check stops.
    pub open spec fn permissive_metrics(
        self,
        worker: WorkerView,
        model: Seq<char>,
        now: Instant,
    ) -> Seq<MetricView> {
        match self.verdict(worker, now) {
            Verdict::Unknown(reason) => seq![
                crate::metric::increment(Counter::Unknown(reason), model),
                crate::metric::flag(Gauge::DataUsable, worker.url, false),
            ],
            _ => seq![],
        }
    }

    /// What a pool check records.
    pub open spec fn cohort_metrics(
        self,
        candidates: Seq<WorkerView>,
        model: Seq<char>,
        now: Instant,
    ) -> Seq<MetricView> {
        if exists|i: int| #[trigger] self.first_permissive(candidates, i, now) {
            let i = choose|i: int| #[trigger] self.first_permissive(candidates, i, now);
            self.permissive_metrics(candidates[i], model, now)
        } else if self.saturated(candidates, now)
            && self.effective_config().estimated_wait_shadow {
            seq![crate::metric::increment(Counter::ShadowRejections, model)]
        } else {
            seq![]
        }
    }

    /// What a probe of a pool records.
    pub open spec fn probe_metrics(
        self,
        candidates: Seq<WorkerView>,
        model: Seq<char>,
        now: Instant,
    ) -> Seq<MetricView> {
        if self.rejects(candidates, now) {
            seq![]
        } else {
            self.cohort_metrics(candidates, model, now)
        }
    }

    /// What a pool check that answers refused requests records.
    pub open spec fn check_metrics(
        self,
        candidates: Seq<WorkerView>,
        model: Seq<char>,
        now: Instant,
    ) -> Seq<MetricView> {
        if self.rejects(candidates, now) {
            seq![crate::metric::increment(Counter::Rejections, model)]
        } else {
            self.cohort_metrics(candidates, model, now)
        }
    }

    /// A pool check stops at one worker at most.
    pub proof fn lemma_first_permissive_unique(
        self,
        candidates: Seq<WorkerView>,
        i: int,
        j: int,
        now: Instant,
    )
        requires
            self.first_permissive(candidates, i, now),
            self.first_permissive(candidates, j, now),
        ensures
            i == j,
    {
        assert(candidates[i].available && candidates[j].available);
    }
}

} // verus!
