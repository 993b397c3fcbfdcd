//! Calibrated worker-backlog admission, independent of the routing policy.
//!
//! The exclusive borrow of an [`AdmissionGuard`] spans admission and
//! selection/credit. Polls capture a watermark before I/O so admissions during
//! a poll survive its publication.

use vstd::prelude::*;
use crate::binary64::Binary64;
use crate::clock::Instant;
use crate::config::{EstimatedWaitConfig, PreparedWait};
use crate::ledger::{AdmissionView, Entry, Sample, Verdict, Watermark};
use crate::load::{LoadView, WorkerLoadResponse};
use crate::metric::{Counter, Gauge, MetricView, Metrics, UnknownReason};
use crate::worker::{Worker, WorkerView};

verus! {

/// The entry of one URL.
#[derive(Debug)]
struct Slot {
    url: String,
    entry: Entry,
}

/// No URL has two slots.
spec fn distinct_urls(slots: Seq<Slot>) -> bool {
    forall|i: int, j: int|
        0 <= i < slots.len() && 0 <= j < slots.len() && i != j ==> (#[trigger] slots[i]).url@ != (
        #[trigger] slots[j]).url@
}

spec fn has_url(slots: Seq<Slot>, url: Seq<char>) -> bool {
    exists|i: int| 0 <= i < slots.len() && (#[trigger] slots[i]).url@ == url
}

/// The entries by URL.
spec fn entries_of(slots: Seq<Slot>) -> Map<Seq<char>, Entry> {
    Map::new(
        |url: Seq<char>| has_url(slots, url),
        |url: Seq<char>|
            slots[choose|i: int| 0 <= i < slots.len() && (#[trigger] slots[i]).url@ == url].entry,
    )
}

proof fn lemma_lookup(slots: Seq<Slot>, i: int)
    requires
        distinct_urls(slots),
        0 <= i < slots.len(),
    ensures
        entries_of(slots).contains_key(slots[i].url@),
        entries_of(slots)[slots[i].url@] == slots[i].entry,
{
    let url = slots[i].url@;
    assert(has_url(slots, url));
    let j = choose|j: int| 0 <= j < slots.len() && (#[trigger] slots[j]).url@ == url;
    assert(j == i);
}

proof fn lemma_push(slots: Seq<Slot>, slot: Slot)
    requires
        distinct_urls(slots),
        !has_url(slots, slot.url@),
    ensures
        distinct_urls(slots.push(slot)),
        entries_of(slots.push(slot)) == entries_of(slots).insert(slot.url@, slot.entry),
{
    let next = slots.push(slot);
    let n = slots.len() as int;
    assert(next[n] == slot);
    assert forall|i: int| 0 <= i < n implies (#[trigger] next[i]).url@ != slot.url@ by {
        assert(next[i] == slots[i]);
    }
    assert(distinct_urls(next));
    let want = entries_of(slots).insert(slot.url@, slot.entry);
    assert forall|url: Seq<char>| entries_of(next).contains_key(url) <==> want.contains_key(
        url,
    ) by {
        if has_url(next, url) {
            let i = choose|i: int| 0 <= i < next.len() && (#[trigger] next[i]).url@ == url;
            if i < n {
                assert(slots[i].url@ == url);
            }
        }
        if has_url(slots, url) {
            let i = choose|i: int| 0 <= i < slots.len() && (#[trigger] slots[i]).url@ == url;
            assert(next[i].url@ == url);
        }
    }
    assert forall|url: Seq<char>| want.contains_key(url) implies entries_of(next)[url]
        == want[url] by {
        if url == slot.url@ {
            lemma_lookup(next, n);
        } else {
            let i = choose|i: int| 0 <= i < slots.len() && (#[trigger] slots[i]).url@ == url;
            assert(next[i] == slots[i]);
            lemma_lookup(next, i);
            lemma_lookup(slots, i);
        }
    }
    assert(entries_of(next) =~= want);
}

proof fn lemma_update(slots: Seq<Slot>, next: Seq<Slot>, i: int)
    requires
        distinct_urls(slots),
        0 <= i < slots.len(),
        next.len() == slots.len(),
        next[i].url@ == slots[i].url@,
        forall|j: int| 0 <= j < slots.len() && j != i ==> #[trigger] next[j] == slots[j],
    ensures
        distinct_urls(next),
        entries_of(next) == entries_of(slots).insert(slots[i].url@, next[i].entry),
{
    assert forall|j: int| 0 <= j < slots.len() implies (#[trigger] next[j]).url@
        == slots[j].url@ by {
        if j != i {
            assert(next[j] == slots[j]);
        }
    }
    assert(distinct_urls(next)) by {
        assert forall|j: int, k: int|
            0 <= j < next.len() && 0 <= k < next.len() && j != k implies (#[trigger] next[j]).url@
            != (#[trigger] next[k]).url@ by {
            assert(slots[j].url@ != slots[k].url@);
        }
    }
    let want = entries_of(slots).insert(slots[i].url@, next[i].entry);
    assert forall|url: Seq<char>| entries_of(next).contains_key(url) <==> want.contains_key(
        url,
    ) by {
        if has_url(next, url) {
            let j = choose|j: int| 0 <= j < next.len() && (#[trigger] next[j]).url@ == url;
            assert(slots[j].url@ == url);
        }
        if has_url(slots, url) {
            let j = choose|j: int| 0 <= j < slots.len() && (#[trigger] slots[j]).url@ == url;
            assert(next[j].url@ == url);
        }
        assert(has_url(next, slots[i].url@)) by {
            assert(next[i].url@ == slots[i].url@);
        }
    }
    assert forall|url: Seq<char>| want.contains_key(url) implies entries_of(next)[url]
        == want[url] by {
        if url == slots[i].url@ {
            lemma_lookup(next, i);
        } else {
            let j = choose|j: int| 0 <= j < slots.len() && (#[trigger] slots[j]).url@ == url;
            assert(next[j] == slots[j]);
            lemma_lookup(next, j);
            lemma_lookup(slots, j);
        }
    }
    assert(entries_of(next) =~= want);
}

proof fn lemma_remove(slots: Seq<Slot>, i: int)
    requires
        distinct_urls(slots),
        0 <= i < slots.len(),
    ensures
        distinct_urls(slots.remove(i)),
        entries_of(slots.remove(i)) == entries_of(slots).remove(slots[i].url@),
{
    let next = slots.remove(i);
    let origin = |j: int| if j < i { j } else { j + 1 };
    assert forall|j: int| 0 <= j < next.len() implies #[trigger] next[j] == slots[origin(j)] by {}
    assert(distinct_urls(next)) by {
        assert forall|j: int, k: int|
            0 <= j < next.len() && 0 <= k < next.len() && j != k implies (#[trigger] next[j]).url@
            != (#[trigger] next[k]).url@ by {
            assert(slots[origin(j)].url@ != slots[origin(k)].url@);
        }
    }
    let want = entries_of(slots).remove(slots[i].url@);
    assert forall|url: Seq<char>| entries_of(next).contains_key(url) <==> want.contains_key(
        url,
    ) by {
        if has_url(next, url) {
            let j = choose|j: int| 0 <= j < next.len() && (#[trigger] next[j]).url@ == url;
            assert(slots[origin(j)].url@ == url);
            assert(slots[origin(j)].url@ != slots[i].url@);
        }
        if has_url(slots, url) && url != slots[i].url@ {
            let j = choose|j: int| 0 <= j < slots.len() && (#[trigger] slots[j]).url@ == url;
            if j < i {
                assert(next[j] == slots[origin(j)]);
            } else {
                assert(next[j - 1] == slots[origin(j - 1)]);
            }
        }
    }
    assert forall|url: Seq<char>| want.contains_key(url) implies entries_of(next)[url]
        == want[url] by {
        let j = choose|j: int| 0 <= j < slots.len() && (#[trigger] slots[j]).url@ == url;
        let k = if j < i { j } else { j - 1 };
        assert(next[k] == slots[origin(k)]);
        lemma_lookup(next, k);
        lemma_lookup(slots, j);
    }
    assert(entries_of(next) =~= want);
}

/// The guard's state.
#[derive(Debug)]
pub struct EstimatedWaitAdmission {
    config: Option<EstimatedWaitConfig>,
    worker_overrides: usize,
    slots: Vec<Slot>,
    next_generation: u64,
}

impl View for EstimatedWaitAdmission {
    type V = AdmissionView;

    closed spec fn view(&self) -> AdmissionView {
        AdmissionView {
            config: self.config,
            worker_overrides: self.worker_overrides,
            entries: entries_of(self.slots@),
            next_generation: self.next_generation,
        }
    }
}

impl EstimatedWaitAdmission {
    pub closed spec fn urls_distinct(&self) -> bool {
        distinct_urls(self.slots@)
    }

    pub open spec fn well_formed(&self) -> bool {
        self.urls_distinct() && self@.well_formed()
    }

    pub fn new() -> (admission: EstimatedWaitAdmission)
        ensures
            admission.well_formed(),
            admission@ == AdmissionView::empty(),
    {
        let admission = EstimatedWaitAdmission {
            config: None,
            worker_overrides: 0,
            slots: Vec::new(),
            next_generation: 0,
        };
        assert(admission@.entries =~= Map::empty());
        admission
    }

    /// Sets the configuration, unless it is fixed already.
    pub fn configure(&mut self, config: EstimatedWaitConfig)
        requires
            old(self).well_formed(),
        ensures
            final(self).well_formed(),
            final(self)@ == old(self)@.configured(config),
    {
        if self.config.is_none() {
            self.config = Some(config);
        }
    }

    /// The configuration, which is fixed from now on.
    pub fn config(&mut self) -> (config: EstimatedWaitConfig)
        requires
            old(self).well_formed(),
        ensures
            final(self).well_formed(),
            final(self)@ == old(self)@.settled(),
            config == old(self)@.effective_config(),
    {
        match self.config {
            Some(config) => config,
            None => {
                let config: EstimatedWaitConfig = EstimatedWaitConfig::default();
                self.config = Some(config);
                config
            },
        }
    }

    /// Whether any budget is set.
    pub fn enabled(&self) -> (enabled: bool)
        ensures
            enabled == self@.enabled(),
    {
        let gateway: bool = match self.config {
            Some(config) => config.max_estimated_wait_secs.is_some(),
            None => false,
        };
        gateway || self.worker_overrides > 0
    }

    /// Whether the worker has a budget, so that its load has to be polled.
    pub fn needs_load(&mut self, worker: &Worker) -> (needed: bool)
        requires
            old(self).well_formed(),
        ensures
            final(self).well_formed(),
            final(self)@ == old(self)@.settled(),
            needed == (old(self)@.budget(worker@) is Some),
    {
        let config: EstimatedWaitConfig = self.config();
        config.threshold(worker).is_some()
    }

    /// How many more generations can be issued. Each registration and eviction
    /// takes one, and so does the first poll or credit of a URL; a reset takes
    /// one for each entry.
    pub fn generations_left(&self) -> (left: u64)
        ensures
            left == u64::MAX - self@.next_generation,
            left > 0 <==> self@.has_generation(),
    {
        u64::MAX - self.next_generation
    }

    /// How many URLs have an entry.
    pub fn entry_count(&self) -> (count: usize)
        requires
            self.well_formed(),
        ensures
            count == self@.entries.len(),
    {
        proof {
            lemma_urls(self.slots@);
            self@.lemma_listed_count(self.slots@.map_values(|slot: Slot| slot.url@));
        }
        self.slots.len()
    }

    /// What is known of the worker at a URL.
    pub fn entry_at(&self, url: &String) -> (entry: Option<Entry>)
        requires
            self.well_formed(),
        ensures
            entry == if self@.entries.contains_key(url@) {
                Some(self@.entries[url@])
            } else {
                None
            },
    {
        match self.position(url) {
            Some(i) => {
                proof {
                    lemma_lookup(self.slots@, i as int);
                }
                Some(self.slots[i].entry)
            },
            None => None,
        }
    }

    fn position(&self, url: &String) -> (position: Option<usize>)
        ensures
            match position {
                Some(i) => i < self.slots@.len() && self.slots@[i as int].url@ == url@,
                None => !has_url(self.slots@, url@),
            },
    {
        let n: usize = self.slots.len();
        let mut i: usize = 0;
        while i < n
            invariant
                n == self.slots@.len(),
                i <= n,
                forall|j: int| 0 <= j < i ==> (#[trigger] self.slots@[j]).url@ != url@,
            decreases n - i,
        {
            if self.slots[i].url == *url {
                return Some(i);
            }
            i = i + 1;
        }
        None
    }
}

impl EstimatedWaitAdmission {
    fn set_entry(&mut self, i: usize, entry: Entry)
        requires
            i < old(self).slots@.len(),
            old(self).urls_distinct(),
        ensures
            final(self).urls_distinct(),
            final(self)@ == old(self)@.with_entry(old(self).slots@[i as int].url@, entry),
    {
        let ghost before = self.slots@;
        self.slots[i].entry = entry;
        proof {
            lemma_update(before, self.slots@, i as int);
        }
    }

    fn push_entry(&mut self, url: &String, entry: Entry)
        requires
            old(self).urls_distinct(),
            !has_url(old(self).slots@, url@),
        ensures
            final(self).urls_distinct(),
            final(self)@ == old(self)@.with_entry(url@, entry),
            final(self).slots@.len() == old(self).slots@.len() + 1,
            final(self).slots@.last().url@ == url@,
            final(self).slots@.last().entry == entry,
    {
        let ghost before = self.slots@;
        let slot = Slot { url: url.clone(), entry };
        proof {
            lemma_push(before, slot);
        }
        self.slots.push(slot);
    }

    /// Issues a generation that no entry has had.
    fn issue_generation(&mut self) -> (generation: u64)
        requires
            old(self)@.has_generation(),
        ensures
            generation == old(self)@.next_generation,
            final(self)@ == (AdmissionView {
                next_generation: (generation + 1) as u64,
                ..old(self)@
            }),
            final(self).slots@ == old(self).slots@,
    {
        let generation: u64 = self.next_generation;
        self.next_generation = generation + 1;
        generation
    }

    /// Starts the entry of a newly registered worker.
    pub fn worker_added(&mut self, worker: &Worker, metrics: &mut Metrics)
        requires
            old(self).well_formed(),
            old(self)@.has_generation(),
        ensures
            final(self).well_formed(),
            final(self)@ == old(self)@.worker_added(worker@),
            final(metrics)@ == old(metrics)@ + old(self)@.worker_added_metrics(worker@),
    {
        let generation: u64 = self.issue_generation();
        let entry: Entry = Entry::new(worker, generation);
        match self.position(&worker.url) {
            Some(i) => {
                proof {
                    lemma_lookup(self.slots@, i as int);
                }
                self.set_entry(i, entry);
                metrics.set_flag(Gauge::DataUsable, &worker.url, false);
            },
            None => {
                self.push_entry(&worker.url, entry);
            },
        }
        if worker.max_estimated_wait_secs.is_some() {
            self.worker_overrides = self.worker_overrides.wrapping_add(1);
        }
        assert(metrics@ =~= old(metrics)@ + old(self)@.worker_added_metrics(worker@));
    }

    /// Forgets a worker that is no longer registered.
    pub fn worker_removed(&mut self, worker: &Worker, metrics: &mut Metrics)
        requires
            old(self).well_formed(),
        ensures
            final(self).well_formed(),
            final(self)@ == old(self)@.worker_removed(worker@),
            final(metrics)@ == old(metrics)@ + old(self)@.dropped_metrics(worker@),
    {
        match self.position(&worker.url) {
            Some(i) => {
                proof {
                    lemma_lookup(self.slots@, i as int);
                }
                if self.slots[i].entry.source == worker.incarnation {
                    proof {
                        lemma_remove(self.slots@, i as int);
                    }
                    self.slots.remove(i);
                    metrics.set_flag(Gauge::DataUsable, &worker.url, false);
                }
            },
            None => {},
        }
        if worker.max_estimated_wait_secs.is_some() {
            self.worker_overrides = self.worker_overrides.wrapping_sub(1);
        }
        assert(metrics@ =~= old(metrics)@ + old(self)@.dropped_metrics(worker@));
    }

    /// Finds the entry of a worker, and starts one if its URL has none. Gives
    /// no position if the entry belongs to another incarnation.
    fn entry(&mut self, worker: &Worker) -> (position: Option<usize>)
        requires
            old(self).well_formed(),
            !old(self)@.entries.contains_key(worker@.url) ==> old(self)@.has_generation(),
        ensures
            final(self).well_formed(),
            final(self)@ == old(self)@.with_worker(worker@),
            position is Some <==> final(self)@.owns(worker@),
            position matches Some(i) ==> {
                &&& i < final(self).slots@.len()
                &&& final(self).slots@[i as int].url@ == worker@.url
                &&& final(self).slots@[i as int].entry == final(self)@.entries[worker@.url]
            },
    {
        match self.position(&worker.url) {
            Some(i) => {
                proof {
                    lemma_lookup(self.slots@, i as int);
                }
                if self.slots[i].entry.source == worker.incarnation {
                    Some(i)
                } else {
                    None
                }
            },
            None => {
                let generation: u64 = self.issue_generation();
                let entry: Entry = Entry::new(worker, generation);
                self.push_entry(&worker.url, entry);
                Some(self.slots.len() - 1)
            },
        }
    }

    /// Forgets what is known of a worker, also for the polls under way.
    pub fn evict(&mut self, worker: &Worker, metrics: &mut Metrics)
        requires
            old(self).well_formed(),
            old(self)@.owns(worker@) ==> old(self)@.has_generation(),
        ensures
            final(self).well_formed(),
            final(self)@ == old(self)@.evicted(worker@),
            final(metrics)@ == old(metrics)@ + old(self)@.dropped_metrics(worker@),
    {
        match self.position(&worker.url) {
            Some(i) => {
                proof {
                    lemma_lookup(self.slots@, i as int);
                }
                let mut entry: Entry = self.slots[i].entry;
                if entry.source == worker.incarnation {
                    let generation: u64 = self.issue_generation();
                    entry.invalidate(generation);
                    self.set_entry(i, entry);
                    metrics.set_flag(Gauge::DataUsable, &worker.url, false);
                }
            },
            None => {},
        }
        assert(metrics@ =~= old(metrics)@ + old(self)@.dropped_metrics(worker@));
    }
}

impl Entry {
    /// The entry of a worker of which nothing is known.
    pub fn new(worker: &Worker, generation: u64) -> (entry: Entry)
        ensures
            entry == Entry::fresh(worker.incarnation, generation),
    {
        Entry {
            source: worker.incarnation,
            generation,
            total_dispatched: 0,
            last_published: None,
            sample: None,
        }
    }

    /// Forgets everything but whose entry this is.
    pub fn invalidate(&mut self, generation: u64)
        ensures
            *final(self) == old(self).invalidated(generation),
    {
        self.generation = generation;
        self.total_dispatched = 0;
        self.last_published = None;
        self.sample = None;
    }

    /// Latches the verdict of the sample and records what it rests on.
    pub fn refresh(
        &mut self,
        worker: &Worker,
        max_age_secs: Binary64,
        now: Instant,
        metrics: &mut Metrics,
    )
        ensures
            *final(self) == old(self).refreshed(),
            final(metrics)@ == old(metrics)@ + old(self).refreshed().refresh_metrics(
                worker@.url,
                max_age_secs,
                now,
            ),
    {
        let ghost before = metrics@;
        let mut usable: bool = false;
        match self.sample {
            Some(sample) => {
                let dispatched: u64 = self.total_dispatched.saturating_sub(sample.watermark);
                let seconds: Binary64 = sample.prepared.estimate.seconds(dispatched);
                let age: Binary64 = sample.started.elapsed_secs(now);
                let overloaded: Option<bool> = if seconds.is_finite() {
                    Some(sample.threshold.le(seconds))
                } else {
                    None
                };
                self.sample = Some(Sample { overloaded, ..sample });
                metrics.set(Gauge::Seconds, &worker.url, seconds);
                metrics.set(Gauge::SnapshotAgeSeconds, &worker.url, age);
                usable = overloaded.is_some() && age.le(max_age_secs);
            },
            None => {},
        }
        metrics.set_flag(Gauge::DataUsable, &worker.url, usable);
        assert(metrics@ =~= before + self.refresh_metrics(worker@.url, max_age_secs, now));
    }
}

/// What a poll remembers of a worker's entry from before it asked the worker.
#[derive(Debug)]
pub struct PollWatermark {
    generation: u64,
    dispatched: u64,
}

impl View for PollWatermark {
    type V = Watermark;

    closed spec fn view(&self) -> Watermark {
        Watermark { generation: self.generation, dispatched: self.dispatched }
    }
}

pub open spec fn watermark_view(watermark: Option<PollWatermark>) -> Option<Watermark> {
    match watermark {
        Some(watermark) => Some(watermark@),
        None => None,
    }
}

pub open spec fn load_view(load: Option<&WorkerLoadResponse>) -> Option<LoadView> {
    match load {
        Some(load) => Some(load@),
        None => None,
    }
}

impl EstimatedWaitAdmission {
    /// Takes the watermark of a poll, before the worker is asked. A worker
    /// without a budget, or one that was replaced, gets none.
    pub fn poll_started(&mut self, worker: &Worker) -> (watermark: Option<PollWatermark>)
        requires
            old(self).well_formed(),
            old(self)@.starts_entry(worker@) ==> old(self)@.has_generation(),
        ensures
            final(self).well_formed(),
            final(self)@ == old(self)@.poll_started(worker@),
            watermark_view(watermark) == old(self)@.watermark(worker@),
    {
        if !self.needs_load(worker) {
            return None;
        }
        match self.entry(worker) {
            Some(i) => {
                let entry: Entry = self.slots[i].entry;
                Some(
                    PollWatermark {
                        generation: entry.generation,
                        dispatched: entry.total_dispatched,
                    },
                )
            },
            None => None,
        }
    }

    /// Publishes the result of a poll that began at `started`; no load stands
    /// for a poll that failed.
    pub fn publish(
        &mut self,
        worker: &Worker,
        load: Option<&WorkerLoadResponse>,
        watermark: Option<PollWatermark>,
        started: Instant,
        now: Instant,
        metrics: &mut Metrics,
    )
        requires
            old(self).well_formed(),
        ensures
            final(self).well_formed(),
            final(self)@ == old(self)@.published(
                worker@,
                load_view(load),
                watermark_view(watermark),
                started,
            ),
            final(metrics)@ == old(metrics)@ + old(self)@.published_metrics(
                worker@,
                load_view(load),
                watermark_view(watermark),
                started,
                now,
            ),
    {
        if watermark.is_none() {
            assert(metrics@ =~= old(metrics)@ + seq![]);
            return ;
        }
        let config: EstimatedWaitConfig = self.config();
        let prepared: Option<PreparedWait> = match load {
            Some(load) => config.prepare(load),
            None => None,
        };
        self.publish_estimate(worker, prepared, watermark, started, now, metrics);
    }

    /// Publishes the estimate that the configuration makes of a poll's report,
    /// so that it can be made before the ledger is held; none stands for a poll
    /// that failed or whose report cannot be used.
    pub fn publish_estimate(
        &mut self,
        worker: &Worker,
        prepared: Option<PreparedWait>,
        watermark: Option<PollWatermark>,
        started: Instant,
        now: Instant,
        metrics: &mut Metrics,
    )
        requires
            old(self).well_formed(),
        ensures
            final(self).well_formed(),
            final(self)@ == old(self)@.published_estimate(
                worker@,
                prepared,
                watermark_view(watermark),
                started,
            ),
            final(metrics)@ == old(metrics)@ + old(self)@.published_estimate_metrics(
                worker@,
                prepared,
                watermark_view(watermark),
                started,
                now,
            ),
    {
        let ghost state = self@;
        let ghost before = metrics@;
        let watermark: PollWatermark = match watermark {
            Some(watermark) => watermark,
            None => {
                assert(metrics@ =~= before + seq![]);
                return ;
            },
        };
        let config: EstimatedWaitConfig = self.config();
        let threshold: Option<Binary64> = config.threshold(worker);
        let i: usize = match self.position(&worker.url) {
            Some(i) => i,
            None => {
                assert(metrics@ =~= before + seq![]);
                return ;
            },
        };
        proof {
            lemma_lookup(self.slots@, i as int);
        }
        let mut entry: Entry = self.slots[i].entry;
        let superseded: bool = match entry.last_published {
            Some(last) => last.nanos > started.nanos,
            None => false,
        };
        if entry.generation != watermark.generation || superseded {
            assert(metrics@ =~= before + seq![]);
            return ;
        }
        entry.last_published = Some(started);
        entry.sample = match (prepared, threshold) {
            (Some(prepared), Some(threshold)) => Some(
                Sample {
                    prepared,
                    started,
                    watermark: watermark.dispatched,
                    threshold,
                    overloaded: None,
                },
            ),
            _ => None,
        };
        let ghost reported = entry;
        match entry.sample {
            Some(sample) => {
                metrics.set(Gauge::ThresholdSeconds, &worker.url, sample.threshold);
                metrics.set_flag(Gauge::QueueProxy, &worker.url, sample.prepared.proxy);
                metrics.set_flag(Gauge::ThroughputFallback, &worker.url, sample.prepared.fallback);
                let size: Binary64 = match sample.prepared.blended_prompt_size {
                    Some(size) => size,
                    None => Binary64::from_i32(-1),
                };
                metrics.set(Gauge::BlendedPromptTokens, &worker.url, size);
                metrics.set(
                    Gauge::EffectivePrefillCapacity,
                    &worker.url,
                    sample.prepared.effective_prefill_capacity,
                );
            },
            None => {},
        }
        assert(metrics@ =~= before + reported.refreshed().sample_metrics(worker@.url));
        entry.refresh(worker, config.estimated_wait_max_snapshot_age_secs, now, metrics);
        self.set_entry(i, entry);
        assert(entry == state.published_entry(worker@, prepared, watermark@, started));
        assert(metrics@ =~= before + (entry.sample_metrics(worker@.url) + entry.refresh_metrics(
            worker@.url,
            config.estimated_wait_max_snapshot_age_secs,
            now,
        )));
    }

    /// Forgets what is known of every worker, also for the polls under way.
    /// The registered budgets stay.
    pub fn clear(&mut self, metrics: &mut Metrics)
        requires
            old(self).well_formed(),
            old(self)@.has_generation_per_entry(),
        ensures
            final(self).well_formed(),
            exists|urls: Seq<Seq<char>>| #[trigger]
                old(self)@.lists_urls(urls) && final(self)@ == old(self)@.cleared(urls)
                    && final(metrics)@ == old(metrics)@ + crate::ledger::unusable_metrics(urls),
    {
        let ghost start = self.slots@;
        let ghost urls = start.map_values(|slot: Slot| slot.url@);
        let ghost before = metrics@;
        let ghost base = self.next_generation;
        let n: usize = self.slots.len();
        let mut i: usize = 0;
        proof {
            lemma_urls(start);
            assert(self@.lists_urls(urls));
            self@.lemma_listed_count(urls);
        }
        assert(metrics@ =~= before + crate::ledger::unusable_metrics(urls.take(0)));
        while i < n
            invariant
                n == start.len(),
                self.slots@.len() == n,
                i <= n,
                base + n <= u64::MAX,
                self.config == old(self).config,
                self.worker_overrides == old(self).worker_overrides,
                self.next_generation == base + i,
                forall|j: int| 0 <= j < n ==> (#[trigger] self.slots@[j]).url@ == start[j].url@,
                forall|j: int|
                    0 <= j < i ==> (#[trigger] self.slots@[j]).entry == start[j].entry.invalidated(
                        (base + j) as u64,
                    ),
                forall|j: int| i <= j < n ==> (#[trigger] self.slots@[j]).entry == start[j].entry,
                urls == start.map_values(|slot: Slot| slot.url@),
                metrics@ == before + crate::ledger::unusable_metrics(urls.take(i as int)),
            decreases n - i,
        {
            let generation: u64 = self.issue_generation();
            let mut entry: Entry = self.slots[i].entry;
            entry.invalidate(generation);
            self.slots[i].entry = entry;
            metrics.set_flag(Gauge::DataUsable, &self.slots[i].url, false);
            assert(crate::ledger::unusable_metrics(urls.take(i + 1))
                =~= crate::ledger::unusable_metrics(urls.take(i as int)).push(
                crate::metric::flag(Gauge::DataUsable, urls[i as int], false),
            ));
            i = i + 1;
            assert(metrics@ =~= before + crate::ledger::unusable_metrics(urls.take(i as int)));
        }
        proof {
            lemma_cleared(start, self.slots@, base);
            assert(urls.take(n as int) =~= urls);
            old(self)@.lemma_cleared_well_formed(urls);
            assert(self@.entries =~= old(self)@.cleared(urls).entries);
            assert(self@ == old(self)@.cleared(urls));
        }
    }
}

proof fn lemma_urls(slots: Seq<Slot>)
    requires
        distinct_urls(slots),
    ensures
        ({
            let urls = slots.map_values(|slot: Slot| slot.url@);
            &&& urls.no_duplicates()
            &&& forall|url: Seq<char>| #[trigger]
                urls.contains(url) <==> entries_of(slots).contains_key(url)
        }),
{
    let urls = slots.map_values(|slot: Slot| slot.url@);
    assert forall|i: int, j: int|
        0 <= i < urls.len() && 0 <= j < urls.len() && i != j implies urls[i] != urls[j] by {
        assert(slots[i].url@ != slots[j].url@);
    }
    assert forall|url: Seq<char>| #[trigger] urls.contains(url) <==> entries_of(
        slots,
    ).contains_key(url) by {
        if urls.contains(url) {
            let i = choose|i: int| 0 <= i < urls.len() && urls[i] == url;
            assert(slots[i].url@ == url);
        }
        if has_url(slots, url) {
            let i = choose|i: int| 0 <= i < slots.len() && (#[trigger] slots[i]).url@ == url;
            assert(urls[i] == url);
        }
    }
}

proof fn lemma_cleared(slots: Seq<Slot>, next: Seq<Slot>, base: u64)
    requires
        distinct_urls(slots),
        next.len() == slots.len(),
        forall|j: int| 0 <= j < slots.len() ==> (#[trigger] next[j]).url@ == slots[j].url@,
        forall|j: int|
            0 <= j < slots.len() ==> (#[trigger] next[j]).entry == slots[j].entry.invalidated(
                (base + j) as u64,
            ),
    ensures
        distinct_urls(next),
        forall|url: Seq<char>|
            entries_of(next).contains_key(url) <==> entries_of(slots).contains_key(url),
        forall|url: Seq<char>| #[trigger]
            entries_of(next).contains_key(url) ==> entries_of(next)[url] == entries_of(
                slots,
            )[url].invalidated(
                (base + slots.map_values(|slot: Slot| slot.url@).index_of(url)) as u64,
            ),
{
    let urls = slots.map_values(|slot: Slot| slot.url@);
    assert(distinct_urls(next)) by {
        assert forall|j: int, k: int|
            0 <= j < next.len() && 0 <= k < next.len() && j != k implies (#[trigger] next[j]).url@
            != (#[trigger] next[k]).url@ by {
            assert(slots[j].url@ != slots[k].url@);
        }
    }
    assert forall|url: Seq<char>|
        entries_of(next).contains_key(url) <==> entries_of(slots).contains_key(url) by {
        if has_url(next, url) {
            let j = choose|j: int| 0 <= j < next.len() && (#[trigger] next[j]).url@ == url;
            assert(slots[j].url@ == url);
        }
        if has_url(slots, url) {
            let j = choose|j: int| 0 <= j < slots.len() && (#[trigger] slots[j]).url@ == url;
            assert(next[j].url@ == url);
        }
    }
    assert forall|url: Seq<char>| #[trigger] entries_of(next).contains_key(url) implies entries_of(
        next,
    )[url] == entries_of(slots)[url].invalidated((base + urls.index_of(url)) as u64) by {
        let j = choose|j: int| 0 <= j < next.len() && (#[trigger] next[j]).url@ == url;
        lemma_lookup(next, j);
        lemma_lookup(slots, j);
        assert(urls[j] == url);
        let k = urls.index_of(url);
        assert(slots[k].url@ == url);
        assert(k == j);
    }
}

/// How a refused request is answered.
#[derive(Debug)]
pub struct ShedResponse {
    /// The HTTP status.
    pub status: u16,
    /// The error code, in the body and in the `X-SMG-Error-Code` header.
    pub error_code: String,
    /// The model whose pool is saturated.
    pub model: String,
    /// The `Retry-After` header: the load-monitor polling interval, but at
    /// least one second.
    pub retry_after_secs: u64,
    /// Whether the gateway itself may try the request again.
    pub retryable: bool,
}

/// The mathematical counterpart of [`ShedResponse`].
pub struct ShedView {
    pub status: u16,
    pub error_code: Seq<char>,
    pub model: Seq<char>,
    pub retry_after_secs: u64,
    pub retryable: bool,
}

impl View for ShedResponse {
    type V = ShedView;

    open spec fn view(&self) -> ShedView {
        ShedView {
            status: self.status,
            error_code: self.error_code@,
            model: self.model@,
            retry_after_secs: self.retry_after_secs,
            retryable: self.retryable,
        }
    }
}

pub open spec fn shed_view(model: Seq<char>, poll_interval_secs: u64) -> ShedView {
    ShedView {
        status: 503,
        error_code: "worker_overload_protection_shed"@,
        model,
        retry_after_secs: if poll_interval_secs > 1 {
            poll_interval_secs
        } else {
            1
        },
        retryable: false,
    }
}

pub open spec fn worker_views(candidates: Seq<Worker>) -> Seq<WorkerView> {
    candidates.map_values(|worker: Worker| worker@)
}

/// Exclusive access to the ledger for one request, so that admission, selection
/// and the final credit are one step.
#[derive(Debug)]
pub struct AdmissionGuard<'a> {
    pub admission: &'a mut EstimatedWaitAdmission,
}

impl<'a> View for AdmissionGuard<'a> {
    type V = AdmissionView;

    open spec fn view(&self) -> AdmissionView {
        (*self.admission)@
    }
}

impl EstimatedWaitAdmission {
    /// Begins the admission of a request; none if no budget is set.
    pub fn begin(&mut self) -> (guard: Option<AdmissionGuard<'_>>)
        requires
            old(self).well_formed(),
        ensures
            guard is Some <==> old(self)@.enabled(),
            guard is None ==> *final(self) == *old(self),
            guard matches Some(guard) ==> {
                &&& guard.well_formed()
                &&& guard@ == old(self)@.settled()
                &&& *final(self) == *final(guard.admission)
            },
    {
        if !self.enabled() {
            return None;
        }
        self.config();
        Some(AdmissionGuard { admission: self })
    }
}

impl<'a> AdmissionGuard<'a> {
    pub open spec fn well_formed(&self) -> bool {
        (*self.admission).well_formed()
    }

    fn effective_config(&self) -> (config: EstimatedWaitConfig)
        ensures
            config == self@.effective_config(),
    {
        match self.admission.config {
            Some(config) => config,
            None => EstimatedWaitConfig::default(),
        }
    }

    /// Refuses the request if every eligible candidate is at its budget.
    pub fn check(
        &self,
        candidates: &[Worker],
        model: &str,
        poll_interval_secs: u64,
        now: Instant,
        metrics: &mut Metrics,
    ) -> (result: Result<(), ShedResponse>)
        requires
            self.well_formed(),
        ensures
            result is Err <==> self@.rejects(worker_views(candidates@), now),
            result matches Err(response) ==> response@ == shed_view(model@, poll_interval_secs),
            final(metrics)@ == old(metrics)@ + self@.check_metrics(
                worker_views(candidates@),
                model@,
                now,
            ),
    {
        if self.check_cohort(candidates, model, now, metrics) {
            let response: ShedResponse = AdmissionGuard::shed(model, poll_interval_secs, metrics);
            assert(metrics@ =~= old(metrics)@ + seq![
                crate::metric::increment(Counter::Rejections, model@),
            ]);
            return Err(response);
        }
        Ok(())
    }

    /// Records an enforced rejection and makes the answer to it.
    pub fn shed(model: &str, poll_interval_secs: u64, metrics: &mut Metrics) -> (response:
        ShedResponse)
        ensures
            response@ == shed_view(model@, poll_interval_secs),
            final(metrics)@ == old(metrics)@.push(
                crate::metric::increment(Counter::Rejections, model@),
            ),
    {
        metrics.count(Counter::Rejections, model);
        ShedResponse {
            status: 503,
            error_code: "worker_overload_protection_shed".to_owned(),
            model: model.to_owned(),
            retry_after_secs: if poll_interval_secs > 1 {
                poll_interval_secs
            } else {
                1
            },
            retryable: false,
        }
    }

    fn judge(&self, worker: &Worker, now: Instant) -> (verdict: Verdict)
        requires
            self.well_formed(),
        ensures
            verdict == self@.verdict(worker@, now),
    {
        let config: EstimatedWaitConfig = self.effective_config();
        if config.threshold(worker).is_none() {
            return Verdict::Unprotected;
        }
        let entry: Entry = match self.admission.entry_at(&worker.url) {
            Some(entry) => entry,
            None => {
                return Verdict::Unknown(UnknownReason::Missing);
            },
        };
        if entry.source != worker.incarnation {
            return Verdict::Unknown(UnknownReason::Missing);
        }
        match entry.sample {
            Some(sample) => {
                let age: Binary64 = sample.started.elapsed_secs(now);
                if config.estimated_wait_max_snapshot_age_secs.lt(age) {
                    return Verdict::Unknown(UnknownReason::Stale);
                }
                match sample.overloaded {
                    Some(true) => Verdict::AtBudget,
                    Some(false) => Verdict::BelowBudget,
                    None => Verdict::Unknown(UnknownReason::Unusable),
                }
            },
            None => {
                if entry.last_published.is_some() {
                    Verdict::Unknown(UnknownReason::Unusable)
                } else {
                    Verdict::Unknown(UnknownReason::Missing)
                }
            },
        }
    }

    /// Probes a cohort without recording an enforced rejection or making an
    /// answer. Shadow mode still counts would-reject checks and permits
    /// selection.
    pub fn check_cohort(
        &self,
        candidates: &[Worker],
        model: &str,
        now: Instant,
        metrics: &mut Metrics,
    ) -> (rejected: bool)
        requires
            self.well_formed(),
        ensures
            rejected == self@.rejects(worker_views(candidates@), now),
            final(metrics)@ == old(metrics)@ + self@.probe_metrics(
                worker_views(candidates@),
                model@,
                now,
            ),
    {
        let ghost views = worker_views(candidates@);
        let ghost before = metrics@;
        let n: usize = candidates.len();
        let mut eligible: bool = false;
        let mut i: usize = 0;
        while i < n
            invariant
                self.well_formed(),
                n == candidates@.len(),
                i <= n,
                views == worker_views(candidates@),
                metrics@ == before,
                before == old(metrics)@,
                eligible == (exists|j: int| 0 <= j < i && (#[trigger] views[j]).available),
                forall|j: int|
                    0 <= j < i && (#[trigger] views[j]).available ==> self@.verdict(views[j], now)
                        == Verdict::AtBudget,
            decreases n - i,
        {
            let worker: &Worker = &candidates[i];
            assert(views[i as int] == worker@);
            if worker.available {
                eligible = true;
                // One permissive worker is sufficient. In particular, an
                // unprotected worker or unknown report must not allow its peers
                // to prove saturation.
                let verdict: Verdict = self.judge(worker, now);
                if verdict != Verdict::AtBudget {
                    proof {
                        assert(self@.first_permissive(views, i as int, now));
                        let k = choose|k: int| #[trigger] self@.first_permissive(views, k, now);
                        self@.lemma_first_permissive_unique(views, i as int, k, now);
                        assert(!self@.saturated(views, now));
                    }
                    match verdict {
                        Verdict::Unknown(reason) => {
                            metrics.count(Counter::Unknown(reason), model);
                            metrics.set_flag(Gauge::DataUsable, &worker.url, false);
                        },
                        _ => {},
                    }
                    assert(metrics@ =~= before + self@.permissive_metrics(worker@, model@, now));
                    return false;
                }
            }
            i = i + 1;
        }
        assert(forall|j: int| !#[trigger] self@.first_permissive(views, j, now));
        assert(self@.saturated(views, now) == eligible);
        if !eligible {
            assert(metrics@ =~= before + seq![]);
            return false;
        }
        let config: EstimatedWaitConfig = self.effective_config();
        if config.estimated_wait_shadow {
            metrics.count(Counter::ShadowRejections, model);
            assert(metrics@ =~= before + seq![
                crate::metric::increment(Counter::ShadowRejections, model@),
            ]);
            return false;
        }
        assert(metrics@ =~= before + seq![]);
        true
    }

    /// Credits a selected worker with the tokens of the request, or with the
    /// mean estimate where they are not known.
    pub fn credit(
        &mut self,
        worker: &Worker,
        tokens: Option<&[u32]>,
        now: Instant,
        metrics: &mut Metrics,
    )
        requires
            old(self).well_formed(),
            old(self)@.starts_entry(worker@) ==> old(self)@.has_generation(),
        ensures
            final(self).well_formed(),
            final(self)@ == old(self)@.credited(worker@, token_view(tokens)),
            final(metrics)@ == old(metrics)@ + old(self)@.credited_metrics(
                worker@,
                token_view(tokens),
                now,
            ),
            *final(final(self).admission) == *final(old(self).admission),
    {
        let ghost before = metrics@;
        let config: EstimatedWaitConfig = self.effective_config();
        if config.threshold(worker).is_none() {
            assert(metrics@ =~= before + seq![]);
            return ;
        }
        let count: u64 = match tokens {
            Some(tokens) => tokens.len() as u64,
            None => config.estimated_wait_mean_prefill_tokens as u64,
        };
        let i: usize = match self.admission.entry(worker) {
            Some(i) => i,
            None => {
                assert(metrics@ =~= before + seq![]);
                return ;
            },
        };
        let mut entry: Entry = self.admission.slots[i].entry;
        entry.total_dispatched = entry.total_dispatched.saturating_add(count);
        entry.refresh(worker, config.estimated_wait_max_snapshot_age_secs, now, metrics);
        self.admission.set_entry(i, entry);
    }
}

pub open spec fn token_view(tokens: Option<&[u32]>) -> Option<Seq<u32>> {
    match tokens {
        Some(tokens) => Some(tokens@),
        None => None,
    }
}

} // verus!
