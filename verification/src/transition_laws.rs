//! What each operation does to the ledger, on the fields of the state.

use vstd::prelude::*;
use vstd::arithmetic::power2::*;
use crate::admission::{PollWatermark, ShedResponse, ShedView};
use crate::binary64::Binary64;
use crate::clock::Instant;
use crate::config::{ConfigError, EstimatedWaitConfig, PreparedWait};
use crate::ledger::{AdmissionView, Entry, Sample, Verdict, Watermark};
use crate::load::{LoadView, SchedulerLoadSnapshot, WorkerLoadResponse};
use crate::metric::{Counter, Gauge, MetricView, UnknownReason};
use crate::worker::{Worker, WorkerView};

verus! {

/// The configuration that a state goes by.
pub open spec fn in_force(state: AdmissionView) -> EstimatedWaitConfig {
    match state.config {
        Some(config) => config,
        None => EstimatedWaitConfig::default_config(),
    }
}

/// The wait budget of a worker: its own, and else the gateway's.
pub open spec fn wait_budget(state: AdmissionView, worker: WorkerView) -> Option<Binary64> {
    match worker.max_estimated_wait_secs {
        Some(own) => Some(own),
        None => in_force(state).max_estimated_wait_secs,
    }
}

/// Whether the worker's URL has an entry of this very worker.
pub open spec fn has_own_entry(state: AdmissionView, worker: WorkerView) -> bool {
    &&& state.entries.dom().contains(worker.url)
    &&& state.entries[worker.url].source == worker.incarnation
}

/// Whether nothing is known yet through an entry.
pub open spec fn knows_nothing(entry: Entry) -> bool {
    &&& entry.total_dispatched == 0
    &&& entry.last_published is None
    &&& entry.sample is None
}

/// Whether two states have the same entries but for one URL.
pub open spec fn same_elsewhere(a: AdmissionView, b: AdmissionView, url: Seq<char>) -> bool {
    forall|other: Seq<char>|
        #![trigger a.entries.dom().contains(other)]
        #![trigger b.entries.dom().contains(other)]
        other != url ==> {
            &&& a.entries.dom().contains(other) <==> b.entries.dom().contains(other)
            &&& a.entries.dom().contains(other) ==> a.entries[other] == b.entries[other]
        }
}

/// The tokens that are not accounted for by a watermark.
pub open spec fn beyond(total: u64, watermark: u64) -> u64 {
    if total > watermark {
        (total - watermark) as u64
    } else {
        0
    }
}

/// Whether a finite wait is at or above a budget.
pub open spec fn reaches(wait: Binary64, budget: Binary64) -> bool {
    if budget.finite() {
        budget.signed_units() <= wait.signed_units()
    } else {
        budget.infinite() && budget.negative()
    }
}

/// The verdict on an estimate with so many tokens on top.
pub open spec fn judged(prepared: PreparedWait, budget: Binary64, added: u64) -> Option<bool> {
    let wait = prepared.estimate.wait(added);
    if wait.finite() {
        Some(reaches(wait, budget))
    } else {
        None
    }
}

proof fn lemma_reaches(wait: Binary64, budget: Binary64)
    requires
        wait.finite(),
    ensures
        budget.at_most(wait) == reaches(wait, budget),
{
    if budget.finite() {
        crate::order::lemma_order_is_units(budget, wait);
    }
}

/// A recorded gauge.
pub open spec fn shown(gauge: Gauge, url: Seq<char>, value: Binary64) -> MetricView {
    MetricView::Observe { gauge, worker: url, value }
}

/// A recorded gauge that is one or zero.
pub open spec fn shown_flag(gauge: Gauge, url: Seq<char>, on: bool) -> MetricView {
    shown(
        gauge,
        url,
        Binary64 {
            bits: if on {
                0x3ff0_0000_0000_0000
            } else {
                0
            },
        },
    )
}

proof fn lemma_flag(gauge: Gauge, url: Seq<char>, on: bool)
    ensures
        crate::metric::flag(gauge, url, on) == shown_flag(gauge, url, on),
{
    crate::formula_laws::lemma_zero();
    crate::formula_laws::lemma_one();
}

/// A new guard has no configuration, no registered budget and no entry, and has
/// issued no generation, so it is off and refuses nothing.
pub proof fn law_new_guard_knows_nothing(candidates: Seq<WorkerView>, now: Instant)
    ensures
        ({
            let state = AdmissionView::empty();
            &&& state.config is None
            &&& state.worker_overrides == 0
            &&& state.entries.dom() == Set::<Seq<char>>::empty()
            &&& state.next_generation == 0
            &&& !state.enabled()
            &&& !state.rejects(candidates, now)
        }),
{
    let state = AdmissionView::empty();
    assert(state.entries.dom() =~= Set::<Seq<char>>::empty());
    if state.rejects(candidates, now) {
        let i = choose|i: int| 0 <= i < candidates.len() && (#[trigger] candidates[i]).available;
        assert(state.verdict(candidates[i], now) == Verdict::AtBudget);
        assert(!state.entries.contains_key(candidates[i].url));
    }
}

/// Only the first configuration counts, and it changes nothing else. Reading
/// the configuration makes the default one the first.
pub proof fn law_first_configuration_counts(state: AdmissionView, config: EstimatedWaitConfig)
    ensures
        state.configured(config).config == Some(
            match state.config {
                Some(first) => first,
                None => config,
            },
        ),
        state.settled().config == Some(in_force(state)),
        state.effective_config() == in_force(state),
        ({
            let (a, b) = (state.configured(config), state.settled());
            &&& a.entries == state.entries && b.entries == state.entries
            &&& a.worker_overrides == state.worker_overrides
            &&& b.worker_overrides == state.worker_overrides
            &&& a.next_generation == state.next_generation
            &&& b.next_generation == state.next_generation
        }),
{
}

/// The guard is on just if the configuration that was set has a budget or some
/// worker's own budget is registered.
pub proof fn law_guard_is_on_for_budgets(state: AdmissionView)
    ensures
        state.enabled() <==> {
            ||| state.config is Some && state.config.unwrap().max_estimated_wait_secs is Some
            ||| state.worker_overrides != 0
        },
{
}

/// A worker is measured by its own budget, and else by the gateway's.
pub proof fn law_budget_of_a_worker(state: AdmissionView, worker: WorkerView)
    ensures
        state.budget(worker) == wait_budget(state, worker),
        state.effective_config().budget(worker.max_estimated_wait_secs) == wait_budget(
            state,
            worker,
        ),
{
}

/// A registration starts an entry of which nothing is known and whose generation
/// is new, whatever the URL had before, and counts the worker's own budget.
pub proof fn law_registration(state: AdmissionView, worker: WorkerView)
    requires
        state.next_generation < u64::MAX,
    ensures
        ({
            let after = state.worker_added(worker);
            let entry = after.entries[worker.url];
            &&& after.entries.dom().contains(worker.url)
            &&& knows_nothing(entry)
            &&& entry.source == worker.incarnation
            &&& entry.generation == state.next_generation
            &&& after.next_generation == state.next_generation + 1
            &&& after.config == state.config
            &&& same_elsewhere(after, state, worker.url)
            &&& worker.max_estimated_wait_secs is None ==> after.worker_overrides
                == state.worker_overrides
            &&& worker.max_estimated_wait_secs is Some ==> after.worker_overrides == if
                state.worker_overrides < usize::MAX {
                state.worker_overrides + 1
            } else {
                0
            }
        }),
        state.worker_added_metrics(worker) == if state.entries.dom().contains(worker.url) {
            seq![shown_flag(Gauge::DataUsable, worker.url, false)]
        } else {
            Seq::empty()
        },
{
    lemma_flag(Gauge::DataUsable, worker.url, false);
}

/// A removal takes the entry of this very worker and no other, and takes its own
/// budget from the count in any case.
pub proof fn law_removal(state: AdmissionView, worker: WorkerView)
    ensures
        ({
            let after = state.worker_removed(worker);
            &&& after.config == state.config
            &&& after.next_generation == state.next_generation
            &&& same_elsewhere(after, state, worker.url)
            &&& after.entries.dom().contains(worker.url) <==> state.entries.dom().contains(
                worker.url,
            ) && !has_own_entry(state, worker)
            &&& after.entries.dom().contains(worker.url) ==> after.entries[worker.url]
                == state.entries[worker.url]
            &&& worker.max_estimated_wait_secs is None ==> after.worker_overrides
                == state.worker_overrides
            &&& worker.max_estimated_wait_secs is Some ==> after.worker_overrides == if
                state.worker_overrides > 0 {
                state.worker_overrides - 1
            } else {
                usize::MAX as int
            }
        }),
        state.dropped_metrics(worker) == if has_own_entry(state, worker) {
            seq![shown_flag(Gauge::DataUsable, worker.url, false)]
        } else {
            Seq::empty()
        },
{
    lemma_flag(Gauge::DataUsable, worker.url, false);
}

/// An eviction forgets everything of this very worker but that the entry is its
/// own, and gives the entry a new generation.
pub proof fn law_eviction(state: AdmissionView, worker: WorkerView)
    requires
        has_own_entry(state, worker) ==> state.next_generation < u64::MAX,
    ensures
        ({
            let after = state.evicted(worker);
            &&& after.config == state.config
            &&& after.worker_overrides == state.worker_overrides
            &&& same_elsewhere(after, state, worker.url)
            &&& after.entries.dom().contains(worker.url) <==> state.entries.dom().contains(
                worker.url,
            )
            &&& if has_own_entry(state, worker) {
                let entry = after.entries[worker.url];
                &&& knows_nothing(entry)
                &&& entry.source == worker.incarnation
                &&& entry.generation == state.next_generation
                &&& after.next_generation == state.next_generation + 1
            } else {
                &&& after.entries[worker.url] == state.entries[worker.url]
                &&& after.next_generation == state.next_generation
            }
        }),
{
}

/// A reset forgets everything but whose the entries are, and gives each a
/// generation that is new and its own. What is recorded is that no worker's data
/// is usable.
pub proof fn law_reset(state: AdmissionView, urls: Seq<Seq<char>>)
    requires
        state.lists_urls(urls),
        state.next_generation + urls.len() <= u64::MAX,
    ensures
        forall|i: int, j: int|
            0 <= i < urls.len() && 0 <= j < urls.len() && i != j ==> urls[i] != urls[j],
        forall|i: int|
            0 <= i < urls.len() ==> state.entries.dom().contains(#[trigger] urls[i]),
        forall|url: Seq<char>| #[trigger]
            state.entries.dom().contains(url) ==> urls.contains(url),
        ({
            let after = state.cleared(urls);
            &&& after.config == state.config
            &&& after.worker_overrides == state.worker_overrides
            &&& after.next_generation == state.next_generation + urls.len()
            &&& after.entries.dom() == state.entries.dom()
            &&& forall|url: Seq<char>| #[trigger]
                state.entries.dom().contains(url) ==> {
                    &&& knows_nothing(after.entries[url])
                    &&& after.entries[url].source == state.entries[url].source
                    &&& state.next_generation <= after.entries[url].generation
                        < after.next_generation
                }
            &&& forall|a: Seq<char>, b: Seq<char>| #[trigger]
                state.entries.dom().contains(a) && #[trigger] state.entries.dom().contains(b) && a
                    != b ==> after.entries[a].generation != after.entries[b].generation
        }),
        crate::ledger::unusable_metrics(urls).len() == urls.len(),
        forall|i: int|
            0 <= i < urls.len() ==> #[trigger] crate::ledger::unusable_metrics(urls)[i]
                == shown_flag(Gauge::DataUsable, urls[i], false),
{
    let after = state.cleared(urls);
    state.lemma_cleared_well_formed(urls);
    assert forall|i: int| 0 <= i < urls.len() implies state.entries.dom().contains(
        #[trigger] urls[i],
    ) by {
        assert(urls.contains(urls[i]));
        assert(state.entries.contains_key(urls[i]));
    }
    assert forall|url: Seq<char>| #[trigger] state.entries.dom().contains(url) implies {
        &&& urls.contains(url)
        &&& 0 <= urls.index_of(url) < urls.len()
        &&& urls[urls.index_of(url)] == url
    } by {
        assert(state.entries.contains_key(url));
        assert(urls.contains(url));
    }
    assert(after.entries.dom() =~= state.entries.dom());
    assert forall|url: Seq<char>| #[trigger] state.entries.dom().contains(url) implies {
        &&& knows_nothing(after.entries[url])
        &&& after.entries[url].source == state.entries[url].source
        &&& state.next_generation <= after.entries[url].generation < after.next_generation
    } by {
        assert(after.entries.contains_key(url));
    }
    assert forall|i: int| 0 <= i < urls.len() implies #[trigger] crate::ledger::unusable_metrics(
        urls,
    )[i] == shown_flag(Gauge::DataUsable, urls[i], false) by {
        lemma_flag(Gauge::DataUsable, urls[i], false);
    }
}

/// A poll of a worker with a budget starts an entry if the URL has none and takes
/// what was dispatched to the worker and the generation of its entry. A worker
/// without a budget, or whose URL is another's, gets no watermark.
pub proof fn law_poll(state: AdmissionView, worker: WorkerView)
    requires
        wait_budget(state, worker) is Some && !state.entries.dom().contains(worker.url)
            ==> state.next_generation < u64::MAX,
    ensures
        ({
            let after = state.poll_started(worker);
            let known = state.entries.dom().contains(worker.url);
            let entry = after.entries[worker.url];
            &&& after.config == Some(in_force(state))
            &&& after.worker_overrides == state.worker_overrides
            &&& same_elsewhere(after, state, worker.url)
            &&& if wait_budget(state, worker) is Some && !known {
                &&& after.entries.dom().contains(worker.url)
                &&& knows_nothing(entry)
                &&& entry.source == worker.incarnation
                &&& entry.generation == state.next_generation
                &&& after.next_generation == state.next_generation + 1
            } else {
                &&& after.entries.dom().contains(worker.url) == known
                &&& entry == state.entries[worker.url]
                &&& after.next_generation == state.next_generation
            }
            &&& state.watermark(worker) == if wait_budget(state, worker) is Some && has_own_entry(
                after,
                worker,
            ) {
                Some(
                    Watermark { generation: entry.generation, dispatched: entry.total_dispatched },
                )
            } else {
                None
            }
        }),
{
}

/// Whether the result of a poll counts: the entry is still of the generation
/// that the poll saw, and no poll that began later was published.
pub open spec fn poll_counts(
    state: AdmissionView,
    url: Seq<char>,
    watermark: Watermark,
    started: Instant,
) -> bool {
    &&& state.entries.dom().contains(url)
    &&& state.entries[url].generation == watermark.generation
    &&& state.entries[url].last_published is Some
        ==> state.entries[url].last_published.unwrap().nanos
        <= started.nanos
}

/// What a poll that counts leaves behind: when it began, and the sample made of
/// its report if that can be used and the worker has a budget. The sample goes by
/// that budget, accounts for what was dispatched before the poll, and is judged
/// with what was dispatched since.
pub open spec fn entry_after_poll(
    entry: Entry,
    prepared: Option<PreparedWait>,
    budget: Option<Binary64>,
    watermark: Watermark,
    started: Instant,
) -> Entry {
    Entry {
        source: entry.source,
        generation: entry.generation,
        total_dispatched: entry.total_dispatched,
        last_published: Some(started),
        sample: if prepared is Some && budget is Some {
            Some(
                Sample {
                    prepared: prepared.unwrap(),
                    started,
                    watermark: watermark.dispatched,
                    threshold: budget.unwrap(),
                    overloaded: judged(
                        prepared.unwrap(),
                        budget.unwrap(),
                        beyond(entry.total_dispatched, watermark.dispatched),
                    ),
                },
            )
        } else {
            None
        },
    }
}

/// Whether `after` is the state after a poll of which this estimate was made: a
/// poll that counts replaces what was known of the worker by its result; one that
/// does not changes no entry; one without a watermark changes nothing.
pub open spec fn follows_poll(
    state: AdmissionView,
    after: AdmissionView,
    worker: WorkerView,
    prepared: Option<PreparedWait>,
    watermark: Option<Watermark>,
    started: Instant,
) -> bool {
    &&& watermark is None ==> after == state
    &&& watermark matches Some(mark) ==> {
        &&& after.config == Some(in_force(state))
        &&& after.worker_overrides == state.worker_overrides
        &&& after.next_generation == state.next_generation
        &&& after.entries.dom() == state.entries.dom()
        &&& same_elsewhere(after, state, worker.url)
        &&& after.entries[worker.url] == if poll_counts(state, worker.url, mark, started) {
            entry_after_poll(
                state.entries[worker.url],
                prepared,
                wait_budget(state, worker),
                mark,
                started,
            )
        } else {
            state.entries[worker.url]
        }
    }
}

/// What the publication of an estimate does.
pub proof fn law_publication_of_an_estimate(
    state: AdmissionView,
    worker: WorkerView,
    prepared: Option<PreparedWait>,
    watermark: Option<Watermark>,
    started: Instant,
)
    ensures
        follows_poll(
            state,
            state.published_estimate(worker, prepared, watermark, started),
            worker,
            prepared,
            watermark,
            started,
        ),
{
    if watermark is Some {
        let mark = watermark.unwrap();
        let after = state.published_estimate(worker, prepared, watermark, started);
        if poll_counts(state, worker.url, mark, started) {
            assert(state.entries.contains_key(worker.url));
            assert(state.accepts(worker.url, mark, started));
            if prepared is Some && wait_budget(state, worker) is Some {
                let total = state.entries[worker.url].total_dispatched;
                let wait = prepared.unwrap().estimate.wait(beyond(total, mark.dispatched));
                if wait.finite() {
                    lemma_reaches(wait, wait_budget(state, worker).unwrap());
                }
            }
        } else {
            assert(!state.accepts(worker.url, mark, started));
        }
        assert(after.entries.dom() =~= state.entries.dom());
    }
}

/// What the publication of a report does: that of the estimate that the
/// configuration in force makes of it. A failed poll has none.
pub proof fn law_publication_of_a_report(
    state: AdmissionView,
    worker: WorkerView,
    load: Option<LoadView>,
    watermark: Option<Watermark>,
    started: Instant,
)
    ensures
        follows_poll(
            state,
            state.published(worker, load, watermark, started),
            worker,
            match load {
                Some(load) => in_force(state).prepared(load),
                None => None,
            },
            watermark,
            started,
        ),
{
    let prepared = match load {
        Some(load) => in_force(state).prepared(load),
        None => None,
    };
    law_publication_of_an_estimate(state, worker, prepared, watermark, started);
}

/// Whether an entry's data may be used: it was judged, and its age is at most the
/// maximum.
pub open spec fn data_counts(entry: Entry, max_age: Binary64, now: Instant) -> bool {
    &&& entry.sample is Some
    &&& entry.sample.unwrap().overloaded is Some
    &&& if max_age.finite() {
        entry.sample.unwrap().started.age_at(now).units() <= max_age.signed_units()
    } else {
        max_age.infinite() && !max_age.negative()
    }
}

proof fn lemma_data_counts(entry: Entry, max_age: Binary64, now: Instant)
    ensures
        entry.data_usable(max_age, now) == data_counts(entry, max_age, now),
{
    if entry.sample is Some {
        let age = entry.sample.unwrap().started.age_at(now);
        crate::clock_laws::law_age_is_nanoseconds_over_a_billion(
            entry.sample.unwrap().started,
            now,
        );
        if max_age.finite() {
            lemma_reaches(max_age, age);
        }
    }
}

/// What is recorded when an entry is judged anew: its wait, its age and whether
/// its data may be used.
pub open spec fn shown_on_judging(
    entry: Entry,
    url: Seq<char>,
    max_age: Binary64,
    now: Instant,
) -> Seq<MetricView> {
    let usable = shown_flag(Gauge::DataUsable, url, data_counts(entry, max_age, now));
    if entry.sample is Some {
        let sample = entry.sample.unwrap();
        let added = beyond(entry.total_dispatched, sample.watermark);
        seq![
            shown(Gauge::Seconds, url, sample.prepared.estimate.wait(added)),
            shown(Gauge::SnapshotAgeSeconds, url, sample.started.age_at(now)),
            usable,
        ]
    } else {
        seq![usable]
    }
}

proof fn lemma_shown_on_judging(entry: Entry, url: Seq<char>, max_age: Binary64, now: Instant)
    ensures
        entry.refresh_metrics(url, max_age, now) == shown_on_judging(entry, url, max_age, now),
{
    lemma_data_counts(entry, max_age, now);
    lemma_flag(Gauge::DataUsable, url, entry.data_usable(max_age, now));
}

/// What is recorded of a sample: its budget, whether it rests on the proxy or on
/// the fallback, the prompt size or minus one, and the capacity.
pub open spec fn shown_of_sample(entry: Entry, url: Seq<char>) -> Seq<MetricView> {
    if entry.sample is Some {
        let sample = entry.sample.unwrap();
        seq![
            shown(Gauge::ThresholdSeconds, url, sample.threshold),
            shown_flag(Gauge::QueueProxy, url, sample.prepared.proxy),
            shown_flag(Gauge::ThroughputFallback, url, sample.prepared.fallback),
            shown(
                Gauge::BlendedPromptTokens,
                url,
                match sample.prepared.blended_prompt_size {
                    Some(size) => size,
                    None => Binary64 { bits: 0xbff0_0000_0000_0000 },
                },
            ),
            shown(
                Gauge::EffectivePrefillCapacity,
                url,
                sample.prepared.effective_prefill_capacity,
            ),
        ]
    } else {
        Seq::empty()
    }
}

proof fn lemma_minus_one()
    ensures
        Binary64::integer(-1).bits == 0xbff0_0000_0000_0000,
{
    crate::formula_laws::lemma_one();
    reveal(Binary64::integer);
    let (a, b) = (Binary64::integer(1), Binary64::integer(-1));
    crate::order::lemma_rounded_sign(false, 1 * pow2(1074), 1);
    crate::order::lemma_rounded_sign(true, 1 * pow2(1074), 1);
    assert(a.magnitude() == b.magnitude());
}

/// A poll that counts records its sample and its judgement, and one that does not
/// records nothing.
pub proof fn law_publication_records(
    state: AdmissionView,
    worker: WorkerView,
    load: Option<LoadView>,
    watermark: Option<Watermark>,
    started: Instant,
    now: Instant,
)
    ensures
        ({
            let entry = state.published(worker, load, watermark, started).entries[worker.url];
            let max_age = in_force(state).estimated_wait_max_snapshot_age_secs;
            state.published_metrics(worker, load, watermark, started, now) == if watermark is Some
                && poll_counts(state, worker.url, watermark.unwrap(), started) {
                shown_of_sample(entry, worker.url) + shown_on_judging(
                    entry,
                    worker.url,
                    max_age,
                    now,
                )
            } else {
                Seq::empty()
            }
        }),
{
    let entry = state.published(worker, load, watermark, started).entries[worker.url];
    let max_age = in_force(state).estimated_wait_max_snapshot_age_secs;
    if watermark is Some {
        let mark = watermark.unwrap();
        assert(state.accepts(worker.url, mark, started) == poll_counts(
            state,
            worker.url,
            mark,
            started,
        )) by {
            assert(state.entries.contains_key(worker.url) == state.entries.dom().contains(
                worker.url,
            ));
        }
    }
    lemma_shown_on_judging(entry, worker.url, max_age, now);
    lemma_minus_one();
    if entry.sample is Some {
        lemma_flag(Gauge::QueueProxy, worker.url, entry.sample.unwrap().prepared.proxy);
        lemma_flag(Gauge::ThroughputFallback, worker.url, entry.sample.unwrap().prepared.fallback);
    }
    assert(entry.sample_metrics(worker.url) =~= shown_of_sample(entry, worker.url));
}

/// The tokens that a selection counts for: those of the request where they are
/// known, and else the configured mean.
pub open spec fn tokens_dispatched(state: AdmissionView, tokens: Option<Seq<u32>>) -> nat {
    match tokens {
        Some(tokens) => tokens.len(),
        None => in_force(state).estimated_wait_mean_prefill_tokens as nat,
    }
}

/// A credit raises the count of a worker with a budget by the tokens dispatched,
/// up to the largest count, judges its sample anew, and leaves the rest of the
/// entry as it is. It starts an entry if the URL has none. A worker without a
/// budget, or whose URL is another's, is not credited.
pub proof fn law_credit(state: AdmissionView, worker: WorkerView, tokens: Option<Seq<u32>>)
    requires
        wait_budget(state, worker) is Some && !state.entries.dom().contains(worker.url)
            ==> state.next_generation < u64::MAX,
        tokens matches Some(tokens) ==> tokens.len() <= u64::MAX,
    ensures
        ({
            let after = state.credited(worker, tokens);
            let known = state.entries.dom().contains(worker.url);
            let entry = after.entries[worker.url];
            let count = tokens_dispatched(state, tokens);
            &&& after.config == state.config
            &&& after.worker_overrides == state.worker_overrides
            &&& same_elsewhere(after, state, worker.url)
            &&& if wait_budget(state, worker) is Some && !known {
                &&& after.entries.dom().contains(worker.url)
                &&& entry.source == worker.incarnation
                &&& entry.generation == state.next_generation
                &&& entry.total_dispatched == count
                &&& entry.last_published is None
                &&& entry.sample is None
                &&& after.next_generation == state.next_generation + 1
            } else if wait_budget(state, worker) is Some && has_own_entry(state, worker) {
                let before = state.entries[worker.url];
                let total = before.total_dispatched + count;
                &&& after.entries.dom().contains(worker.url)
                &&& entry.total_dispatched == if total <= u64::MAX {
                    total
                } else {
                    u64::MAX as int
                }
                &&& entry.source == before.source
                &&& entry.generation == before.generation
                &&& entry.last_published == before.last_published
                &&& entry.sample == match before.sample {
                    Some(sample) => Some(
                        Sample {
                            prepared: sample.prepared,
                            started: sample.started,
                            watermark: sample.watermark,
                            threshold: sample.threshold,
                            overloaded: judged(
                                sample.prepared,
                                sample.threshold,
                                beyond(entry.total_dispatched, sample.watermark),
                            ),
                        },
                    ),
                    None => None,
                }
                &&& after.next_generation == state.next_generation
            } else {
                &&& after.entries == state.entries
                &&& after.next_generation == state.next_generation
            }
        }),
{
    let after = state.credited(worker, tokens);
    assert(state.entries.contains_key(worker.url) == state.entries.dom().contains(worker.url));
    if wait_budget(state, worker) is Some && has_own_entry(state, worker) {
        let before = state.entries[worker.url];
        let entry = after.entries[worker.url];
        if before.sample is Some {
            let sample = before.sample.unwrap();
            let added = beyond(entry.total_dispatched, sample.watermark);
            let wait = sample.prepared.estimate.wait(added);
            if wait.finite() {
                lemma_reaches(wait, sample.threshold);
            }
        }
    }
}

/// Which field of the configuration a credit without tokens goes by: two
/// configurations with the same mean credit the same, whatever else they say.
pub proof fn law_credit_goes_by_the_mean_alone(
    state: AdmissionView,
    config: EstimatedWaitConfig,
    other: EstimatedWaitConfig,
    worker: WorkerView,
    tokens: Option<Seq<u32>>,
)
    requires
        state.config == Some(config),
        config.estimated_wait_mean_prefill_tokens == other.estimated_wait_mean_prefill_tokens,
        config.max_estimated_wait_secs == other.max_estimated_wait_secs,
    ensures
        state.credited(worker, tokens).entries == (AdmissionView {
            config: Some(other),
            ..state
        }).credited(worker, tokens).entries,
{
}

/// A credit records the judgement of the worker's entry; where no entry is
/// credited nothing is recorded.
pub proof fn law_credit_records(
    state: AdmissionView,
    worker: WorkerView,
    tokens: Option<Seq<u32>>,
    now: Instant,
)
    ensures
        ({
            let after = state.credited(worker, tokens);
            let max_age = in_force(state).estimated_wait_max_snapshot_age_secs;
            state.credited_metrics(worker, tokens, now) == if wait_budget(state, worker) is Some
                && has_own_entry(after, worker) {
                shown_on_judging(after.entries[worker.url], worker.url, max_age, now)
            } else {
                Seq::empty()
            }
        }),
{
    let after = state.credited(worker, tokens);
    let max_age = in_force(state).estimated_wait_max_snapshot_age_secs;
    lemma_shown_on_judging(after.entries[worker.url], worker.url, max_age, now);
    assert(after.entries.contains_key(worker.url) == after.entries.dom().contains(worker.url));
}

/// What a latched judgement amounts to.
pub open spec fn verdict_of(overloaded: Option<bool>) -> Verdict {
    match overloaded {
        Some(true) => Verdict::AtBudget,
        Some(false) => Verdict::BelowBudget,
        None => Verdict::Unknown(UnknownReason::Unusable),
    }
}

/// What is known of a worker that has no usable sample: without a budget it is
/// unprotected, after a poll its data is unusable, and else it is missing.
pub proof fn law_verdict_without_sample(state: AdmissionView, worker: WorkerView, now: Instant)
    ensures
        wait_budget(state, worker) is None ==> state.verdict(worker, now) == Verdict::Unprotected,
        wait_budget(state, worker) is Some && !has_own_entry(state, worker) ==> state.verdict(
            worker,
            now,
        ) == Verdict::Unknown(UnknownReason::Missing),
        wait_budget(state, worker) is Some && has_own_entry(state, worker)
            && state.entries[worker.url].sample is None ==> state.verdict(worker, now)
            == Verdict::Unknown(
            if state.entries[worker.url].last_published is Some {
                UnknownReason::Unusable
            } else {
                UnknownReason::Missing
            },
        ),
{
    assert(state.entries.contains_key(worker.url) == state.entries.dom().contains(worker.url));
}

/// A sample is stale once more time has passed since its poll began than the
/// configured maximum age, and is believed until then. Time is taken in
/// nanoseconds and compared up to the rounding of the age, which is three parts
/// in `2^53`, and exactly for whole seconds. A maximum that is not a number makes
/// nothing stale.
pub proof fn law_verdict_goes_by_the_maximum_age(
    state: AdmissionView,
    worker: WorkerView,
    now: Instant,
)
    requires
        wait_budget(state, worker) is Some,
        has_own_entry(state, worker),
        state.entries[worker.url].sample is Some,
    ensures
        ({
            let sample = state.entries[worker.url].sample.unwrap();
            let max_age = in_force(state).estimated_wait_max_snapshot_age_secs;
            let passed = crate::clock_laws::nanos_between(sample.started, now) * pow2(1074);
            let limit = max_age.signed_units() * 1_000_000_000;
            let stale = Verdict::Unknown(UnknownReason::Stale);
            let believed = verdict_of(sample.overloaded);
            let verdict = state.verdict(worker, now);
            &&& verdict == stale || verdict == believed
            &&& max_age.finite() && crate::order::parts(passed - limit) > 3 * passed ==> verdict
                == stale
            &&& max_age.finite() && crate::order::parts(limit - passed) >= 3 * passed ==> verdict
                == believed
            &&& max_age.finite() && crate::clock_laws::nanos_between(sample.started, now)
                % 1_000_000_000 == 0 ==> verdict == if passed > limit {
                stale
            } else {
                believed
            }
            &&& max_age.finite() ==> verdict == if sample.started.age_at(now).units()
                > max_age.signed_units() {
                stale
            } else {
                believed
            }
            &&& max_age.nan() || (max_age.infinite() && !max_age.negative()) ==> verdict == believed
            &&& max_age.infinite() && max_age.negative() ==> verdict == stale
        }),
{
    let sample = state.entries[worker.url].sample.unwrap();
    let max_age = in_force(state).estimated_wait_max_snapshot_age_secs;
    let age = sample.started.age_at(now);
    assert(state.entries.contains_key(worker.url));
    crate::clock_laws::law_age_is_nanoseconds_over_a_billion(sample.started, now);
    if max_age.finite() {
        crate::order::lemma_order_is_units(max_age, age);
    }
}

/// A pool is refused just if enforcement is on, some candidate is available, and
/// every available candidate is at its budget.
pub proof fn law_pool_is_refused_only_when_all_are_at_budget(
    state: AdmissionView,
    candidates: Seq<WorkerView>,
    now: Instant,
)
    ensures
        state.rejects(candidates, now) <==> {
            &&& !in_force(state).estimated_wait_shadow
            &&& exists|i: int| 0 <= i < candidates.len() && (#[trigger] candidates[i]).available
            &&& forall|i: int|
                0 <= i < candidates.len() && (#[trigger] candidates[i]).available
                    ==> state.verdict(candidates[i], now) == Verdict::AtBudget
        },
{
}

/// A pool check records the first available worker that is not at its budget if
/// that one is unknown, and nothing if it is unprotected or below its budget.
pub proof fn law_pool_check_records_the_first_unknown(
    state: AdmissionView,
    candidates: Seq<WorkerView>,
    i: int,
    model: Seq<char>,
    now: Instant,
)
    requires
        0 <= i < candidates.len(),
        candidates[i].available,
        state.verdict(candidates[i], now) != Verdict::AtBudget,
        forall|j: int|
            0 <= j < i && (#[trigger] candidates[j]).available ==> state.verdict(candidates[j], now)
                == Verdict::AtBudget,
    ensures
        state.cohort_metrics(candidates, model, now) == match state.verdict(candidates[i], now) {
            Verdict::Unknown(reason) => seq![
                MetricView::Count { counter: Counter::Unknown(reason), model },
                shown_flag(Gauge::DataUsable, candidates[i].url, false),
            ],
            _ => Seq::empty(),
        },
{
    assert(state.first_permissive(candidates, i, now));
    let k = choose|k: int| #[trigger] state.first_permissive(candidates, k, now);
    state.lemma_first_permissive_unique(candidates, i, k, now);
    lemma_flag(Gauge::DataUsable, candidates[i].url, false);
}

/// A pool check that finds every available worker at its budget records that in
/// shadow mode, if there is such a worker, and nothing otherwise.
pub proof fn law_pool_check_records_saturation_in_shadow_mode(
    state: AdmissionView,
    candidates: Seq<WorkerView>,
    model: Seq<char>,
    now: Instant,
)
    requires
        forall|i: int|
            0 <= i < candidates.len() && (#[trigger] candidates[i]).available ==> state.verdict(
                candidates[i],
                now,
            ) == Verdict::AtBudget,
    ensures
        ({
            let eligible = exists|i: int|
                0 <= i < candidates.len() && (#[trigger] candidates[i]).available;
            state.cohort_metrics(candidates, model, now) == if eligible && in_force(
                state,
            ).estimated_wait_shadow {
                seq![MetricView::Count { counter: Counter::ShadowRejections, model }]
            } else {
                Seq::empty()
            }
        }),
{
    assert forall|i: int| !#[trigger] state.first_permissive(candidates, i, now) by {
        if state.first_permissive(candidates, i, now) {
            assert(candidates[i].available);
        }
    }
}

/// A check that refuses records just the rejection, and one that admits what the
/// probe records; a probe that would refuse records nothing.
pub proof fn law_check_records(
    state: AdmissionView,
    candidates: Seq<WorkerView>,
    model: Seq<char>,
    now: Instant,
)
    ensures
        state.rejects(candidates, now) ==> state.check_metrics(candidates, model, now) == seq![
            MetricView::Count { counter: Counter::Rejections, model },
        ],
        !state.rejects(candidates, now) ==> state.check_metrics(candidates, model, now)
            == state.cohort_metrics(candidates, model, now),
        state.rejects(candidates, now) ==> state.probe_metrics(candidates, model, now)
            == Seq::<MetricView>::empty(),
        !state.rejects(candidates, now) ==> state.probe_metrics(candidates, model, now)
            == state.cohort_metrics(candidates, model, now),
{
}

/// A refused request is answered with 503, the overload code and the model, is
/// not tried again, and may be repeated after the polling interval, which counts
/// as at least one second.
pub proof fn law_refusal_is_answered(model: Seq<char>, poll_interval_secs: u64)
    ensures
        ({
            let answer: ShedView = crate::admission::shed_view(model, poll_interval_secs);
            &&& answer.status == 503
            &&& answer.error_code == "worker_overload_protection_shed"@
            &&& answer.model == model
            &&& !answer.retryable
            &&& answer.retry_after_secs >= 1
            &&& poll_interval_secs >= 1 ==> answer.retry_after_secs == poll_interval_secs
            &&& poll_interval_secs == 0 ==> answer.retry_after_secs == 1
        }),
{
}

/// What the guard sees of workers and reports is all that they hold.
pub proof fn law_views_hold_every_field(workers: Seq<Worker>, load: WorkerLoadResponse)
    ensures
        crate::admission::worker_views(workers).len() == workers.len(),
        forall|i: int|
            0 <= i < workers.len() ==> {
                let seen = #[trigger] crate::admission::worker_views(workers)[i];
                &&& seen.url == workers[i].url@
                &&& seen.incarnation == workers[i].incarnation
                &&& seen.available == workers[i].available
                &&& seen.max_estimated_wait_secs == workers[i].max_estimated_wait_secs
            },
        load@.ranks == load.loads@,
        load@.dp_rank_count == load.dp_rank_count,
{
}

/// What is optional is seen if it is there.
pub proof fn law_views_of_options(
    load: &WorkerLoadResponse,
    tokens: &[u32],
    watermark: PollWatermark,
)
    ensures
        crate::admission::load_view(Some(load)) == Some(load@),
        crate::admission::load_view(None) is None,
        crate::admission::token_view(Some(tokens)) == Some(tokens@),
        crate::admission::token_view(None) is None,
        crate::admission::watermark_view(Some(watermark)) == Some(watermark@),
        crate::admission::watermark_view(None) is None,
{
}

/// What answers and errors say is all that they hold.
pub proof fn law_views_of_answers(shed: ShedResponse, error: ConfigError)
    ensures
        shed@.status == shed.status,
        shed@.error_code == shed.error_code@,
        shed@.model == shed.model@,
        shed@.retry_after_secs == shed.retry_after_secs,
        shed@.retryable == shed.retryable,
        error matches ConfigError::InvalidValue { field, value, reason } ==> error@.field == field@
            && error@.value == value && error@.reason == reason@,
{
}

/// What is recorded names its gauge or counter, its worker or model, and its
/// value.
pub proof fn law_records_say_what_happened(
    gauge: Gauge,
    counter: Counter,
    label: Seq<char>,
    value: Binary64,
    on: bool,
)
    ensures
        crate::metric::gauge(gauge, label, value) == shown(gauge, label, value),
        crate::metric::flag(gauge, label, on) == shown_flag(gauge, label, on),
        crate::metric::increment(counter, label) == (MetricView::Count { counter, model: label }),
{
    lemma_flag(gauge, label, on);
}

/// A budget of a worker's own comes before the configured one.
pub proof fn law_own_budget_comes_first(config: EstimatedWaitConfig, own: Binary64)
    ensures
        config.budget(Some(own)) == Some(own),
        config.budget(None) == config.max_estimated_wait_secs,
{
}

/// A rank cannot tell its tokens just if it says so, and can be used just if its
/// counts are not negative and its usage is finite.
pub proof fn law_ranks_are_taken_at_their_word(rank: SchedulerLoadSnapshot)
    ensures
        rank.tokens_unavailable() <==> rank.num_waiting_uncached_tokens_available == Some(false),
        rank.well_formed() <==> rank.num_waiting_reqs >= 0 && rank.num_waiting_uncached_tokens >= 0
            && rank.token_usage.finite(),
{
}

} // verus!
