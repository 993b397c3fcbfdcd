//! What holds of the ledger, over one operation and over any number of them.

use vstd::prelude::*;
use vstd::multiset::Multiset;
use crate::binary64::Binary64;
use crate::clock::Instant;
use crate::config::EstimatedWaitConfig;
use crate::ledger::{AdmissionView, Sample, Verdict, Watermark};
use crate::load::LoadView;
use crate::metric::{Counter, MetricView, UnknownReason};
use crate::worker::WorkerView;

verus! {

/// An operation on the ledger.
pub enum Op {
    Configure { config: EstimatedWaitConfig },
    /// The configuration is read: a request begins, or a worker's need is asked.
    Settle,
    Add { worker: WorkerView },
    Remove { worker: WorkerView },
    Poll { worker: WorkerView },
    Publish {
        worker: WorkerView,
        load: Option<LoadView>,
        watermark: Option<Watermark>,
        started: Instant,
    },
    Evict { worker: WorkerView },
    /// Everything is forgotten, in the order in which the URLs are listed.
    Clear { urls: Seq<Seq<char>> },
    Credit { worker: WorkerView, tokens: Option<Seq<u32>> },
}

/// The state after an operation.
pub open spec fn apply(state: AdmissionView, op: Op) -> AdmissionView {
    match op {
        Op::Configure { config } => state.configured(config),
        Op::Settle => state.settled(),
        Op::Add { worker } => state.worker_added(worker),
        Op::Remove { worker } => state.worker_removed(worker),
        Op::Poll { worker } => state.poll_started(worker),
        Op::Publish { worker, load, watermark, started } => state.published(
            worker,
            load,
            watermark,
            started,
        ),
        Op::Evict { worker } => state.evicted(worker),
        Op::Clear { urls } => state.cleared(urls),
        Op::Credit { worker, tokens } => state.credited(worker, tokens),
    }
}

/// The state after operations, in turn.
pub open spec fn run(state: AdmissionView, ops: Seq<Op>) -> AdmissionView
    decreases ops.len(),
{
    if ops.len() == 0 {
        state
    } else {
        apply(run(state, ops.drop_last()), ops.last())
    }
}

/// Whether an operation can be performed: the generations that it issues are
/// there, and a reset lists the URLs that have an entry.
pub open spec fn allowed(state: AdmissionView, op: Op) -> bool {
    match op {
        Op::Add { .. } => state.has_generation(),
        Op::Poll { worker } => state.starts_entry(worker) ==> state.has_generation(),
        Op::Evict { worker } => state.owns(worker) ==> state.has_generation(),
        Op::Clear { urls } => state.lists_urls(urls) && state.has_generation_per_entry(),
        Op::Credit { worker, .. } => state.starts_entry(worker) ==> state.has_generation(),
        _ => true,
    }
}

/// Whether operations can be performed in turn.
pub open spec fn all_allowed(state: AdmissionView, ops: Seq<Op>) -> bool
    decreases ops.len(),
{
    ops.len() > 0 ==> all_allowed(state, ops.drop_last()) && allowed(
        run(state, ops.drop_last()),
        ops.last(),
    )
}

/// An operation issues no generation that was issued before.
proof fn lemma_apply(state: AdmissionView, op: Op)
    requires
        state.well_formed(),
        allowed(state, op),
    ensures
        apply(state, op).well_formed(),
        state.next_generation <= apply(state, op).next_generation,
        forall|url: Seq<char>| #[trigger]
            apply(state, op).entries.contains_key(url) ==> {
                ||| state.next_generation <= apply(state, op).entries[url].generation
                ||| state.entries.contains_key(url) && apply(state, op).entries[url].generation
                    == state.entries[url].generation
            },
{
    match op {
        Op::Clear { urls } => {
            state.lemma_listed_count(urls);
            state.lemma_cleared_well_formed(urls);
        },
        _ => {},
    }
}

/// Every operation keeps the ledger well-formed: no generation is issued twice,
/// and no two entries have the same.
pub proof fn law_operations_keep_the_ledger_well_formed(state: AdmissionView, ops: Seq<Op>)
    requires
        state.well_formed(),
        all_allowed(state, ops),
    ensures
        run(state, ops).well_formed(),
        state.next_generation <= run(state, ops).next_generation,
    decreases ops.len(),
{
    if ops.len() > 0 {
        law_operations_keep_the_ledger_well_formed(state, ops.drop_last());
        lemma_apply(run(state, ops.drop_last()), ops.last());
    }
}

/// Whether the verdict of every sample is that of its present wait.
pub open spec fn verdicts_current(state: AdmissionView) -> bool {
    forall|url: Seq<char>| #[trigger]
        state.entries.contains_key(url) ==> state.entries[url] == state.entries[url].refreshed()
}

/// Every operation keeps the verdicts current, so a check that only reads them
/// judges by the present waits.
pub proof fn law_operations_keep_verdicts_current(state: AdmissionView, ops: Seq<Op>)
    requires
        verdicts_current(state),
    ensures
        verdicts_current(run(state, ops)),
    decreases ops.len(),
{
    if ops.len() > 0 {
        law_operations_keep_verdicts_current(state, ops.drop_last());
    }
}

/// The wait of a worker that a check can rely on: that of its fresh sample.
pub open spec fn known_wait(state: AdmissionView, worker: WorkerView, now: Instant) -> Option<
    Binary64,
> {
    if state.owns(worker) {
        match state.entries[worker.url].sample {
            Some(sample) => {
                let wait = sample.wait(state.entries[worker.url].total_dispatched);
                if !sample.stale(
                    state.effective_config().estimated_wait_max_snapshot_age_secs,
                    now,
                ) && wait.finite() {
                    Some(wait)
                } else {
                    None
                }
            },
            None => None,
        }
    } else {
        None
    }
}

/// Whatever happened since the start, a pool is saturated just if it has an
/// eligible worker and each eligible worker has a budget and a known wait at or
/// above the budget of its sample.
pub proof fn law_saturation_is_universal(
    ops: Seq<Op>,
    candidates: Seq<WorkerView>,
    now: Instant,
)
    ensures
        ({
            let state = run(AdmissionView::empty(), ops);
            state.saturated(candidates, now) <==> {
                &&& exists|i: int| 0 <= i < candidates.len() && (#[trigger] candidates[i]).available
                &&& forall|i: int|
                    0 <= i < candidates.len() && (#[trigger] candidates[i]).available ==> {
                        &&& state.budget(candidates[i]) is Some
                        &&& known_wait(state, candidates[i], now) matches Some(wait)
                        &&& state.entries[candidates[i].url].sample.unwrap().threshold.at_most(wait)
                    }
            }
        }),
{
    let state = run(AdmissionView::empty(), ops);
    law_operations_keep_verdicts_current(AdmissionView::empty(), ops);
    assert forall|worker: WorkerView|
        #![trigger state.verdict(worker, now)]
        state.verdict(worker, now) == Verdict::AtBudget <==> {
            &&& state.budget(worker) is Some
            &&& known_wait(state, worker, now) matches Some(wait)
            &&& state.entries[worker.url].sample.unwrap().threshold.at_most(wait)
        } by {
        if state.owns(worker) {
            assert(state.entries[worker.url] == state.entries[worker.url].refreshed());
        }
    }
}

/// A configuration, once set or read, stays.
pub proof fn law_configuration_is_fixed_once(state: AdmissionView, ops: Seq<Op>)
    requires
        state.config is Some,
    ensures
        run(state, ops).config == state.config,
    decreases ops.len(),
{
    if ops.len() > 0 {
        law_configuration_is_fixed_once(state, ops.drop_last());
    }
}

/// To publish the estimate that the configuration made of a report is to
/// publish the report, whatever happened since the configuration was read.
pub proof fn law_published_estimate_is_published_report(
    start: AdmissionView,
    config: EstimatedWaitConfig,
    ops: Seq<Op>,
    worker: WorkerView,
    load: Option<LoadView>,
    watermark: Option<Watermark>,
    started: Instant,
    now: Instant,
)
    requires
        start.config == Some(config),
    ensures
        ({
            let state = run(start, ops);
            let prepared = match load {
                Some(load) => config.prepared(load),
                None => None,
            };
            &&& state.published_estimate(worker, prepared, watermark, started) == state.published(
                worker,
                load,
                watermark,
                started,
            )
            &&& state.published_estimate_metrics(worker, prepared, watermark, started, now)
                == state.published_metrics(worker, load, watermark, started, now)
        }),
{
    law_configuration_is_fixed_once(start, ops);
}

/// A watermark that no entry of the URL matches any more, and none will.
pub open spec fn fenced(state: AdmissionView, url: Seq<char>, watermark: Watermark) -> bool {
    &&& watermark.generation < state.next_generation
    &&& state.entries.contains_key(url) ==> state.entries[url].generation != watermark.generation
}

/// A fenced watermark stays fenced, whatever happens.
pub proof fn law_fences_hold_forever(
    state: AdmissionView,
    url: Seq<char>,
    watermark: Watermark,
    ops: Seq<Op>,
)
    requires
        state.well_formed(),
        fenced(state, url, watermark),
        all_allowed(state, ops),
    ensures
        fenced(run(state, ops), url, watermark),
    decreases ops.len(),
{
    if ops.len() > 0 {
        let before = run(state, ops.drop_last());
        law_fences_hold_forever(state, url, watermark, ops.drop_last());
        law_operations_keep_the_ledger_well_formed(state, ops.drop_last());
        lemma_apply(before, ops.last());
    }
}

/// The result of a poll that is fenced off changes no entry and records nothing.
pub proof fn law_fenced_poll_is_ignored(
    state: AdmissionView,
    worker: WorkerView,
    load: Option<LoadView>,
    watermark: Watermark,
    started: Instant,
    now: Instant,
)
    requires
        fenced(state, worker.url, watermark),
    ensures
        state.published(worker, load, Some(watermark), started).entries == state.entries,
        state.published_metrics(worker, load, Some(watermark), started, now)
            == Seq::<MetricView>::empty(),
{
}

/// Whether an operation forgets what is known of the worker at a URL.
pub open spec fn forgets(state: AdmissionView, op: Op, url: Seq<char>) -> bool {
    match op {
        Op::Add { worker } => worker.url == url,
        Op::Remove { worker } => worker.url == url && state.owns(worker),
        Op::Evict { worker } => worker.url == url && state.owns(worker),
        Op::Clear { .. } => true,
        _ => false,
    }
}

/// A poll that began before its worker was evicted, reset, replaced or removed
/// cannot bring back what was forgotten, nor overwrite what came after, however
/// late its result arrives.
pub proof fn law_late_poll_cannot_resurrect(
    start: AdmissionView,
    polled: WorkerView,
    watermark: Watermark,
    during: Seq<Op>,
    forgetting: Op,
    after: Seq<Op>,
    reporter: WorkerView,
    load: Option<LoadView>,
    started: Instant,
)
    requires
        start.well_formed(),
        start.watermark(polled) == Some(watermark),
        allowed(start, Op::Poll { worker: polled }),
        all_allowed(start.poll_started(polled), during),
        allowed(run(start.poll_started(polled), during), forgetting),
        all_allowed(apply(run(start.poll_started(polled), during), forgetting), after),
        forgets(run(start.poll_started(polled), during), forgetting, polled.url),
        reporter.url == polled.url,
    ensures
        ({
            let forgotten = apply(run(start.poll_started(polled), during), forgetting);
            let state = run(forgotten, after);
            state.published(reporter, load, Some(watermark), started).entries == state.entries
        }),
{
    let polling = start.poll_started(polled);
    lemma_apply(start, Op::Poll { worker: polled });
    assert(apply(start, Op::Poll { worker: polled }) == polling);
    assert(watermark.generation < polling.next_generation);
    law_operations_keep_the_ledger_well_formed(polling, during);
    let before = run(polling, during);
    lemma_apply(before, forgetting);
    let forgotten = apply(before, forgetting);
    match forgetting {
        Op::Clear { urls } => {
            before.lemma_listed_count(urls);
            before.lemma_cleared_well_formed(urls);
        },
        _ => {},
    }
    assert(fenced(forgotten, polled.url, watermark));
    law_fences_hold_forever(forgotten, polled.url, watermark, after);
    law_fenced_poll_is_ignored(
        run(forgotten, after),
        reporter,
        load,
        watermark,
        started,
        started,
    );
}

/// A watermark is good at the URL that it was taken for and at no other,
/// whatever happens in between.
pub proof fn law_watermark_is_of_one_url(
    start: AdmissionView,
    polled: WorkerView,
    watermark: Watermark,
    ops: Seq<Op>,
    other: WorkerView,
    load: Option<LoadView>,
    started: Instant,
)
    requires
        start.well_formed(),
        start.watermark(polled) == Some(watermark),
        allowed(start, Op::Poll { worker: polled }),
        all_allowed(start.poll_started(polled), ops),
        other.url != polled.url,
    ensures
        ({
            let state = run(start.poll_started(polled), ops);
            state.published(other, load, Some(watermark), started).entries == state.entries
        }),
{
    let polling = start.poll_started(polled);
    lemma_apply(start, Op::Poll { worker: polled });
    assert(apply(start, Op::Poll { worker: polled }) == polling);
    assert(polling.entries.contains_key(polled.url));
    assert(fenced(polling, other.url, watermark));
    law_fences_hold_forever(polling, other.url, watermark, ops);
    law_fenced_poll_is_ignored(run(polling, ops), other, load, watermark, started, started);
}

/// After a poll that began at `started` was published, successful or not, one
/// that began earlier changes nothing.
pub proof fn law_later_poll_fences_earlier_one(
    state: AdmissionView,
    worker: WorkerView,
    load: Option<LoadView>,
    watermark: Watermark,
    started: Instant,
    older_load: Option<LoadView>,
    older_watermark: Watermark,
    older: Instant,
)
    requires
        state.accepts(worker.url, watermark, started),
        older.nanos < started.nanos,
    ensures
        ({
            let published = state.published(worker, load, Some(watermark), started);
            published.published(worker, older_load, Some(older_watermark), older).entries
                == published.entries
        }),
{
}

/// A failed poll invalidates the sample before it: the worker is unknown until
/// a later poll succeeds.
pub proof fn law_failed_poll_makes_worker_unknown(
    state: AdmissionView,
    worker: WorkerView,
    watermark: Watermark,
    started: Instant,
    now: Instant,
)
    requires
        state.accepts(worker.url, watermark, started),
        state.owns(worker),
        state.budget(worker) is Some,
    ensures
        state.published(worker, None, Some(watermark), started).verdict(worker, now)
            == Verdict::Unknown(UnknownReason::Unusable),
{
}

/// What is forgotten of a worker makes it unknown.
pub proof fn law_forgotten_worker_is_unknown(
    state: AdmissionView,
    worker: WorkerView,
    urls: Seq<Seq<char>>,
    now: Instant,
)
    requires
        state.owns(worker),
        state.budget(worker) is Some,
    ensures
        state.evicted(worker).verdict(worker, now) == Verdict::Unknown(UnknownReason::Missing),
        state.cleared(urls).verdict(worker, now) == Verdict::Unknown(UnknownReason::Missing),
        state.worker_removed(worker).verdict(worker, now) == Verdict::Unknown(
            UnknownReason::Missing,
        ),
        state.worker_added(worker).verdict(worker, now) == Verdict::Unknown(
            UnknownReason::Missing,
        ),
{
}

/// A sample that is too old is not used, whatever its verdict was.
pub proof fn law_stale_sample_is_not_used(state: AdmissionView, worker: WorkerView, now: Instant)
    requires
        state.owns(worker),
        state.budget(worker) is Some,
        state.entries[worker.url].sample matches Some(sample) && sample.stale(
            state.effective_config().estimated_wait_max_snapshot_age_secs,
            now,
        ),
    ensures
        state.verdict(worker, now) == Verdict::Unknown(UnknownReason::Stale),
{
}

/// One eligible worker that is unprotected, unknown or below its budget admits
/// the pool.
pub proof fn law_one_permissive_worker_admits(
    state: AdmissionView,
    candidates: Seq<WorkerView>,
    i: int,
    now: Instant,
)
    requires
        0 <= i < candidates.len(),
        candidates[i].available,
        state.verdict(candidates[i], now) != Verdict::AtBudget,
    ensures
        !state.saturated(candidates, now),
        !state.rejects(candidates, now),
{
}

/// A pool without an eligible worker is not refused, and nothing is recorded.
pub proof fn law_empty_pool_is_admitted(
    state: AdmissionView,
    candidates: Seq<WorkerView>,
    model: Seq<char>,
    now: Instant,
)
    requires
        forall|i: int| 0 <= i < candidates.len() ==> !(#[trigger] candidates[i]).available,
    ensures
        !state.rejects(candidates, now),
        state.cohort_metrics(candidates, model, now) == Seq::<MetricView>::empty(),
{
    assert forall|i: int| !#[trigger] state.first_permissive(candidates, i, now) by {
        if state.first_permissive(candidates, i, now) {
            assert(candidates[i].available);
        }
    }
}

/// A pool is saturated just if it has an eligible worker and its check stops
/// nowhere.
pub proof fn law_saturated_pool_has_no_permissive_worker(
    state: AdmissionView,
    candidates: Seq<WorkerView>,
    now: Instant,
)
    ensures
        state.saturated(candidates, now) <==> {
            &&& exists|i: int| 0 <= i < candidates.len() && (#[trigger] candidates[i]).available
            &&& forall|i: int| !#[trigger] state.first_permissive(candidates, i, now)
        },
{
    if forall|i: int| !#[trigger] state.first_permissive(candidates, i, now) {
        assert forall|i: int|
            0 <= i < candidates.len() && (
            #[trigger] candidates[i]).available implies state.verdict(candidates[i], now)
            == Verdict::AtBudget by {
            lemma_no_permissive(state, candidates, i, now);
        }
    } else {
        let i = choose|i: int| #[trigger] state.first_permissive(candidates, i, now);
        assert(candidates[i].available);
    }
}

proof fn lemma_no_permissive(
    state: AdmissionView,
    candidates: Seq<WorkerView>,
    i: int,
    now: Instant,
)
    requires
        forall|j: int| !#[trigger] state.first_permissive(candidates, j, now),
        0 <= i < candidates.len(),
        candidates[i].available,
    ensures
        state.verdict(candidates[i], now) == Verdict::AtBudget,
    decreases i,
{
    assert forall|j: int| 0 <= j < i && (#[trigger] candidates[j]).available implies state.verdict(
        candidates[j],
        now,
    ) == Verdict::AtBudget by {
        lemma_no_permissive(state, candidates, j, now);
    }
    assert(!state.first_permissive(candidates, i, now));
}

/// Shadow mode refuses nothing; it judges as enforcement would, and counts the
/// pools that enforcement would refuse.
pub proof fn law_shadow_only_observes(
    state: AdmissionView,
    config: EstimatedWaitConfig,
    candidates: Seq<WorkerView>,
    model: Seq<char>,
    now: Instant,
)
    requires
        state.config == Some(config),
        config.estimated_wait_shadow,
    ensures
        !state.rejects(candidates, now),
        ({
            let enforced = AdmissionView {
                config: Some(EstimatedWaitConfig { estimated_wait_shadow: false, ..config }),
                ..state
            };
            &&& enforced.rejects(candidates, now) == state.saturated(candidates, now)
            &&& enforced.rejects(candidates, now) ==> state.cohort_metrics(candidates, model, now)
                == seq![crate::metric::increment(Counter::ShadowRejections, model)]
            &&& !enforced.rejects(candidates, now) ==> state.cohort_metrics(candidates, model, now)
                == enforced.cohort_metrics(candidates, model, now)
        }),
{
    let enforced = AdmissionView {
        config: Some(EstimatedWaitConfig { estimated_wait_shadow: false, ..config }),
        ..state
    };
    assert forall|worker: WorkerView| enforced.verdict(worker, now) == state.verdict(
        worker,
        now,
    ) by {}
    assert forall|i: int| #[trigger]
        enforced.first_permissive(candidates, i, now) == state.first_permissive(
            candidates,
            i,
            now,
        ) by {}
    law_saturated_pool_has_no_permissive_worker(state, candidates, now);
    law_saturated_pool_has_no_permissive_worker(enforced, candidates, now);
    if exists|i: int| #[trigger] state.first_permissive(candidates, i, now) {
        let i = choose|i: int| #[trigger] state.first_permissive(candidates, i, now);
        assert(enforced.first_permissive(candidates, i, now));
        let j = choose|j: int| #[trigger] enforced.first_permissive(candidates, j, now);
        assert(state.first_permissive(candidates, j, now));
        state.lemma_first_permissive_unique(candidates, i, j, now);
    }
}

/// A worker's own budget takes precedence over the gateway's.
pub proof fn law_worker_budget_takes_precedence(state: AdmissionView, worker: WorkerView)
    ensures
        worker.max_estimated_wait_secs is Some ==> state.budget(worker)
            == worker.max_estimated_wait_secs,
        worker.max_estimated_wait_secs is None ==> state.budget(worker)
            == state.effective_config().max_estimated_wait_secs,
{
}

/// A worker's own budget alone enables the guard.
pub proof fn law_worker_budget_enables_admission(state: AdmissionView, worker: WorkerView)
    requires
        worker.max_estimated_wait_secs is Some,
        state.worker_overrides < usize::MAX,
    ensures
        state.worker_added(worker).enabled(),
{
}

/// By how much an operation changes the number of registered budgets.
pub open spec fn budgets_registered_by(op: Op) -> int {
    match op {
        Op::Add { worker } => if worker.max_estimated_wait_secs is Some {
            1
        } else {
            0
        },
        Op::Remove { worker } => if worker.max_estimated_wait_secs is Some {
            -1
        } else {
            0
        },
        _ => 0,
    }
}

/// The workers with a budget of their own that were added, less those that were
/// removed.
pub open spec fn registered_budgets(ops: Seq<Op>) -> int
    decreases ops.len(),
{
    if ops.len() == 0 {
        0
    } else {
        registered_budgets(ops.drop_last()) + budgets_registered_by(ops.last())
    }
}

/// The count is right but for whole rounds of the machine's integers.
proof fn lemma_overrides_count_budgets(ops: Seq<Op>) -> (rounds: int)
    ensures
        registered_budgets(ops) == run(AdmissionView::empty(), ops).worker_overrides + rounds * (
        usize::MAX + 1),
    decreases ops.len(),
{
    if ops.len() == 0 {
        0
    } else {
        let k = lemma_overrides_count_budgets(ops.drop_last());
        let m = usize::MAX + 1;
        let before = run(AdmissionView::empty(), ops.drop_last()).worker_overrides;
        assert((k + 1) * m == k * m + m) by (nonlinear_arith);
        assert((k - 1) * m == k * m - m) by (nonlinear_arith);
        let change = budgets_registered_by(ops.last());
        if change == 1 && before == usize::MAX {
            k + 1
        } else if change == -1 && before == 0 {
            k - 1
        } else {
            k
        }
    }
}

/// Since the start, the ledger counts the workers with a budget of their own
/// that were added less those that were removed, for as long as that is a
/// number that it can hold. The guard is on just if that number is above zero
/// or the configuration sets a budget.
pub proof fn law_guard_is_on_while_budgets_are_registered(ops: Seq<Op>)
    requires
        0 <= registered_budgets(ops) <= usize::MAX,
    ensures
        ({
            let state = run(AdmissionView::empty(), ops);
            &&& state.worker_overrides == registered_budgets(ops)
            &&& state.enabled() <==> {
                ||| registered_budgets(ops) > 0
                ||| state.config matches Some(config) && config.max_estimated_wait_secs is Some
            }
        }),
{
    let rounds = lemma_overrides_count_budgets(ops);
    let m = usize::MAX + 1;
    let count = run(AdmissionView::empty(), ops).worker_overrides as int;
    let balance = registered_budgets(ops);
    assert(rounds == 0) by (nonlinear_arith)
        requires
            balance == count + rounds * m,
            0 <= balance < m,
            0 <= count < m,
    ;
}

/// What tells registered workers apart, whether they are available or not.
pub open spec fn identity(worker: WorkerView) -> (Seq<char>, u64, Option<Binary64>) {
    (worker.url, worker.incarnation, worker.max_estimated_wait_secs)
}

/// The workers that are registered.
pub open spec fn registry(ops: Seq<Op>) -> Multiset<(Seq<char>, u64, Option<Binary64>)>
    decreases ops.len(),
{
    if ops.len() == 0 {
        Multiset::empty()
    } else {
        match ops.last() {
            Op::Add { worker } => registry(ops.drop_last()).insert(identity(worker)),
            Op::Remove { worker } => registry(ops.drop_last()).remove(identity(worker)),
            _ => registry(ops.drop_last()),
        }
    }
}

/// Whether only registered workers are removed.
pub open spec fn removes_registered(ops: Seq<Op>) -> bool
    decreases ops.len(),
{
    ops.len() > 0 ==> {
        &&& removes_registered(ops.drop_last())
        &&& ops.last() matches Op::Remove { worker } ==> registry(ops.drop_last()).contains(
            identity(worker),
        )
    }
}

/// The registered workers that have a budget of their own.
pub open spec fn registry_with_budget(ops: Seq<Op>) -> Multiset<
    (Seq<char>, u64, Option<Binary64>),
> {
    registry(ops).filter(|worker: (Seq<char>, u64, Option<Binary64>)| worker.2 is Some)
}

proof fn lemma_registry_counts_budgets(ops: Seq<Op>)
    requires
        removes_registered(ops),
    ensures
        registry_with_budget(ops).len() == registered_budgets(ops),
    decreases ops.len(),
{
    broadcast use vstd::multiset::group_multiset_axioms;

    let has_budget = |worker: (Seq<char>, u64, Option<Binary64>)| worker.2 is Some;
    if ops.len() == 0 {
        assert(registry_with_budget(ops) =~= Multiset::empty());
    } else {
        lemma_registry_counts_budgets(ops.drop_last());
        let before = registry_with_budget(ops.drop_last());
        let after = registry_with_budget(ops);
        match ops.last() {
            Op::Add { worker } => {
                if worker.max_estimated_wait_secs is Some {
                    assert(after =~= before.insert(identity(worker)));
                } else {
                    assert(after =~= before);
                }
            },
            Op::Remove { worker } => {
                if worker.max_estimated_wait_secs is Some {
                    assert(before.contains(identity(worker)));
                    assert(after =~= before.remove(identity(worker)));
                } else {
                    assert(after =~= before);
                }
            },
            _ => {},
        }
    }
}

/// Where only registered workers are removed, the guard is on just if some
/// registered worker has a budget of its own or the configuration sets one.
pub proof fn law_guard_is_on_for_registered_budgets(ops: Seq<Op>)
    requires
        removes_registered(ops),
        registry_with_budget(ops).len() <= usize::MAX,
    ensures
        ({
            let state = run(AdmissionView::empty(), ops);
            &&& state.worker_overrides == registry_with_budget(ops).len()
            &&& state.enabled() <==> {
                ||| registry_with_budget(ops).len() > 0
                ||| state.config matches Some(config) && config.max_estimated_wait_secs is Some
            }
        }),
{
    lemma_registry_counts_budgets(ops);
    law_guard_is_on_while_budgets_are_registered(ops);
}

/// Nothing but registration, removal and the first configuration turns the
/// guard on or off; the shadow flag does not either.
pub proof fn law_only_budgets_turn_the_guard_on(
    state: AdmissionView,
    op: Op,
    config: EstimatedWaitConfig,
    shadow: bool,
)
    ensures
        !(op is Add) && !(op is Remove) && (op is Configure ==> state.config is Some) ==> apply(
            state,
            op,
        ).enabled() == state.enabled(),
        state.configured(EstimatedWaitConfig { estimated_wait_shadow: shadow, ..config }).enabled()
            == state.configured(config).enabled(),
{
}

/// Without any budget the guard is off, whatever else is configured, and no
/// worker is polled for it.
pub proof fn law_without_budget_nothing_happens(
    state: AdmissionView,
    worker: WorkerView,
    tokens: Option<Seq<u32>>,
)
    requires
        state.effective_config().max_estimated_wait_secs is None,
        state.worker_overrides == 0,
        worker.max_estimated_wait_secs is None,
    ensures
        !state.enabled(),
        state.watermark(worker) is None,
        state.poll_started(worker).entries == state.entries,
        state.credited(worker, tokens) == state,
{
}

/// Removing a worker takes back what its registration added.
pub proof fn law_removal_undoes_registration(state: AdmissionView, worker: WorkerView)
    ensures
        ({
            let after = state.worker_added(worker).worker_removed(worker);
            &&& after.worker_overrides == state.worker_overrides
            &&& after.enabled() == state.enabled()
            &&& after.entries =~= state.entries.remove(worker.url)
        }),
{
}

/// A reset keeps the registered budgets, and so whether the guard is on.
pub proof fn law_reset_keeps_budgets(
    state: AdmissionView,
    worker: WorkerView,
    urls: Seq<Seq<char>>,
)
    ensures
        state.cleared(urls).enabled() == state.enabled(),
        state.cleared(urls).budget(worker) == state.budget(worker),
        state.cleared(urls).owns(worker) == state.owns(worker),
{
}

/// A worker that was replaced can neither touch the entry of its replacement
/// nor take a watermark of it.
pub proof fn law_replaced_worker_has_no_effect(
    state: AdmissionView,
    worker: WorkerView,
    tokens: Option<Seq<u32>>,
)
    requires
        state.entries.contains_key(worker.url),
        state.entries[worker.url].source != worker.incarnation,
    ensures
        state.credited(worker, tokens) == state,
        state.evicted(worker) == state,
        state.worker_removed(worker).entries == state.entries,
        state.poll_started(worker).entries == state.entries,
        state.watermark(worker) is None,
{
}

/// The URL that an operation is about.
pub open spec fn concerns(op: Op, url: Seq<char>) -> bool {
    match op {
        Op::Add { worker } => worker.url == url,
        Op::Remove { worker } => worker.url == url,
        Op::Poll { worker } => worker.url == url,
        Op::Publish { worker, .. } => worker.url == url,
        Op::Evict { worker } => worker.url == url,
        Op::Credit { worker, .. } => worker.url == url,
        Op::Clear { .. } => true,
        _ => false,
    }
}

/// An operation leaves the entries of other URLs as they are.
pub proof fn law_other_workers_are_untouched(state: AdmissionView, op: Op, url: Seq<char>)
    requires
        !concerns(op, url),
    ensures
        apply(state, op).entries.contains_key(url) == state.entries.contains_key(url),
        state.entries.contains_key(url) ==> apply(state, op).entries[url] == state.entries[url],
{
}

/// The tokens that credits add up to.
pub open spec fn credit_sum(state: AdmissionView, credits: Seq<Option<Seq<u32>>>) -> int
    decreases credits.len(),
{
    if credits.len() == 0 {
        0
    } else {
        credit_sum(state, credits.drop_last()) + state.credit_of(credits.last())
    }
}

/// The state after a worker was selected several times.
pub open spec fn credit_all(
    state: AdmissionView,
    worker: WorkerView,
    credits: Seq<Option<Seq<u32>>>,
) -> AdmissionView
    decreases credits.len(),
{
    if credits.len() == 0 {
        state
    } else {
        credit_all(state, worker, credits.drop_last()).credited(worker, credits.last())
    }
}

/// The largest count that an entry can hold is where counting stops.
pub open spec fn capped(tokens: int) -> u64 {
    if tokens <= u64::MAX {
        tokens as u64
    } else {
        u64::MAX
    }
}

/// Credits add up, up to the largest count, and change nothing else of the
/// entry but its verdict. A worker without an entry is as one with a new entry.
pub proof fn law_credits_add_up(
    state: AdmissionView,
    worker: WorkerView,
    credits: Seq<Option<Seq<u32>>>,
)
    requires
        state.with_worker(worker).owns(worker),
        state.budget(worker) is Some,
    ensures
        ({
            let start = state.with_worker(worker);
            let after = credit_all(state, worker, credits).with_worker(worker);
            let entry = after.entries[worker.url];
            &&& after.owns(worker)
            &&& after.config == state.config
            &&& after.next_generation == start.next_generation
            &&& entry.total_dispatched == capped(
                start.entries[worker.url].total_dispatched + credit_sum(state, credits),
            )
            &&& entry.generation == start.entries[worker.url].generation
            &&& entry.last_published == start.entries[worker.url].last_published
        }),
        credit_sum(state, credits) >= 0,
    decreases credits.len(),
{
    if credits.len() > 0 {
        lemma_credit_sum_nonnegative(state, credits.drop_last());
        law_credits_add_up(state, worker, credits.drop_last());
    }
}

/// Two credits are one credit of their joint length, whatever the tokens are
/// and whatever the count was: the states after them are the same.
pub proof fn law_two_credits_are_one(
    state: AdmissionView,
    worker: WorkerView,
    first: Seq<u32>,
    second: Seq<u32>,
    joint: Seq<u32>,
)
    requires
        joint.len() == first.len() + second.len(),
        joint.len() <= u64::MAX,
    ensures
        state.credited(worker, Some(first)).credited(worker, Some(second)) == state.credited(
            worker,
            Some(joint),
        ),
{
    let once = state.credited(worker, Some(first));
    let twice = once.credited(worker, Some(second));
    let at_once = state.credited(worker, Some(joint));
    if state.budget(worker) is Some && state.with_worker(worker).owns(worker) {
        assert(twice.entries[worker.url] == at_once.entries[worker.url]);
        assert(twice.entries =~= at_once.entries);
    }
}

proof fn lemma_credit_sum_nonnegative(state: AdmissionView, credits: Seq<Option<Seq<u32>>>)
    ensures
        credit_sum(state, credits) >= 0,
    decreases credits.len(),
{
    if credits.len() > 0 {
        lemma_credit_sum_nonnegative(state, credits.drop_last());
    }
}

/// A publication clears the credit from before its poll and keeps what was
/// credited while the poll was under way: the wait is that of the report with
/// just those tokens on top, and the verdict compares it inclusively.
pub proof fn law_publication_keeps_credit_of_the_poll(
    start: AdmissionView,
    worker: WorkerView,
    watermark: Watermark,
    credits: Seq<Option<Seq<u32>>>,
    load: LoadView,
    started: Instant,
)
    requires
        start.well_formed(),
        allowed(start, Op::Poll { worker }),
        start.watermark(worker) == Some(watermark),
        start.poll_started(worker).entries[worker.url].last_published matches Some(last)
            ==> last.nanos <= started.nanos,
    ensures
        ({
            let busy = credit_all(start.poll_started(worker), worker, credits);
            let after = busy.published(worker, Some(load), Some(watermark), started);
            let entry = after.entries[worker.url];
            let config = start.effective_config();
            let total = capped(watermark.dispatched + credit_sum(start, credits));
            &&& entry.total_dispatched == total
            &&& match config.prepared(load) {
                Some(prepared) => {
                    let wait = prepared.estimate.wait((total - watermark.dispatched) as u64);
                    &&& entry.sample matches Some(sample)
                    &&& sample.prepared == prepared
                    &&& sample.threshold == start.budget(worker).unwrap()
                    &&& sample.overloaded == if wait.finite() {
                        Some(start.budget(worker).unwrap().at_most(wait))
                    } else {
                        None
                    }
                },
                None => entry.sample is None,
            }
        }),
{
    let polling = start.poll_started(worker);
    assert(polling.effective_config() == start.effective_config());
    lemma_credit_sum_same_config(start, polling, credits);
    law_credits_add_up(polling, worker, credits);
    let busy = credit_all(polling, worker, credits);
    lemma_credits_keep_entries(polling, worker, credits);
    assert(busy.accepts(worker.url, watermark, started));
    assert(busy.effective_config() == start.effective_config());
}

proof fn lemma_credits_keep_entries(
    state: AdmissionView,
    worker: WorkerView,
    credits: Seq<Option<Seq<u32>>>,
)
    requires
        state.entries.contains_key(worker.url),
    ensures
        credit_all(state, worker, credits).entries.contains_key(worker.url),
    decreases credits.len(),
{
    if credits.len() > 0 {
        lemma_credits_keep_entries(state, worker, credits.drop_last());
    }
}

proof fn lemma_credit_sum_same_config(
    a: AdmissionView,
    b: AdmissionView,
    credits: Seq<Option<Seq<u32>>>,
)
    requires
        a.effective_config() == b.effective_config(),
    ensures
        credit_sum(a, credits) == credit_sum(b, credits),
    decreases credits.len(),
{
    if credits.len() > 0 {
        lemma_credit_sum_same_config(a, b, credits.drop_last());
    }
}

/// Whether a sample is what the configuration makes of some report.
pub open spec fn made_by(config: EstimatedWaitConfig, sample: Sample) -> bool {
    exists|load: LoadView| #[trigger] config.prepared(load) == Some(sample.prepared)
}

/// Whether every sample was made by the configuration, which is fixed by then.
pub open spec fn samples_made_by_config(state: AdmissionView) -> bool {
    forall|url: Seq<char>| #[trigger]
        state.entries.contains_key(url) ==> (state.entries[url].sample matches Some(sample) ==> {
            &&& state.config is Some
            &&& made_by(state.effective_config(), sample)
        })
}

proof fn lemma_samples_made_by_config(state: AdmissionView, op: Op)
    requires
        samples_made_by_config(state),
    ensures
        samples_made_by_config(apply(state, op)),
{
    let next = apply(state, op);
    assert forall|url: Seq<char>| #[trigger] next.entries.contains_key(url) implies (
    next.entries[url].sample matches Some(sample) ==> {
        &&& next.config is Some
        &&& made_by(next.effective_config(), sample)
    }) by {
        if state.entries.contains_key(url) {
            if state.entries[url].sample is Some {
                assert(next.config == state.config);
            }
        }
        match op {
            Op::Publish { worker, load, watermark, started } => {
                if worker.url == url && next.entries[url].sample is Some {
                    if load is Some {
                        let prepared = state.effective_config().prepared(load.unwrap());
                        assert(next.effective_config() == state.effective_config());
                    }
                }
            },
            _ => {},
        }
    }
}

/// Whatever happened since the start, every sample was made of some report by
/// the configuration in force.
pub proof fn law_samples_are_made_by_the_configuration(ops: Seq<Op>)
    ensures
        samples_made_by_config(run(AdmissionView::empty(), ops)),
    decreases ops.len(),
{
    if ops.len() > 0 {
        law_samples_are_made_by_the_configuration(ops.drop_last());
        lemma_samples_made_by_config(run(AdmissionView::empty(), ops.drop_last()), ops.last());
    }
}

/// The state after several selections, of any workers.
pub open spec fn credit_each(
    state: AdmissionView,
    credits: Seq<(WorkerView, Option<Seq<u32>>)>,
) -> AdmissionView
    decreases credits.len(),
{
    if credits.len() == 0 {
        state
    } else {
        credit_each(state, credits.drop_last()).credited(credits.last().0, credits.last().1)
    }
}

/// Credits only raise the count of an entry that has a sample, and bring its
/// verdict up to date.
proof fn lemma_credits_raise_the_count(
    state: AdmissionView,
    url: Seq<char>,
    credits: Seq<(WorkerView, Option<Seq<u32>>)>,
)
    requires
        verdicts_current(state),
        state.entries.contains_key(url),
        state.entries[url].sample is Some,
    ensures
        ({
            let before = state.entries[url];
            let after = credit_each(state, credits).entries[url];
            &&& credit_each(state, credits).entries.contains_key(url)
            &&& before.total_dispatched <= after.total_dispatched
            &&& after.sample == Some(before.sample.unwrap().latched(after.total_dispatched))
        }),
    decreases credits.len(),
{
    if credits.len() == 0 {
        assert(state.entries[url] == state.entries[url].refreshed());
    } else {
        lemma_credits_raise_the_count(state, url, credits.drop_last());
    }
}

/// Credit is reserved until the next poll: whatever happened since the start,
/// no number of credits, for this worker or for others, makes a worker that is
/// at its budget look as if it were below. It stays at its budget for as long
/// as its wait is a finite number.
pub proof fn law_credits_never_clear_a_verdict(
    ops: Seq<Op>,
    url: Seq<char>,
    credits: Seq<(WorkerView, Option<Seq<u32>>)>,
)
    requires
        ({
            let state = run(AdmissionView::empty(), ops);
            &&& state.effective_config().valid()
            &&& state.entries.contains_key(url)
            &&& state.entries[url].sample matches Some(sample) && sample.overloaded == Some(true)
        }),
    ensures
        ({
            let after = credit_each(run(AdmissionView::empty(), ops), credits);
            &&& after.entries.contains_key(url)
            &&& after.entries[url].sample matches Some(sample)
            &&& sample.overloaded == if sample.wait(after.entries[url].total_dispatched).finite() {
                Some(true)
            } else {
                None
            }
        }),
{
    let state = run(AdmissionView::empty(), ops);
    let after = credit_each(state, credits);
    let before = state.entries[url];
    let sample = before.sample.unwrap();
    law_operations_keep_verdicts_current(AdmissionView::empty(), ops);
    law_samples_are_made_by_the_configuration(ops);
    lemma_credits_raise_the_count(state, url, credits);
    assert(before == before.refreshed());
    let config = state.effective_config();
    let load = choose|load: LoadView| #[trigger] config.prepared(load) == Some(sample.prepared);
    let total = after.entries[url].total_dispatched;
    let fewer: u64 = if before.total_dispatched > sample.watermark {
        (before.total_dispatched - sample.watermark) as u64
    } else {
        0
    };
    let more: u64 = if total > sample.watermark {
        (total - sample.watermark) as u64
    } else {
        0
    };
    if sample.wait(total).finite() {
        crate::formula_laws::law_wait_grows_with_dispatch(
            config,
            load,
            sample.prepared,
            fewer,
            more,
        );
    }
}

} // verus!
