//! Load reports of a worker, one snapshot per data-parallel rank.

use vstd::prelude::*;
use crate::binary64::Binary64;

verus! {

/// What one rank's scheduler reports.
#[derive(Clone, Copy, Debug)]
pub struct SchedulerLoadSnapshot {
    pub num_waiting_reqs: i32,
    /// Queued tokens that are not yet served from cache.
    pub num_waiting_uncached_tokens: i32,
    /// `Some(false)` marks the queued-token field as unavailable; an omitted
    /// flag keeps the field usable.
    pub num_waiting_uncached_tokens_available: Option<bool>,
    /// Token usage ratio.
    pub token_usage: Binary64,
    pub gen_throughput: Binary64,
    pub prefill_throughput: Option<Binary64>,
    pub avg_request_prefill_kv_computed_tokens: Option<Binary64>,
    pub median_request_prefill_kv_computed_tokens: Option<Binary64>,
    pub prefill_size_sample_count: Option<u64>,
    /// Present just if the backend learns its prefill capacity from counters.
    pub prefill_capacity_learning_active: Option<bool>,
    pub learned_prefill_capacity: Option<Binary64>,
    /// How many qualified intervals the learned capacity rests on.
    pub prefill_capacity_sample_count: Option<u64>,
}

impl SchedulerLoadSnapshot {
    /// Whether the rank says that it cannot tell its queued tokens.
    pub open spec fn tokens_unavailable(self) -> bool {
        self.num_waiting_uncached_tokens_available == Some(false)
    }

    /// Whether the counts and the usage ratio can be used at all.
    pub open spec fn well_formed(self) -> bool {
        &&& self.num_waiting_reqs >= 0
        &&& self.num_waiting_uncached_tokens >= 0
        &&& self.token_usage.finite()
    }

    pub fn has_unavailable_tokens(&self) -> (b: bool)
        ensures
            b == self.tokens_unavailable(),
    {
        match self.num_waiting_uncached_tokens_available {
            Some(available) => !available,
            None => false,
        }
    }

    pub fn is_well_formed(&self) -> (b: bool)
        ensures
            b == self.well_formed(),
    {
        self.num_waiting_reqs >= 0 && self.num_waiting_uncached_tokens >= 0
            && self.token_usage.is_finite()
    }
}

impl Default for SchedulerLoadSnapshot {
    fn default() -> (rank: SchedulerLoadSnapshot)
        ensures
            rank.num_waiting_reqs == 0,
            rank.num_waiting_uncached_tokens == 0,
            rank.num_waiting_uncached_tokens_available is None,
            rank.token_usage.bits == 0,
            rank.gen_throughput.bits == 0,
            rank.prefill_throughput is None,
            rank.avg_request_prefill_kv_computed_tokens is None,
            rank.median_request_prefill_kv_computed_tokens is None,
            rank.prefill_size_sample_count is None,
            rank.prefill_capacity_learning_active is None,
            rank.learned_prefill_capacity is None,
            rank.prefill_capacity_sample_count is None,
    {
        SchedulerLoadSnapshot {
            num_waiting_reqs: 0,
            num_waiting_uncached_tokens: 0,
            num_waiting_uncached_tokens_available: None,
            token_usage: Binary64 { bits: 0 },
            gen_throughput: Binary64 { bits: 0 },
            prefill_throughput: None,
            avg_request_prefill_kv_computed_tokens: None,
            median_request_prefill_kv_computed_tokens: None,
            prefill_size_sample_count: None,
            prefill_capacity_learning_active: None,
            learned_prefill_capacity: None,
            prefill_capacity_sample_count: None,
        }
    }
}

/// The load of one worker across its ranks.
#[derive(Clone, Debug)]
pub struct WorkerLoadResponse {
    /// How many ranks the worker has; zero or less if it does not say.
    pub dp_rank_count: i32,
    pub loads: Vec<SchedulerLoadSnapshot>,
}

/// The mathematical counterpart of [`WorkerLoadResponse`].
pub struct LoadView {
    pub dp_rank_count: i32,
    pub ranks: Seq<SchedulerLoadSnapshot>,
}

impl View for WorkerLoadResponse {
    type V = LoadView;

    open spec fn view(&self) -> LoadView {
        LoadView { dp_rank_count: self.dp_rank_count, ranks: self.loads@ }
    }
}

impl Default for WorkerLoadResponse {
    fn default() -> (load: WorkerLoadResponse)
        ensures
            load.dp_rank_count == 0,
            load.loads@.len() == 0,
    {
        WorkerLoadResponse { dp_rank_count: 0, loads: Vec::new() }
    }
}

/// The sum of a signal over the ranks, added up from the first rank on.
pub open spec fn total(
    ranks: Seq<SchedulerLoadSnapshot>,
    signal: spec_fn(SchedulerLoadSnapshot) -> Binary64,
) -> Binary64
    decreases ranks.len(),
{
    if ranks.len() == 0 {
        Binary64::integer(0)
    } else {
        total(ranks.drop_last(), signal).sum(signal(ranks.last()))
    }
}

/// The sum of an optional signal, which is known just if every rank reports it.
pub open spec fn total_if_complete(
    ranks: Seq<SchedulerLoadSnapshot>,
    signal: spec_fn(SchedulerLoadSnapshot) -> Option<Binary64>,
) -> Option<Binary64> {
    if forall|i: int| 0 <= i < ranks.len() ==> signal(#[trigger] ranks[i]) is Some {
        Some(total(ranks, |rank: SchedulerLoadSnapshot| signal(rank).unwrap()))
    } else {
        None
    }
}

/// The average of the ranks' usage ratios, 0 if there is no rank.
pub open spec fn mean_token_usage(ranks: Seq<SchedulerLoadSnapshot>) -> Binary64 {
    if ranks.len() == 0 {
        Binary64::integer(0)
    } else {
        total(ranks, |rank: SchedulerLoadSnapshot| rank.token_usage).quotient(
            Binary64::integer(ranks.len() as int),
        )
    }
}

pub open spec fn gen_throughput_total(ranks: Seq<SchedulerLoadSnapshot>) -> Binary64 {
    total(ranks, |rank: SchedulerLoadSnapshot| rank.gen_throughput)
}

pub open spec fn prefill_throughput_total(ranks: Seq<SchedulerLoadSnapshot>) -> Option<Binary64> {
    total_if_complete(ranks, |rank: SchedulerLoadSnapshot| rank.prefill_throughput)
}

pub open spec fn learned_capacity_total(ranks: Seq<SchedulerLoadSnapshot>) -> Option<Binary64> {
    total_if_complete(ranks, |rank: SchedulerLoadSnapshot| rank.learned_prefill_capacity)
}

/// One more rank adds its signal to the sum.
pub proof fn lemma_total_step(
    ranks: Seq<SchedulerLoadSnapshot>,
    i: int,
    signal: spec_fn(SchedulerLoadSnapshot) -> Binary64,
)
    requires
        0 <= i < ranks.len(),
    ensures
        total(ranks.take(i + 1), signal) == total(ranks.take(i), signal).sum(signal(ranks[i])),
{
    assert(ranks.take(i + 1).drop_last() =~= ranks.take(i));
    assert(ranks.take(i + 1).last() == ranks[i]);
}

impl WorkerLoadResponse {
    /// Average token usage ratio across the ranks; 0 if there is none.
    pub fn effective_token_usage(&self) -> (usage: Binary64)
        ensures
            usage == mean_token_usage(self.loads@),
    {
        let n: usize = self.loads.len();
        if n == 0 {
            return Binary64::from_u64(0);
        }
        let ghost signal = |rank: SchedulerLoadSnapshot| rank.token_usage;
        let mut sum: Binary64 = Binary64::from_u64(0);
        let mut i: usize = 0;
        while i < n
            invariant
                n == self.loads@.len(),
                i <= n,
                signal == (|rank: SchedulerLoadSnapshot| rank.token_usage),
                sum == total(self.loads@.take(i as int), signal),
            decreases n - i,
        {
            proof {
                lemma_total_step(self.loads@, i as int, signal);
            }
            sum = sum.add(self.loads[i].token_usage);
            i = i + 1;
        }
        proof {
            assert(self.loads@.take(n as int) =~= self.loads@);
        }
        sum.div(Binary64::from_u64(n as u64))
    }

    /// Total generation throughput, in tokens per second.
    pub fn total_gen_throughput(&self) -> (throughput: Binary64)
        ensures
            throughput == gen_throughput_total(self.loads@),
    {
        let n: usize = self.loads.len();
        let ghost signal = |rank: SchedulerLoadSnapshot| rank.gen_throughput;
        let mut sum: Binary64 = Binary64::from_u64(0);
        let mut i: usize = 0;
        while i < n
            invariant
                n == self.loads@.len(),
                i <= n,
                signal == (|rank: SchedulerLoadSnapshot| rank.gen_throughput),
                sum == total(self.loads@.take(i as int), signal),
            decreases n - i,
        {
            proof {
                lemma_total_step(self.loads@, i as int, signal);
            }
            sum = sum.add(self.loads[i].gen_throughput);
            i = i + 1;
        }
        proof {
            assert(self.loads@.take(n as int) =~= self.loads@);
        }
        sum
    }

    /// Total prefill throughput, in tokens per second, if every rank reports it.
    pub fn total_prefill_throughput(&self) -> (throughput: Option<Binary64>)
        ensures
            throughput == prefill_throughput_total(self.loads@),
    {
        let n: usize = self.loads.len();
        let ghost known = |rank: SchedulerLoadSnapshot| rank.prefill_throughput;
        let ghost signal = |rank: SchedulerLoadSnapshot| known(rank).unwrap();
        let mut sum: Binary64 = Binary64::from_u64(0);
        let mut i: usize = 0;
        while i < n
            invariant
                n == self.loads@.len(),
                i <= n,
                known == (|rank: SchedulerLoadSnapshot| rank.prefill_throughput),
                signal == (|rank: SchedulerLoadSnapshot| known(rank).unwrap()),
                forall|j: int| 0 <= j < i ==> known(#[trigger] self.loads@[j]) is Some,
                sum == total(self.loads@.take(i as int), signal),
            decreases n - i,
        {
            proof {
                lemma_total_step(self.loads@, i as int, signal);
            }
            match self.loads[i].prefill_throughput {
                Some(value) => {
                    sum = sum.add(value);
                },
                None => {
                    assert(known(self.loads@[i as int]) is None);
                    return None;
                },
            }
            i = i + 1;
        }
        proof {
            assert(self.loads@.take(n as int) =~= self.loads@);
        }
        Some(sum)
    }

    /// Total learned prefill capacity, in tokens per second, if every rank has one.
    pub fn total_learned_prefill_capacity(&self) -> (capacity: Option<Binary64>)
        ensures
            capacity == learned_capacity_total(self.loads@),
    {
        let n: usize = self.loads.len();
        let ghost known = |rank: SchedulerLoadSnapshot| rank.learned_prefill_capacity;
        let ghost signal = |rank: SchedulerLoadSnapshot| known(rank).unwrap();
        let mut sum: Binary64 = Binary64::from_u64(0);
        let mut i: usize = 0;
        while i < n
            invariant
                n == self.loads@.len(),
                i <= n,
                known == (|rank: SchedulerLoadSnapshot| rank.learned_prefill_capacity),
                signal == (|rank: SchedulerLoadSnapshot| known(rank).unwrap()),
                forall|j: int| 0 <= j < i ==> known(#[trigger] self.loads@[j]) is Some,
                sum == total(self.loads@.take(i as int), signal),
            decreases n - i,
        {
            proof {
                lemma_total_step(self.loads@, i as int, signal);
            }
            match self.loads[i].learned_prefill_capacity {
                Some(value) => {
                    sum = sum.add(value);
                },
                None => {
                    assert(known(self.loads@[i as int]) is None);
                    return None;
                },
            }
            i = i + 1;
        }
        proof {
            assert(self.loads@.take(n as int) =~= self.loads@);
        }
        Some(sum)
    }
}

} // verus!
