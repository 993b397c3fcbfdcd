//! What admission reads of a worker.

use vstd::prelude::*;
use crate::binary64::Binary64;

verus! {

/// A worker as the gateway sees it at one moment.
#[derive(Clone, Debug)]
pub struct Worker {
    pub url: String,
    /// Tells apart the workers that are registered under one URL over time.
    pub incarnation: u64,
    /// Healthy, not overloaded by the static guard, circuit breaker closed.
    pub available: bool,
    /// The worker's own wait budget.
    pub max_estimated_wait_secs: Option<Binary64>,
}

/// The mathematical counterpart of [`Worker`].
pub struct WorkerView {
    pub url: Seq<char>,
    pub incarnation: u64,
    pub available: bool,
    pub max_estimated_wait_secs: Option<Binary64>,
}

impl View for Worker {
    type V = WorkerView;

    open spec fn view(&self) -> WorkerView {
        WorkerView {
            url: self.url@,
            incarnation: self.incarnation,
            available: self.available,
            max_estimated_wait_secs: self.max_estimated_wait_secs,
        }
    }
}

} // verus!
