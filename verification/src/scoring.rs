//! Live worker load metrics, as the scheduler consumes them.

use vstd::prelude::*;

verus! {

/// One worker's live metrics plus identity.
///
/// GPU cache occupancy is a fraction held in thousandths (0 through 1000),
/// so that scoring stays exact integer arithmetic.
#[derive(Debug, Clone, Copy, PartialEq, Eq, Structural)]
pub struct Endpoint {
    pub worker_id: i64,
    /// Fraction of the worker's GPU KV cache in use, in thousandths.
    pub gpu_cache_usage_permille: u32,
    /// Requests waiting in the worker's queue.
    pub waiting_requests: u32,
}

impl Endpoint {
    /// A usage fraction never exceeds one.
    pub open spec fn wf(self) -> bool {
        self.gpu_cache_usage_permille <= 1000
    }
}

/// A snapshot of all known workers' live metrics: produced and updated only
/// by the metrics aggregator, consumed read-only by the scheduler.
#[derive(Debug)]
pub struct ProcessedEndpoints {
    pub endpoints: Vec<Endpoint>,
}

impl ProcessedEndpoints {
    /// Every entry is valid and no worker appears twice.
    pub open spec fn wf(self) -> bool {
        &&& forall|i: int|
            0 <= i < self.endpoints@.len() ==> (#[trigger] self.endpoints@[i]).wf()
        &&& forall|i: int, j: int|
            0 <= i < j < self.endpoints@.len() ==> self.endpoints@[i].worker_id
                != self.endpoints@[j].worker_id
    }

    /// An empty fleet snapshot.
    pub fn new() -> (r: ProcessedEndpoints)
        ensures
            r.wf(),
            r.endpoints@.len() == 0,
    {
        ProcessedEndpoints { endpoints: Vec::new() }
    }
}

/// The metrics entry a snapshot holds for a worker: the first (and, in a
/// well-formed snapshot, only) entry carrying that worker's id.
pub open spec fn spec_metrics_of(eps: Seq<Endpoint>, w: i64) -> Option<Endpoint>
    decreases eps.len(),
{
    if eps.len() == 0 {
        None
    } else if eps[0].worker_id == w {
        Some(eps[0])
    } else {
        spec_metrics_of(eps.drop_first(), w)
    }
}

/// The largest queue depth any endpoint of the snapshot reports.
pub open spec fn spec_max_waiting(eps: Seq<Endpoint>) -> int
    decreases eps.len(),
{
    if eps.len() == 0 {
        0
    } else {
        let rest = spec_max_waiting(eps.drop_last());
        if eps.last().waiting_requests as int > rest {
            eps.last().waiting_requests as int
        } else {
            rest
        }
    }
}

/// The largest queue depth of a snapshot, computed.
pub fn max_waiting(endpoints: &Vec<Endpoint>) -> (r: u32)
    ensures
        r as int == spec_max_waiting(endpoints@),
{
    let mut mw: u32 = 0;
    let mut i: usize = 0;
    while i < endpoints.len()
        invariant
            i <= endpoints@.len(),
            mw as int == spec_max_waiting(endpoints@.take(i as int)),
        decreases endpoints@.len() - i,
    {
        proof {
            assert(endpoints@.take(i + 1).drop_last() =~= endpoints@.take(i as int));
            assert(endpoints@.take(i + 1).last() == endpoints@[i as int]);
        }
        if endpoints[i].waiting_requests > mw {
            mw = endpoints[i].waiting_requests;
        }
        i = i + 1;
    }
    proof {
        assert(endpoints@.take(endpoints@.len() as int) =~= endpoints@);
    }
    mw
}

} // verus!
