//! The worker-selection scheduler: fuses an overlap-score map with live
//! worker metrics into a single ranked decision.
//!
//! The default policy scores each candidate worker as
//!
//! ```text
//! score(w) = overlap_score_weight   * overlap_fraction(w)
//!          - gpu_cache_usage_weight * gpu_cache_usage(w)
//!          - waiting_requests_weight * normalized_queue_depth(w)
//! ```
//!
//! where `overlap_fraction` divides the worker's matched-block count by the
//! query's block count, `gpu_cache_usage` is the worker's cache occupancy
//! fraction, and `normalized_queue_depth` divides the worker's queue depth
//! by the fleet's largest. All quantities are held in exact fixed-point
//! integers, so the comparison below multiplies every score by the (shared,
//! positive) product of the denominators instead of dividing. The worker
//! with the maximum score wins; ties break to the lowest worker id so that
//! decisions are reproducible.

use std::collections::HashMap;
use vstd::prelude::*;
use crate::indexer::{spec_overlap_of, OverlapScores};
use crate::protocols::WorkerSelectionResult;
use crate::scoring::{max_waiting, spec_max_waiting, Endpoint, ProcessedEndpoints};
use crate::KvRouterConfig;
use crate::WorkerSelector;

verus! {

broadcast use vstd::std_specs::hash::group_hash_axioms;

/// Why the scheduler could not pick a worker.
#[derive(Debug, Clone, Copy, PartialEq, Eq, Structural)]
pub enum KvSchedulerError {
    /// The fleet snapshot holds no workers at all.
    NoWorkersAvailable,
    /// An injected selection strategy rejected every candidate.
    SelectorFailed,
}

/// One request's inputs to a selection decision.
pub struct SchedulingRequest {
    /// Number of tokens in the request's prompt.
    pub isl_tokens: usize,
    /// The overlap map the indexer computed for this request.
    pub overlap: OverlapScores,
}

/// The overlap map as a total function: a worker absent from the map is
/// scored as zero overlap, not excluded.
pub open spec fn spec_overlap_fn(scores: Map<i64, u32>) -> spec_fn(i64) -> int {
    |w: i64| spec_overlap_of(scores, w) as int
}

/// The denominator of the overlap fraction: the query's complete-block
/// count, floored at one so an empty query divides by one.
pub open spec fn spec_effective_blocks(isl_tokens: int, block_size: int) -> int {
    let b = isl_tokens / block_size;
    if b == 0 {
        1
    } else {
        b
    }
}

/// The denominator of the queue-depth normalization: the fleet's largest
/// queue depth, floored at one so an idle fleet divides by one.
pub open spec fn spec_effective_max_waiting(eps: Seq<Endpoint>) -> int {
    let m = spec_max_waiting(eps);
    if m == 0 {
        1
    } else {
        m
    }
}

/// A worker's score, multiplied through by the shared positive factor
/// `1000 * blocks * 1000 * maxw` (the weight scale and the three
/// denominators) so it stays an exact integer. Multiplying every candidate's
/// score by the same positive factor preserves the ranking.
pub open spec fn spec_score(
    cfg: KvRouterConfig,
    e: Endpoint,
    overlap: int,
    blocks: int,
    maxw: int,
) -> int {
    cfg.overlap_score_weight as int * overlap * 1000 * maxw
        - cfg.gpu_cache_usage_weight as int * e.gpu_cache_usage_permille as int * blocks * maxw
        - cfg.waiting_requests_weight as int * e.waiting_requests as int * blocks * 1000
}

/// Whether candidate `a` beats candidate `b`: a strictly higher score, or an
/// equal score and a lower worker id (the deterministic tie-break).
pub open spec fn spec_better(
    cfg: KvRouterConfig,
    a: Endpoint,
    b: Endpoint,
    ov: spec_fn(i64) -> int,
    blocks: int,
    maxw: int,
) -> bool {
    let sa = spec_score(cfg, a, ov(a.worker_id), blocks, maxw);
    let sb = spec_score(cfg, b, ov(b.worker_id), blocks, maxw);
    sa > sb || (sa == sb && a.worker_id < b.worker_id)
}

/// The winning endpoint among a candidate sequence, or `None` for an empty
/// fleet.
pub open spec fn spec_best_endpoint(
    eps: Seq<Endpoint>,
    cfg: KvRouterConfig,
    ov: spec_fn(i64) -> int,
    blocks: int,
    maxw: int,
) -> Option<Endpoint>
    decreases eps.len(),
{
    if eps.len() == 0 {
        None
    } else {
        let prev = spec_best_endpoint(eps.drop_last(), cfg, ov, blocks, maxw);
        let e = eps.last();
        match prev {
            None => Some(e),
            Some(b) => if spec_better(cfg, e, b, ov, blocks, maxw) {
                Some(e)
            } else {
                Some(b)
            },
        }
    }
}

/// The scheduler's whole decision for one request: the winner among the
/// snapshot's endpoints under the default scoring policy.
pub open spec fn spec_select(
    cfg: KvRouterConfig,
    eps: Seq<Endpoint>,
    ov: spec_fn(i64) -> int,
    isl_tokens: int,
    block_size: int,
) -> Option<Endpoint> {
    spec_best_endpoint(
        eps,
        cfg,
        ov,
        spec_effective_blocks(isl_tokens, block_size),
        spec_effective_max_waiting(eps),
    )
}

/// The winner is one of the candidates.
pub proof fn lemma_best_endpoint_in(
    eps: Seq<Endpoint>,
    cfg: KvRouterConfig,
    ov: spec_fn(i64) -> int,
    blocks: int,
    maxw: int,
)
    ensures
        spec_best_endpoint(eps, cfg, ov, blocks, maxw) matches Some(e) ==> exists|k: int|
            0 <= k < eps.len() && eps[k] == e,
    decreases eps.len(),
{
    if eps.len() > 0 {
        lemma_best_endpoint_in(eps.drop_last(), cfg, ov, blocks, maxw);
        if spec_best_endpoint(eps, cfg, ov, blocks, maxw) == Some(eps.last()) {
            assert(eps[eps.len() - 1] == eps.last());
        } else {
            let e = spec_best_endpoint(eps.drop_last(), cfg, ov, blocks, maxw)->Some_0;
            let k = choose|k: int| 0 <= k < eps.drop_last().len() && eps.drop_last()[k] == e;
            assert(eps[k] == e);
        }
    }
}

/// The selection is a true argmax: no candidate beats the winner, and an
/// empty fleet is the only case with no winner. In particular every
/// endpoint of the snapshot is a candidate, whether or not the overlap map
/// mentions it.
pub proof fn lemma_best_endpoint_is_argmax(
    eps: Seq<Endpoint>,
    cfg: KvRouterConfig,
    ov: spec_fn(i64) -> int,
    blocks: int,
    maxw: int,
)
    ensures
        eps.len() > 0 <==> spec_best_endpoint(eps, cfg, ov, blocks, maxw) is Some,
        spec_best_endpoint(eps, cfg, ov, blocks, maxw) matches Some(e) ==> forall|k: int|
            0 <= k < eps.len() ==> !spec_better(cfg, #[trigger] eps[k], e, ov, blocks, maxw),
    decreases eps.len(),
{
    if eps.len() > 0 {
        lemma_best_endpoint_is_argmax(eps.drop_last(), cfg, ov, blocks, maxw);
        let e = spec_best_endpoint(eps, cfg, ov, blocks, maxw)->Some_0;
        assert forall|k: int| 0 <= k < eps.len() implies !spec_better(
            cfg,
            #[trigger] eps[k],
            e,
            ov,
            blocks,
            maxw,
        ) by {
            if k < eps.len() - 1 {
                assert(eps.drop_last()[k] == eps[k]);
            } else {
                assert(eps[k] == eps.last());
            }
        }
    }
}

/// Selection is deterministic: identical configuration, candidates, overlap
/// scores and query shape always produce the identical decision.
pub proof fn lemma_schedule_deterministic(
    cfg: KvRouterConfig,
    eps: Seq<Endpoint>,
    ov: spec_fn(i64) -> int,
    isl_tokens: int,
    block_size: int,
    r1: Option<Endpoint>,
    r2: Option<Endpoint>,
)
    requires
        r1 == spec_select(cfg, eps, ov, isl_tokens, block_size),
        r2 == spec_select(cfg, eps, ov, isl_tokens, block_size),
    ensures
        r1 == r2,
{
}

proof fn lemma_best_endpoint_congruence(
    eps: Seq<Endpoint>,
    cfg: KvRouterConfig,
    ov1: spec_fn(i64) -> int,
    ov2: spec_fn(i64) -> int,
    blocks: int,
    maxw: int,
)
    requires
        forall|w: i64| #[trigger] ov1(w) == ov2(w),
    ensures
        spec_best_endpoint(eps, cfg, ov1, blocks, maxw) == spec_best_endpoint(
            eps,
            cfg,
            ov2,
            blocks,
            maxw,
        ),
    decreases eps.len(),
{
    if eps.len() > 0 {
        lemma_best_endpoint_congruence(eps.drop_last(), cfg, ov1, ov2, blocks, maxw);
    }
}

/// Two overlap functions that agree on every worker produce the same
/// decision.
pub proof fn lemma_select_congruence(
    cfg: KvRouterConfig,
    eps: Seq<Endpoint>,
    ov1: spec_fn(i64) -> int,
    ov2: spec_fn(i64) -> int,
    isl_tokens: int,
    block_size: int,
)
    requires
        forall|w: i64| #[trigger] ov1(w) == ov2(w),
    ensures
        spec_select(cfg, eps, ov1, isl_tokens, block_size) == spec_select(
            cfg,
            eps,
            ov2,
            isl_tokens,
            block_size,
        ),
{
    lemma_best_endpoint_congruence(
        eps,
        cfg,
        ov1,
        ov2,
        spec_effective_blocks(isl_tokens, block_size),
        spec_effective_max_waiting(eps),
    );
}

/// A worker the overlap map does not mention is treated exactly as a worker
/// whose recorded overlap is zero: adding an explicit zero entry for it
/// changes no decision.
pub proof fn lemma_absent_worker_scored_zero(
    cfg: KvRouterConfig,
    eps: Seq<Endpoint>,
    scores: Map<i64, u32>,
    w: i64,
    isl_tokens: int,
    block_size: int,
)
    requires
        !scores.contains_key(w),
    ensures
        spec_select(cfg, eps, spec_overlap_fn(scores), isl_tokens, block_size) == spec_select(
            cfg,
            eps,
            spec_overlap_fn(scores.insert(w, 0u32)),
            isl_tokens,
            block_size,
        ),
{
    let ov1 = spec_overlap_fn(scores);
    let ov2 = spec_overlap_fn(scores.insert(w, 0u32));
    assert forall|w2: i64| #[trigger] ov1(w2) == ov2(w2) by {
        if w2 == w {
            assert(spec_overlap_of(scores, w2) == 0);
            assert(spec_overlap_of(scores.insert(w, 0u32), w2) == 0);
        }
    }
    lemma_best_endpoint_congruence(
        eps,
        cfg,
        ov1,
        ov2,
        spec_effective_blocks(isl_tokens, block_size),
        spec_effective_max_waiting(eps),
    );
}

fn score_of(cfg: &KvRouterConfig, e: &Endpoint, overlap: u32, blocks: u64, maxw: u64) -> (r: i128)
    requires
        e.wf(),
        1 <= blocks <= 0xFFFF_FFFFu64,
        1 <= maxw <= 0xFFFF_FFFFu64,
    ensures
        r == spec_score(*cfg, *e, overlap as int, blocks as int, maxw as int),
{
    let ow = cfg.overlap_score_weight as i128;
    let o = overlap as i128;
    let gw = cfg.gpu_cache_usage_weight as i128;
    let g = e.gpu_cache_usage_permille as i128;
    let ww = cfg.waiting_requests_weight as i128;
    let q = e.waiting_requests as i128;
    let b = blocks as i128;
    let m = maxw as i128;
    proof {
        assert(0 <= ow * o <= 0xFFFF_FFFFi128 * 0xFFFF_FFFF && 0 <= ow * o * 1000 <= 0xFFFF_FFFFi128
            * 0xFFFF_FFFF * 1000 && 0 <= ow * o * 1000 * m <= 0xFFFF_FFFFi128 * 0xFFFF_FFFF * 1000
            * 0xFFFF_FFFF) by (nonlinear_arith)
            requires
                0 <= ow <= 0xFFFF_FFFFi128,
                0 <= o <= 0xFFFF_FFFFi128,
                0 <= m <= 0xFFFF_FFFFi128,
        ;
        assert(0 <= gw * g <= 0xFFFF_FFFFi128 * 1000 && 0 <= gw * g * b <= 0xFFFF_FFFFi128 * 1000
            * 0xFFFF_FFFF && 0 <= gw * g * b * m <= 0xFFFF_FFFFi128 * 1000 * 0xFFFF_FFFF
            * 0xFFFF_FFFF) by (nonlinear_arith)
            requires
                0 <= gw <= 0xFFFF_FFFFi128,
                0 <= g <= 1000,
                0 <= b <= 0xFFFF_FFFFi128,
                0 <= m <= 0xFFFF_FFFFi128,
        ;
        assert(0 <= ww * q <= 0xFFFF_FFFFi128 * 0xFFFF_FFFF && 0 <= ww * q * b <= 0xFFFF_FFFFi128
            * 0xFFFF_FFFF * 0xFFFF_FFFF && 0 <= ww * q * b * 1000 <= 0xFFFF_FFFFi128 * 0xFFFF_FFFF
            * 0xFFFF_FFFF * 1000) by (nonlinear_arith)
            requires
                0 <= ww <= 0xFFFF_FFFFi128,
                0 <= q <= 0xFFFF_FFFFi128,
                0 <= b <= 0xFFFF_FFFFi128,
        ;
    }
    let t1 = ow * o * 1000 * m;
    let t2 = gw * g * b * m;
    let t3 = ww * q * b * 1000;
    t1 - t2 - t3
}

/// The default linear scoring strategy: rank every endpoint of the snapshot
/// and pick the maximum, ties to the lowest worker id. Fails exactly when
/// the snapshot is empty.
pub fn select_worker_default(
    config: &KvRouterConfig,
    workers: &ProcessedEndpoints,
    request: &SchedulingRequest,
    block_size: usize,
) -> (r: Result<WorkerSelectionResult, KvSchedulerError>)
    requires
        workers.wf(),
        block_size >= 1,
        request.isl_tokens <= u32::MAX,
    ensures
        workers.endpoints@.len() == 0 <==> r is Err,
        r matches Err(err) ==> err == KvSchedulerError::NoWorkersAvailable,
        r matches Ok(res) ==> spec_select(
            *config,
            workers.endpoints@,
            spec_overlap_fn(request.overlap.scores@),
            request.isl_tokens as int,
            block_size as int,
        ) matches Some(e) && res.worker_id == e.worker_id && res.overlap_blocks
            == spec_overlap_of(request.overlap.scores@, e.worker_id) && res.required_blocks
            == request.isl_tokens as int / block_size as int,
{
    let eps = &workers.endpoints;
    if eps.len() == 0 {
        return Err(KvSchedulerError::NoWorkersAvailable);
    }
    let mw = max_waiting(eps);
    let maxw: u64 = if mw == 0 {
        1
    } else {
        mw as u64
    };
    let blocks_raw: usize = request.isl_tokens / block_size;
    proof {
        vstd::arithmetic::div_mod::lemma_div_basics_5(
            request.isl_tokens as int,
            block_size as int,
        );
    }
    let blocks: u64 = if blocks_raw == 0 {
        1
    } else {
        blocks_raw as u64
    };
    let ghost ov = spec_overlap_fn(request.overlap.scores@);
    let mut best_id: i64 = 0;
    let mut best_score: i128 = 0;
    let mut best_overlap: u32 = 0;
    let ghost mut best_ep = workers.endpoints@[0];
    let mut i: usize = 0;
    while i < eps.len()
        invariant
            i <= eps@.len(),
            eps@.len() > 0,
            eps@ == workers.endpoints@,
            workers.wf(),
            ov == spec_overlap_fn(request.overlap.scores@),
            1 <= blocks <= 0xFFFF_FFFFu64,
            1 <= maxw <= 0xFFFF_FFFFu64,
            blocks as int == spec_effective_blocks(request.isl_tokens as int, block_size as int),
            maxw as int == spec_effective_max_waiting(eps@),
            i > 0 ==> spec_best_endpoint(eps@.take(i as int), *config, ov, blocks as int, maxw as int)
                == Some(best_ep),
            i > 0 ==> best_id == best_ep.worker_id,
            i > 0 ==> best_score == spec_score(
                *config,
                best_ep,
                ov(best_ep.worker_id),
                blocks as int,
                maxw as int,
            ),
            i > 0 ==> best_overlap == spec_overlap_of(request.overlap.scores@, best_ep.worker_id),
        decreases eps@.len() - i,
    {
        let e = eps[i];
        proof {
            assert(eps@[i as int].wf());
        }
        let ovr = match request.overlap.scores.get(&e.worker_id) {
            Some(c) => *c,
            None => 0,
        };
        proof {
            assert(ovr == spec_overlap_of(request.overlap.scores@, e.worker_id));
        }
        let s = score_of(config, &e, ovr, blocks, maxw);
        proof {
            assert(eps@.take(i + 1).drop_last() =~= eps@.take(i as int));
            assert(eps@.take(i + 1).last() == eps@[i as int]);
        }
        if i == 0 || s > best_score || (s == best_score && e.worker_id < best_id) {
            best_id = e.worker_id;
            best_score = s;
            best_overlap = ovr;
            proof {
                best_ep = e;
            }
        }
        i = i + 1;
    }
    proof {
        assert(eps@.take(eps@.len() as int) =~= eps@);
    }
    Ok(
        WorkerSelectionResult {
            worker_id: best_id,
            required_blocks: blocks_raw as u64,
            overlap_blocks: best_overlap,
        },
    )
}

/// The default strategy packaged behind the `WorkerSelector` capability.
pub struct DefaultWorkerSelector {
    pub config: KvRouterConfig,
}

impl WorkerSelector for DefaultWorkerSelector {
    fn select_worker(
        &self,
        workers: &ProcessedEndpoints,
        request: &SchedulingRequest,
        block_size: usize,
    ) -> (r: Result<WorkerSelectionResult, KvSchedulerError>) {
        let r = select_worker_default(&self.config, workers, request, block_size);
        proof {
            if r is Ok {
                lemma_best_endpoint_in(
                    workers.endpoints@,
                    self.config,
                    spec_overlap_fn(request.overlap.scores@),
                    spec_effective_blocks(request.isl_tokens as int, block_size as int),
                    spec_effective_max_waiting(workers.endpoints@),
                );
            }
        }
        r
    }
}

/// The scheduler: the configured weights plus the shared block size, ranking
/// candidates with the default policy.
pub struct KvScheduler {
    config: KvRouterConfig,
    block_size: usize,
}

impl KvScheduler {
    pub closed spec fn spec_config(self) -> KvRouterConfig {
        self.config
    }

    pub closed spec fn spec_block_size(self) -> usize {
        self.block_size
    }

    pub closed spec fn wf(self) -> bool {
        self.block_size >= 1
    }

    /// The configured weights.
    pub fn config(&self) -> (r: KvRouterConfig)
        ensures
            r == self.spec_config(),
    {
        self.config
    }

    /// Bring up a scheduler for a fleet whose queries are split with
    /// `block_size`.
    pub fn start(config: KvRouterConfig, block_size: usize) -> (r: KvScheduler)
        requires
            block_size >= 1,
        ensures
            r.wf(),
            r.spec_config() == config,
            r.spec_block_size() == block_size,
    {
        KvScheduler { config, block_size }
    }

    /// Pick the worker for one request under the default policy. Fails with
    /// `NoWorkersAvailable` exactly when the fleet snapshot is empty; it
    /// never falls back to an arbitrary worker.
    pub fn schedule(
        &self,
        overlap_scores: OverlapScores,
        isl_tokens: usize,
        endpoints: &ProcessedEndpoints,
    ) -> (r: Result<i64, KvSchedulerError>)
        requires
            self.wf(),
            endpoints.wf(),
            isl_tokens <= u32::MAX,
        ensures
            endpoints.endpoints@.len() == 0 <==> r is Err,
            r matches Err(err) ==> err == KvSchedulerError::NoWorkersAvailable,
            r matches Ok(id) ==> spec_select(
                self.spec_config(),
                endpoints.endpoints@,
                spec_overlap_fn(overlap_scores.scores@),
                isl_tokens as int,
                self.spec_block_size() as int,
            ) matches Some(e) && id == e.worker_id,
    {
        let request = SchedulingRequest { isl_tokens, overlap: overlap_scores };
        match select_worker_default(&self.config, endpoints, &request, self.block_size) {
            Ok(res) => Ok(res.worker_id),
            Err(err) => Err(err),
        }
    }

    /// Pick the worker for one request through an injected selection
    /// strategy; the decision then comes from that strategy, but is always
    /// one of the snapshot's workers.
    pub fn schedule_with<S: WorkerSelector>(
        &self,
        selector: &S,
        overlap_scores: OverlapScores,
        isl_tokens: usize,
        endpoints: &ProcessedEndpoints,
    ) -> (r: Result<i64, KvSchedulerError>)
        requires
            self.wf(),
            endpoints.wf(),
            isl_tokens <= u32::MAX,
        ensures
            r matches Ok(id) ==> exists|k: int|
                0 <= k < endpoints.endpoints@.len() && (#[trigger] endpoints.endpoints@[k]).worker_id
                    == id,
    {
        let request = SchedulingRequest { isl_tokens, overlap: overlap_scores };
        match selector.select_worker(endpoints, &request, self.block_size) {
            Ok(res) => Ok(res.worker_id),
            Err(err) => Err(err),
        }
    }
}

} // verus!
