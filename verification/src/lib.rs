//! KV-cache-aware worker selection for a distributed inference fleet.
//!
//! The crate decides, for each incoming request, which backend worker should
//! execute it: not by load alone, but by predicting which worker already holds
//! the largest prefix of the request's KV-cache blocks, fusing that overlap
//! estimate with live load metrics into a single ranking decision.

use vstd::prelude::*;

pub mod indexer;
pub mod metrics_aggregator;
pub mod protocols;
pub mod scheduler;
pub mod scoring;
pub mod tokens;

use crate::indexer::{prefix_match_len, spec_apply_event, spec_apply_events, spec_overlap_of, KvIndexer};
use crate::protocols::{RouterEvent, RouterRequest, RouterResponse, WorkerSelectionResult};
use crate::scheduler::{
    lemma_select_congruence, spec_overlap_fn, spec_select, KvScheduler, KvSchedulerError,
    SchedulingRequest,
};
use crate::scoring::{Endpoint, ProcessedEndpoints};
use crate::tokens::{spec_block_hashes, BLOCK_HASH_SEED};

verus! {

/// A capability users can implement to replace the default selection logic:
/// given the fleet snapshot and one request's scheduling inputs, pick a
/// worker. Whatever the strategy, a successful pick names a worker of the
/// snapshot.
pub trait WorkerSelector {
    fn select_worker(
        &self,
        workers: &ProcessedEndpoints,
        request: &SchedulingRequest,
        block_size: usize,
    ) -> (r: Result<WorkerSelectionResult, KvSchedulerError>)
        requires
            workers.wf(),
            block_size >= 1,
            request.isl_tokens <= u32::MAX,
        ensures
            r matches Ok(res) ==> exists|k: int|
                0 <= k < workers.endpoints@.len() && (#[trigger] workers.endpoints@[k]).worker_id
                    == res.worker_id,
    ;
}

/// Router configuration: three non-negative weights controlling the relative
/// influence of cache reuse versus load avoidance in worker scoring.
///
/// Weights are fixed-point values in thousandths (1000 stands for 1.0), so
/// that scoring stays exact integer arithmetic. Scaling all three weights by
/// the same factor does not change any ranking decision.
#[derive(Debug, Clone, Copy, PartialEq, Eq, Structural)]
pub struct KvRouterConfig {
    /// Weight for the overlap score. Higher values prioritize KV cache reuse.
    pub overlap_score_weight: u32,
    /// Weight for GPU cache usage. Higher values avoid workers whose KV
    /// caches are nearly full.
    pub gpu_cache_usage_weight: u32,
    /// Weight for waiting requests. Higher values avoid workers with queued
    /// requests.
    pub waiting_requests_weight: u32,
}

/// The default weight, standing for 1.0.
pub const DEFAULT_WEIGHT: u32 = 1000;

impl Default for KvRouterConfig {
    /// Every weight defaults independently to 1.0.
    fn default() -> (c: KvRouterConfig)
        ensures
            c.overlap_score_weight == DEFAULT_WEIGHT,
            c.gpu_cache_usage_weight == DEFAULT_WEIGHT,
            c.waiting_requests_weight == DEFAULT_WEIGHT,
    {
        KvRouterConfig {
            overlap_score_weight: DEFAULT_WEIGHT,
            gpu_cache_usage_weight: DEFAULT_WEIGHT,
            waiting_requests_weight: DEFAULT_WEIGHT,
        }
    }
}

impl KvRouterConfig {
    /// Create a configuration from optional weights; a weight left `None`
    /// takes its default value.
    pub fn new(
        overlap_score_weight: Option<u32>,
        gpu_cache_usage_weight: Option<u32>,
        waiting_requests_weight: Option<u32>,
    ) -> (c: KvRouterConfig)
        ensures
            c.overlap_score_weight == match overlap_score_weight {
                Some(w) => w,
                None => DEFAULT_WEIGHT,
            },
            c.gpu_cache_usage_weight == match gpu_cache_usage_weight {
                Some(w) => w,
                None => DEFAULT_WEIGHT,
            },
            c.waiting_requests_weight == match waiting_requests_weight {
                Some(w) => w,
                None => DEFAULT_WEIGHT,
            },
    {
        KvRouterConfig {
            overlap_score_weight: match overlap_score_weight {
                Some(w) => w,
                None => DEFAULT_WEIGHT,
            },
            gpu_cache_usage_weight: match gpu_cache_usage_weight {
                Some(w) => w,
                None => DEFAULT_WEIGHT,
            },
            waiting_requests_weight: match waiting_requests_weight {
                Some(w) => w,
                None => DEFAULT_WEIGHT,
            },
        }
    }
}

/// The routing engine: decides which worker should serve a request; it never
/// dispatches the request itself. It owns the cache-overlap index and the
/// scheduler; the fleet's metrics snapshot is handed in per decision.
pub struct KvRouter {
    indexer: KvIndexer,
    scheduler: KvScheduler,
    block_size: usize,
}

impl KvRouter {
    pub closed spec fn spec_indexer(self) -> KvIndexer {
        self.indexer
    }

    pub closed spec fn spec_config(self) -> KvRouterConfig {
        self.scheduler.spec_config()
    }

    pub closed spec fn spec_block_size(self) -> usize {
        self.block_size
    }

    pub closed spec fn wf(self) -> bool {
        &&& self.indexer.wf()
        &&& self.scheduler.wf()
        &&& self.block_size >= 1
        &&& self.indexer.spec_block_size() == self.block_size
        &&& self.scheduler.spec_block_size() == self.block_size
    }

    /// The block hashes a token sequence splits into under this router's
    /// block size and the fixed seed.
    pub open spec fn spec_query_hashes(self, tokens: Seq<u32>) -> Seq<u64> {
        spec_block_hashes(tokens, self.spec_block_size() as int, BLOCK_HASH_SEED)
    }

    /// The overlap the index predicts for one worker on one query: the
    /// length of the query's leading block run that the worker caches.
    pub open spec fn spec_overlap(self, tokens: Seq<u32>, w: i64) -> int {
        prefix_match_len(self.spec_query_hashes(tokens), self.spec_indexer().cached_set(w)) as int
    }

    /// The decision the whole pipeline makes for one query against one
    /// fleet snapshot: hash the tokens, look up overlaps, rank the workers.
    pub open spec fn spec_decision(self, tokens: Seq<u32>, eps: Seq<Endpoint>) -> Option<
        Endpoint,
    > {
        spec_select(
            self.spec_config(),
            eps,
            |w: i64| self.spec_overlap(tokens, w),
            tokens.len() as int,
            self.spec_block_size() as int,
        )
    }

    /// Bring up a router with an empty index.
    pub fn new(block_size: usize, config: KvRouterConfig) -> (r: KvRouter)
        requires
            block_size >= 1,
        ensures
            r.wf(),
            r.spec_block_size() == block_size,
            r.spec_config() == config,
            forall|w: i64, h: u64| !r.spec_indexer().cached(w, h),
    {
        KvRouter {
            indexer: KvIndexer::new(block_size),
            scheduler: KvScheduler::start(config, block_size),
            block_size,
        }
    }

    /// Get the block size this router was configured with.
    pub fn block_size(&self) -> (r: usize)
        ensures
            r == self.spec_block_size(),
    {
        self.block_size
    }

    /// Feed one decoded cache event into the index.
    pub fn apply_event(&mut self, e: &RouterEvent)
        requires
            old(self).wf(),
        ensures
            final(self).wf(),
            final(self).spec_block_size() == old(self).spec_block_size(),
            final(self).spec_config() == old(self).spec_config(),
            forall|w: i64, h: u64|
                final(self).spec_indexer().cached(w, h) == spec_apply_event(
                    old(self).spec_indexer().cached(w, h),
                    *e,
                    w,
                    h,
                ),
    {
        self.indexer.apply_event(e);
    }

    /// Feed a stream of decoded cache events into the index, in arrival
    /// order; malformed ones (`None`) are skipped and stop nothing.
    pub fn apply_events(&mut self, events: &Vec<Option<RouterEvent>>)
        requires
            old(self).wf(),
        ensures
            final(self).wf(),
            final(self).spec_block_size() == old(self).spec_block_size(),
            final(self).spec_config() == old(self).spec_config(),
            forall|w: i64, h: u64|
                final(self).spec_indexer().cached(w, h) == spec_apply_events(
                    old(self).spec_indexer().cached(w, h),
                    events@,
                    w,
                    h,
                ),
    {
        self.indexer.apply_events(events);
    }

    /// Decide which worker should serve these tokens; the returned id is the
    /// pipeline's winner for the given fleet snapshot. Fails exactly when
    /// the snapshot is empty.
    pub fn schedule(
        &self,
        token_ids: &Vec<u32>,
        _lora_id: u64,
        endpoints: &ProcessedEndpoints,
    ) -> (r: Result<i64, KvSchedulerError>)
        requires
            self.wf(),
            endpoints.wf(),
            token_ids@.len() <= u32::MAX,
        ensures
            endpoints.endpoints@.len() == 0 <==> r is Err,
            r matches Err(err) ==> err == KvSchedulerError::NoWorkersAvailable,
            r matches Ok(id) ==> self.spec_decision(token_ids@, endpoints.endpoints@) matches Some(
                e,
            ) && id == e.worker_id,
    {
        match self.find_best_match(token_ids.as_slice(), endpoints) {
            Ok((worker_id, _overlap_amount)) => Ok(worker_id),
            Err(err) => Err(err),
        }
    }

    /// Decide which worker should serve these tokens through an injected
    /// selection strategy instead of the default policy. The decision is
    /// then the strategy's, but always names a worker of the snapshot.
    pub fn schedule_with<S: WorkerSelector>(
        &self,
        selector: &S,
        token_ids: &Vec<u32>,
        _lora_id: u64,
        endpoints: &ProcessedEndpoints,
    ) -> (r: Result<i64, KvSchedulerError>)
        requires
            self.wf(),
            endpoints.wf(),
            token_ids@.len() <= u32::MAX,
        ensures
            r matches Ok(id) ==> exists|k: int|
                0 <= k < endpoints.endpoints@.len() && (#[trigger] endpoints.endpoints@[k]).worker_id
                    == id,
    {
        let overlap_scores = self.indexer.find_matches_for_request(token_ids.as_slice());
        self.scheduler.schedule_with(selector, overlap_scores, token_ids.len(), endpoints)
    }

    /// Given these tokens, find the worker with the best match in its KV
    /// cache. The returned overlap amount is in number of blocks: how many
    /// of the query's leading blocks the winner already holds.
    pub fn find_best_match(&self, tokens: &[u32], endpoints: &ProcessedEndpoints) -> (r: Result<
        (i64, u32),
        KvSchedulerError,
    >)
        requires
            self.wf(),
            endpoints.wf(),
            tokens@.len() <= u32::MAX,
        ensures
            endpoints.endpoints@.len() == 0 <==> r is Err,
            r matches Err(err) ==> err == KvSchedulerError::NoWorkersAvailable,
            r matches Ok(sel) ==> self.spec_decision(tokens@, endpoints.endpoints@) matches Some(e)
                && sel.0 == e.worker_id && sel.1 as int == self.spec_overlap(tokens@, e.worker_id),
    {
        let isl_tokens = tokens.len();
        let overlap_scores = self.indexer.find_matches_for_request(tokens);
        let ghost scores = overlap_scores.scores@;
        proof {
            assert forall|w: i64| #[trigger]
                spec_overlap_fn(scores)(w) == self.spec_overlap(tokens@, w) by {
                assert(spec_overlap_of(scores, w) as nat == prefix_match_len(
                    self.spec_query_hashes(tokens@),
                    self.spec_indexer().cached_set(w),
                ));
            }
            lemma_select_congruence(
                self.spec_config(),
                endpoints.endpoints@,
                spec_overlap_fn(scores),
                |w: i64| self.spec_overlap(tokens@, w),
                isl_tokens as int,
                self.spec_block_size() as int,
            );
        }
        let request = SchedulingRequest { isl_tokens, overlap: overlap_scores };
        let config = self.scheduler.config();
        match crate::scheduler::select_worker_default(&config, endpoints, &request, self.block_size)
        {
            Ok(res) => Ok((res.worker_id, res.overlap_blocks)),
            Err(err) => Err(err),
        }
    }

    /// Serve the router's request/response contract: compute the decision
    /// for the request's tokens and emit exactly one response carrying the
    /// chosen worker id. The response sequence is always length one; it is a
    /// sequence only to satisfy the uniform streaming transport contract.
    pub fn generate(&self, request: &RouterRequest, endpoints: &ProcessedEndpoints) -> (r: Result<
        Vec<RouterResponse>,
        KvSchedulerError,
    >)
        requires
            self.wf(),
            endpoints.wf(),
            request.tokens@.len() <= u32::MAX,
        ensures
            endpoints.endpoints@.len() == 0 <==> r is Err,
            r matches Err(err) ==> err == KvSchedulerError::NoWorkersAvailable,
            r matches Ok(v) ==> v@.len() == 1 && (self.spec_decision(
                request.tokens@,
                endpoints.endpoints@,
            ) matches Some(e) && v@[0].worker_id == e.worker_id),
    {
        match self.find_best_match(request.tokens.as_slice(), endpoints) {
            Ok((worker_id, _overlap_amount)) => {
                let mut responses: Vec<RouterResponse> = Vec::new();
                responses.push(RouterResponse { worker_id });
                Ok(responses)
            },
            Err(err) => Err(err),
        }
    }
}

/// How the backend's worker set is discovered: fixed at deployment, or
/// dynamically leased and observable. KV-aware routing needs the dynamic
/// mode, since only a leased worker set publishes cache events and metrics.
#[derive(Debug, Clone, Copy, PartialEq, Eq, Structural)]
pub enum InstanceSource {
    Static,
    Dynamic,
}

/// What the push router decides to do with one request.
#[derive(Debug, Clone, Copy, PartialEq, Eq, Structural)]
pub enum PushDecision {
    /// Dispatch through the plain static fan-out path, bypassing KV-aware
    /// routing entirely.
    Static,
    /// Dispatch directly to the chosen instance, with the request annotated
    /// with the predicted number of already-cached prefix blocks so the
    /// execution engine can skip redundant prefill work.
    Direct { instance_id: i64, estimated_prefix_hit_num_blocks: u32 },
}

/// The request-time integration point: decides whether KV-aware routing
/// applies at all, and if so annotates the dispatch with the predicted
/// prefix hit.
pub struct KvPushRouter {
    instance_source: InstanceSource,
    chooser: KvRouter,
}

impl KvPushRouter {
    pub closed spec fn spec_instance_source(self) -> InstanceSource {
        self.instance_source
    }

    pub closed spec fn spec_chooser(self) -> KvRouter {
        self.chooser
    }

    pub closed spec fn wf(self) -> bool {
        self.chooser.wf()
    }

    /// Wrap a router for a backend whose worker set is discovered as
    /// `instance_source` says.
    pub fn new(instance_source: InstanceSource, chooser: KvRouter) -> (r: KvPushRouter)
        requires
            chooser.wf(),
        ensures
            r.wf(),
            r.spec_instance_source() == instance_source,
            r.spec_chooser() == chooser,
    {
        KvPushRouter { instance_source, chooser }
    }

    /// Decide one request's dispatch. In static mode the decision is always
    /// the plain static path: it consults neither the index nor the
    /// scheduler. In dynamic mode it is the router's best match, annotated
    /// with the estimated prefix hit, and fails exactly when the fleet
    /// snapshot is empty.
    pub fn generate(&self, token_ids: &Vec<u32>, endpoints: &ProcessedEndpoints) -> (r: Result<
        PushDecision,
        KvSchedulerError,
    >)
        requires
            self.wf(),
            endpoints.wf(),
            token_ids@.len() <= u32::MAX,
        ensures
            self.spec_instance_source() == InstanceSource::Static ==> r == Ok::<
                PushDecision,
                KvSchedulerError,
            >(PushDecision::Static),
            self.spec_instance_source() == InstanceSource::Dynamic ==> {
                &&& (endpoints.endpoints@.len() == 0 <==> r is Err)
                &&& (r matches Err(err) ==> err == KvSchedulerError::NoWorkersAvailable)
                &&& (r matches Ok(d) ==> (self.spec_chooser().spec_decision(
                    token_ids@,
                    endpoints.endpoints@,
                ) matches Some(e) && d == (PushDecision::Direct {
                    instance_id: e.worker_id,
                    estimated_prefix_hit_num_blocks: (self.spec_chooser().spec_overlap(
                        token_ids@,
                        e.worker_id,
                    ) as u32),
                })))
            },
    {
        match self.instance_source {
            InstanceSource::Static => Ok(PushDecision::Static),
            InstanceSource::Dynamic => {
                match self.chooser.find_best_match(token_ids.as_slice(), endpoints) {
                    Ok((instance_id, overlap_amount)) => {
                        proof {
                            let e = self.spec_chooser().spec_decision(
                                token_ids@,
                                endpoints.endpoints@,
                            )->Some_0;
                            assert(overlap_amount as int == self.spec_chooser().spec_overlap(
                                token_ids@,
                                e.worker_id,
                            ));
                        }
                        Ok(
                            PushDecision::Direct {
                                instance_id,
                                estimated_prefix_hit_num_blocks: overlap_amount,
                            },
                        )
                    },
                    Err(err) => Err(err),
                }
            },
        }
    }
}

} // verus!
