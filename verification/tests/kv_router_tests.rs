use std::collections::HashMap;

use kv_router::indexer::{KvIndexer, OverlapScores};
use kv_router::metrics_aggregator::KvMetricsAggregator;
use kv_router::protocols::{CacheOp, LocalBlockHash, RouterEvent, RouterRequest};
use kv_router::scheduler::{DefaultWorkerSelector, KvScheduler, KvSchedulerError};
use kv_router::scoring::{Endpoint, ProcessedEndpoints};
use kv_router::tokens::{split_tokens, BLOCK_HASH_SEED, HASH_MULTIPLIER};
use kv_router::{InstanceSource, KvPushRouter, KvRouter, KvRouterConfig, PushDecision};

fn endpoint(worker_id: i64, gpu_permille: u32, waiting: u32) -> Endpoint {
    Endpoint {
        worker_id,
        gpu_cache_usage_permille: gpu_permille,
        waiting_requests: waiting,
    }
}

fn fleet(eps: Vec<Endpoint>) -> ProcessedEndpoints {
    ProcessedEndpoints { endpoints: eps }
}

fn overlaps(entries: &[(i64, u32)]) -> OverlapScores {
    let mut scores: HashMap<i64, u32> = HashMap::new();
    for (w, c) in entries {
        scores.insert(*w, *c);
    }
    OverlapScores { scores }
}

fn store_event(worker_id: i64, hashes: &[u64]) -> RouterEvent {
    RouterEvent {
        worker_id,
        op: CacheOp::Store,
        block_hashes: hashes.iter().map(|h| LocalBlockHash(*h)).collect(),
    }
}

fn remove_event(worker_id: i64, hashes: &[u64]) -> RouterEvent {
    RouterEvent {
        worker_id,
        op: CacheOp::Remove,
        block_hashes: hashes.iter().map(|h| LocalBlockHash(*h)).collect(),
    }
}

fn get_score(scores: &OverlapScores, worker_id: i64) -> u32 {
    scores.scores.get(&worker_id).copied().unwrap_or(0)
}

#[test]
fn split_tokens_block_count_and_partial() {
    let tokens: Vec<u32> = vec![10, 11, 12, 13, 14];
    let (hashes, partial) = split_tokens(&tokens, 2, BLOCK_HASH_SEED);
    assert_eq!(hashes.len(), 2);
    assert_eq!(partial, vec![14]);

    let (hashes, partial) = split_tokens(&tokens, 5, BLOCK_HASH_SEED);
    assert_eq!(hashes.len(), 1);
    assert!(partial.is_empty());

    let (hashes, partial) = split_tokens(&[], 4, BLOCK_HASH_SEED);
    assert!(hashes.is_empty());
    assert!(partial.is_empty());
}

#[test]
fn split_tokens_exact_chained_hash() {
    // The chained hash folds each token into the running state; a block's
    // hash is the state at its boundary, so it carries the whole prefix.
    let tokens: Vec<u32> = vec![7, 9];
    let s1 = (BLOCK_HASH_SEED ^ 7u64).wrapping_mul(HASH_MULTIPLIER);
    let s2 = (s1 ^ 9u64).wrapping_mul(HASH_MULTIPLIER);
    let (hashes, _) = split_tokens(&tokens, 1, BLOCK_HASH_SEED);
    assert_eq!(hashes, vec![LocalBlockHash(s1), LocalBlockHash(s2)]);
    let (hashes, _) = split_tokens(&tokens, 2, BLOCK_HASH_SEED);
    assert_eq!(hashes, vec![LocalBlockHash(s2)]);
}

#[test]
fn split_tokens_round_trip_deterministic() {
    let tokens: Vec<u32> = (0..37).map(|t| t * 3 + 1).collect();
    let (h1, p1) = split_tokens(&tokens, 4, BLOCK_HASH_SEED);
    let (h2, p2) = split_tokens(&tokens, 4, BLOCK_HASH_SEED);
    assert_eq!(h1, h2);
    assert_eq!(p1, p2);
    // A shared prefix up to a block boundary shares its block hashes.
    let longer: Vec<u32> = tokens.iter().copied().chain([99, 98, 97]).collect();
    let (h3, _) = split_tokens(&longer, 4, BLOCK_HASH_SEED);
    assert_eq!(&h3[..h1.len()], &h1[..]);
    // A different seed changes the hashes.
    let (h4, _) = split_tokens(&tokens, 4, BLOCK_HASH_SEED + 1);
    assert_ne!(h1, h4);
}

#[test]
fn indexer_prefix_match_stops_at_first_miss() {
    let mut indexer = KvIndexer::new(4);
    indexer.apply_event(&store_event(1, &[101, 102]));
    let scores = indexer.find_matches(vec![
        LocalBlockHash(101),
        LocalBlockHash(102),
        LocalBlockHash(103),
    ]);
    // The worker holds the first two of three hashes: overlap 2, not 3, not 0.
    assert_eq!(get_score(&scores, 1), 2);
}

#[test]
fn indexer_prefix_match_zero_when_first_block_missing() {
    let mut indexer = KvIndexer::new(4);
    // Holds the second and third hash but not the first: no usable prefix.
    indexer.apply_event(&store_event(1, &[102, 103]));
    let scores = indexer.find_matches(vec![
        LocalBlockHash(101),
        LocalBlockHash(102),
        LocalBlockHash(103),
    ]);
    assert_eq!(get_score(&scores, 1), 0);
    assert!(!scores.scores.contains_key(&1));
}

#[test]
fn indexer_empty_query_yields_empty_map() {
    let mut indexer = KvIndexer::new(4);
    indexer.apply_event(&store_event(1, &[101]));
    let scores = indexer.find_matches(vec![]);
    assert!(scores.scores.is_empty());
}

#[test]
fn indexer_store_then_remove_leaves_no_entry() {
    let mut indexer = KvIndexer::new(4);
    indexer.apply_event(&store_event(1, &[101]));
    indexer.apply_event(&remove_event(1, &[101]));
    let scores = indexer.find_matches(vec![LocalBlockHash(101)]);
    assert_eq!(get_score(&scores, 1), 0);
    assert!(scores.scores.is_empty());
}

#[test]
fn indexer_remove_only_touches_named_worker() {
    let mut indexer = KvIndexer::new(4);
    indexer.apply_event(&store_event(1, &[101]));
    indexer.apply_event(&store_event(2, &[101]));
    indexer.apply_event(&remove_event(1, &[101]));
    let scores = indexer.find_matches(vec![LocalBlockHash(101)]);
    assert_eq!(get_score(&scores, 1), 0);
    assert_eq!(get_score(&scores, 2), 1);
}

#[test]
fn indexer_skips_malformed_events_and_stays_alive() {
    // A malformed payload decodes to None; interleaved with valid events it
    // changes nothing, and later events are still applied.
    let mut indexer = KvIndexer::new(4);
    let events: Vec<Option<RouterEvent>> = vec![
        Some(store_event(1, &[101, 102])),
        None,
        Some(store_event(2, &[101])),
        None,
    ];
    indexer.apply_events(&events);
    let scores = indexer.find_matches(vec![LocalBlockHash(101), LocalBlockHash(102)]);
    assert_eq!(get_score(&scores, 1), 2);
    assert_eq!(get_score(&scores, 2), 1);
    // Still ingesting after the malformed ones.
    indexer.apply_event(&store_event(2, &[102]));
    let scores = indexer.find_matches(vec![LocalBlockHash(101), LocalBlockHash(102)]);
    assert_eq!(get_score(&scores, 2), 2);
}

#[test]
fn indexer_find_matches_for_request_hashes_internally() {
    let tokens: Vec<u32> = vec![1, 2, 3, 4, 5, 6, 7];
    let (hashes, _) = split_tokens(&tokens, 2, BLOCK_HASH_SEED);
    assert_eq!(hashes.len(), 3);
    let mut indexer = KvIndexer::new(2);
    indexer.apply_event(&RouterEvent {
        worker_id: 5,
        op: CacheOp::Store,
        block_hashes: hashes.clone(),
    });
    let scores = indexer.find_matches_for_request(&tokens);
    assert_eq!(get_score(&scores, 5), 3);
}

#[test]
fn config_defaults_and_overrides() {
    let d = KvRouterConfig::default();
    assert_eq!(d.overlap_score_weight, 1000);
    assert_eq!(d.gpu_cache_usage_weight, 1000);
    assert_eq!(d.waiting_requests_weight, 1000);
    let c = KvRouterConfig::new(Some(2000), None, Some(500));
    assert_eq!(c.overlap_score_weight, 2000);
    assert_eq!(c.gpu_cache_usage_weight, 1000);
    assert_eq!(c.waiting_requests_weight, 500);
}

#[test]
fn scheduler_is_deterministic() {
    let scheduler = KvScheduler::start(KvRouterConfig::default(), 2);
    let eps = fleet(vec![endpoint(1, 300, 2), endpoint(2, 200, 5), endpoint(3, 900, 0)]);
    let first = scheduler
        .schedule(overlaps(&[(1, 2), (3, 1)]), 8, &eps)
        .unwrap();
    for _ in 0..10 {
        let again = scheduler
            .schedule(overlaps(&[(1, 2), (3, 1)]), 8, &eps)
            .unwrap();
        assert_eq!(first, again);
    }
}

#[test]
fn scheduler_keeps_workers_missing_from_overlap_map() {
    let scheduler = KvScheduler::start(KvRouterConfig::default(), 2);
    // Worker 7 is absent from the overlap map but idle; worker 1 has overlap
    // but is heavily loaded. Worker 7 must stay a candidate and win.
    let eps = fleet(vec![endpoint(1, 1000, 9), endpoint(7, 0, 0)]);
    let chosen = scheduler.schedule(overlaps(&[(1, 1)]), 8, &eps).unwrap();
    assert_eq!(chosen, 7);
    // And with an empty overlap map the decision still names a worker.
    let chosen = scheduler.schedule(overlaps(&[]), 8, &eps).unwrap();
    assert_eq!(chosen, 7);
}

#[test]
fn scheduler_empty_fleet_fails_without_default_id() {
    let scheduler = KvScheduler::start(KvRouterConfig::default(), 2);
    let eps = fleet(vec![]);
    let r = scheduler.schedule(overlaps(&[(1, 2)]), 8, &eps);
    assert_eq!(r, Err(KvSchedulerError::NoWorkersAvailable));
}

#[test]
fn scheduler_prefers_higher_overlap_when_load_equal() {
    // Fleet of two idle workers; A (id 1) matched two blocks, B (id 2) one.
    let scheduler = KvScheduler::start(KvRouterConfig::default(), 2);
    let eps = fleet(vec![endpoint(1, 0, 0), endpoint(2, 0, 0)]);
    let chosen = scheduler
        .schedule(overlaps(&[(1, 2), (2, 1)]), 4, &eps)
        .unwrap();
    assert_eq!(chosen, 1);
}

#[test]
fn scheduler_heavy_gpu_weight_overrides_overlap() {
    // Same overlap map, but A reports GPU usage 0.95 and B 0.1, and the GPU
    // weight is large relative to the overlap weight: B wins despite the
    // smaller overlap.
    let config = KvRouterConfig::new(Some(1000), Some(100_000), None);
    let scheduler = KvScheduler::start(config, 2);
    let eps = fleet(vec![endpoint(1, 950, 0), endpoint(2, 100, 0)]);
    let chosen = scheduler
        .schedule(overlaps(&[(1, 2), (2, 1)]), 4, &eps)
        .unwrap();
    assert_eq!(chosen, 2);
}

#[test]
fn scheduler_ties_break_to_lowest_worker_id() {
    let scheduler = KvScheduler::start(KvRouterConfig::default(), 2);
    let eps = fleet(vec![endpoint(9, 0, 0), endpoint(4, 0, 0), endpoint(6, 0, 0)]);
    let chosen = scheduler.schedule(overlaps(&[]), 8, &eps).unwrap();
    assert_eq!(chosen, 4);
}

#[test]
fn scheduler_penalizes_queue_depth() {
    let scheduler = KvScheduler::start(KvRouterConfig::default(), 2);
    let eps = fleet(vec![endpoint(1, 0, 8), endpoint(2, 0, 0)]);
    let chosen = scheduler.schedule(overlaps(&[]), 8, &eps).unwrap();
    assert_eq!(chosen, 2);
}

#[test]
fn scheduler_with_injected_default_selector_matches_default_policy() {
    let config = KvRouterConfig::default();
    let scheduler = KvScheduler::start(config, 2);
    let selector = DefaultWorkerSelector { config };
    let eps = fleet(vec![endpoint(1, 0, 0), endpoint(2, 0, 0)]);
    let via_selector = scheduler
        .schedule_with(&selector, overlaps(&[(2, 2)]), 4, &eps)
        .unwrap();
    let direct = scheduler.schedule(overlaps(&[(2, 2)]), 4, &eps).unwrap();
    assert_eq!(via_selector, direct);
    assert_eq!(via_selector, 2);
}

#[test]
fn router_schedule_with_injected_selector_names_a_fleet_worker() {
    let config = KvRouterConfig::default();
    let router = KvRouter::new(2, config);
    let selector = DefaultWorkerSelector { config };
    let eps = fleet(vec![endpoint(8, 0, 0), endpoint(3, 0, 0)]);
    let chosen = router
        .schedule_with(&selector, &vec![1, 2, 3, 4], 0, &eps)
        .unwrap();
    assert!(chosen == 8 || chosen == 3);
    // No overlap anywhere and equal load: the tie breaks to the lowest id.
    assert_eq!(chosen, 3);
}

#[test]
fn metrics_aggregator_replaces_and_extends() {
    let mut agg = KvMetricsAggregator::new();
    agg.update_endpoint(1, 100, 3);
    agg.update_endpoint(2, 200, 0);
    agg.update_endpoint(1, 500, 7);
    let snap = agg.endpoints_snapshot();
    assert_eq!(snap.endpoints.len(), 2);
    let e1 = snap.endpoints.iter().find(|e| e.worker_id == 1).unwrap();
    assert_eq!(e1.gpu_cache_usage_permille, 500);
    assert_eq!(e1.waiting_requests, 7);
    let e2 = snap.endpoints.iter().find(|e| e.worker_id == 2).unwrap();
    assert_eq!(e2.gpu_cache_usage_permille, 200);
    assert_eq!(e2.waiting_requests, 0);
}

#[test]
fn router_end_to_end_prefers_cache_overlap() {
    // Worker A caches the query's two blocks, worker B only the first; both
    // idle, default weights: A wins and the overlap amount is 2 blocks.
    let tokens: Vec<u32> = vec![1, 2, 3, 4];
    let (hashes, _) = split_tokens(&tokens, 2, BLOCK_HASH_SEED);
    assert_eq!(hashes.len(), 2);
    let h: Vec<u64> = hashes.iter().map(|b| b.0).collect();

    let mut router = KvRouter::new(2, KvRouterConfig::default());
    router.apply_event(&store_event(10, &[h[0], h[1]]));
    router.apply_event(&store_event(20, &[h[0]]));
    let eps = fleet(vec![endpoint(10, 0, 0), endpoint(20, 0, 0)]);

    let (worker_id, overlap_amount) = router.find_best_match(&tokens, &eps).unwrap();
    assert_eq!(worker_id, 10);
    assert_eq!(overlap_amount, 2);

    let chosen = router.schedule(&tokens, 0, &eps).unwrap();
    assert_eq!(chosen, 10);
}

#[test]
fn router_schedule_fails_on_empty_fleet() {
    let router = KvRouter::new(2, KvRouterConfig::default());
    let eps = fleet(vec![]);
    let r = router.schedule(&vec![1, 2, 3, 4], 0, &eps);
    assert_eq!(r, Err(KvSchedulerError::NoWorkersAvailable));
}

#[test]
fn router_generate_emits_exactly_one_response() {
    let mut router = KvRouter::new(2, KvRouterConfig::default());
    let tokens: Vec<u32> = vec![5, 6, 7, 8];
    let (hashes, _) = split_tokens(&tokens, 2, BLOCK_HASH_SEED);
    router.apply_event(&store_event(3, &[hashes[0].0]));
    let eps = fleet(vec![endpoint(3, 0, 0), endpoint(4, 0, 0)]);
    let request = RouterRequest { tokens };
    let responses = router.generate(&request, &eps).unwrap();
    assert_eq!(responses.len(), 1);
    assert_eq!(responses[0].worker_id, 3);
}

#[test]
fn router_block_size_getter() {
    let router = KvRouter::new(16, KvRouterConfig::default());
    assert_eq!(router.block_size(), 16);
}

#[test]
fn push_router_static_mode_bypasses_kv_routing() {
    // Static instance discovery: the decision is always the static path,
    // whatever the index holds and even against an empty fleet.
    let mut chooser = KvRouter::new(2, KvRouterConfig::default());
    chooser.apply_event(&store_event(1, &[42]));
    let push = KvPushRouter::new(InstanceSource::Static, chooser);
    let eps = fleet(vec![]);
    let decision = push.generate(&vec![1, 2, 3, 4], &eps).unwrap();
    assert_eq!(decision, PushDecision::Static);
}

#[test]
fn push_router_dynamic_mode_annotates_prefix_hit() {
    let tokens: Vec<u32> = vec![1, 2, 3, 4, 5, 6];
    let (hashes, _) = split_tokens(&tokens, 2, BLOCK_HASH_SEED);
    let h: Vec<u64> = hashes.iter().map(|b| b.0).collect();
    let mut chooser = KvRouter::new(2, KvRouterConfig::default());
    chooser.apply_event(&store_event(1, &[h[0], h[1]]));
    let push = KvPushRouter::new(InstanceSource::Dynamic, chooser);
    let eps = fleet(vec![endpoint(1, 0, 0), endpoint(2, 0, 0)]);
    let decision = push.generate(&tokens, &eps).unwrap();
    assert_eq!(
        decision,
        PushDecision::Direct { instance_id: 1, estimated_prefix_hit_num_blocks: 2 }
    );
}

#[test]
fn push_router_dynamic_mode_propagates_empty_fleet_error() {
    let chooser = KvRouter::new(2, KvRouterConfig::default());
    let push = KvPushRouter::new(InstanceSource::Dynamic, chooser);
    let eps = fleet(vec![]);
    let r = push.generate(&vec![1, 2, 3, 4], &eps);
    assert_eq!(r, Err(KvSchedulerError::NoWorkersAvailable));
}
