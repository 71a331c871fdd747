//! The content-addressed cache-overlap index.
//!
//! `KvIndexer` maintains an eventually-consistent mapping from block hash to
//! the workers caching that block, fed by `RouterEvent`s, and answers overlap
//! queries: for a query's ordered block-hash sequence, how many leading
//! blocks each worker already holds. The match run stops at the first hash a
//! worker does not have, because KV caches are prefix-structured: a worker
//! missing block `k` cannot serve block `k + 1` from cache.

use std::collections::HashMap;
use vstd::prelude::*;
use crate::protocols::{CacheOp, LocalBlockHash, RouterEvent};
use crate::tokens::{split_tokens, spec_block_hashes, BLOCK_HASH_SEED};

verus! {

broadcast use vstd::std_specs::hash::group_hash_axioms;

/// Mapping from worker identifier to the number of matched leading blocks of
/// one query. Built fresh per request, never persisted. A worker absent from
/// the map matched no leading block.
pub struct OverlapScores {
    pub scores: HashMap<i64, u32>,
}

/// The matched-block count the map records for a worker: its entry, or zero
/// when the worker is absent.
pub open spec fn spec_overlap_of(scores: Map<i64, u32>, w: i64) -> u32 {
    if scores.contains_key(w) {
        scores[w]
    } else {
        0u32
    }
}

/// The raw hash values of a sequence of block hashes.
pub open spec fn hashes_of(hs: Seq<LocalBlockHash>) -> Seq<u64> {
    hs.map_values(|b: LocalBlockHash| b.0)
}

/// Whether a worker caches a block, according to an index mapping.
pub open spec fn map_cached(m: Map<u64, Vec<i64>>, w: i64, h: u64) -> bool {
    m.contains_key(h) && m[h]@.contains(w)
}

/// Index hygiene: every hash entry names at least one worker (entries left
/// with no workers are pruned) and names no worker twice.
pub open spec fn index_wf(m: Map<u64, Vec<i64>>) -> bool {
    forall|h: u64| #[trigger]
        m.contains_key(h) ==> m[h]@.len() > 0 && m[h]@.no_duplicates()
}

/// Length of the matching prefix: how many leading hashes of `q` are all
/// present in `cached`.
pub open spec fn prefix_match_len(q: Seq<u64>, cached: Set<u64>) -> nat
    decreases q.len(),
{
    if q.len() == 0 {
        0
    } else if cached.contains(q[0]) {
        1 + prefix_match_len(q.drop_first(), cached)
    } else {
        0
    }
}

/// What one mutation does to one worker/hash pair, given the operation, the
/// mutating worker and the affected hashes: a store adds the hashes to that
/// worker, a remove discards them.
pub open spec fn spec_apply_op(prev: bool, op: CacheOp, wid: i64, hs: Seq<u64>, w: i64, h: u64) -> bool {
    match op {
        CacheOp::Store => prev || (w == wid && hs.contains(h)),
        CacheOp::Remove => prev && !(w == wid && hs.contains(h)),
    }
}

/// What one event does to one worker/hash pair of the index.
pub open spec fn spec_apply_event(prev: bool, e: RouterEvent, w: i64, h: u64) -> bool {
    spec_apply_op(prev, e.op, e.worker_id, hashes_of(e.block_hashes@), w, h)
}

/// What a whole stream of decoded events does to one worker/hash pair, in
/// arrival order; an event that failed decoding (`None`) changes nothing.
pub open spec fn spec_apply_events(
    prev: bool,
    evs: Seq<Option<RouterEvent>>,
    w: i64,
    h: u64,
) -> bool
    decreases evs.len(),
{
    if evs.len() == 0 {
        prev
    } else {
        match evs.last() {
            Some(e) => spec_apply_event(spec_apply_events(prev, evs.drop_last(), w, h), e, w, h),
            None => spec_apply_events(prev, evs.drop_last(), w, h),
        }
    }
}

proof fn lemma_push_contains<A>(s: Seq<A>, x: A, y: A)
    ensures
        s.push(x).contains(y) <==> (s.contains(y) || y == x),
{
    if s.contains(y) {
        let i = choose|i: int| 0 <= i < s.len() && s[i] == y;
        assert(s.push(x)[i] == y);
    }
    if y == x {
        assert(s.push(x)[s.len() as int] == y);
    }
    if s.push(x).contains(y) {
        let i = choose|i: int| 0 <= i < s.push(x).len() && s.push(x)[i] == y;
        if i < s.len() {
            assert(s[i] == y);
        }
    }
}

proof fn lemma_push_no_dup(s: Seq<i64>, x: i64)
    requires
        s.no_duplicates(),
        !s.contains(x),
    ensures
        s.push(x).no_duplicates(),
{
    assert forall|i: int, j: int|
        0 <= i < s.push(x).len() && 0 <= j < s.push(x).len() && i != j implies s.push(x)[i]
        != s.push(x)[j] by {
        if i < s.len() && j < s.len() {
        } else if i < s.len() {
            assert(s[i] == s.push(x)[i]);
            if s.push(x)[i] == x {
                assert(s.contains(x));
            }
        } else if j < s.len() {
            assert(s[j] == s.push(x)[j]);
            if s.push(x)[j] == x {
                assert(s.contains(x));
            }
        }
    }
}

/// How the matching prefix grows by one query position: it reaches `i + 1`
/// exactly when every hash so far matched and the new one does too.
proof fn lemma_prefix_step(q: Seq<u64>, c: Set<u64>, i: int)
    requires
        0 <= i < q.len(),
    ensures
        prefix_match_len(q.take(i + 1), c) == if prefix_match_len(q.take(i), c) == i
            && c.contains(q[i]) {
            (i + 1) as nat
        } else {
            prefix_match_len(q.take(i), c)
        },
    decreases i,
{
    if i == 0 {
        assert(q.take(1)[0] == q[0]);
        assert(q.take(1).drop_first() =~= q.take(0));
    } else {
        let qd = q.drop_first();
        lemma_prefix_step(qd, c, i - 1);
        assert(qd[i - 1] == q[i]);
        assert(q.take(i + 1)[0] == q[0]);
        assert(q.take(i)[0] == q[0]);
        assert(q.take(i + 1).drop_first() =~= qd.take(i));
        assert(q.take(i).drop_first() =~= qd.take(i - 1));
    }
}

/// The matching prefix is never longer than the query.
proof fn lemma_prefix_le(q: Seq<u64>, c: Set<u64>)
    ensures
        prefix_match_len(q, c) <= q.len(),
    decreases q.len(),
{
    if q.len() > 0 && c.contains(q[0]) {
        lemma_prefix_le(q.drop_first(), c);
    }
}

/// What the matching prefix means: every hash inside it is cached, and the
/// hash right after it (if any) is not. In particular, a worker holding the
/// first two of three queried hashes but not the third matches exactly two.
pub proof fn lemma_prefix_match_characterization(q: Seq<u64>, c: Set<u64>)
    ensures
        prefix_match_len(q, c) <= q.len(),
        forall|i: int| 0 <= i < prefix_match_len(q, c) ==> c.contains(#[trigger] q[i]),
        prefix_match_len(q, c) < q.len() ==> !c.contains(q[prefix_match_len(q, c) as int]),
    decreases q.len(),
{
    if q.len() > 0 && c.contains(q[0]) {
        let qd = q.drop_first();
        lemma_prefix_match_characterization(qd, c);
        assert forall|i: int| 0 <= i < prefix_match_len(q, c) implies c.contains(
            #[trigger] q[i],
        ) by {
            if i > 0 {
                assert(q[i] == qd[i - 1]);
            }
        }
        if prefix_match_len(q, c) < q.len() {
            assert(q[prefix_match_len(q, c) as int] == qd[prefix_match_len(qd, c) as int]);
        }
    }
}

/// Applying a store and then a remove for the same block hash on the same
/// worker leaves that worker with no entry for that hash, whatever the index
/// held before.
pub proof fn lemma_store_then_remove(prev: bool, e_store: RouterEvent, e_remove: RouterEvent, w: i64, h: u64)
    requires
        e_store.op == CacheOp::Store,
        e_remove.op == CacheOp::Remove,
        e_store.worker_id == e_remove.worker_id,
        hashes_of(e_remove.block_hashes@).contains(h),
        w == e_store.worker_id,
    ensures
        !spec_apply_event(spec_apply_event(prev, e_store, w, h), e_remove, w, h),
{
}

fn vec_contains(v: &Vec<i64>, w: i64) -> (r: bool)
    ensures
        r == v@.contains(w),
{
    let mut i: usize = 0;
    while i < v.len()
        invariant
            i <= v@.len(),
            forall|k: int| 0 <= k < i ==> v@[k] != w,
        decreases v@.len() - i,
    {
        if v[i] == w {
            return true;
        }
        i = i + 1;
    }
    false
}

fn vec_remove_worker(v: &Vec<i64>, wid: i64) -> (r: Vec<i64>)
    requires
        v@.no_duplicates(),
    ensures
        r@.no_duplicates(),
        forall|w: i64| r@.contains(w) <==> (v@.contains(w) && w != wid),
{
    let mut r: Vec<i64> = Vec::new();
    let mut i: usize = 0;
    while i < v.len()
        invariant
            i <= v@.len(),
            v@.no_duplicates(),
            r@.no_duplicates(),
            forall|w: i64| r@.contains(w) <==> (v@.take(i as int).contains(w) && w != wid),
        decreases v@.len() - i,
    {
        proof {
            assert(v@.take(i + 1) =~= v@.take(i as int).push(v@[i as int]));
        }
        if v[i] != wid {
            proof {
                if r@.contains(v@[i as int]) {
                    let k = choose|k: int|
                        0 <= k < v@.take(i as int).len() && v@.take(i as int)[k] == v@[i as int];
                    assert(v@[k] == v@[i as int]);
                }
                lemma_push_no_dup(r@, v@[i as int]);
                lemma_push_contains(r@, v@[i as int], v@[i as int]);
            }
            let ghost r_old = r@;
            r.push(v[i]);
            proof {
                assert forall|w: i64|
                    r@.contains(w) <==> (v@.take(i + 1).contains(w) && w != wid) by {
                    lemma_push_contains(r_old, v@[i as int], w);
                    lemma_push_contains(v@.take(i as int), v@[i as int], w);
                }
            }
        } else {
            proof {
                assert forall|w: i64|
                    r@.contains(w) <==> (v@.take(i + 1).contains(w) && w != wid) by {
                    lemma_push_contains(v@.take(i as int), v@[i as int], w);
                }
            }
        }
        i = i + 1;
    }
    proof {
        assert(v@.take(v@.len() as int) =~= v@);
    }
    r
}

fn store_one(index: &mut HashMap<u64, Vec<i64>>, wid: i64, h: u64)
    requires
        index_wf(old(index)@),
    ensures
        index_wf(final(index)@),
        forall|w: i64, x: u64|
            map_cached(final(index)@, w, x) == (map_cached(old(index)@, w, x) || (w == wid && x
                == h)),
{
    let ghost m0 = index@;
    let existing = index.remove(&h);
    match existing {
        Some(mut v) => {
            let ghost v0 = v@;
            if !vec_contains(&v, wid) {
                proof {
                    lemma_push_no_dup(v@, wid);
                }
                v.push(wid);
            }
            index.insert(h, v);
            proof {
                assert forall|w: i64, x: u64|
                    map_cached(index@, w, x) == (map_cached(m0, w, x) || (w == wid && x == h)) by {
                    lemma_push_contains(v0, wid, w);
                    if x != h {
                        assert(index@.contains_key(x) == m0.contains_key(x));
                        if m0.contains_key(x) {
                            assert(index@[x] == m0[x]);
                        }
                    }
                }
            }
        },
        None => {
            let mut v: Vec<i64> = Vec::new();
            v.push(wid);
            let ghost v1 = v@;
            index.insert(h, v);
            proof {
                assert(v1.len() == 1 && v1[0] == wid);
                assert(v1.no_duplicates());
                assert forall|w: i64, x: u64|
                    map_cached(index@, w, x) == (map_cached(m0, w, x) || (w == wid && x == h)) by {
                    if x == h {
                        assert(v1.contains(w) <==> w == wid);
                    } else {
                        assert(index@.contains_key(x) == m0.contains_key(x));
                        if m0.contains_key(x) {
                            assert(index@[x] == m0[x]);
                        }
                    }
                }
            }
        },
    }
}

fn remove_one(index: &mut HashMap<u64, Vec<i64>>, wid: i64, h: u64)
    requires
        index_wf(old(index)@),
    ensures
        index_wf(final(index)@),
        forall|w: i64, x: u64|
            map_cached(final(index)@, w, x) == (map_cached(old(index)@, w, x) && !(w == wid && x
                == h)),
{
    let ghost m0 = index@;
    let existing = index.remove(&h);
    match existing {
        Some(v) => {
            let filtered = vec_remove_worker(&v, wid);
            if filtered.len() > 0 {
                index.insert(h, filtered);
            }
        },
        None => {
            proof {
                assert(index@ =~= m0);
            }
        },
    }
}

/// The live block-to-workers index. It reflects only events actually
/// observed: an eventually-consistent approximation of true cache state,
/// never a transactional guarantee.
pub struct KvIndexer {
    index: HashMap<u64, Vec<i64>>,
    block_size: usize,
}

impl KvIndexer {
    /// Whether the index records worker `w` as caching block hash `h`.
    pub closed spec fn cached(self, w: i64, h: u64) -> bool {
        map_cached(self.index@, w, h)
    }

    /// The set of block hashes the index records for worker `w`.
    pub open spec fn cached_set(self, w: i64) -> Set<u64> {
        Set::new(|h: u64| self.cached(w, h))
    }

    /// The block size every query through this indexer is split with.
    pub closed spec fn spec_block_size(self) -> usize {
        self.block_size
    }

    pub closed spec fn wf(self) -> bool {
        index_wf(self.index@) && self.block_size >= 1
    }

    /// A fresh indexer knows of no cached block on any worker.
    pub fn new(block_size: usize) -> (r: KvIndexer)
        requires
            block_size >= 1,
        ensures
            r.wf(),
            r.spec_block_size() == block_size,
            forall|w: i64, h: u64| !r.cached(w, h),
    {
        KvIndexer { index: HashMap::new(), block_size }
    }

    pub fn block_size(&self) -> (r: usize)
        ensures
            r == self.spec_block_size(),
    {
        self.block_size
    }

    /// Apply one cache mutation event: a store adds the event's worker to
    /// each listed hash, a remove discards it, pruning hash entries left
    /// with no workers.
    pub fn apply_event(&mut self, e: &RouterEvent)
        requires
            old(self).wf(),
        ensures
            final(self).wf(),
            final(self).spec_block_size() == old(self).spec_block_size(),
            forall|w: i64, h: u64|
                final(self).cached(w, h) == spec_apply_event(old(self).cached(w, h), *e, w, h),
    {
        let ghost s0 = *self;
        let ghost hs = hashes_of(e.block_hashes@);
        let mut k: usize = 0;
        while k < e.block_hashes.len()
            invariant
                k <= e.block_hashes@.len(),
                hs == hashes_of(e.block_hashes@),
                index_wf(self.index@),
                self.block_size == s0.block_size,
                s0.wf(),
                forall|w: i64, h: u64|
                    map_cached(self.index@, w, h) == spec_apply_op(
                        s0.cached(w, h),
                        e.op,
                        e.worker_id,
                        hs.take(k as int),
                        w,
                        h,
                    ),
            decreases e.block_hashes@.len() - k,
        {
            let ghost mk = self.index@;
            let h = e.block_hashes[k].0;
            proof {
                assert(h == hs[k as int]);
            }
            match e.op {
                CacheOp::Store => {
                    store_one(&mut self.index, e.worker_id, h);
                },
                CacheOp::Remove => {
                    remove_one(&mut self.index, e.worker_id, h);
                },
            }
            proof {
                assert(hs.take(k + 1) =~= hs.take(k as int).push(hs[k as int]));
                assert forall|w: i64, x: u64|
                    map_cached(self.index@, w, x) == spec_apply_op(
                        s0.cached(w, x),
                        e.op,
                        e.worker_id,
                        hs.take(k + 1),
                        w,
                        x,
                    ) by {
                    lemma_push_contains(hs.take(k as int), hs[k as int], x);
                    assert(spec_apply_op(
                        s0.cached(w, x),
                        e.op,
                        e.worker_id,
                        hs.take(k as int),
                        w,
                        x,
                    ) == map_cached(mk, w, x));
                }
            }
            k = k + 1;
        }
        proof {
            assert(hs.take(hs.len() as int) =~= hs);
        }
    }

    /// Apply a stream of decoded events in arrival order. A malformed event
    /// (one that failed decoding, `None`) is skipped: it changes nothing and
    /// never stops the later events from being applied.
    pub fn apply_events(&mut self, events: &Vec<Option<RouterEvent>>)
        requires
            old(self).wf(),
        ensures
            final(self).wf(),
            final(self).spec_block_size() == old(self).spec_block_size(),
            forall|w: i64, h: u64|
                final(self).cached(w, h) == spec_apply_events(
                    old(self).cached(w, h),
                    events@,
                    w,
                    h,
                ),
    {
        let ghost s0 = *self;
        let mut k: usize = 0;
        while k < events.len()
            invariant
                k <= events@.len(),
                self.wf(),
                self.block_size == s0.block_size,
                s0.wf(),
                forall|w: i64, h: u64|
                    self.cached(w, h) == spec_apply_events(
                        s0.cached(w, h),
                        events@.take(k as int),
                        w,
                        h,
                    ),
            decreases events@.len() - k,
        {
            proof {
                assert(events@.take(k + 1).drop_last() =~= events@.take(k as int));
                assert(events@.take(k + 1).last() == events@[k as int]);
            }
            match &events[k] {
                Some(e) => {
                    self.apply_event(e);
                },
                None => {},
            }
            k = k + 1;
        }
        proof {
            assert(events@.take(events@.len() as int) =~= events@);
        }
    }

    /// Count, for each worker the index knows anything about, how many
    /// leading hashes of the query that worker holds. Workers matching no
    /// leading hash get no entry; an empty query yields an empty map.
    pub fn find_matches(&self, hashes: Vec<LocalBlockHash>) -> (r: OverlapScores)
        requires
            self.wf(),
            hashes@.len() <= u32::MAX,
        ensures
            forall|w: i64| #[trigger]
                spec_overlap_of(r.scores@, w) as nat == prefix_match_len(
                    hashes_of(hashes@),
                    self.cached_set(w),
                ),
    {
        let ghost q = hashes_of(hashes@);
        let mut scores: HashMap<i64, u32> = HashMap::new();
        let mut i: usize = 0;
        while i < hashes.len()
            invariant
                i <= hashes@.len(),
                hashes@.len() <= u32::MAX,
                q == hashes_of(hashes@),
                self.wf(),
                forall|w: i64| #[trigger]
                    spec_overlap_of(scores@, w) as nat == prefix_match_len(
                        q.take(i as int),
                        self.cached_set(w),
                    ),
                forall|w: i64| #[trigger] scores@.contains_key(w) ==> scores@[w] >= 1,
            decreases hashes@.len() - i,
        {
            let ghost scores_pre = scores@;
            let h = hashes[i].0;
            match self.index.get(&h) {
                Some(workers) => {
                    let mut j: usize = 0;
                    while j < workers.len()
                        invariant
                            j <= workers@.len(),
                            i < hashes@.len() <= u32::MAX,
                            q == hashes_of(hashes@),
                            h == q[i as int],
                            self.wf(),
                            self.index@.contains_key(h),
                            workers@ == self.index@[h]@,
                            forall|w: i64| #[trigger] scores@.contains_key(w) ==> scores@[w] >= 1,
                            forall|w: i64|
                                workers@.take(j as int).contains(w) ==> #[trigger] spec_overlap_of(
                                    scores@,
                                    w,
                                ) as nat == prefix_match_len(q.take(i + 1), self.cached_set(w)),
                            forall|w: i64|
                                !workers@.take(j as int).contains(w) ==> #[trigger] spec_overlap_of(
                                    scores@,
                                    w,
                                ) == spec_overlap_of(scores_pre, w),
                            forall|w: i64|
                                spec_overlap_of(scores_pre, w) as nat == prefix_match_len(
                                    q.take(i as int),
                                    self.cached_set(w),
                                ),
                        decreases workers@.len() - j,
                    {
                        let w = workers[j];
                        let ghost scores_before = scores@;
                        let cur = match scores.get(&w) {
                            Some(c) => *c,
                            None => 0,
                        };
                        proof {
                            assert(workers@[j as int] == w);
                            if workers@.take(j as int).contains(w) {
                                let k2 = choose|k2: int|
                                    0 <= k2 < j && workers@.take(j as int)[k2] == w;
                                assert(workers@[k2] == workers@[j as int]);
                            }
                            assert(!workers@.take(j as int).contains(w));
                            assert(cur == spec_overlap_of(scores_before, w));
                            assert(spec_overlap_of(scores_before, w) == spec_overlap_of(
                                scores_pre,
                                w,
                            ));
                            lemma_prefix_le(q.take(i as int), self.cached_set(w));
                            assert(q.take(i as int).len() == i);
                            lemma_prefix_step(q, self.cached_set(w), i as int);
                            assert(workers@.contains(w));
                            assert(self.cached(w, q[i as int]));
                            assert(self.cached_set(w).contains(q[i as int]));
                        }
                        if cur as usize == i {
                            scores.insert(w, (i + 1) as u32);
                            proof {
                                assert(spec_overlap_of(scores@, w) == i + 1);
                                assert(prefix_match_len(q.take(i as int), self.cached_set(w))
                                    == i);
                                assert(prefix_match_len(q.take(i + 1), self.cached_set(w)) == i
                                    + 1);
                            }
                        } else {
                            proof {
                                assert(scores@ == scores_before);
                                assert(prefix_match_len(q.take(i as int), self.cached_set(w))
                                    != i);
                                assert(prefix_match_len(q.take(i + 1), self.cached_set(w))
                                    == prefix_match_len(q.take(i as int), self.cached_set(w)));
                            }
                        }
                        proof {
                            assert(workers@.take(j + 1) =~= workers@.take(j as int).push(
                                workers@[j as int],
                            ));
                            assert forall|w2: i64|
                                workers@.take(j + 1).contains(w2) implies #[trigger]
                            spec_overlap_of(scores@, w2) as nat == prefix_match_len(
                                q.take(i + 1),
                                self.cached_set(w2),
                            ) by {
                                lemma_push_contains(workers@.take(j as int), workers@[j as int], w2);
                                if w2 != w {
                                    assert(workers@.take(j as int).contains(w2));
                                    assert(spec_overlap_of(scores@, w2) == spec_overlap_of(
                                        scores_before,
                                        w2,
                                    ));
                                }
                            }
                            assert forall|w2: i64|
                                !workers@.take(j + 1).contains(w2) implies #[trigger]
                            spec_overlap_of(scores@, w2) == spec_overlap_of(scores_pre, w2) by {
                                lemma_push_contains(workers@.take(j as int), workers@[j as int], w2);
                                assert(w2 != w);
                                assert(spec_overlap_of(scores@, w2) == spec_overlap_of(
                                    scores_before,
                                    w2,
                                ));
                            }
                        }
                        j = j + 1;
                    }
                    proof {
                        assert(workers@.take(workers@.len() as int) =~= workers@);
                        assert forall|w: i64| #[trigger]
                            spec_overlap_of(scores@, w) as nat == prefix_match_len(
                                q.take(i + 1),
                                self.cached_set(w),
                            ) by {
                            if !workers@.contains(w) {
                                assert(!self.cached(w, q[i as int]));
                                lemma_prefix_step(q, self.cached_set(w), i as int);
                                lemma_prefix_le(q.take(i as int), self.cached_set(w));
                            }
                        }
                    }
                },
                None => {
                    proof {
                        assert forall|w: i64| #[trigger]
                            spec_overlap_of(scores@, w) as nat == prefix_match_len(
                                q.take(i + 1),
                                self.cached_set(w),
                            ) by {
                            assert(!self.index@.contains_key(q[i as int]));
                            assert(!self.cached(w, q[i as int]));
                            lemma_prefix_step(q, self.cached_set(w), i as int);
                            lemma_prefix_le(q.take(i as int), self.cached_set(w));
                        }
                    }
                },
            }
            i = i + 1;
        }
        proof {
            assert(q.take(q.len() as int) =~= q);
        }
        OverlapScores { scores }
    }

    /// Convenience query path: split and hash the raw tokens with the shared
    /// block size and the fixed seed, then count overlaps for the resulting
    /// hash sequence.
    pub fn find_matches_for_request(&self, token_ids: &[u32]) -> (r: OverlapScores)
        requires
            self.wf(),
            token_ids@.len() <= u32::MAX,
        ensures
            forall|w: i64| #[trigger]
                spec_overlap_of(r.scores@, w) as nat == prefix_match_len(
                    spec_block_hashes(token_ids@, self.spec_block_size() as int, BLOCK_HASH_SEED),
                    self.cached_set(w),
                ),
    {
        let (hashes, _partial) = split_tokens(token_ids, self.block_size, BLOCK_HASH_SEED);
        proof {
            assert(hashes@.len() <= hashes@.len() * self.block_size as int) by (nonlinear_arith)
                requires
                    self.block_size >= 1,
                    hashes@.len() >= 0,
            ;
        }
        let r = self.find_matches(hashes);
        proof {
            assert(hashes_of(hashes@) == spec_block_hashes(
                token_ids@,
                self.spec_block_size() as int,
                BLOCK_HASH_SEED,
            ));
        }
        r
    }
}

} // verus!
