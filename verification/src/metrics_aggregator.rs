//! The continuously refreshed view of every known worker's load metrics.
//!
//! Each received per-worker snapshot message replaces (or introduces) that
//! worker's entry in the aggregate view; readers always get a complete copy
//! of the most recent state, never partial state.

use vstd::prelude::*;
use vstd::pervasive::VecAdditionalExecFns;
use crate::scoring::{spec_metrics_of, Endpoint, ProcessedEndpoints};

verus! {

proof fn lemma_metrics_of_first_hit(eps: Seq<Endpoint>, w: i64, i: int)
    requires
        0 <= i < eps.len(),
        forall|k: int| 0 <= k < i ==> (#[trigger] eps[k]).worker_id != w,
        eps[i].worker_id == w,
    ensures
        spec_metrics_of(eps, w) == Some(eps[i]),
    decreases i,
{
    if i > 0 {
        lemma_metrics_of_first_hit(eps.drop_first(), w, i - 1);
    }
}

proof fn lemma_metrics_of_absent(eps: Seq<Endpoint>, w: i64)
    requires
        forall|k: int| 0 <= k < eps.len() ==> (#[trigger] eps[k]).worker_id != w,
    ensures
        spec_metrics_of(eps, w) == None::<Endpoint>,
    decreases eps.len(),
{
    if eps.len() > 0 {
        lemma_metrics_of_absent(eps.drop_first(), w);
    }
}

proof fn lemma_metrics_of_agree(e1: Seq<Endpoint>, e2: Seq<Endpoint>, w: i64)
    requires
        e1.len() == e2.len(),
        forall|k: int|
            0 <= k < e1.len() ==> ((#[trigger] e1[k]).worker_id == w <==> (#[trigger] e2[k]).worker_id
                == w),
        forall|k: int| 0 <= k < e1.len() && (#[trigger] e1[k]).worker_id == w ==> e1[k] == e2[k],
    ensures
        spec_metrics_of(e1, w) == spec_metrics_of(e2, w),
    decreases e1.len(),
{
    if e1.len() > 0 {
        if e1[0].worker_id != w {
            assert forall|k: int|
                0 <= k < e1.drop_first().len() implies ((#[trigger] e1.drop_first()[k]).worker_id
                == w <==> (#[trigger] e2.drop_first()[k]).worker_id == w) by {
                assert(e1.drop_first()[k] == e1[k + 1]);
                assert(e2.drop_first()[k] == e2[k + 1]);
            }
            assert forall|k: int|
                0 <= k < e1.drop_first().len() && (#[trigger] e1.drop_first()[k]).worker_id
                == w implies e1.drop_first()[k] == e2.drop_first()[k] by {
                assert(e1.drop_first()[k] == e1[k + 1]);
                assert(e2.drop_first()[k] == e2[k + 1]);
            }
            lemma_metrics_of_agree(e1.drop_first(), e2.drop_first(), w);
        }
    }
}

/// Aggregates per-worker load snapshots into one read-only view of the fleet.
pub struct KvMetricsAggregator {
    endpoints: ProcessedEndpoints,
}

impl KvMetricsAggregator {
    /// The entries the aggregate view currently holds.
    pub closed spec fn spec_endpoints(self) -> Seq<Endpoint> {
        self.endpoints.endpoints@
    }

    pub closed spec fn wf(self) -> bool {
        self.endpoints.wf()
    }

    /// A fresh aggregator knows of no worker.
    pub fn new() -> (r: KvMetricsAggregator)
        ensures
            r.wf(),
            r.spec_endpoints().len() == 0,
    {
        KvMetricsAggregator { endpoints: ProcessedEndpoints::new() }
    }

    /// Apply one worker's load snapshot message: replace that worker's entry,
    /// or introduce it if the worker was unknown. No other entry changes.
    pub fn update_endpoint(
        &mut self,
        worker_id: i64,
        gpu_cache_usage_permille: u32,
        waiting_requests: u32,
    )
        requires
            old(self).wf(),
            gpu_cache_usage_permille <= 1000,
        ensures
            final(self).wf(),
            spec_metrics_of(final(self).spec_endpoints(), worker_id) == Some(
                Endpoint { worker_id, gpu_cache_usage_permille, waiting_requests },
            ),
            forall|w: i64|
                w != worker_id ==> #[trigger] spec_metrics_of(final(self).spec_endpoints(), w)
                    == spec_metrics_of(old(self).spec_endpoints(), w),
    {
        let ghost eps0 = self.endpoints.endpoints@;
        let e = Endpoint { worker_id, gpu_cache_usage_permille, waiting_requests };
        let n = self.endpoints.endpoints.len();
        let mut i: usize = 0;
        while i < n
            invariant
                i <= n,
                n == self.endpoints.endpoints@.len(),
                self.endpoints.endpoints@ == eps0,
                eps0 == old(self).spec_endpoints(),
                old(self).wf(),
                e == (Endpoint { worker_id, gpu_cache_usage_permille, waiting_requests }),
                gpu_cache_usage_permille <= 1000,
                forall|k: int| 0 <= k < i ==> (#[trigger] eps0[k]).worker_id != worker_id,
            decreases n - i,
        {
            if self.endpoints.endpoints[i].worker_id == worker_id {
                self.endpoints.endpoints.set(i, e);
                proof {
                    let eps1 = self.endpoints.endpoints@;
                    assert(eps1 == eps0.update(i as int, e));
                    assert(eps1[i as int] == e);
                    assert forall|k: int|
                        0 <= k < i implies (#[trigger] eps1[k]).worker_id != worker_id by {
                        assert(eps1[k] == eps0[k]);
                    }
                    lemma_metrics_of_first_hit(eps1, worker_id, i as int);
                    assert forall|w: i64|
                        w != worker_id implies #[trigger] spec_metrics_of(eps1, w)
                        == spec_metrics_of(eps0, w) by {
                        assert forall|k: int|
                            0 <= k < eps1.len() implies ((#[trigger] eps1[k]).worker_id == w
                            <==> (#[trigger] eps0[k]).worker_id == w) by {
                            if k != i {
                                assert(eps1[k] == eps0[k]);
                            }
                        }
                        assert forall|k: int|
                            0 <= k < eps1.len() && (#[trigger] eps1[k]).worker_id
                            == w implies eps1[k] == eps0[k] by {
                            assert(k != i);
                        }
                        lemma_metrics_of_agree(eps1, eps0, w);
                    }
                    assert forall|a: int|
                        0 <= a < eps1.len() implies (#[trigger] eps1[a]).wf() by {
                        if a != i {
                            assert(eps1[a] == eps0[a]);
                        }
                    }
                    assert forall|a: int, b: int|
                        0 <= a < b < eps1.len() implies eps1[a].worker_id
                        != eps1[b].worker_id by {
                        if a != i {
                            assert(eps1[a] == eps0[a]);
                        }
                        if b != i {
                            assert(eps1[b] == eps0[b]);
                        }
                        assert(eps0[i as int].worker_id == worker_id);
                    }
                }
                return ;
            }
            i = i + 1;
        }
        proof {
            lemma_metrics_of_absent(eps0, worker_id);
        }
        self.endpoints.endpoints.push(e);
        proof {
            let eps1 = self.endpoints.endpoints@;
            assert(eps1 == eps0.push(e));
            assert(eps1[n as int] == e);
            assert forall|k: int|
                0 <= k < n implies (#[trigger] eps1[k]).worker_id != worker_id by {
                assert(eps1[k] == eps0[k]);
            }
            lemma_metrics_of_first_hit(eps1, worker_id, n as int);
            assert forall|w: i64|
                w != worker_id implies #[trigger] spec_metrics_of(eps1, w) == spec_metrics_of(
                eps0,
                w,
            ) by {
                lemma_metrics_of_push_other(eps0, e, w);
            }
            assert forall|a: int|
                0 <= a < eps1.len() implies (#[trigger] eps1[a]).wf() by {
                if a != n {
                    assert(eps1[a] == eps0[a]);
                }
            }
            assert forall|a: int, b: int|
                0 <= a < b < eps1.len() implies eps1[a].worker_id != eps1[b].worker_id by {
                if a != n {
                    assert(eps1[a] == eps0[a]);
                }
                if b != n {
                    assert(eps1[b] == eps0[b]);
                }
            }
        }
    }

    /// Hand out the latest complete snapshot of the fleet's metrics.
    pub fn endpoints_snapshot(&self) -> (r: ProcessedEndpoints)
        requires
            self.wf(),
        ensures
            r.wf(),
            r.endpoints@ == self.spec_endpoints(),
    {
        let n = self.endpoints.endpoints.len();
        let mut out: Vec<Endpoint> = Vec::new();
        let mut i: usize = 0;
        while i < n
            invariant
                i <= n,
                n == self.endpoints.endpoints@.len(),
                out@ == self.endpoints.endpoints@.take(i as int),
            decreases n - i,
        {
            out.push(self.endpoints.endpoints[i]);
            proof {
                assert(out@ =~= self.endpoints.endpoints@.take(i + 1));
            }
            i = i + 1;
        }
        proof {
            assert(out@ =~= self.endpoints.endpoints@);
        }
        ProcessedEndpoints { endpoints: out }
    }
}

proof fn lemma_metrics_of_push_other(eps: Seq<Endpoint>, e: Endpoint, w: i64)
    requires
        e.worker_id != w,
    ensures
        spec_metrics_of(eps.push(e), w) == spec_metrics_of(eps, w),
    decreases eps.len(),
{
    if eps.len() == 0 {
        assert(eps.push(e)[0] == e);
        assert(eps.push(e).drop_first() =~= Seq::<Endpoint>::empty());
        assert(spec_metrics_of(Seq::<Endpoint>::empty(), w) == None::<Endpoint>);
        assert(spec_metrics_of(eps, w) == None::<Endpoint>);
    } else {
        assert(eps.push(e)[0] == eps[0]);
        assert(eps.push(e).drop_first() =~= eps.drop_first().push(e));
        lemma_metrics_of_push_other(eps.drop_first(), e, w);
    }
}

} // verus!
