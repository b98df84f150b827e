use vstd::prelude::*;
use crate::batch::Batch;
use crate::chain::{cache_through, jobs_of, job_views, lemma_chain_claims_its_keys, remaining, FilterChain, Handler, PersistJob};
use crate::kline::{Key, KeyView, Kline};

verus! {

/// The keys of `keys`, in order.
pub open spec fn key_views(keys: Seq<Key>) -> Seq<KeyView> {
    keys.map_values(|k: Key| k@)
}

/// Owner of the handler chain: rebuilds it from the active keys and runs it
/// over incoming batches. One instance serves the whole process; whoever
/// shares it holds it under a single lock for both operations.
pub struct CandleAggregator {
    chain: FilterChain,
}

impl CandleAggregator {
    /// The keys of the installed handlers, in order.
    pub closed spec fn handler_keys(&self) -> Seq<KeyView> {
        self.chain.handler_keys()
    }

    /// The latest candle known for each key.
    pub closed spec fn cached(&self) -> Map<KeyView, Kline> {
        self.chain.cached()
    }

    pub closed spec fn wf(&self) -> bool {
        self.chain.wf()
    }

    /// `self` is `prev` after a rebuild from `keys`: one handler per key, in
    /// order, and the cache untouched.
    pub open spec fn built_from(&self, prev: CandleAggregator, keys: Seq<Key>) -> bool {
        &&& self.wf() == prev.wf()
        &&& self.handler_keys() == key_views(keys)
        &&& self.cached() == prev.cached()
    }

    /// An aggregator with no handler and an empty cache.
    pub fn new() -> (r: CandleAggregator)
        ensures
            r.wf(),
            r.handler_keys() == Seq::<KeyView>::empty(),
            r.cached() == Map::<KeyView, Kline>::empty(),
    {
        CandleAggregator { chain: FilterChain::new() }
    }

    /// Replaces every handler by one handler per key of `keys`, in order.
    pub fn build_handlers(&mut self, keys: &[Key])
        ensures
            final(self).built_from(*old(self), keys@),
    {
        self.chain.clear_handlers();
        let mut i: usize = 0;
        while i < keys.len()
            invariant
                i <= keys@.len(),
                self.chain.handler_keys() == key_views(keys@.take(i as int)),
                self.chain.cached() == old(self).chain.cached(),
                self.chain.wf() == old(self).chain.wf(),
            decreases keys@.len() - i,
        {
            self.chain.add_handler(Handler::new(keys[i].clone()));
            proof {
                assert(key_views(keys@.take(i as int + 1)) =~= key_views(keys@.take(i as int)).push(keys@[i as int]@));
            }
            i = i + 1;
        }
        proof {
            assert(keys@.take(keys@.len() as int) =~= keys@);
        }
    }

    /// Runs the chain over `batch` and returns the persistence jobs, in the
    /// order of the claims. Groups that no handler claims are dropped.
    pub fn http_response_process(&mut self, batch: Batch) -> (jobs: Vec<PersistJob>)
        requires
            old(self).wf(),
            batch.wf(),
        ensures
            final(self).wf(),
            final(self).handler_keys() == old(self).handler_keys(),
            job_views(jobs@) == jobs_of(old(self).handler_keys(), batch@),
            final(self).cached() == cache_through(old(self).handler_keys(), batch@, old(self).cached()),
    {
        let mut batch = batch;
        self.chain.execute(&mut batch)
    }

    /// The latest candle known for `key`, if any.
    pub fn get_last_kline(&self, key: &Key) -> (r: Option<Kline>)
        requires
            self.wf(),
        ensures
            r == if self.cached().contains_key(key@) { Some(self.cached()[key@]) } else { None::<Kline> },
    {
        self.chain.get_last_kline(key)
    }
}

/// Rebuilding twice from the same keys leaves the chain of a single rebuild:
/// on any batch it claims the same groups, hands out the same jobs, and still
/// persists no group twice.
pub proof fn lemma_rebuild_idempotent(
    start: CandleAggregator,
    once: CandleAggregator,
    twice: CandleAggregator,
    keys: Seq<Key>,
    b: Map<KeyView, Seq<Kline>>,
)
    requires
        once.built_from(start, keys),
        twice.built_from(once, keys),
    ensures
        twice.handler_keys() == once.handler_keys(),
        twice.cached() == once.cached(),
        remaining(twice.handler_keys(), b) == remaining(once.handler_keys(), b),
        jobs_of(twice.handler_keys(), b) == jobs_of(once.handler_keys(), b),
        forall|i: int, j: int|
            0 <= i < jobs_of(twice.handler_keys(), b).len() && 0 <= j < jobs_of(twice.handler_keys(), b).len()
                && i != j ==> (#[trigger] jobs_of(twice.handler_keys(), b)[i]).0
                != (#[trigger] jobs_of(twice.handler_keys(), b)[j]).0,
{
    lemma_chain_claims_its_keys(twice.handler_keys(), b);
}

} // verus!
