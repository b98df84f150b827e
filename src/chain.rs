use vstd::prelude::*;
use crate::batch::Batch;
use crate::cache::{cache_after, lemma_update_never_regresses, LastValueCache};
use crate::kline::{latest, latest_kline, Key, KeyView, Kline};

verus! {

/// The candles of one key that a handler claimed, to be written to storage.
pub struct PersistJob {
    pub key: Key,
    pub klines: Vec<Kline>,
}

impl View for PersistJob {
    type V = (KeyView, Seq<Kline>);

    open spec fn view(&self) -> (KeyView, Seq<Kline>) {
        (self.key@, self.klines@)
    }
}

pub open spec fn job_views(jobs: Seq<PersistJob>) -> Seq<(KeyView, Seq<Kline>)> {
    jobs.map_values(|j: PersistJob| j@)
}

/// What is left of batch `b` after handlers for the keys `hs` ran in order.
pub open spec fn remaining(hs: Seq<KeyView>, b: Map<KeyView, Seq<Kline>>) -> Map<KeyView, Seq<Kline>>
    decreases hs.len(),
{
    if hs.len() == 0 {
        b
    } else {
        remaining(hs.drop_last(), b).remove(hs.last())
    }
}

/// The persistence jobs that handlers for the keys `hs`, run in order over
/// batch `b`, hand out: one for each handler that finds its key still there.
pub open spec fn jobs_of(hs: Seq<KeyView>, b: Map<KeyView, Seq<Kline>>) -> Seq<(KeyView, Seq<Kline>)>
    decreases hs.len(),
{
    if hs.len() == 0 {
        Seq::empty()
    } else {
        let before = remaining(hs.drop_last(), b);
        if before.contains_key(hs.last()) {
            jobs_of(hs.drop_last(), b).push((hs.last(), before[hs.last()]))
        } else {
            jobs_of(hs.drop_last(), b)
        }
    }
}

/// The cache `c` after handlers for the keys `hs` ran in order over batch `b`:
/// each claimed non-empty group offers its latest candle.
pub open spec fn cache_through(
    hs: Seq<KeyView>,
    b: Map<KeyView, Seq<Kline>>,
    c: Map<KeyView, Kline>,
) -> Map<KeyView, Kline>
    decreases hs.len(),
{
    if hs.len() == 0 {
        c
    } else {
        let before = remaining(hs.drop_last(), b);
        let c0 = cache_through(hs.drop_last(), b, c);
        if before.contains_key(hs.last()) && before[hs.last()].len() > 0 {
            cache_after(c0, hs.last(), latest(before[hs.last()]))
        } else {
            c0
        }
    }
}

/// Handlers for the keys `hs` claim exactly the groups of `b` whose key is
/// among `hs`: those leave the batch, each becomes exactly one job holding
/// all of its candles, and no group of another key is handed out or removed.
pub proof fn lemma_chain_claims_its_keys(hs: Seq<KeyView>, b: Map<KeyView, Seq<Kline>>)
    ensures
        forall|k: KeyView|
            #[trigger] remaining(hs, b).contains_key(k) == (b.contains_key(k) && !hs.contains(k)),
        forall|k: KeyView| #[trigger] remaining(hs, b).contains_key(k) ==> remaining(hs, b)[k] == b[k],
        forall|j: int|
            0 <= j < jobs_of(hs, b).len() ==> hs.contains((#[trigger] jobs_of(hs, b)[j]).0)
                && b.contains_key(jobs_of(hs, b)[j].0) && jobs_of(hs, b)[j].1 == b[jobs_of(hs, b)[j].0],
        forall|i: int, j: int|
            0 <= i < jobs_of(hs, b).len() && 0 <= j < jobs_of(hs, b).len() && i != j
                ==> (#[trigger] jobs_of(hs, b)[i]).0 != (#[trigger] jobs_of(hs, b)[j]).0,
        forall|k: KeyView|
            hs.contains(k) && b.contains_key(k) ==> exists|j: int|
                0 <= j < jobs_of(hs, b).len() && (#[trigger] jobs_of(hs, b)[j]).0 == k,
    decreases hs.len(),
{
    if hs.len() > 0 {
        let d = hs.drop_last();
        let last = hs.last();
        lemma_chain_claims_its_keys(d, b);
        assert forall|k: KeyView| #[trigger] hs.contains(k) == (d.contains(k) || k == last) by {
            if hs.contains(k) {
                let i = choose|i: int| 0 <= i < hs.len() && hs[i] == k;
                if i < d.len() {
                    assert(d[i] == k);
                }
            }
            if d.contains(k) {
                let i = choose|i: int| 0 <= i < d.len() && d[i] == k;
                assert(hs[i] == k);
            }
            if k == last {
                assert(hs[hs.len() - 1] == k);
            }
        }
        let jd = jobs_of(d, b);
        let jh = jobs_of(hs, b);
        if remaining(d, b).contains_key(last) {
            assert(jh == jd.push((last, remaining(d, b)[last])));
            assert forall|k: KeyView|
                hs.contains(k) && b.contains_key(k) implies exists|j: int|
                0 <= j < jh.len() && (#[trigger] jh[j]).0 == k by {
                if d.contains(k) {
                    let j = choose|j: int| 0 <= j < jd.len() && (#[trigger] jd[j]).0 == k;
                    assert(jh[j].0 == k);
                } else {
                    assert(jh[jd.len() as int].0 == k);
                }
            }
        } else {
            assert(jh == jd);
        }
    }
}

/// A run of the chain never moves a cached candle back in time, and only
/// the keys of claimed non-empty groups gain an entry.
pub proof fn lemma_chain_never_regresses_cache(hs: Seq<KeyView>, b: Map<KeyView, Seq<Kline>>, c: Map<KeyView, Kline>)
    ensures
        forall|k: KeyView| #[trigger] c.contains_key(k) ==> cache_through(hs, b, c).contains_key(k)
            && cache_through(hs, b, c)[k].utc_begin >= c[k].utc_begin,
        forall|k: KeyView| #[trigger] cache_through(hs, b, c).contains_key(k) ==> c.contains_key(k) || (
            hs.contains(k) && b.contains_key(k)),
    decreases hs.len(),
{
    if hs.len() > 0 {
        let d = hs.drop_last();
        let last = hs.last();
        lemma_chain_never_regresses_cache(d, b, c);
        lemma_chain_claims_its_keys(d, b);
        let c0 = cache_through(d, b, c);
        let before = remaining(d, b);
        if before.contains_key(last) && before[last].len() > 0 {
            lemma_update_never_regresses(c0, last, latest(before[last]));
        }
        assert forall|k: KeyView| #[trigger] cache_through(hs, b, c).contains_key(k) implies c.contains_key(k) || (
            hs.contains(k) && b.contains_key(k)) by {
            if c0.contains_key(k) {
                if !c.contains_key(k) {
                    let i = choose|i: int| 0 <= i < d.len() && d[i] == k;
                    assert(hs[i] == k);
                }
            } else {
                assert(hs[hs.len() - 1] == k);
            }
        }
    }
}

/// A claim unit: it takes the group of its key out of a batch.
pub struct Handler {
    pub key: Key,
}

impl Handler {
    pub fn new(key: Key) -> (r: Handler)
        ensures
            r.key == key,
    {
        Handler { key }
    }

    /// Claims the group of this handler's key: the group leaves `batch`, its
    /// latest candle is offered to `cache`, and all its candles are appended
    /// to `jobs`. Returns whether the batch held the key.
    pub fn handle(&self, batch: &mut Batch, cache: &mut LastValueCache, jobs: &mut Vec<PersistJob>) -> (claimed: bool)
        requires
            old(batch).wf(),
            old(cache).wf(),
        ensures
            final(batch).wf(),
            final(cache).wf(),
            claimed == old(batch)@.contains_key(self.key@),
            final(batch)@ == old(batch)@.remove(self.key@),
            claimed ==> job_views(final(jobs)@) == job_views(old(jobs)@).push(
                (self.key@, old(batch)@[self.key@]),
            ),
            !claimed ==> final(jobs)@ == old(jobs)@,
            final(cache)@ == if claimed && old(batch)@[self.key@].len() > 0 {
                cache_after(old(cache)@, self.key@, latest(old(batch)@[self.key@]))
            } else {
                old(cache)@
            },
    {
        match batch.remove(&self.key) {
            Some(klines) => {
                if let Some(last) = latest_kline(&klines) {
                    cache.update(self.key.clone(), last);
                }
                let ghost before = jobs@;
                jobs.push(PersistJob { key: self.key.clone(), klines });
                proof {
                    assert(job_views(jobs@) =~= job_views(before).push(jobs@.last()@));
                }
                true
            },
            None => false,
        }
    }
}

/// Handlers in registration order, and the cache they feed.
pub struct FilterChain {
    handlers: Vec<Handler>,
    last_klines: LastValueCache,
}

impl FilterChain {
    /// The keys of the handlers, in registration order.
    pub closed spec fn handler_keys(&self) -> Seq<KeyView> {
        self.handlers@.map_values(|h: Handler| h.key@)
    }

    /// The latest candle known for each key.
    pub closed spec fn cached(&self) -> Map<KeyView, Kline> {
        self.last_klines@
    }

    pub closed spec fn wf(&self) -> bool {
        self.last_klines.wf()
    }

    pub fn new() -> (r: FilterChain)
        ensures
            r.wf(),
            r.handler_keys() == Seq::<KeyView>::empty(),
            r.cached() == Map::<KeyView, Kline>::empty(),
    {
        let r = FilterChain { handlers: Vec::new(), last_klines: LastValueCache::new() };
        proof {
            assert(r.handler_keys() =~= Seq::<KeyView>::empty());
        }
        r
    }

    /// Offers `kline` as the latest candle of `key`.
    pub fn update_last_kline(&mut self, key: Key, kline: Kline)
        requires
            old(self).wf(),
        ensures
            final(self).wf(),
            final(self).handler_keys() == old(self).handler_keys(),
            final(self).cached() == cache_after(old(self).cached(), key@, kline),
    {
        self.last_klines.update(key, kline);
    }

    /// The latest candle known for `key`, if any.
    pub fn get_last_kline(&self, key: &Key) -> (r: Option<Kline>)
        requires
            self.wf(),
        ensures
            r == if self.cached().contains_key(key@) { Some(self.cached()[key@]) } else { None::<Kline> },
    {
        self.last_klines.get(key)
    }

    /// Appends `handler` to the end of the chain.
    pub fn add_handler(&mut self, handler: Handler)
        ensures
            final(self).handler_keys() == old(self).handler_keys().push(handler.key@),
            final(self).cached() == old(self).cached(),
            final(self).wf() == old(self).wf(),
    {
        let ghost k = handler.key@;
        self.handlers.push(handler);
        proof {
            assert(self.handler_keys() =~= old(self).handler_keys().push(k));
        }
    }

    /// Removes every handler; the cache is kept.
    pub fn clear_handlers(&mut self)
        ensures
            final(self).handler_keys() == Seq::<KeyView>::empty(),
            final(self).cached() == old(self).cached(),
            final(self).wf() == old(self).wf(),
    {
        self.handlers.clear();
        proof {
            assert(self.handler_keys() =~= Seq::<KeyView>::empty());
        }
    }

    /// Runs every handler, in registration order, over `batch`. Each sees the
    /// claims of those before it; a handler that claims nothing does not stop
    /// the chain. Groups that no handler claims stay in `batch`. Returns the
    /// persistence jobs in the order of the claims.
    pub fn execute(&mut self, batch: &mut Batch) -> (jobs: Vec<PersistJob>)
        requires
            old(self).wf(),
            old(batch).wf(),
        ensures
            final(self).wf(),
            final(batch).wf(),
            final(self).handler_keys() == old(self).handler_keys(),
            final(batch)@ == remaining(old(self).handler_keys(), old(batch)@),
            job_views(jobs@) == jobs_of(old(self).handler_keys(), old(batch)@),
            final(self).cached() == cache_through(old(self).handler_keys(), old(batch)@, old(self).cached()),
    {
        let ghost hs = self.handler_keys();
        let ghost b0 = batch@;
        let ghost c0 = self.cached();
        let mut jobs: Vec<PersistJob> = Vec::new();
        let mut i: usize = 0;
        proof {
            assert(hs.take(0) =~= Seq::<KeyView>::empty());
            assert(job_views(jobs@) =~= Seq::<(KeyView, Seq<Kline>)>::empty());
        }
        while i < self.handlers.len()
            invariant
                i <= self.handlers@.len(),
                self.handler_keys() == hs,
                hs.len() == self.handlers@.len(),
                self.wf(),
                batch.wf(),
                batch@ == remaining(hs.take(i as int), b0),
                job_views(jobs@) == jobs_of(hs.take(i as int), b0),
                self.cached() == cache_through(hs.take(i as int), b0, c0),
            decreases self.handlers@.len() - i,
        {
            proof {
                assert(hs.take(i as int + 1).drop_last() =~= hs.take(i as int));
                assert(hs.take(i as int + 1).last() == self.handlers@[i as int].key@);
            }
            let _claimed = self.handlers[i].handle(batch, &mut self.last_klines, &mut jobs);
            i = i + 1;
        }
        proof {
            assert(hs.take(hs.len() as int) =~= hs);
        }
        jobs
    }
}

} // verus!
