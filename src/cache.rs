use vstd::prelude::*;
use crate::kline::{Key, KeyView, Kline};

verus! {

/// The most recent candle known for each key.
///
/// A stored candle is only ever replaced by one whose `utc_begin` is not
/// earlier, so the value for a key never moves back in time.
pub struct LastValueCache {
    entries: Vec<(Key, Kline)>,
}

spec fn has_key(s: Seq<(Key, Kline)>, k: KeyView) -> bool {
    exists|i: int| 0 <= i < s.len() && (#[trigger] s[i]).0@ == k
}

spec fn entries_map(s: Seq<(Key, Kline)>) -> Map<KeyView, Kline> {
    Map::new(
        |k: KeyView| has_key(s, k),
        |k: KeyView| s[choose|i: int| 0 <= i < s.len() && (#[trigger] s[i]).0@ == k].1,
    )
}

spec fn keys_distinct(s: Seq<(Key, Kline)>) -> bool {
    forall|i: int, j: int|
        0 <= i < s.len() && 0 <= j < s.len() && i != j ==> (#[trigger] s[i]).0@ != (#[trigger] s[j]).0@
}

proof fn lemma_entry_at(s: Seq<(Key, Kline)>, i: int)
    requires
        keys_distinct(s),
        0 <= i < s.len(),
    ensures
        entries_map(s).contains_key(s[i].0@),
        entries_map(s)[s[i].0@] == s[i].1,
{
    let k = s[i].0@;
    assert(has_key(s, k));
    let j = choose|j: int| 0 <= j < s.len() && (#[trigger] s[j]).0@ == k;
    assert(j == i);
}

proof fn lemma_entries_equal(s: Seq<(Key, Kline)>, m: Map<KeyView, Kline>)
    requires
        keys_distinct(s),
        forall|i: int| 0 <= i < s.len() ==> m.contains_key((#[trigger] s[i]).0@) && m[s[i].0@] == s[i].1,
        forall|k: KeyView| m.contains_key(k) ==> has_key(s, k),
    ensures
        entries_map(s) == m,
{
    assert forall|k: KeyView| entries_map(s).contains_key(k) == m.contains_key(k) by {
        if has_key(s, k) {
            let i = choose|i: int| 0 <= i < s.len() && (#[trigger] s[i]).0@ == k;
            lemma_entry_at(s, i);
        }
    }
    assert forall|k: KeyView| #[trigger] m.contains_key(k) implies entries_map(s)[k] == m[k] by {
        let i = choose|i: int| 0 <= i < s.len() && (#[trigger] s[i]).0@ == k;
        lemma_entry_at(s, i);
    }
    assert(entries_map(s) =~= m);
}

/// The cache `m` after offering `kline` for key `k`: it is stored when the key
/// has no value yet or when it is not older than the stored one.
pub open spec fn cache_after(m: Map<KeyView, Kline>, k: KeyView, kline: Kline) -> Map<KeyView, Kline> {
    if !m.contains_key(k) || kline.utc_begin >= m[k].utc_begin {
        m.insert(k, kline)
    } else {
        m
    }
}

/// Offering two candles for one key leaves the same cache in either order, and
/// the later of the two is what is stored, unless the cache already held a
/// candle later than both.
pub proof fn lemma_update_order_irrelevant(m: Map<KeyView, Kline>, k: KeyView, earlier: Kline, later: Kline)
    requires
        earlier.utc_begin < later.utc_begin,
        !m.contains_key(k) || m[k].utc_begin <= later.utc_begin,
    ensures
        cache_after(cache_after(m, k, earlier), k, later) == m.insert(k, later),
        cache_after(cache_after(m, k, later), k, earlier) == m.insert(k, later),
        cache_after(cache_after(m, k, earlier), k, later)[k].utc_begin == later.utc_begin,
{
    assert(cache_after(cache_after(m, k, earlier), k, later) =~= m.insert(k, later));
    assert(cache_after(cache_after(m, k, later), k, earlier) =~= m.insert(k, later));
}

/// The cached candle of a key never moves back in time.
pub proof fn lemma_update_never_regresses(m: Map<KeyView, Kline>, k: KeyView, kline: Kline)
    ensures
        cache_after(m, k, kline).contains_key(k),
        m.contains_key(k) ==> cache_after(m, k, kline)[k].utc_begin >= m[k].utc_begin,
        cache_after(m, k, kline)[k].utc_begin >= kline.utc_begin,
        forall|q: KeyView| q != k ==> #[trigger] cache_after(m, k, kline).contains_key(q) == m.contains_key(q),
        forall|q: KeyView| q != k && m.contains_key(q) ==> #[trigger] cache_after(m, k, kline)[q] == m[q],
{
}

impl View for LastValueCache {
    type V = Map<KeyView, Kline>;

    closed spec fn view(&self) -> Map<KeyView, Kline> {
        entries_map(self.entries@)
    }
}

impl LastValueCache {
    /// Each key has at most one entry.
    pub closed spec fn wf(&self) -> bool {
        keys_distinct(self.entries@)
    }

    pub fn new() -> (r: LastValueCache)
        ensures
            r.wf(),
            r@ == Map::<KeyView, Kline>::empty(),
    {
        let r = LastValueCache { entries: Vec::new() };
        proof {
            lemma_entries_equal(r.entries@, Map::empty());
        }
        r
    }

    fn find(&self, key: &Key) -> (r: Option<usize>)
        ensures
            match r {
                Some(i) => i < self.entries@.len() && self.entries@[i as int].0@ == key@,
                None => !has_key(self.entries@, key@),
            },
    {
        let mut i: usize = 0;
        while i < self.entries.len()
            invariant
                i <= self.entries@.len(),
                forall|j: int| 0 <= j < i ==> (#[trigger] self.entries@[j]).0@ != key@,
            decreases self.entries@.len() - i,
        {
            if self.entries[i].0.same_as(key) {
                return Some(i);
            }
            i = i + 1;
        }
        None
    }

    /// Offers `kline` as the latest candle of `key` (see [`cache_after`]).
    pub fn update(&mut self, key: Key, kline: Kline)
        requires
            old(self).wf(),
        ensures
            final(self).wf(),
            final(self)@ == cache_after(old(self)@, key@, kline),
    {
        let ghost before = self.entries@;
        let ghost k = key@;
        match self.find(&key) {
            Some(i) => {
                proof {
                    lemma_entry_at(before, i as int);
                }
                if kline.utc_begin >= self.entries[i].1.utc_begin {
                    self.entries.set(i, (key, kline));
                    proof {
                        let after = self.entries@;
                        let target = entries_map(before).insert(k, kline);
                        assert forall|a: int, b: int|
                            0 <= a < after.len() && 0 <= b < after.len() && a != b implies
                            (#[trigger] after[a]).0@ != (#[trigger] after[b]).0@ by {
                            assert(before[a].0@ != before[b].0@);
                        }
                        assert forall|j: int| 0 <= j < after.len() implies
                            target.contains_key((#[trigger] after[j]).0@) && target[after[j].0@] == after[j].1 by {
                            lemma_entry_at(before, j);
                        }
                        assert forall|q: KeyView| target.contains_key(q) implies has_key(after, q) by {
                            if q == k {
                                assert(after[i as int].0@ == q);
                            } else {
                                let j = choose|j: int| 0 <= j < before.len() && (#[trigger] before[j]).0@ == q;
                                assert(after[j].0@ == q);
                            }
                        }
                        lemma_entries_equal(after, target);
                    }
                }
            },
            None => {
                self.entries.push((key, kline));
                proof {
                    let after = self.entries@;
                    let target = entries_map(before).insert(k, kline);
                    assert(after =~= before.push(after.last()));
                    assert forall|a: int, b: int|
                        0 <= a < after.len() && 0 <= b < after.len() && a != b implies
                        (#[trigger] after[a]).0@ != (#[trigger] after[b]).0@ by {
                        if a == before.len() {
                            assert(before[b].0@ != k);
                        } else if b == before.len() {
                            assert(before[a].0@ != k);
                        }
                    }
                    assert forall|j: int| 0 <= j < after.len() implies
                        target.contains_key((#[trigger] after[j]).0@) && target[after[j].0@] == after[j].1 by {
                        if j < before.len() {
                            lemma_entry_at(before, j);
                            assert(before[j].0@ != k);
                        }
                    }
                    assert forall|q: KeyView| target.contains_key(q) implies has_key(after, q) by {
                        if q == k {
                            assert(after[before.len() as int].0@ == q);
                        } else {
                            let j = choose|j: int| 0 <= j < before.len() && (#[trigger] before[j]).0@ == q;
                            assert(after[j].0@ == q);
                        }
                    }
                    lemma_entries_equal(after, target);
                }
            },
        }
    }

    /// The stored candle of `key`, if any.
    pub fn get(&self, key: &Key) -> (r: Option<Kline>)
        requires
            self.wf(),
        ensures
            r == if self@.contains_key(key@) { Some(self@[key@]) } else { None::<Kline> },
    {
        match self.find(key) {
            Some(i) => {
                proof {
                    lemma_entry_at(self.entries@, i as int);
                }
                Some(self.entries[i].1.clone())
            },
            None => None,
        }
    }
}

} // verus!
