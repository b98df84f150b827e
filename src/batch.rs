use vstd::prelude::*;
use crate::kline::{Key, KeyView, Kline};

verus! {

/// The candles of one processing cycle, grouped by key.
///
/// Each key has at most one group, and every candle of a group carries that
/// group's key. Abstractly a batch is a map from keys to candle sequences,
/// each sequence in the order its candles were added.
pub struct Batch {
    groups: Vec<(Key, Vec<Kline>)>,
}

spec fn has_key(s: Seq<(Key, Vec<Kline>)>, k: KeyView) -> bool {
    exists|i: int| 0 <= i < s.len() && (#[trigger] s[i]).0@ == k
}

spec fn groups_map(s: Seq<(Key, Vec<Kline>)>) -> Map<KeyView, Seq<Kline>> {
    Map::new(
        |k: KeyView| has_key(s, k),
        |k: KeyView| s[choose|i: int| 0 <= i < s.len() && (#[trigger] s[i]).0@ == k].1@,
    )
}

spec fn keys_distinct(s: Seq<(Key, Vec<Kline>)>) -> bool {
    forall|i: int, j: int|
        0 <= i < s.len() && 0 <= j < s.len() && i != j ==> (#[trigger] s[i]).0@ != (#[trigger] s[j]).0@
}

spec fn keys_carried(s: Seq<(Key, Vec<Kline>)>) -> bool {
    forall|i: int, j: int|
        0 <= i < s.len() && 0 <= j < s[i].1@.len() ==> (#[trigger] s[i].1@[j]).key_view() == s[i].0@
}

proof fn lemma_group_at(s: Seq<(Key, Vec<Kline>)>, i: int)
    requires
        keys_distinct(s),
        0 <= i < s.len(),
    ensures
        groups_map(s).contains_key(s[i].0@),
        groups_map(s)[s[i].0@] == s[i].1@,
{
    let k = s[i].0@;
    assert(has_key(s, k));
    let j = choose|j: int| 0 <= j < s.len() && (#[trigger] s[j]).0@ == k;
    assert(j == i);
}

proof fn lemma_groups_equal(s: Seq<(Key, Vec<Kline>)>, m: Map<KeyView, Seq<Kline>>)
    requires
        keys_distinct(s),
        forall|i: int| 0 <= i < s.len() ==> m.contains_key((#[trigger] s[i]).0@) && m[s[i].0@] == s[i].1@,
        forall|k: KeyView| m.contains_key(k) ==> has_key(s, k),
    ensures
        groups_map(s) == m,
{
    assert forall|k: KeyView| groups_map(s).contains_key(k) == m.contains_key(k) by {
        if has_key(s, k) {
            let i = choose|i: int| 0 <= i < s.len() && (#[trigger] s[i]).0@ == k;
            lemma_group_at(s, i);
        }
    }
    assert forall|k: KeyView| #[trigger] m.contains_key(k) implies groups_map(s)[k] == m[k] by {
        let i = choose|i: int| 0 <= i < s.len() && (#[trigger] s[i]).0@ == k;
        lemma_group_at(s, i);
    }
    assert(groups_map(s) =~= m);
}

/// The batch that pushing the candles of `s`, in order, into an empty batch
/// gives: the candles grouped by key, each group in the order of `s`.
pub open spec fn grouped(s: Seq<Kline>) -> Map<KeyView, Seq<Kline>>
    decreases s.len(),
{
    if s.len() == 0 {
        Map::empty()
    } else {
        let m = grouped(s.drop_last());
        let k = s.last().key_view();
        m.insert(k, if m.contains_key(k) { m[k].push(s.last()) } else { seq![s.last()] })
    }
}

impl View for Batch {
    type V = Map<KeyView, Seq<Kline>>;

    closed spec fn view(&self) -> Map<KeyView, Seq<Kline>> {
        groups_map(self.groups@)
    }
}

impl Batch {
    /// Each key has one group, and each candle sits in the group of its key.
    pub closed spec fn wf(&self) -> bool {
        keys_distinct(self.groups@) && keys_carried(self.groups@)
    }

    pub fn new() -> (r: Batch)
        ensures
            r.wf(),
            r@ == Map::<KeyView, Seq<Kline>>::empty(),
    {
        let r = Batch { groups: Vec::new() };
        proof {
            lemma_groups_equal(r.groups@, Map::empty());
        }
        r
    }

    /// Groups `klines` by key, keeping their order within each group.
    pub fn from_klines(klines: Vec<Kline>) -> (r: Batch)
        ensures
            r.wf(),
            r@ == grouped(klines@),
    {
        let mut r = Batch::new();
        let mut i: usize = 0;
        proof {
            assert(klines@.take(0) =~= Seq::<Kline>::empty());
        }
        while i < klines.len()
            invariant
                i <= klines@.len(),
                r.wf(),
                r@ == grouped(klines@.take(i as int)),
            decreases klines@.len() - i,
        {
            proof {
                assert(klines@.take(i as int + 1).drop_last() =~= klines@.take(i as int));
            }
            r.push(klines[i].clone());
            i = i + 1;
        }
        proof {
            assert(klines@.take(klines@.len() as int) =~= klines@);
        }
        r
    }

    fn find(&self, key: &Key) -> (r: Option<usize>)
        ensures
            match r {
                Some(i) => i < self.groups@.len() && self.groups@[i as int].0@ == key@,
                None => !has_key(self.groups@, key@),
            },
    {
        let mut i: usize = 0;
        while i < self.groups.len()
            invariant
                i <= self.groups@.len(),
                forall|j: int| 0 <= j < i ==> (#[trigger] self.groups@[j]).0@ != key@,
            decreases self.groups@.len() - i,
        {
            if self.groups[i].0.same_as(key) {
                return Some(i);
            }
            i = i + 1;
        }
        None
    }

    pub fn contains_key(&self, key: &Key) -> (r: bool)
        requires
            self.wf(),
        ensures
            r == self@.contains_key(key@),
    {
        match self.find(key) {
            Some(i) => {
                proof {
                    lemma_group_at(self.groups@, i as int);
                }
                true
            },
            None => false,
        }
    }

    /// Whether no key is left in the batch.
    pub fn is_empty(&self) -> (r: bool)
        requires
            self.wf(),
        ensures
            r == (self@ == Map::<KeyView, Seq<Kline>>::empty()),
    {
        if self.groups.len() == 0 {
            proof {
                lemma_groups_equal(self.groups@, Map::empty());
            }
            true
        } else {
            proof {
                lemma_group_at(self.groups@, 0);
                assert(!Map::<KeyView, Seq<Kline>>::empty().contains_key(self.groups@[0].0@));
            }
            false
        }
    }

    /// Appends `kline` to the group of its key, opening the group if needed.
    pub fn push(&mut self, kline: Kline)
        requires
            old(self).wf(),
        ensures
            final(self).wf(),
            final(self)@ == old(self)@.insert(
                kline.key_view(),
                if old(self)@.contains_key(kline.key_view()) {
                    old(self)@[kline.key_view()].push(kline)
                } else {
                    seq![kline]
                },
            ),
    {
        let ghost before = self.groups@;
        let ghost k = kline.key_view();
        let key = kline.key();
        match self.find(&key) {
            Some(i) => {
                proof {
                    lemma_group_at(before, i as int);
                }
                let (gk, mut klines) = self.groups.remove(i);
                klines.push(kline);
                self.groups.insert(i, (gk, klines));
                proof {
                    let after = self.groups@;
                    assert(after =~= before.update(i as int, after[i as int]));
                    assert forall|a: int, b: int|
                        0 <= a < after.len() && 0 <= b < after[a].1@.len() implies
                        (#[trigger] after[a].1@[b]).key_view() == after[a].0@ by {
                        if a == i as int && b == before[a].1@.len() {
                        } else {
                            assert(after[a].1@[b] == before[a].1@[b]);
                        }
                    }
                    assert forall|a: int, b: int|
                        0 <= a < after.len() && 0 <= b < after.len() && a != b implies
                        (#[trigger] after[a]).0@ != (#[trigger] after[b]).0@ by {
                        assert(before[a].0@ != before[b].0@);
                    }
                    let target = groups_map(before).insert(k, groups_map(before)[k].push(kline));
                    assert forall|j: int| 0 <= j < after.len() implies
                        target.contains_key((#[trigger] after[j]).0@) && target[after[j].0@] == after[j].1@ by {
                        lemma_group_at(before, j);
                    }
                    assert forall|q: KeyView| target.contains_key(q) implies has_key(after, q) by {
                        if q == k {
                            assert(after[i as int].0@ == q);
                        } else {
                            let j = choose|j: int| 0 <= j < before.len() && (#[trigger] before[j]).0@ == q;
                            assert(after[j].0@ == q);
                        }
                    }
                    lemma_groups_equal(after, target);
                }
            },
            None => {
                let mut klines: Vec<Kline> = Vec::new();
                klines.push(kline);
                self.groups.push((key, klines));
                proof {
                    let after = self.groups@;
                    assert(after =~= before.push(after.last()));
                    assert(after.last().1@ =~= seq![kline]);
                    let target = groups_map(before).insert(k, seq![kline]);
                    assert forall|a: int, b: int|
                        0 <= a < after.len() && 0 <= b < after.len() && a != b implies
                        (#[trigger] after[a]).0@ != (#[trigger] after[b]).0@ by {
                        if a == before.len() {
                            assert(!has_key(before, k));
                            assert(before[b].0@ != k);
                        } else if b == before.len() {
                            assert(before[a].0@ != k);
                        }
                    }
                    assert forall|j: int| 0 <= j < after.len() implies
                        target.contains_key((#[trigger] after[j]).0@) && target[after[j].0@] == after[j].1@ by {
                        if j < before.len() {
                            lemma_group_at(before, j);
                            assert(before[j].0@ != k);
                        }
                    }
                    assert forall|q: KeyView| target.contains_key(q) implies has_key(after, q) by {
                        if q == k {
                            assert(after[before.len() as int].0@ == q);
                        } else {
                            let j = choose|j: int| 0 <= j < before.len() && (#[trigger] before[j]).0@ == q;
                            assert(after[j].0@ == q);
                        }
                    }
                    lemma_groups_equal(after, target);
                }
            },
        }
    }

    /// Takes the group of `key` out of the batch.
    pub fn remove(&mut self, key: &Key) -> (r: Option<Vec<Kline>>)
        requires
            old(self).wf(),
        ensures
            final(self).wf(),
            final(self)@ == old(self)@.remove(key@),
            match r {
                Some(klines) => old(self)@.contains_key(key@) && klines@ == old(self)@[key@],
                None => !old(self)@.contains_key(key@),
            },
    {
        let ghost before = self.groups@;
        match self.find(key) {
            Some(i) => {
                proof {
                    lemma_group_at(before, i as int);
                }
                let (_, klines) = self.groups.remove(i);
                proof {
                    let after = self.groups@;
                    let target = groups_map(before).remove(key@);
                    assert forall|a: int, b: int|
                        0 <= a < after.len() && 0 <= b < after.len() && a != b implies
                        (#[trigger] after[a]).0@ != (#[trigger] after[b]).0@ by {
                        let a0 = if a < i { a } else { a + 1 };
                        let b0 = if b < i { b } else { b + 1 };
                        assert(after[a] == before[a0] && after[b] == before[b0]);
                    }
                    assert forall|a: int, b: int|
                        0 <= a < after.len() && 0 <= b < after[a].1@.len() implies
                        (#[trigger] after[a].1@[b]).key_view() == after[a].0@ by {
                        let a0 = if a < i { a } else { a + 1 };
                        assert(after[a] == before[a0]);
                    }
                    assert forall|j: int| 0 <= j < after.len() implies
                        target.contains_key((#[trigger] after[j]).0@) && target[after[j].0@] == after[j].1@ by {
                        let j0 = if j < i { j } else { j + 1 };
                        assert(after[j] == before[j0]);
                        lemma_group_at(before, j0);
                    }
                    assert forall|q: KeyView| target.contains_key(q) implies has_key(after, q) by {
                        let j = choose|j: int| 0 <= j < before.len() && (#[trigger] before[j]).0@ == q;
                        if j < i {
                            assert(after[j].0@ == q);
                        } else {
                            assert(after[j - 1].0@ == q);
                        }
                    }
                    lemma_groups_equal(after, target);
                }
                Some(klines)
            },
            None => {
                proof {
                    assert(groups_map(before).remove(key@) =~= groups_map(before));
                }
                None
            },
        }
    }
}

} // verus!
