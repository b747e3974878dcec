//! Values grouped under text keys, in the order they were added.
use vstd::prelude::*;

verus! {

/// How many of `keys` have the text `k`.
pub open spec fn key_count(keys: Seq<String>, k: Seq<char>) -> nat
    decreases keys.len(),
{
    if keys.len() == 0 {
        0
    } else {
        key_count(keys.drop_last(), k) + if keys.last()@ == k {
            1nat
        } else {
            0nat
        }
    }
}

/// The values of `items` filed under the key `k`: each item gives its value
/// once for every one of its keys that is `k`, in the order of the items.
pub open spec fn grouped<V>(items: Seq<(Seq<String>, V)>, k: Seq<char>) -> Seq<V>
    decreases items.len(),
{
    if items.len() == 0 {
        Seq::empty()
    } else {
        grouped(items.drop_last(), k) + Seq::new(
            key_count(items.last().0, k),
            |_j: int| items.last().1,
        )
    }
}

/// Keys, each with the non-empty list of values filed under it.
pub struct Groups<V> {
    entries: Vec<(String, Vec<V>)>,
}

impl<V> Groups<V> {
    /// The entries: each key with its values.
    pub closed spec fn entry_seq(&self) -> Seq<(String, Vec<V>)> {
        self.entries@
    }

    pub open spec fn size(&self) -> nat {
        self.entry_seq().len()
    }

    pub open spec fn key_at(&self, i: int) -> Seq<char> {
        self.entry_seq()[i].0@
    }

    pub open spec fn group_at(&self, i: int) -> Seq<V> {
        self.entry_seq()[i].1@
    }

    /// `k` is one of the keys.
    pub open spec fn has_key(&self, k: Seq<char>) -> bool {
        exists|i: int| 0 <= i < self.size() && self.key_at(i) == k
    }

    /// No key twice, and no key without a value.
    pub open spec fn wf(&self) -> bool {
        &&& forall|i: int, j: int|
            0 <= i < self.size() && 0 <= j < self.size() && i != j ==> self.key_at(i) != self.key_at(j)
        &&& forall|i: int| 0 <= i < self.size() ==> self.group_at(i).len() > 0
    }

    /// The values filed under `k`; empty when `k` is not a key.
    pub open spec fn lookup(&self, k: Seq<char>) -> Seq<V> {
        if self.has_key(k) {
            self.group_at(choose|i: int| 0 <= i < self.size() && self.key_at(i) == k)
        } else {
            Seq::empty()
        }
    }

    /// In a well-formed grouping, the values under a key are those of its
    /// entry, and a key is present exactly when it has values.
    pub proof fn lemma_lookup(&self, k: Seq<char>)
        requires
            self.wf(),
        ensures
            forall|i: int| 0 <= i < self.size() && self.key_at(i) == k ==> self.lookup(k) == self.group_at(i),
            self.has_key(k) <==> self.lookup(k).len() > 0,
    {
        if self.has_key(k) {
            let c = choose|i: int| 0 <= i < self.size() && self.key_at(i) == k;
            assert(self.group_at(c).len() > 0);
        }
    }

    /// No keys.
    pub fn new() -> (r: Self)
        ensures
            r.wf(),
            r.size() == 0,
            forall|k: Seq<char>| !r.has_key(k),
    {
        Groups { entries: Vec::new() }
    }

    /// The number of keys.
    pub fn len(&self) -> (r: usize)
        ensures
            r == self.size(),
    {
        self.entries.len()
    }

    /// The entries, each key with its values.
    pub fn entries(&self) -> (r: &Vec<(String, Vec<V>)>)
        ensures
            r@ == self.entry_seq(),
    {
        &self.entries
    }

    /// Files `value` under `key`, after the values already there.
    pub fn add(&mut self, key: &String, value: V)
        requires
            old(self).wf(),
        ensures
            final(self).wf(),
            forall|k: Seq<char>| #[trigger]
                final(self).has_key(k) <==> (old(self).has_key(k) || k == key@),
            forall|k: Seq<char>| #[trigger]
                final(self).lookup(k) == if k == key@ {
                    old(self).lookup(k).push(value)
                } else {
                    old(self).lookup(k)
                },
    {
        let ghost prev = *self;
        let n = self.entries.len();
        let mut i: usize = 0;
        while i < n
            invariant
                n == self.entries@.len(),
                *self == prev,
                prev == *old(self),
                prev.wf(),
                i <= n,
                forall|m: int| 0 <= m < i ==> self.key_at(m) != key@,
            decreases n - i,
        {
            if self.entries[i].0 == *key {
                assert(prev.key_at(i as int) == key@);
                self.entries[i].1.push(value);
                proof {
                    assert(self.size() == prev.size());
                    assert(self.key_at(i as int) == key@);
                    assert forall|m: int| 0 <= m < self.size() && m != i implies #[trigger] self.group_at(m) == prev.group_at(m) by {}
                    assert forall|m: int| 0 <= m < self.size() implies #[trigger] self.key_at(m) == prev.key_at(m) by {}
                    assert forall|k: Seq<char>| #[trigger] self.has_key(k) <==> (prev.has_key(k) || k == key@) by {
                        if prev.has_key(k) {
                            let c = choose|m: int| 0 <= m < prev.size() && prev.key_at(m) == k;
                            assert(self.key_at(c) == k);
                        }
                        if self.has_key(k) {
                            let c = choose|m: int| 0 <= m < self.size() && self.key_at(m) == k;
                            assert(prev.key_at(c) == k);
                        }
                    }
                    assert(self.wf());
                    assert forall|k: Seq<char>| #[trigger] self.lookup(k) == if k == key@ {
                        prev.lookup(k).push(value)
                    } else {
                        prev.lookup(k)
                    } by {
                        prev.lemma_lookup(k);
                        self.lemma_lookup(k);
                        if k == key@ {
                            assert(self.group_at(i as int) =~= prev.group_at(i as int).push(value));
                        } else if prev.has_key(k) {
                            let c = choose|m: int| 0 <= m < prev.size() && prev.key_at(m) == k;
                            assert(self.group_at(c) == prev.group_at(c));
                        }
                    }
                }
                return;
            }
            i = i + 1;
        }
        let mut group: Vec<V> = Vec::new();
        group.push(value);
        self.entries.push((key.clone(), group));
        proof {
            assert(self.size() == prev.size() + 1);
            assert forall|m: int| 0 <= m < prev.size() implies #[trigger] self.group_at(m) == prev.group_at(m) by {}
            assert forall|m: int| 0 <= m < prev.size() implies #[trigger] self.key_at(m) == prev.key_at(m) by {}
            assert(self.key_at(n as int) == key@);
            assert forall|k: Seq<char>| #[trigger] self.has_key(k) <==> (prev.has_key(k) || k == key@) by {
                if prev.has_key(k) {
                    let c = choose|m: int| 0 <= m < prev.size() && prev.key_at(m) == k;
                    assert(self.key_at(c) == k);
                }
                if self.has_key(k) {
                    let c = choose|m: int| 0 <= m < self.size() && self.key_at(m) == k;
                    if c < n {
                        assert(prev.key_at(c) == k);
                    }
                }
            }
            assert(self.wf());
            assert forall|k: Seq<char>| #[trigger] self.lookup(k) == if k == key@ {
                prev.lookup(k).push(value)
            } else {
                prev.lookup(k)
            } by {
                prev.lemma_lookup(k);
                self.lemma_lookup(k);
                if k == key@ {
                    assert(!prev.has_key(k));
                    assert(self.group_at(n as int) =~= seq![value]);
                    assert(prev.lookup(k).push(value) =~= seq![value]);
                } else if prev.has_key(k) {
                    let c = choose|m: int| 0 <= m < prev.size() && prev.key_at(m) == k;
                    assert(self.group_at(c) == prev.group_at(c));
                }
            }
        }
    }
}

/// One more key of an item counts once more under that key.
pub proof fn lemma_key_count_step(keys: Seq<String>, j: int, k: Seq<char>)
    requires
        0 <= j < keys.len(),
    ensures
        key_count(keys.take(j + 1), k) == key_count(keys.take(j), k) + if keys[j]@ == k {
            1nat
        } else {
            0nat
        },
{
    assert(keys.take(j + 1).drop_last() =~= keys.take(j));
}

/// One more item adds its values after those of the items before it.
pub proof fn lemma_grouped_step<V>(items: Seq<(Seq<String>, V)>, i: int, k: Seq<char>)
    requires
        0 <= i < items.len(),
    ensures
        grouped(items.take(i + 1), k) == grouped(items.take(i), k) + Seq::new(
            key_count(items[i].0, k),
            |_j: int| items[i].1,
        ),
{
    assert(items.take(i + 1).drop_last() =~= items.take(i));
}

/// Files the index `v` under each of `keys`, once per key.
pub fn add_index_under_all(g: &mut Groups<usize>, keys: &Vec<String>, v: usize)
    requires
        old(g).wf(),
    ensures
        final(g).wf(),
        forall|k: Seq<char>| #[trigger]
            final(g).lookup(k) == old(g).lookup(k) + Seq::new(key_count(keys@, k), |_m: int| v),
{
    let ghost start = *g;
    let mut j: usize = 0;
    assert forall|k: Seq<char>| #[trigger] g.lookup(k) == start.lookup(k) + Seq::new(
        key_count(keys@.take(0), k),
        |_m: int| v,
    ) by {
        assert(keys@.take(0).len() == 0);
        assert(start.lookup(k) + Seq::new(key_count(keys@.take(0), k), |_m: int| v) =~= start.lookup(k));
    }
    while j < keys.len()
        invariant
            j <= keys@.len(),
            start == *old(g),
            g.wf(),
            forall|k: Seq<char>| #[trigger]
                g.lookup(k) == start.lookup(k) + Seq::new(key_count(keys@.take(j as int), k), |_m: int| v),
        decreases keys@.len() - j,
    {
        let ghost before = *g;
        g.add(&keys[j], v);
        proof {
            assert forall|k: Seq<char>| #[trigger] g.lookup(k) == start.lookup(k) + Seq::new(
                key_count(keys@.take(j + 1), k),
                |_m: int| v,
            ) by {
                lemma_key_count_step(keys@, j as int, k);
                let c = key_count(keys@.take(j as int), k);
                if k == keys@[j as int]@ {
                    assert(Seq::new(c + 1, |_m: int| v) =~= Seq::new(c, |_m: int| v).push(v));
                    assert(g.lookup(k) == before.lookup(k).push(v));
                    assert(start.lookup(k) + Seq::new(c + 1, |_m: int| v) =~= (start.lookup(k) + Seq::new(c, |_m: int| v)).push(v));
                }
            }
        }
        j = j + 1;
    }
    assert(keys@.take(keys@.len() as int) =~= keys@);
}

/// The values filed under a key are the values of the items that carry the
/// key: `v` is among them exactly when some item with value `v` has the key.
pub proof fn lemma_grouped_members<V>(items: Seq<(Seq<String>, V)>, k: Seq<char>, v: V)
    ensures
        grouped(items, k).contains(v) <==> exists|i: int|
            0 <= i < items.len() && items[i].1 == v && #[trigger] key_count(items[i].0, k) > 0,
    decreases items.len(),
{
    if items.len() > 0 {
        let init = items.drop_last();
        lemma_grouped_members(init, k, v);
        let last = items.last();
        let tail = Seq::new(key_count(last.0, k), |_j: int| last.1);
        let g = grouped(items, k);
        assert(g == grouped(init, k) + tail);
        if grouped(items, k).contains(v) {
            let p = choose|p: int| 0 <= p < g.len() && g[p] == v;
            if p < grouped(init, k).len() {
                assert(grouped(init, k)[p] == v);
                let i = choose|i: int|
                    0 <= i < init.len() && init[i].1 == v && #[trigger] key_count(init[i].0, k) > 0;
                assert(items[i] == init[i]);
            } else {
                assert(tail[p - grouped(init, k).len()] == v);
                assert(items[items.len() - 1] == last);
            }
        }
        if exists|i: int| 0 <= i < items.len() && items[i].1 == v && #[trigger] key_count(items[i].0, k) > 0 {
            let i = choose|i: int| 0 <= i < items.len() && items[i].1 == v && #[trigger] key_count(items[i].0, k) > 0;
            if i < items.len() - 1 {
                assert(init[i] == items[i]);
                let p = choose|p: int| 0 <= p < grouped(init, k).len() && grouped(init, k)[p] == v;
                assert(g[p] == v);
            } else {
                assert(tail[0] == v);
                assert(g[grouped(init, k).len() as int] == v);
            }
        }
    }
}

/// An item carries a key when one of its keys is that key.
pub proof fn lemma_key_count_positive(keys: Seq<String>, k: Seq<char>)
    ensures
        key_count(keys, k) > 0 <==> exists|j: int| 0 <= j < keys.len() && #[trigger] keys[j]@ == k,
    decreases keys.len(),
{
    if keys.len() > 0 {
        lemma_key_count_positive(keys.drop_last(), k);
        if exists|j: int| 0 <= j < keys.len() && #[trigger] keys[j]@ == k {
            let j = choose|j: int| 0 <= j < keys.len() && #[trigger] keys[j]@ == k;
            if j < keys.len() - 1 {
                assert(keys.drop_last()[j]@ == k);
            }
        }
        if key_count(keys.drop_last(), k) > 0 {
            let j = choose|j: int| 0 <= j < keys.drop_last().len() && #[trigger] keys.drop_last()[j]@ == k;
            assert(keys[j]@ == k);
        }
    }
}

/// Every value in the grouping is below `n`.
pub open spec fn indices_below(g: Groups<usize>, n: nat) -> bool {
    forall|i: int, j: int| 0 <= i < g.size() && 0 <= j < g.group_at(i).len() ==> #[trigger] g.group_at(i)[j] < n
}

/// Whether every value in the grouping is below `n`.
pub fn indices_in_range(g: &Groups<usize>, n: usize) -> (r: bool)
    ensures
        r == indices_below(*g, n as nat),
{
    let entries = g.entries();
    let mut i: usize = 0;
    while i < entries.len()
        invariant
            entries@ == g.entry_seq(),
            i <= entries@.len(),
            forall|a: int, b: int| 0 <= a < i && 0 <= b < g.group_at(a).len() ==> #[trigger] g.group_at(a)[b] < n,
        decreases entries@.len() - i,
    {
        let group = &entries[i].1;
        let mut j: usize = 0;
        while j < group.len()
            invariant
                entries@ == g.entry_seq(),
                i < entries@.len(),
                *group == entries@[i as int].1,
                j <= group@.len(),
                forall|a: int, b: int| 0 <= a < i && 0 <= b < g.group_at(a).len() ==> #[trigger] g.group_at(a)[b] < n,
                forall|b: int| 0 <= b < j ==> #[trigger] group@[b] < n,
            decreases group@.len() - j,
        {
            if group[j] >= n {
                assert(g.group_at(i as int)[j as int] >= n);
                return false;
            }
            j = j + 1;
        }
        i = i + 1;
    }
    true
}

/// Values of items that are all below `n` stay below `n` when grouped.
pub proof fn lemma_grouped_below(items: Seq<(Seq<String>, usize)>, k: Seq<char>, n: nat)
    requires
        forall|i: int| 0 <= i < items.len() ==> #[trigger] items[i].1 < n,
    ensures
        forall|p: int| 0 <= p < grouped(items, k).len() ==> #[trigger] grouped(items, k)[p] < n,
    decreases items.len(),
{
    if items.len() > 0 {
        let init = items.drop_last();
        assert forall|i: int| 0 <= i < init.len() implies #[trigger] init[i].1 < n by {
            assert(init[i] == items[i]);
        }
        lemma_grouped_below(init, k, n);
        assert(items.last().1 < n);
        let front = grouped(init, k);
        let tail = Seq::new(key_count(items.last().0, k), |_j: int| items.last().1);
        assert(grouped(items, k) == front + tail);
        assert forall|p: int| 0 <= p < grouped(items, k).len() implies #[trigger] grouped(items, k)[p] < n by {
            if p < front.len() {
                assert(grouped(items, k)[p] == front[p]);
            } else {
                assert(grouped(items, k)[p] == tail[p - front.len()]);
            }
        }
    }
}

/// A grouping that files each key's values as `grouped(items, ·)` has only
/// values that some item has; with item values below `n`, all are below `n`.
pub proof fn lemma_groups_below(g: Groups<usize>, items: Seq<(Seq<String>, usize)>, n: nat)
    requires
        g.wf(),
        forall|k: Seq<char>| #[trigger] g.lookup(k) == grouped(items, k),
        forall|i: int| 0 <= i < items.len() ==> #[trigger] items[i].1 < n,
    ensures
        indices_below(g, n),
{
    assert forall|i: int, j: int| 0 <= i < g.size() && 0 <= j < g.group_at(i).len() implies #[trigger] g.group_at(i)[j] < n by {
        let k = g.key_at(i);
        g.lemma_lookup(k);
        lemma_grouped_below(items, k, n);
        assert(g.group_at(i) == grouped(items, k));
    }
}

} // verus!
