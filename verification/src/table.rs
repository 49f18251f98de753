//! Values filed under the parameters of plugins.

use vstd::prelude::*;

verus! {

/// Names a parameter: the strip, the slot of the plugin on it, and the number of the
/// parameter in the plugin.
#[derive(Clone, Copy, Debug, PartialEq, Eq, Structural)]
pub struct ParamKey {
    pub ssid: i32,
    pub slot: i32,
    pub param: i32,
}

impl ParamKey {
    /// The order in which keys are filed: by strip, then slot, then number.
    pub open spec fn precedes(self, other: ParamKey) -> bool {
        ||| self.ssid < other.ssid
        ||| self.ssid == other.ssid && self.slot < other.slot
        ||| self.ssid == other.ssid && self.slot == other.slot && self.param < other.param
    }

    /// Whether this key is filed in front of `other`.
    fn before(&self, other: &ParamKey) -> (r: bool)
        ensures
            r == self.precedes(*other),
    {
        self.ssid < other.ssid || (self.ssid == other.ssid && (self.slot < other.slot || (self.slot
            == other.slot && self.param < other.param)))
    }
}

/// Whether `keys` stand in their order, none of them twice.
pub open spec fn ascending(keys: Seq<ParamKey>) -> bool {
    forall|i: int, j: int|
        0 <= i < j < keys.len() ==> (#[trigger] keys[i]).precedes(#[trigger] keys[j])
}

/// The members of `keys` in their order.
pub open spec fn in_order(keys: Set<ParamKey>) -> Seq<ParamKey> {
    choose|q: Seq<ParamKey>| lists(q, keys)
}

/// Whether `q` holds the members of `keys` in their order, and nothing else.
pub open spec fn lists(q: Seq<ParamKey>, keys: Set<ParamKey>) -> bool {
    ascending(q) && forall|k: ParamKey| #[trigger] q.contains(k) <==> keys.contains(k)
}

/// There is only one way to list the members of a set in their order.
pub proof fn lemma_one_listing(a: Seq<ParamKey>, b: Seq<ParamKey>, keys: Set<ParamKey>)
    requires
        lists(a, keys),
        lists(b, keys),
    ensures
        a == b,
    decreases a.len(),
{
    if a.len() == 0 {
        if b.len() > 0 {
            assert(b.contains(b[0]));
            assert(a.contains(b[0]));
        }
        assert(a =~= b);
    } else {
        assert(a.contains(a.last()));
        assert(b.contains(a.last()));
        let i = choose|i: int| 0 <= i < b.len() && b[i] == a.last();
        assert(b.contains(b.last()));
        assert(a.contains(b.last()));
        let j = choose|j: int| 0 <= j < a.len() && a[j] == b.last();
        if i < b.len() - 1 {
            assert(b[i].precedes(b[b.len() - 1]));
            if j < a.len() - 1 {
                assert(a[j].precedes(a[a.len() - 1]));
            }
        }
        let top = a.last();
        assert(b.last() == top);
        lemma_listing_without_last(a, keys);
        lemma_listing_without_last(b, keys);
        lemma_one_listing(a.drop_last(), b.drop_last(), keys.remove(top));
        assert(a =~= a.drop_last().push(top));
        assert(b =~= b.drop_last().push(top));
    }
}

/// A listing without its last key lists the set without that key.
proof fn lemma_listing_without_last(q: Seq<ParamKey>, keys: Set<ParamKey>)
    requires
        lists(q, keys),
        q.len() > 0,
    ensures
        lists(q.drop_last(), keys.remove(q.last())),
{
    let top = q.last();
    let rest = q.drop_last();
    assert forall|k: ParamKey| #[trigger] rest.contains(k) <==> keys.remove(top).contains(k) by {
        if rest.contains(k) {
            let i = choose|i: int| 0 <= i < rest.len() && rest[i] == k;
            assert(q[i] == k);
            assert(q.contains(k));
            assert(q[i].precedes(q[q.len() - 1]));
        }
        if keys.remove(top).contains(k) {
            assert(q.contains(k));
            let i = choose|i: int| 0 <= i < q.len() && q[i] == k;
            assert(rest[i] == k);
        }
    }
    assert forall|i: int, j: int| 0 <= i < j < rest.len() implies (
    #[trigger] rest[i]).precedes(#[trigger] rest[j]) by {
        assert(q[i].precedes(q[j]));
    }
}

/// A listing with one more key, put in its place.
proof fn lemma_listing_with(q: Seq<ParamKey>, keys: Set<ParamKey>, k: ParamKey) -> (r: Seq<
    ParamKey,
>)
    requires
        lists(q, keys),
        !keys.contains(k),
    ensures
        lists(r, keys.insert(k)),
    decreases q.len(),
{
    if q.len() == 0 || q.last().precedes(k) {
        let r = q.push(k);
        assert forall|x: ParamKey| #[trigger] r.contains(x) <==> keys.insert(k).contains(x) by {
            if r.contains(x) {
                let i = choose|i: int| 0 <= i < r.len() && r[i] == x;
                if i < q.len() {
                    assert(q[i] == x);
                    assert(q.contains(x));
                }
            }
            if x == k {
                assert(r[q.len() as int] == x);
            } else if keys.contains(x) {
                assert(q.contains(x));
                let i = choose|i: int| 0 <= i < q.len() && q[i] == x;
                assert(r[i] == x);
            }
        }
        assert forall|i: int, j: int| 0 <= i < j < r.len() implies (
        #[trigger] r[i]).precedes(#[trigger] r[j]) by {
            if j < q.len() {
                assert(q[i].precedes(q[j]));
            } else if i < q.len() - 1 {
                assert(q[i].precedes(q[q.len() - 1]));
            }
        }
        r
    } else {
        let top = q.last();
        assert(q.contains(top));
        lemma_listing_without_last(q, keys);
        let inner = lemma_listing_with(q.drop_last(), keys.remove(top), k);
        let r = inner.push(top);
        assert(k.precedes(top));
        assert forall|x: ParamKey| #[trigger] r.contains(x) <==> keys.insert(k).contains(x) by {
            if r.contains(x) {
                let i = choose|i: int| 0 <= i < r.len() && r[i] == x;
                if i < inner.len() {
                    assert(inner[i] == x);
                    assert(inner.contains(x));
                }
            }
            if x == top {
                assert(r[inner.len() as int] == x);
            } else if keys.insert(k).contains(x) {
                assert(keys.remove(top).insert(k).contains(x));
                assert(inner.contains(x));
                let i = choose|i: int| 0 <= i < inner.len() && inner[i] == x;
                assert(r[i] == x);
            }
        }
        assert forall|i: int, j: int| 0 <= i < j < r.len() implies (
        #[trigger] r[i]).precedes(#[trigger] r[j]) by {
            if j < inner.len() {
                assert(inner[i].precedes(inner[j]));
            } else {
                assert(inner.contains(inner[i]));
                assert(keys.remove(top).insert(k).contains(inner[i]));
                if inner[i] != k {
                    assert(q.contains(inner[i]));
                    let n = choose|n: int| 0 <= n < q.len() && q[n] == inner[i];
                    assert(q[n].precedes(q[q.len() - 1]));
                }
            }
        }
        r
    }
}

/// The members of a finite set can be listed in their order.
pub proof fn lemma_in_order(keys: Set<ParamKey>)
    requires
        keys.finite(),
    ensures
        lists(in_order(keys), keys),
    decreases keys.len(),
{
    if keys.len() == 0 {
        assert forall|k: ParamKey| !keys.contains(k) by {
            if keys.contains(k) {
                assert(keys.remove(k).len() < keys.len());
            }
        }
        let none = Seq::<ParamKey>::empty();
        assert(lists(none, keys));
    } else {
        let k = keys.choose();
        assert(keys.contains(k));
        lemma_in_order(keys.remove(k));
        let q = lemma_listing_with(in_order(keys.remove(k)), keys.remove(k), k);
        assert(keys.remove(k).insert(k) =~= keys);
        assert(lists(q, keys));
    }
}

/// A table with at most one value for each key.
#[derive(Debug)]
pub struct ParamTable<V> {
    entries: Vec<(ParamKey, V)>,
}

impl<V> ParamTable<V> {
    /// The keys in the table are filed in ascending order.
    pub closed spec fn wf(self) -> bool {
        forall|i: int, j: int|
            0 <= i < j < self.entries@.len() ==> (#[trigger] self.entries@[i]).0.precedes(
                (#[trigger] self.entries@[j]).0,
            )
    }

    /// Whether the entry at `i` is the one for `k`.
    closed spec fn is_at(self, k: ParamKey, i: int) -> bool {
        0 <= i < self.entries@.len() && self.entries@[i].0 == k
    }

    /// An entry for `k`, where there is one.
    closed spec fn place(self, k: ParamKey) -> int {
        choose|i: int| self.is_at(k, i)
    }

    /// The value of each key.
    pub closed spec fn map(self) -> Map<ParamKey, V> {
        Map::new(
            |k: ParamKey| exists|i: int| self.is_at(k, i),
            |k: ParamKey| self.entries@[self.place(k)].1,
        )
    }
}

impl<V> View for ParamTable<V> {
    type V = Map<ParamKey, V>;

    open spec fn view(&self) -> Map<ParamKey, V> {
        self.map()
    }
}

impl<V> ParamTable<V> {
    /// What the table says of the key at `i`.
    proof fn lemma_at(self, i: int)
        requires
            self.wf(),
            0 <= i < self.entries@.len(),
        ensures
            self@.contains_key(self.entries@[i].0),
            self@[self.entries@[i].0] == self.entries@[i].1,
    {
        let k = self.entries@[i].0;
        assert(self.is_at(k, i));
        let p = self.place(k);
        assert(self.is_at(k, p));
        if p < i {
            assert(self.entries@[p].0.precedes(self.entries@[i].0));
        } else if i < p {
            assert(self.entries@[i].0.precedes(self.entries@[p].0));
        }
    }

    /// A table without entries.
    pub fn new() -> (r: ParamTable<V>)
        ensures
            r.wf(),
            r@ == Map::<ParamKey, V>::empty(),
    {
        let r = ParamTable { entries: Vec::new() };
        proof {
            assert forall|k: ParamKey| !r@.contains_key(k) by {
                assert(forall|i: int| !r.is_at(k, i));
            }
            assert(r@ =~= Map::<ParamKey, V>::empty());
        }
        r
    }

    /// Where `k` stands in the table, or would stand.
    fn search(&self, k: ParamKey) -> (at: usize)
        requires
            self.wf(),
        ensures
            at <= self.entries@.len(),
            forall|i: int| 0 <= i < at ==> (#[trigger] self.entries@[i]).0.precedes(k),
            forall|i: int|
                at <= i < self.entries@.len() ==> !(#[trigger] self.entries@[i]).0.precedes(k),
    {
        let mut low: usize = 0;
        let mut high: usize = self.entries.len();
        while low < high
            invariant
                self.wf(),
                low <= high <= self.entries@.len(),
                forall|i: int| 0 <= i < low ==> (#[trigger] self.entries@[i]).0.precedes(k),
                forall|i: int|
                    high <= i < self.entries@.len() ==> !(#[trigger] self.entries@[i]).0.precedes(
                        k,
                    ),
            decreases high - low,
        {
            let middle: usize = low + (high - low) / 2;
            if self.entries[middle].0.before(&k) {
                assert forall|i: int| 0 <= i < middle + 1 implies (
                #[trigger] self.entries@[i]).0.precedes(k) by {
                    if i < middle {
                        assert(self.entries@[i].0.precedes(self.entries@[middle as int].0));
                    }
                }
                low = middle + 1;
            } else {
                assert forall|i: int| middle <= i < self.entries@.len() implies !(
                #[trigger] self.entries@[i]).0.precedes(k) by {
                    if i > middle {
                        assert(self.entries@[middle as int].0.precedes(self.entries@[i].0));
                    }
                }
                high = middle;
            }
        }
        low
    }

    /// The key that a search ends at is the wanted one, or the wanted one is missing.
    proof fn lemma_search(self, k: ParamKey, at: int)
        requires
            self.wf(),
            0 <= at <= self.entries@.len(),
            forall|i: int| 0 <= i < at ==> (#[trigger] self.entries@[i]).0.precedes(k),
            forall|i: int|
                at <= i < self.entries@.len() ==> !(#[trigger] self.entries@[i]).0.precedes(k),
        ensures
            self@.contains_key(k) <==> at < self.entries@.len() && self.entries@[at].0 == k,
            at < self.entries@.len() && self.entries@[at].0 == k ==> self@[k]
                == self.entries@[at].1,
    {
        if at < self.entries@.len() && self.entries@[at].0 == k {
            self.lemma_at(at);
        }
        if self@.contains_key(k) {
            let p = self.place(k);
            assert(self.is_at(k, p));
            if at < p {
                assert(self.entries@[at].0.precedes(self.entries@[p].0));
            }
        }
    }

    /// The value of `k`, where there is one.
    pub fn get(&self, k: ParamKey) -> (r: Option<&V>)
        requires
            self.wf(),
        ensures
            match r {
                Some(v) => self@.contains_key(k) && *v == self@[k],
                None => !self@.contains_key(k),
            },
    {
        let at: usize = self.search(k);
        proof {
            self.lemma_search(k, at as int);
        }
        if at < self.entries.len() && self.entries[at].0 == k {
            Some(&self.entries[at].1)
        } else {
            None
        }
    }

    /// Gives `k` the value `v`, in place of the one that it had.
    pub fn insert(&mut self, k: ParamKey, v: V)
        requires
            old(self).wf(),
        ensures
            final(self).wf(),
            final(self)@ == old(self)@.insert(k, v),
    {
        let ghost before = *self;
        let at: usize = self.search(k);
        proof {
            self.lemma_search(k, at as int);
        }
        if at < self.entries.len() && self.entries[at].0 == k {
            let _ = self.entries.remove(at);
            self.entries.insert(at, (k, v));
        } else {
            self.entries.insert(at, (k, v));
            proof {
                let e = self.entries@;
                assert forall|i: int, j: int| 0 <= i < j < e.len() implies (
                #[trigger] e[i]).0.precedes((#[trigger] e[j]).0) by {
                    let b = before.entries@;
                    if i < at && j > at {
                        assert(e[i] == b[i] && e[j] == b[j - 1]);
                    } else if i >= at && j > at {
                        assert(e[j] == b[j - 1]);
                        if i > at {
                            assert(e[i] == b[i - 1]);
                        }
                    }
                }
            }
        }
        proof {
            let after = *self;
            assert(after.entries@[at as int] == (k, v));
            assert(after.wf());
            let expected = before@.insert(k, v);
            assert forall|key: ParamKey|
                #![trigger after@.dom().contains(key)]
                #![trigger expected.dom().contains(key)]
                #![trigger after@[key]]
                after@.dom().contains(key) == expected.dom().contains(key) && (
                after@.dom().contains(key) ==> after@[key] == expected[key]) by {
                after.lemma_at(at as int);
                if key != k {
                    if after@.contains_key(key) {
                        let p = after.place(key);
                        assert(after.is_at(key, p));
                        let q = if before@.contains_key(k) || p < at {
                            p
                        } else {
                            p - 1
                        };
                        assert(before.entries@[q] == after.entries@[p]);
                        before.lemma_at(q);
                        after.lemma_at(p);
                    }
                    if before@.contains_key(key) {
                        let q = before.place(key);
                        assert(before.is_at(key, q));
                        let p = if before@.contains_key(k) || q < at {
                            q
                        } else {
                            q + 1
                        };
                        assert(before.entries@[q] == after.entries@[p]);
                        after.lemma_at(p);
                    }
                }
            }
            assert(after@ =~= expected);
        }
    }

    /// The keys of the table, in ascending order.
    pub fn keys(&self) -> (r: Vec<ParamKey>)
        requires
            self.wf(),
        ensures
            lists(r@, self@.dom()),
            r@ == in_order(self@.dom()),
    {
        let mut r: Vec<ParamKey> = Vec::new();
        let mut i: usize = 0;
        while i < self.entries.len()
            invariant
                i <= self.entries@.len(),
                r@.len() == i,
                forall|j: int| 0 <= j < i ==> #[trigger] r@[j] == self.entries@[j].0,
            decreases self.entries@.len() - i,
        {
            r.push(self.entries[i].0);
            i = i + 1;
        }
        proof {
            assert forall|k: ParamKey|
                #[trigger] r@.contains(k) <==> self@.dom().contains(k) by {
                if r@.contains(k) {
                    let j = choose|j: int| 0 <= j < r@.len() && r@[j] == k;
                    self.lemma_at(j);
                }
                if self@.contains_key(k) {
                    let p = self.place(k);
                    assert(self.is_at(k, p));
                    assert(r@[p] == k);
                }
            }
            assert forall|a: int, b: int| 0 <= a < b < r@.len() implies (
            #[trigger] r@[a]).precedes(#[trigger] r@[b]) by {
                assert(self.entries@[a].0.precedes(self.entries@[b].0));
            }
            assert(lists(r@, self@.dom()));
            lemma_one_listing(r@, in_order(self@.dom()), self@.dom());
        }
        r
    }
}

} // verus!
