//! A map kept in ascending key order, so that its entries can be walked, searched from a bound and
//! popped from the end deterministically. Keys go by `Sortable`, whose order is proved. Of the standard
//! maps nothing can be proved for keys that are structs: not even that an inserted key is there.
use crate::order::{Rank, Sortable};
use vstd::prelude::*;

verus! {

/// Each key comes strictly before every later one.
pub open spec fn ascending<K: Sortable>(keys: Seq<K>) -> bool {
    forall|i: int, j: int|
        0 <= i < j < keys.len() ==> (#[trigger] keys[i]).before(#[trigger] keys[j])
}

/// Two ascending lists of the same keys are the same list.
pub proof fn ascending_order_is_unique<K: Sortable>(a: Seq<K>, b: Seq<K>)
    requires
        ascending(a),
        ascending(b),
        forall|k: K| a.contains(k) <==> b.contains(k),
    ensures
        a == b,
    decreases a.len(),
{
    if a.len() == 0 {
        if b.len() > 0 {
            assert(b.contains(b[0]));
        }
        assert(a =~= b);
    } else {
        assert(a.contains(a.last()));
        assert(b.len() > 0);
        assert(b.contains(b.last()));
        if a.last() != b.last() {
            let i = a.index_of(b.last());
            assert(a[i].before(a[a.len() - 1]));
            let j = b.index_of(a.last());
            assert(b[j].before(b[b.len() - 1]));
            K::order_transitive(b.last(), a.last(), b.last());
            K::order_irreflexive(b.last());
        }
        let a1 = a.drop_last();
        let b1 = b.drop_last();
        assert forall|k: K| a1.contains(k) <==> b1.contains(k) by {
            if a1.contains(k) {
                let i = a1.index_of(k);
                assert(a[i].before(a[a.len() - 1]));
                K::order_irreflexive(k);
                assert(a.contains(k));
                let j = b.index_of(k);
                assert(b1[j] == k);
            }
            if b1.contains(k) {
                let i = b1.index_of(k);
                assert(b[i].before(b[b.len() - 1]));
                K::order_irreflexive(k);
                assert(b.contains(b[i]));
                assert(b.contains(k));
                let j = a.index_of(k);
                assert(a1[j] == k);
            }
        }
        ascending_order_is_unique(a1, b1);
        assert(a1.push(a.last()) =~= a);
        assert(b1.push(b.last()) =~= b);
    }
}

/// The map that pairs the `i`th key with the `i`th value.
pub open spec fn paired<K, V>(keys: Seq<K>, values: Seq<V>) -> Map<K, V> {
    Map::new(|k: K| keys.contains(k), |k: K| values[keys.index_of(k)])
}

/// A map from ordered keys to values. Its view is the mathematical map; `order` lists the keys from
/// the least to the greatest.
#[derive(Clone, Debug)]
pub struct SortedMap<K, V> {
    keys: Vec<K>,
    values: Vec<V>,
}

proof fn lemma_ascending_unique<K: Sortable>(keys: Seq<K>)
    requires
        ascending(keys),
    ensures
        keys.no_duplicates(),
        forall|i: int| 0 <= i < keys.len() ==> keys.index_of(#[trigger] keys[i]) == i,
{
    assert forall|i: int, j: int| 0 <= i < keys.len() && 0 <= j < keys.len() && i != j implies keys[i]
        != keys[j] by {
        K::order_irreflexive(keys[i]);
        if i < j {
            assert(keys[i].before(keys[j]));
        } else {
            assert(keys[j].before(keys[i]));
        }
    }
    assert forall|i: int| 0 <= i < keys.len() implies keys.index_of(#[trigger] keys[i]) == i by {
        assert(keys.contains(keys[i]));
        let j = keys.index_of(keys[i]);
        assert(keys[j] == keys[i]);
    }
}

/// A key strictly between the keys before position `p` and those from `p` on is not in the list.
proof fn lemma_gap<K: Sortable>(keys: Seq<K>, p: int, k: K)
    requires
        ascending(keys),
        0 <= p <= keys.len(),
        forall|i: int| 0 <= i < p ==> (#[trigger] keys[i]).before(k),
        p < keys.len() ==> k.before(keys[p]),
    ensures
        !keys.contains(k),
        forall|i: int| p <= i < keys.len() ==> k.before(#[trigger] keys[i]),
{
    assert forall|i: int| p <= i < keys.len() implies k.before(#[trigger] keys[i]) by {
        if p < i {
            assert(keys[p].before(keys[i]));
            K::order_transitive(k, keys[p], keys[i]);
        }
    }
    K::order_irreflexive(k);
}

/// Whether an ascending list holds a key is decided at the first position not before that key.
pub proof fn lemma_bound_decides<K: Sortable>(keys: Seq<K>, p: int, k: K)
    requires
        ascending(keys),
        0 <= p <= keys.len(),
        forall|i: int| 0 <= i < p ==> (#[trigger] keys[i]).before(k),
        forall|i: int| p <= i < keys.len() ==> !(#[trigger] keys[i]).before(k),
    ensures
        keys.contains(k) <==> p < keys.len() && keys[p] == k,
        forall|i: int| p <= i < keys.len() && keys[i] != k ==> k.before(#[trigger] keys[i]),
{
    assert forall|i: int| p <= i < keys.len() && keys[i] != k implies k.before(
        #[trigger] keys[i],
    ) by {
        K::order_connected(k, keys[i]);
    }
    if p < keys.len() {
        K::order_connected(keys[p], k);
        if keys[p] == k {
        } else {
            lemma_gap(keys, p, k);
        }
    } else {
        lemma_gap(keys, p, k);
    }
}

proof fn lemma_paired_insert<K: Sortable, V>(keys: Seq<K>, values: Seq<V>, p: int, k: K, v: V)
    requires
        ascending(keys),
        keys.len() == values.len(),
        0 <= p <= keys.len(),
        forall|i: int| 0 <= i < p ==> (#[trigger] keys[i]).before(k),
        p < keys.len() ==> k.before(keys[p]),
    ensures
        ascending(keys.insert(p, k)),
        paired(keys.insert(p, k), values.insert(p, v)) =~= paired(keys, values).insert(k, v),
        !paired(keys, values).contains_key(k),
{
    let nk = keys.insert(p, k);
    let nv = values.insert(p, v);
    lemma_gap(keys, p, k);
    assert forall|i: int, j: int| 0 <= i < j < nk.len() implies (#[trigger] nk[i]).before(
        #[trigger] nk[j],
    ) by {
        if i != p && j != p {
            let a = if i < p { i } else { i - 1 };
            let b = if j < p { j } else { j - 1 };
            assert(keys[a].before(keys[b]));
        } else if i == p {
            assert(nk[j] == keys[j - 1]);
        } else {
            assert(nk[i] == keys[i]);
        }
    }
    lemma_ascending_unique(keys);
    lemma_ascending_unique(nk);
    let left = paired(nk, nv);
    let right = paired(keys, values).insert(k, v);
    assert forall|x: K| left.contains_key(x) == right.contains_key(x) by {
        if nk.contains(x) {
            let i = nk.index_of(x);
            if i != p {
                let a = if i < p { i } else { i - 1 };
                assert(keys[a] == x);
            }
        }
        if keys.contains(x) {
            let a = keys.index_of(x);
            let i = if a < p { a } else { a + 1 };
            assert(nk[i] == x);
        }
        assert(nk[p] == k);
    }
    assert forall|x: K| left.contains_key(x) implies left[x] == right[x] by {
        let i = nk.index_of(x);
        assert(nk[i] == x);
        if i != p {
            let a = if i < p { i } else { i - 1 };
            assert(keys[a] == x);
            assert(nv[i] == values[a]);
            K::order_irreflexive(k);
        }
    }
    assert(left =~= right);
}

proof fn lemma_paired_remove<K: Sortable, V>(keys: Seq<K>, values: Seq<V>, p: int)
    requires
        ascending(keys),
        keys.len() == values.len(),
        0 <= p < keys.len(),
    ensures
        ascending(keys.remove(p)),
        paired(keys.remove(p), values.remove(p)) =~= paired(keys, values).remove(keys[p]),
        paired(keys, values).contains_key(keys[p]),
        paired(keys, values)[keys[p]] == values[p],
{
    let nk = keys.remove(p);
    let nv = values.remove(p);
    lemma_ascending_unique(keys);
    assert forall|i: int, j: int| 0 <= i < j < nk.len() implies (#[trigger] nk[i]).before(
        #[trigger] nk[j],
    ) by {
        let a = if i < p { i } else { i + 1 };
        let b = if j < p { j } else { j + 1 };
        assert(keys[a].before(keys[b]));
    }
    lemma_ascending_unique(nk);
    let left = paired(nk, nv);
    let right = paired(keys, values).remove(keys[p]);
    assert forall|x: K| left.contains_key(x) == right.contains_key(x) by {
        if nk.contains(x) {
            let i = nk.index_of(x);
            let a = if i < p { i } else { i + 1 };
            assert(keys[a] == x);
        }
        if keys.contains(x) && x != keys[p] {
            let a = keys.index_of(x);
            let i = if a < p { a } else { a - 1 };
            assert(nk[i] == x);
        }
    }
    assert forall|x: K| left.contains_key(x) implies left[x] == right[x] by {
        let i = nk.index_of(x);
        assert(nk[i] == x);
        let a = if i < p { i } else { i + 1 };
        assert(keys[a] == x);
        assert(nv[i] == values[a]);
    }
    assert(left =~= right);
}

proof fn lemma_paired_update<K: Sortable, V>(keys: Seq<K>, values: Seq<V>, p: int, v: V)
    requires
        ascending(keys),
        keys.len() == values.len(),
        0 <= p < keys.len(),
    ensures
        paired(keys, values.update(p, v)) =~= paired(keys, values).insert(keys[p], v),
{
    lemma_ascending_unique(keys);
    let left = paired(keys, values.update(p, v));
    let right = paired(keys, values).insert(keys[p], v);
    assert forall|x: K| left.contains_key(x) implies left[x] == right[x] by {
        let i = keys.index_of(x);
        assert(keys[i] == x);
    }
    assert(keys.contains(keys[p]));
    assert(left =~= right);
}

impl<K, V> View for SortedMap<K, V> {
    type V = Map<K, V>;

    closed spec fn view(&self) -> Map<K, V> {
        paired(self.keys@, self.values@)
    }
}

impl<K: Sortable, V> SortedMap<K, V> {
    /// The keys from the least to the greatest.
    pub closed spec fn order(&self) -> Seq<K> {
        self.keys@
    }

    /// Keys are strictly ascending and each has its value.
    pub closed spec fn wf(&self) -> bool {
        &&& self.keys@.len() == self.values@.len()
        &&& ascending(self.keys@)
    }

    /// `order` lists exactly the keys of the view, once each and ascending.
    pub proof fn lemma_order(&self)
        requires
            self.wf(),
        ensures
            ascending(self.order()),
            self.order().no_duplicates(),
            forall|k: K| self@.contains_key(k) <==> #[trigger] self.order().contains(k),
            self@.dom().finite(),
            self@.dom() =~= self.order().to_set(),
            self@.len() == self.order().len(),
            self.order().len() <= usize::MAX,
    {
        lemma_ascending_unique(self.keys@);
        assert(self@.dom() =~= self.keys@.to_set());
        self.keys@.unique_seq_to_set();
        assert(self.keys.len() <= usize::MAX);
    }

    /// An empty map.
    pub fn new() -> (r: Self)
        ensures
            r.wf(),
            r@ == Map::<K, V>::empty(),
            r.order() == Seq::<K>::empty(),
    {
        let r = SortedMap { keys: Vec::new(), values: Vec::new() };
        assert(r@ =~= Map::<K, V>::empty());
        r
    }

    /// The number of entries.
    pub fn len(&self) -> (n: usize)
        requires
            self.wf(),
        ensures
            n == self@.len(),
            n == self.order().len(),
    {
        proof {
            self.lemma_order();
        }
        self.keys.len()
    }

    /// The position of the first key that is not before `k`, or the length if there is none.
    pub fn lower_bound(&self, k: &K) -> (p: usize)
        requires
            self.wf(),
        ensures
            p <= self.order().len(),
            forall|i: int| 0 <= i < p ==> (#[trigger] self.order()[i]).before(*k),
            forall|i: int|
                p <= i < self.order().len() ==> !(#[trigger] self.order()[i]).before(*k),
    {
        let mut lo: usize = 0;
        let mut hi: usize = self.keys.len();
        while lo < hi
            invariant
                self.wf(),
                lo <= hi <= self.keys@.len(),
                forall|i: int| 0 <= i < lo ==> (#[trigger] self.keys@[i]).before(*k),
                forall|i: int| hi <= i < self.keys@.len() ==> !(#[trigger] self.keys@[i]).before(*k),
            decreases hi - lo,
        {
            let mid: usize = lo + (hi - lo) / 2;
            let rank = self.keys[mid].rank(k);
            let ghost pivot = self.keys@[mid as int];
            match rank {
                Rank::Before => {
                    proof {
                        assert forall|i: int| 0 <= i < mid + 1 implies (
                        #[trigger] self.keys@[i]).before(*k) by {
                            if i < mid {
                                K::order_transitive(self.keys@[i], pivot, *k);
                            }
                        }
                    }
                    lo = mid + 1;
                },
                _ => {
                    proof {
                        assert forall|i: int| mid <= i < self.keys@.len() implies !(
                        #[trigger] self.keys@[i]).before(*k) by {
                            if self.keys@[i].before(*k) {
                                if mid < i {
                                    K::order_transitive(pivot, self.keys@[i], *k);
                                }
                                K::order_irreflexive(*k);
                                if k.before(pivot) {
                                    K::order_transitive(*k, pivot, *k);
                                }
                            }
                        }
                    }
                    hi = mid;
                },
            }
        }
        lo
    }

    /// The key at a position of the order.
    pub fn key_at(&self, i: usize) -> (k: K)
        requires
            self.wf(),
            i < self.order().len(),
        ensures
            k == self.order()[i as int],
            self@.contains_key(k),
    {
        assert(self.keys@.contains(self.keys@[i as int]));
        self.keys[i]
    }

    /// The value that belongs to the key at a position of the order.
    pub fn value_at(&self, i: usize) -> (v: &V)
        requires
            self.wf(),
            i < self.order().len(),
        ensures
            self@.contains_key(self.order()[i as int]),
            *v == self@[self.order()[i as int]],
    {
        proof {
            lemma_ascending_unique(self.keys@);
            assert(self.keys@.contains(self.keys@[i as int]));
        }
        &self.values[i]
    }

    fn find(&self, k: &K) -> (r: Option<usize>)
        requires
            self.wf(),
        ensures
            match r {
                Some(i) => i < self.keys@.len() && self.keys@[i as int] == *k && self@.contains_key(*k)
                    && self@[*k] == self.values@[i as int],
                None => !self@.contains_key(*k),
            },
    {
        let p: usize = self.lower_bound(k);
        proof {
            lemma_bound_decides(self.keys@, p as int, *k);
            lemma_ascending_unique(self.keys@);
            K::order_irreflexive(*k);
        }
        if p < self.keys.len() {
            match self.keys[p].rank(k) {
                Rank::Same => Some(p),
                _ => None,
            }
        } else {
            None
        }
    }

    /// The value of a key.
    pub fn get(&self, k: &K) -> (r: Option<&V>)
        requires
            self.wf(),
        ensures
            match r {
                Some(v) => self@.contains_key(*k) && *v == self@[*k],
                None => !self@.contains_key(*k),
            },
    {
        match self.find(k) {
            Some(i) => Some(&self.values[i]),
            None => None,
        }
    }

    /// Whether a key has a value.
    pub fn contains_key(&self, k: &K) -> (r: bool)
        requires
            self.wf(),
        ensures
            r == self@.contains_key(*k),
    {
        self.find(k).is_some()
    }

    /// Sets the value of a key, replacing any earlier one.
    pub fn insert(&mut self, k: K, v: V)
        requires
            old(self).wf(),
        ensures
            final(self).wf(),
            final(self)@ == old(self)@.insert(k, v),
            final(self).order().len() == old(self).order().len() + (if old(self)@.contains_key(k) {
                0int
            } else {
                1int
            }),
    {
        match self.find(&k) {
            Some(i) => {
                proof {
                    lemma_paired_update(self.keys@, self.values@, i as int, v);
                }
                self.values.set(i, v);
            },
            None => {
                let p: usize = self.lower_bound(&k);
                proof {
                    lemma_bound_decides(self.keys@, p as int, k);
                    if p < self.keys@.len() {
                        K::order_connected(self.keys@[p as int], k);
                    }
                    lemma_paired_insert(self.keys@, self.values@, p as int, k, v);
                }
                self.keys.insert(p, k);
                self.values.insert(p, v);
            },
        }
    }

    /// Takes a key out of the map and returns its value.
    pub fn remove(&mut self, k: &K) -> (r: Option<V>)
        requires
            old(self).wf(),
        ensures
            final(self).wf(),
            final(self)@ == old(self)@.remove(*k),
            match r {
                Some(v) => old(self)@.contains_key(*k) && v == old(self)@[*k]
                    && final(self).order().len() + 1 == old(self).order().len(),
                None => !old(self)@.contains_key(*k) && *final(self) == *old(self),
            },
    {
        match self.find(k) {
            Some(i) => {
                proof {
                    lemma_paired_remove(self.keys@, self.values@, i as int);
                }
                let _ = self.keys.remove(i);
                Some(self.values.remove(i))
            },
            None => {
                assert(self@.remove(*k) =~= self@);
                None
            },
        }
    }

    /// Takes the entry with the greatest key out of the map.
    pub fn pop_last(&mut self) -> (r: Option<(K, V)>)
        requires
            old(self).wf(),
        ensures
            final(self).wf(),
            match r {
                Some((k, v)) => old(self)@.contains_key(k) && old(self)@[k] == v && final(self)@
                    == old(self)@.remove(k) && (forall|x: K| #[trigger]
                    old(self)@.contains_key(x) ==> x == k || x.before(k)) && final(self).order()
                    == old(self).order().drop_last() && old(self).order().len() > 0,
                None => old(self)@ == Map::<K, V>::empty() && *final(self) == *old(self),
            },
    {
        let n: usize = self.keys.len();
        if n == 0 {
            assert(self@ =~= Map::<K, V>::empty());
            return None;
        }
        proof {
            lemma_paired_remove(self.keys@, self.values@, n - 1);
            assert(self.keys@.remove(n - 1) =~= self.keys@.drop_last());
            assert(self.values@.remove(n - 1) =~= self.values@.drop_last());
            let last = self.keys@[n - 1];
            assert forall|x: K| #[trigger] self@.contains_key(x) implies x == last || x.before(last) by {
                let i = self.keys@.index_of(x);
                assert(self.keys@[i] == x);
            }
        }
        let k = self.keys.pop();
        let v = self.values.pop();
        match (k, v) {
            (Some(k), Some(v)) => Some((k, v)),
            _ => None,
        }
    }
}

impl<K: Sortable, V: Copy> SortedMap<K, V> {
    /// An independent copy of a map of plain values.
    pub fn duplicate(&self) -> (r: Self)
        requires
            self.wf(),
        ensures
            r.wf(),
            r@ == self@,
            r.order() == self.order(),
    {
        let mut keys: Vec<K> = Vec::new();
        let mut values: Vec<V> = Vec::new();
        let mut i: usize = 0;
        while i < self.keys.len()
            invariant
                self.wf(),
                i <= self.keys@.len(),
                keys@ == self.keys@.take(i as int),
                values@ == self.values@.take(i as int),
            decreases self.keys@.len() - i,
        {
            keys.push(self.keys[i]);
            values.push(self.values[i]);
            i = i + 1;
            assert(keys@ =~= self.keys@.take(i as int));
            assert(values@ =~= self.values@.take(i as int));
        }
        assert(keys@ =~= self.keys@);
        assert(values@ =~= self.values@);
        SortedMap { keys, values }
    }
}

} // verus!
