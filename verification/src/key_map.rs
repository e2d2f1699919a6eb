//! A map keyed by byte strings, such as public keys. Of the standard maps nothing can be proved for
//! such keys.
use vstd::prelude::*;

verus! {

/// Whether two byte strings are equal.
pub fn same_bytes(a: &[u8], b: &[u8]) -> (r: bool)
    ensures
        r == (a@ == b@),
{
    if a.len() != b.len() {
        return false;
    }
    let mut i: usize = 0;
    while i < a.len()
        invariant
            a@.len() == b@.len(),
            i <= a@.len(),
            forall|j: int| 0 <= j < i ==> a@[j] == b@[j],
        decreases a@.len() - i,
    {
        if a[i] != b[i] {
            return false;
        }
        i = i + 1;
    }
    assert(a@ =~= b@);
    true
}

/// A map from byte strings to values.
#[derive(Clone, Debug)]
pub struct KeyMap<V> {
    keys: Vec<Vec<u8>>,
    values: Vec<V>,
}

/// `i` is the position of a key.
spec fn sits_at(keys: Seq<Vec<u8>>, key: Seq<u8>, i: int) -> bool {
    0 <= i < keys.len() && keys[i]@ == key
}

impl<V> View for KeyMap<V> {
    type V = Map<Seq<u8>, V>;

    closed spec fn view(&self) -> Map<Seq<u8>, V> {
        Map::new(
            |key: Seq<u8>| exists|i: int| sits_at(self.keys@, key, i),
            |key: Seq<u8>| self.values@[choose|i: int| sits_at(self.keys@, key, i)],
        )
    }
}

impl<V> KeyMap<V> {
    /// No key occurs twice, and each has its value.
    pub closed spec fn wf(&self) -> bool {
        &&& self.keys@.len() == self.values@.len()
        &&& forall|i: int, j: int|
            0 <= i < j < self.keys@.len() ==> (#[trigger] self.keys@[i])@ != (
            #[trigger] self.keys@[j])@
    }

    /// An empty map.
    pub fn new() -> (r: Self)
        ensures
            r.wf(),
            r@ == Map::<Seq<u8>, V>::empty(),
    {
        let r = KeyMap { keys: Vec::new(), values: Vec::new() };
        assert(r@ =~= Map::<Seq<u8>, V>::empty());
        r
    }

    proof fn lemma_at(&self, i: int)
        requires
            self.wf(),
            0 <= i < self.keys@.len(),
        ensures
            self@.contains_key(self.keys@[i]@),
            self@[self.keys@[i]@] == self.values@[i],
    {
        let key = self.keys@[i]@;
        assert(sits_at(self.keys@, key, i));
        let j = choose|j: int| sits_at(self.keys@, key, j);
        if i < j {
            assert(self.keys@[i]@ != self.keys@[j]@);
        } else if j < i {
            assert(self.keys@[j]@ != self.keys@[i]@);
        }
    }

    fn position(&self, key: &[u8]) -> (r: Option<usize>)
        requires
            self.wf(),
        ensures
            match r {
                Some(i) => i < self.values@.len() && self@.contains_key(key@) && self@[key@]
                    == self.values@[i as int],
                None => !self@.contains_key(key@),
            },
    {
        let mut i: usize = 0;
        while i < self.keys.len()
            invariant
                self.wf(),
                i <= self.keys@.len(),
                forall|j: int| 0 <= j < i ==> (#[trigger] self.keys@[j])@ != key@,
            decreases self.keys@.len() - i,
        {
            if same_bytes(self.keys[i].as_slice(), key) {
                proof {
                    self.lemma_at(i as int);
                }
                return Some(i);
            }
            i = i + 1;
        }
        proof {
            if self@.contains_key(key@) {
                let j = choose|j: int| sits_at(self.keys@, key@, j);
                assert(self.keys@[j]@ == key@);
            }
        }
        None
    }

    /// The value of a key.
    pub fn get(&self, key: &[u8]) -> (r: Option<&V>)
        requires
            self.wf(),
        ensures
            match r {
                Some(value) => self@.contains_key(key@) && *value == self@[key@],
                None => !self@.contains_key(key@),
            },
    {
        match self.position(key) {
            Some(i) => Some(&self.values[i]),
            None => None,
        }
    }

    /// Gives a value to a key that has none.
    pub fn insert_new(&mut self, key: Vec<u8>, value: V)
        requires
            old(self).wf(),
            !old(self)@.contains_key(key@),
        ensures
            final(self).wf(),
            final(self)@ == old(self)@.insert(key@, value),
    {
        let ghost before = *self;
        let ghost bytes = key@;
        let ghost n = self.keys@.len() as int;
        self.keys.push(key);
        self.values.push(value);
        proof {
            assert forall|i: int| 0 <= i < n implies (#[trigger] before.keys@[i])@ != bytes by {
                if before.keys@[i]@ == bytes {
                    assert(sits_at(before.keys@, bytes, i));
                }
            }
            assert forall|i: int, j: int| 0 <= i < j < self.keys@.len() implies (
            #[trigger] self.keys@[i])@ != (#[trigger] self.keys@[j])@ by {
                assert(self.keys@[i] == before.keys@[i]);
                if j < n {
                    assert(self.keys@[j] == before.keys@[j]);
                }
            }
            let left = self@;
            let right = before@.insert(bytes, value);
            assert forall|k: Seq<u8>| left.contains_key(k) == right.contains_key(k) by {
                if left.contains_key(k) {
                    let i = choose|i: int| sits_at(self.keys@, k, i);
                    if i < n {
                        assert(sits_at(before.keys@, k, i));
                    }
                }
                if before@.contains_key(k) {
                    let i = choose|i: int| sits_at(before.keys@, k, i);
                    assert(sits_at(self.keys@, k, i));
                }
                assert(sits_at(self.keys@, bytes, n));
            }
            assert forall|k: Seq<u8>| left.contains_key(k) implies left[k] == right[k] by {
                let i = choose|i: int| sits_at(self.keys@, k, i);
                self.lemma_at(i);
                if i < n {
                    assert(before.keys@[i] == self.keys@[i]);
                    before.lemma_at(i);
                }
            }
            assert(left =~= right);
        }
    }

    /// The value of a key that has one.
    pub fn value(&self, key: &[u8]) -> (r: &V)
        requires
            self.wf(),
            self@.contains_key(key@),
        ensures
            *r == self@[key@],
    {
        let i: usize = match self.position(key) {
            Some(i) => i,
            None => 0,
        };
        &self.values[i]
    }

    /// The number of keys.
    pub fn len(&self) -> (n: usize)
        requires
            self.wf(),
        ensures
            n == self@.len(),
    {
        proof {
            self.lemma_len();
        }
        self.keys.len()
    }

    proof fn lemma_len(&self)
        requires
            self.wf(),
        ensures
            self@.len() == self.keys@.len(),
    {
        let names = Seq::new(self.keys@.len(), |i: int| self.keys@[i]@);
        assert(names.no_duplicates()) by {
            assert forall|i: int, j: int| 0 <= i < names.len() && 0 <= j < names.len() && i
                != j implies names[i] != names[j] by {
                if i < j {
                    assert(self.keys@[i]@ != self.keys@[j]@);
                } else {
                    assert(self.keys@[j]@ != self.keys@[i]@);
                }
            }
        }
        names.unique_seq_to_set();
        assert(self@.dom() =~= names.to_set()) by {
            assert forall|k: Seq<u8>| self@.dom().contains(k) == names.to_set().contains(k) by {
                if self@.dom().contains(k) {
                    let i = choose|i: int| sits_at(self.keys@, k, i);
                    assert(names[i] == k);
                }
                if names.contains(k) {
                    let i = names.index_of(k);
                    assert(sits_at(self.keys@, k, i));
                }
            }
        }
    }
}

} // verus!
