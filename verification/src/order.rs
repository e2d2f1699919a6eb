//! Strict total orders on keys, and the composite keys built from them.
use vstd::prelude::*;

verus! {

/// Where one key stands relative to another.
#[derive(Clone, Copy, Debug, PartialEq, Eq, Structural)]
pub enum Rank {
    Before,
    Same,
    After,
}

/// A key type with a decidable strict total order.
pub trait Sortable: Copy {
    /// `self` comes strictly before `other`.
    spec fn before(self, other: Self) -> bool;

    /// No key comes before itself.
    proof fn order_irreflexive(a: Self)
        ensures
            !a.before(a),
    ;

    /// The order is transitive.
    proof fn order_transitive(a: Self, b: Self, c: Self)
        ensures
            a.before(b) && b.before(c) ==> a.before(c),
    ;

    /// Two different keys are always comparable.
    proof fn order_connected(a: Self, b: Self)
        ensures
            a == b || a.before(b) || b.before(a),
    ;

    /// Decides the order of two keys.
    fn rank(&self, other: &Self) -> (r: Rank)
        ensures
            match r {
                Rank::Before => self.before(*other),
                Rank::Same => *self == *other,
                Rank::After => other.before(*self),
            },
    ;
}

impl Sortable for u64 {
    open spec fn before(self, other: Self) -> bool {
        self < other
    }

    proof fn order_irreflexive(a: Self) {
    }

    proof fn order_transitive(a: Self, b: Self, c: Self) {
    }

    proof fn order_connected(a: Self, b: Self) {
    }

    fn rank(&self, other: &Self) -> (r: Rank) {
        if *self < *other {
            Rank::Before
        } else if *self == *other {
            Rank::Same
        } else {
            Rank::After
        }
    }
}

impl Sortable for bool {
    open spec fn before(self, other: Self) -> bool {
        !self && other
    }

    proof fn order_irreflexive(a: Self) {
    }

    proof fn order_transitive(a: Self, b: Self, c: Self) {
    }

    proof fn order_connected(a: Self, b: Self) {
    }

    fn rank(&self, other: &Self) -> (r: Rank) {
        if *self == *other {
            Rank::Same
        } else if *other {
            Rank::Before
        } else {
            Rank::After
        }
    }
}

/// Byte strings of equal length compare by the first byte in which they differ.
pub open spec fn bytes_before(a: Seq<u8>, b: Seq<u8>) -> bool {
    exists|i: int|
        0 <= i < a.len() && i < b.len() && #[trigger] a[i] < b[i] && a.take(i) =~= b.take(i)
}

impl<const N: usize> Sortable for [u8; N] {
    open spec fn before(self, other: Self) -> bool {
        bytes_before(self@, other@)
    }

    proof fn order_irreflexive(a: Self) {
    }

    proof fn order_transitive(a: Self, b: Self, c: Self) {
        if a.before(b) && b.before(c) {
            let i = choose|i: int|
                0 <= i < a@.len() && i < b@.len() && #[trigger] a@[i] < b@[i] && a@.take(i)
                    =~= b@.take(i);
            let j = choose|j: int|
                0 <= j < b@.len() && j < c@.len() && #[trigger] b@[j] < c@[j] && b@.take(j)
                    =~= c@.take(j);
            let k = if i < j { i } else { j };
            assert forall|m: int| 0 <= m < k implies a@[m] == c@[m] by {
                assert(a@.take(i)[m] == b@.take(i)[m]);
                assert(b@.take(j)[m] == c@.take(j)[m]);
            }
            if i < j {
                assert(b@.take(j)[i] == c@.take(j)[i]);
            } else if j < i {
                assert(a@.take(i)[j] == b@.take(i)[j]);
            }
            assert(a@.take(k) =~= c@.take(k));
            assert(a@[k] < c@[k]);
        }
    }

    proof fn order_connected(a: Self, b: Self) {
        if a@ =~= b@ {
            assert(a =~= b);
        } else {
            let i = first_difference(a@, b@);
            assert(a@.take(i) =~= b@.take(i));
            if a@[i] < b@[i] {
            } else {
                assert(b@[i] < a@[i]);
            }
        }
    }

    fn rank(&self, other: &Self) -> (r: Rank) {
        let mut i: usize = 0;
        while i < N
            invariant
                i <= N,
                forall|m: int| 0 <= m < i ==> self@[m] == other@[m],
            decreases N - i,
        {
            if self[i] != other[i] {
                assert(self@.take(i as int) =~= other@.take(i as int));
                if self[i] < other[i] {
                    assert(self@[i as int] < other@[i as int]);
                    return Rank::Before;
                }
                assert(other@[i as int] < self@[i as int]);
                return Rank::After;
            }
            i = i + 1;
        }
        assert(*self =~= *other);
        Rank::Same
    }
}

/// The first position at which two different byte strings of one length differ.
proof fn first_difference(a: Seq<u8>, b: Seq<u8>) -> (i: int)
    requires
        a.len() == b.len(),
        a != b,
    ensures
        0 <= i < a.len(),
        a[i] != b[i],
        forall|m: int| 0 <= m < i ==> a[m] == b[m],
    decreases a.len(),
{
    if a.drop_last() =~= b.drop_last() {
        assert forall|m: int| 0 <= m < a.len() - 1 implies a[m] == b[m] by {
            assert(a.drop_last()[m] == b.drop_last()[m]);
        }
        if a.len() == 0 {
            assert(a =~= b);
        } else if a.last() == b.last() {
            assert(a =~= b);
        }
        a.len() - 1
    } else {
        if a.len() == 0 {
            assert(a =~= b);
            0
        } else {
            let i = first_difference(a.drop_last(), b.drop_last());
            assert forall|m: int| 0 <= m < i implies a[m] == b[m] by {
                assert(a.drop_last()[m] == b.drop_last()[m]);
            }
            i
        }
    }
}

/// Two keys in one: ordered by the first component, ties by the second.
#[derive(Clone, Copy, Debug, PartialEq, Eq)]
pub struct Pair<A, B>(pub A, pub B);

impl<A: Sortable, B: Sortable> Sortable for Pair<A, B> {
    open spec fn before(self, other: Self) -> bool {
        self.0.before(other.0) || (self.0 == other.0 && self.1.before(other.1))
    }

    proof fn order_irreflexive(a: Self) {
        A::order_irreflexive(a.0);
        B::order_irreflexive(a.1);
    }

    proof fn order_transitive(a: Self, b: Self, c: Self) {
        if a.0.before(b.0) && b.0.before(c.0) {
            A::order_transitive(a.0, b.0, c.0);
        }
        if a.1.before(b.1) && b.1.before(c.1) {
            B::order_transitive(a.1, b.1, c.1);
        }
    }

    proof fn order_connected(a: Self, b: Self) {
        A::order_connected(a.0, b.0);
        B::order_connected(a.1, b.1);
    }

    fn rank(&self, other: &Self) -> (r: Rank) {
        match self.0.rank(&other.0) {
            Rank::Before => Rank::Before,
            Rank::Same => self.1.rank(&other.1),
            Rank::After => Rank::After,
        }
    }
}

/// A key ordered the other way round.
#[derive(Clone, Copy, Debug, PartialEq, Eq)]
pub struct Reversed<K>(pub K);

impl<K: Sortable> Sortable for Reversed<K> {
    open spec fn before(self, other: Self) -> bool {
        other.0.before(self.0)
    }

    proof fn order_irreflexive(a: Self) {
        K::order_irreflexive(a.0);
    }

    proof fn order_transitive(a: Self, b: Self, c: Self) {
        K::order_transitive(c.0, b.0, a.0);
    }

    proof fn order_connected(a: Self, b: Self) {
        K::order_connected(a.0, b.0);
    }

    fn rank(&self, other: &Self) -> (r: Rank) {
        match self.0.rank(&other.0) {
            Rank::Before => Rank::After,
            Rank::Same => Rank::Same,
            Rank::After => Rank::Before,
        }
    }
}

} // verus!
