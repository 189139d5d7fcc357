//! Finite sets of cells.

use std::collections::HashSet;
use vstd::prelude::*;
use vstd::std_specs::hash::spec_hash_keys_iter;
use vstd::std_specs::iter::IteratorSpec;
use crate::key::{
    decode, encode, is_key, key_of, lemma_key_round_trip, lemma_points_of_finite, point_of,
    points_of,
};
use crate::point::Point;

verus! {

/// A finite set of cells, hashed for constant-time membership tests.
///
/// Its view is the mathematical set of the cells it holds.
#[derive(Debug)]
pub struct PointSet {
    keys: HashSet<u128>,
}

impl View for PointSet {
    type V = Set<Point>;

    closed spec fn view(&self) -> Set<Point> {
        points_of(self.keys@)
    }
}

impl PointSet {
    #[verifier::type_invariant]
    spec fn well_formed(self) -> bool {
        &&& self.keys@.finite()
        &&& forall|k: u128| self.keys@.contains(k) ==> is_key(k)
    }

    /// The empty set.
    pub fn new() -> (s: Self)
        ensures
            s@ == Set::<Point>::empty(),
    {
        PointSet { keys: HashSet::new() }
    }

    /// Adds `p`, and says whether it was absent before.
    pub fn insert(&mut self, p: Point) -> (fresh: bool)
        ensures
            final(self)@ == old(self)@.insert(p),
            fresh == !old(self)@.contains(p),
    {
        proof {
            use_type_invariant(&*self);
        }
        let k = encode(p);
        let mut keys = HashSet::new();
        std::mem::swap(&mut keys, &mut self.keys);
        let fresh = keys.insert(k);
        self.keys = keys;
        fresh
    }

    /// Whether `p` is in the set.
    pub fn contains(&self, p: &Point) -> (b: bool)
        ensures
            b == self@.contains(*p),
    {
        let k = encode(*p);
        self.keys.contains(&k)
    }

    /// The number of cells in the set.
    pub fn len(&self) -> (n: usize)
        ensures
            self@.finite(),
            n == self@.len(),
    {
        proof {
            use_type_invariant(self);
            lemma_points_of_finite(self.keys@);
        }
        self.keys.len()
    }

    /// Whether the set holds no cell.
    pub fn is_empty(&self) -> (b: bool)
        ensures
            b == self@.is_empty(),
    {
        proof {
            use_type_invariant(self);
            lemma_points_of_finite(self.keys@);
        }
        self.keys.len() == 0
    }

    /// The cells of the set, each once, in no particular order.
    pub fn to_vec(&self) -> (v: Vec<Point>)
        ensures
            v@.no_duplicates(),
            v@.to_set() == self@,
            v@.len() == self@.len(),
    {
        proof {
            use_type_invariant(self);
        }
        let ghost stored = spec_hash_keys_iter(&self.keys).remaining();
        let mut v: Vec<Point> = Vec::new();
        for k in it: self.keys.iter()
            invariant
                it.seq() == stored,
                stored.unref().to_set() == self.keys@,
                v@.len() == it.index(),
                forall|i: int| 0 <= i < it.index() ==> v@[i] == point_of(*stored[i]),
                forall|k: u128| self.keys@.contains(k) ==> is_key(k),
        {
            assert(stored.unref().to_set().contains(stored.unref()[it.index()]));
            v.push(decode(*k));
        }
        proof {
            assert forall|i: int| 0 <= i < stored.len() implies is_key(*#[trigger] stored[i]) by {
                assert(stored.unref().to_set().contains(stored.unref()[i]));
            }
            assert forall|i: int, j: int|
                0 <= i < v@.len() && 0 <= j < v@.len() && i != j implies v@[i] != v@[j] by {
                assert(stored[i] != stored[j]);
            }
            assert forall|p: Point| self@.contains(p) implies v@.to_set().contains(p) by {
                let k = key_of(p);
                let i = choose|i: int| 0 <= i < stored.unref().len() && stored.unref()[i] == k;
                assert(v@[i] == p);
            }
            assert forall|p: Point| v@.to_set().contains(p) implies self@.contains(p) by {
                let i = choose|i: int| 0 <= i < v@.len() && v@[i] == p;
                assert(stored.unref().to_set().contains(stored.unref()[i]));
            }
            assert(v@.to_set() =~= self@);
            v@.unique_seq_to_set();
        }
        v
    }

    /// Adds every cell of `other`.
    pub fn extend(&mut self, other: &PointSet)
        ensures
            final(self)@ == old(self)@.union(other@),
    {
        proof {
            use_type_invariant(&*self);
            use_type_invariant(other);
        }
        let ghost before = self.keys@;
        let ghost added = spec_hash_keys_iter(&other.keys).remaining();
        let mut keys = HashSet::new();
        std::mem::swap(&mut keys, &mut self.keys);
        for k in it: other.keys.iter()
            invariant
                it.seq() == added,
                added.unref().to_set() == other.keys@,
                keys@ == before.union(added.unref().take(it.index()).to_set()),
                before.finite(),
                forall|k: u128| before.contains(k) ==> is_key(k),
                forall|k: u128| other.keys@.contains(k) ==> is_key(k),
        {
            proof {
                let i = it.index();
                assert(added.unref().take(i + 1) =~= added.unref().take(i).push(*k));
                added.unref().take(i).lemma_push_to_set_commute(*k);
                assert(added.unref().to_set().contains(added.unref()[i]));
            }
            keys.insert(*k);
        }
        proof {
            assert(added.unref().take(added.len() as int) =~= added.unref());
            assert(keys@ == before.union(other.keys@));
            vstd::seq_lib::seq_to_set_is_finite(added.unref());
            assert(points_of(keys@) =~= points_of(before).union(points_of(other.keys@)));
        }
        self.keys = keys;
    }

    /// The number of cells that are in both sets.
    pub fn intersection_len(&self, other: &PointSet) -> (n: usize)
        ensures
            n == self@.intersect(other@).len(),
    {
        proof {
            use_type_invariant(self);
            use_type_invariant(other);
        }
        let ghost stored = spec_hash_keys_iter(&self.keys).remaining();
        let mut n: usize = 0;
        proof {
            assert(stored.len() == vstd::std_specs::hash::spec_hash_set_len(&self.keys));
            assert(stored.unref().take(0).to_set() =~= Set::<u128>::empty());
            assert(Set::<u128>::empty().intersect(other.keys@) =~= Set::<u128>::empty());
        }
        for k in it: self.keys.iter()
            invariant
                it.seq() == stored,
                stored.no_duplicates(),
                stored.unref().to_set() == self.keys@,
                n == stored.unref().take(it.index()).to_set().intersect(other.keys@).len(),
                n <= it.index(),
                it.seq().len() <= usize::MAX,
        {
            proof {
                let i = it.index();
                let seen = stored.unref().take(i);
                assert(stored.unref().take(i + 1) =~= seen.push(*k));
                seen.lemma_push_to_set_commute(*k);
                vstd::seq_lib::seq_to_set_is_finite(seen);
                assert(!seen.to_set().contains(*k)) by {
                    if seen.to_set().contains(*k) {
                        let j = choose|j: int| 0 <= j < seen.len() && seen[j] == *k;
                        assert(stored[j] != stored[i]);
                    }
                }
                let common = seen.to_set().intersect(other.keys@);
                if other.keys@.contains(*k) {
                    assert(seen.to_set().insert(*k).intersect(other.keys@) =~= common.insert(*k));
                } else {
                    assert(seen.to_set().insert(*k).intersect(other.keys@) =~= common);
                }
            }
            if other.keys.contains(k) {
                n = n + 1;
            }
        }
        proof {
            assert(stored.unref().take(stored.len() as int) =~= stored.unref());
            let common = self.keys@.intersect(other.keys@);
            assert(points_of(common) =~= self@.intersect(other@));
            lemma_points_of_finite(common);
        }
        n
    }

    /// The set of the cells listed in `points`.
    pub fn from_points(points: &[Point]) -> (s: Self)
        ensures
            s@ == points@.to_set(),
    {
        let mut s = PointSet::new();
        for i in 0..points.len()
            invariant
                s@ == points@.take(i as int).to_set(),
        {
            proof {
                assert(points@.take(i + 1) =~= points@.take(i as int).push(points@[i as int]));
                points@.take(i as int).lemma_push_to_set_commute(points@[i as int]);
            }
            s.insert(points[i]);
        }
        proof {
            assert(points@.take(points@.len() as int) =~= points@);
        }
        s
    }
}

impl Clone for PointSet {
    fn clone(&self) -> (s: Self)
        ensures
            s@ == self@,
    {
        let mut s = PointSet::new();
        s.extend(self);
        s
    }
}

impl PartialEq for PointSet {
    /// Two sets are equal when they hold the same cells.
    fn eq(&self, other: &Self) -> (b: bool) {
        proof {
            use_type_invariant(self);
            use_type_invariant(other);
            lemma_key_round_trip();
            lemma_points_of_finite(self.keys@);
            lemma_points_of_finite(other.keys@);
        }
        if self.keys.len() != other.keys.len() {
            return false;
        }
        let ghost stored = spec_hash_keys_iter(&self.keys).remaining();
        for k in it: self.keys.iter()
            invariant
                it.seq() == stored,
                stored.unref().to_set() == self.keys@,
                forall|i: int| 0 <= i < it.index() ==> other.keys@.contains(*#[trigger] stored[i]),
                forall|k: u128| self.keys@.contains(k) ==> is_key(k),
        {
            if !other.keys.contains(k) {
                proof {
                    lemma_key_round_trip();
                    assert(stored.unref().to_set().contains(stored.unref()[it.index()]));
                    assert(self@.contains(point_of(*k)));
                    assert(!other@.contains(point_of(*k)));
                }
                return false;
            }
        }
        proof {
            assert forall|k: u128| self.keys@.contains(k) implies other.keys@.contains(k) by {
                let i = choose|i: int| 0 <= i < stored.unref().len() && stored.unref()[i] == k;
                assert(other.keys@.contains(*stored[i]));
            }
            vstd::set_lib::lemma_subset_equality(self.keys@, other.keys@);
        }
        true
    }
}

impl vstd::std_specs::cmp::PartialEqSpecImpl for PointSet {
    open spec fn obeys_eq_spec() -> bool {
        true
    }

    open spec fn eq_spec(&self, other: &Self) -> bool {
        self@ == other@
    }
}

} // verus!
