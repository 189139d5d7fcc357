//! A tally of live neighbors, cell by cell.

use std::collections::HashMap;
use vstd::prelude::*;
use vstd::std_specs::hash::spec_hash_map_iter;
use vstd::std_specs::iter::IteratorSpec;
use crate::key::{
    decode, encode, is_key, key_of, lemma_key_round_trip, lemma_points_of_finite, point_of,
    points_of,
};
use crate::point::Point;

verus! {

/// A finite map from cells to numbers of live neighbors.
///
/// Its view is the mathematical map with the same entries.
#[derive(Debug)]
pub struct NeighborCounts {
    counts: HashMap<u128, usize>,
}

impl View for NeighborCounts {
    type V = Map<Point, usize>;

    closed spec fn view(&self) -> Map<Point, usize> {
        Map::new(
            |p: Point| self.counts@.contains_key(key_of(p)),
            |p: Point| self.counts@[key_of(p)],
        )
    }
}

impl NeighborCounts {
    #[verifier::type_invariant]
    spec fn well_formed(self) -> bool {
        forall|k: u128| self.counts@.contains_key(k) ==> is_key(k)
    }

    /// The map without entries.
    pub fn new() -> (m: Self)
        ensures
            m@ == Map::<Point, usize>::empty(),
    {
        NeighborCounts { counts: HashMap::new() }
    }

    /// Records that `p` has `n` live neighbors, in place of what was
    /// recorded for `p` before.
    pub fn insert(&mut self, p: Point, n: usize)
        ensures
            final(self)@ == old(self)@.insert(p, n),
    {
        proof {
            use_type_invariant(&*self);
        }
        let k = encode(p);
        let mut counts = HashMap::new();
        std::mem::swap(&mut counts, &mut self.counts);
        counts.insert(k, n);
        self.counts = counts;
    }

    /// The number recorded for `p`, if there is one.
    pub fn get(&self, p: &Point) -> (n: Option<usize>)
        ensures
            n == (if self@.contains_key(*p) {
                Some(self@[*p])
            } else {
                None
            }),
    {
        let k = encode(*p);
        match self.counts.get(&k) {
            Some(n) => Some(*n),
            None => None,
        }
    }

    /// The number of cells that have an entry.
    pub fn len(&self) -> (n: usize)
        ensures
            self@.dom().finite(),
            n == self@.dom().len(),
    {
        proof {
            use_type_invariant(self);
            assert(self@.dom() =~= points_of(self.counts@.dom()));
            lemma_points_of_finite(self.counts@.dom());
        }
        self.counts.len()
    }

    /// The entries of the map, each once, in no particular order.
    pub fn entries(&self) -> (v: Vec<(Point, usize)>)
        ensures
            v@.to_set() == self@.kv_pairs(),
            forall|i: int, j: int| 0 <= i < j < v@.len() ==> v@[i].0 != v@[j].0,
    {
        proof {
            use_type_invariant(self);
        }
        let ghost stored = spec_hash_map_iter(&self.counts).remaining();
        let mut v: Vec<(Point, usize)> = Vec::new();
        for entry in it: self.counts.iter()
            invariant
                it.seq() == stored,
                v@.len() == it.index(),
                forall|i: int|
                    0 <= i < it.index() ==> v@[i] == (point_of(*stored[i].0), *stored[i].1),
                forall|i: int|
                    0 <= i < stored.len() ==> self.counts@.contains_key(*#[trigger] stored[i].0),
                forall|k: u128| self.counts@.contains_key(k) ==> is_key(k),
        {
            v.push((decode(*entry.0), *entry.1));
        }
        proof {
            lemma_key_round_trip();
            assert forall|i: int, j: int| 0 <= i < j < v@.len() implies v@[i].0 != v@[j].0 by {
                assert(self.counts@.contains_key(*stored[i].0));
                assert(self.counts@.contains_key(*stored[j].0));
                assert(self.counts@[*stored[i].0] == *stored[i].1);
                assert(self.counts@[*stored[j].0] == *stored[j].1);
                assert(stored[i] != stored[j]);
            }
            let pairs = self@.kv_pairs();
            let listed = v@.to_set();
            assert forall|e: (Point, usize)| pairs.contains(e) implies listed.contains(e) by {
                let k = key_of(e.0);
                let n = self.counts@[k];
                assert(self.counts@.contains_key(k));
                assert(stored.contains((&k, &n)));
                let i = choose|i: int| 0 <= i < stored.len() && stored[i] == (&k, &n);
                assert(v@[i] == e);
            }
            assert forall|e: (Point, usize)| listed.contains(e) implies pairs.contains(e) by {
                let i = choose|i: int| 0 <= i < v@.len() && v@[i] == e;
                assert(self.counts@.contains_key(*stored[i].0));
                assert(self.counts@[*stored[i].0] == *stored[i].1);
            }
            assert(listed =~= pairs);
        }
        v
    }
}

} // verus!
