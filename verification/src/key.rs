//! Cells as hashable numbers.
//!
//! The hashed collections of this crate store a cell as one `u128`: the
//! column in the upper half, the row in the lower half. Every cell has
//! exactly one key, and a key names at most one cell.

use vstd::prelude::*;
use crate::point::Point;

verus! {

/// The weight of the column in a key: one more than the largest row.
pub(crate) const KEY_BASE: u128 = 0x1_0000_0000_0000_0000;

/// The key of a cell.
pub(crate) open spec fn key_of(p: Point) -> u128 {
    (p.x * KEY_BASE + p.y) as u128
}

/// Whether a number is the key of some cell.
pub(crate) open spec fn is_key(k: u128) -> bool {
    k / KEY_BASE <= usize::MAX && k % KEY_BASE <= usize::MAX
}

/// The cell that a key names.
pub(crate) open spec fn point_of(k: u128) -> Point {
    Point { x: (k / KEY_BASE) as usize, y: (k % KEY_BASE) as usize }
}

/// The cells whose keys are in `keys`.
pub(crate) open spec fn points_of(keys: Set<u128>) -> Set<Point> {
    Set::new(|p: Point| keys.contains(key_of(p)))
}

/// Computes the key of a cell.
pub(crate) fn encode(p: Point) -> (k: u128)
    ensures
        k == key_of(p),
        is_key(k),
        point_of(k) == p,
{
    p.x as u128 * KEY_BASE + p.y as u128
}

/// Computes the cell that a key names.
pub(crate) fn decode(k: u128) -> (p: Point)
    requires
        is_key(k),
    ensures
        p == point_of(k),
        key_of(p) == k,
{
    Point { x: (k / KEY_BASE) as usize, y: (k % KEY_BASE) as usize }
}

/// Keys and cells correspond one to one.
pub(crate) proof fn lemma_key_round_trip()
    ensures
        forall|p: Point| is_key(#[trigger] key_of(p)) && point_of(key_of(p)) == p,
        forall|k: u128| is_key(k) ==> key_of(#[trigger] point_of(k)) == k,
{
}

/// A finite set of keys of cells names as many cells as it holds keys.
pub(crate) proof fn lemma_points_of_finite(keys: Set<u128>)
    requires
        keys.finite(),
        forall|k: u128| keys.contains(k) ==> is_key(k),
    ensures
        points_of(keys).finite(),
        points_of(keys).len() == keys.len(),
{
    lemma_key_round_trip();
    let f = |k: u128| point_of(k);
    assert(vstd::relations::injective_on(f, keys)) by {
        assert forall|a: u128, b: u128|
            keys.contains(a) && keys.contains(b) && #[trigger] f(a) == #[trigger] f(b) implies a
            == b by {
            assert(key_of(point_of(a)) == a);
            assert(key_of(point_of(b)) == b);
        }
    }
    assert(keys.map(f) =~= points_of(keys)) by {
        assert forall|p: Point| points_of(keys).contains(p) implies keys.map(f).contains(p) by {
            assert(keys.contains(key_of(p)));
            assert(f(key_of(p)) == p);
        }
    }
    vstd::set_lib::lemma_map_size(keys, points_of(keys), f);
}

} // verus!
