//! The cells around a cell.
//!
//! A cell has up to eight neighbors: the cells one step away in any of the
//! compass directions. Near the rim of the grid there are fewer, since the
//! grid does not wrap around.

use vstd::prelude::*;
use crate::point::Point;
use crate::point_set::PointSet;

verus! {

/// Two distinct cells that differ by at most one column and one row.
pub open spec fn adjacent(p: Point, q: Point) -> bool {
    &&& p != q
    &&& -1 <= q.x - p.x <= 1
    &&& -1 <= q.y - p.y <= 1
}

/// Whether column `x` and row `y` name a cell of the grid.
pub open spec fn on_grid(x: int, y: int, x_max: usize, y_max: usize) -> bool {
    0 <= x < x_max && 0 <= y < y_max
}

/// The neighbors of `p` on a grid of `x_max` columns and `y_max` rows.
pub open spec fn neighborhood(p: Point, x_max: usize, y_max: usize) -> Set<Point> {
    Set::new(|q: Point| adjacent(p, q) && on_grid(q.x as int, q.y as int, x_max, y_max))
}

/// One if the cell `dx` columns and `dy` rows away from `p` is on the grid,
/// zero if it is not.
pub open spec fn hit(p: Point, dx: int, dy: int, x_max: usize, y_max: usize) -> nat {
    if on_grid(p.x + dx, p.y + dy, x_max, y_max) {
        1
    } else {
        0
    }
}

/// How many of the eight cells around `p` are on the grid.
pub open spec fn neighbor_count(p: Point, x_max: usize, y_max: usize) -> nat {
    hit(p, -1, -1, x_max, y_max) + hit(p, -1, 0, x_max, y_max) + hit(p, -1, 1, x_max, y_max)
        + hit(p, 0, -1, x_max, y_max) + hit(p, 0, 1, x_max, y_max) + hit(p, 1, -1, x_max, y_max)
        + hit(p, 1, 0, x_max, y_max) + hit(p, 1, 1, x_max, y_max)
}

/// How many of the four edges of the grid a cell lies on.
pub open spec fn edges_touched(p: Point, x_max: usize, y_max: usize) -> nat {
    let west: nat = if p.x == 0 { 1 } else { 0 };
    let east: nat = if p.x + 1 == x_max { 1 } else { 0 };
    let north: nat = if p.y == 0 { 1 } else { 0 };
    let south: nat = if p.y + 1 == y_max { 1 } else { 0 };
    west + east + north + south
}

/// A cell of the grid that lies on one vertical and one horizontal edge,
/// and on no other.
pub open spec fn is_corner(p: Point, x_max: usize, y_max: usize) -> bool {
    &&& on_grid(p.x as int, p.y as int, x_max, y_max)
    &&& (p.x == 0) != (p.x + 1 == x_max)
    &&& (p.y == 0) != (p.y + 1 == y_max)
}

/// The neighbor of `p` at the given offset, as a set: empty where that cell
/// is off the grid.
spec fn slot(p: Point, dx: int, dy: int, x_max: usize, y_max: usize) -> Set<Point> {
    if on_grid(p.x + dx, p.y + dy, x_max, y_max) {
        set![Point { x: (p.x + dx) as usize, y: (p.y + dy) as usize }]
    } else {
        Set::empty()
    }
}

/// A neighborhood is finite and holds as many cells as there are cells of
/// the grid around its centre.
pub proof fn lemma_neighborhood_len(p: Point, x_max: usize, y_max: usize)
    ensures
        neighborhood(p, x_max, y_max).finite(),
        neighborhood(p, x_max, y_max).len() == neighbor_count(p, x_max, y_max),
        neighborhood(p, x_max, y_max).len() <= 8,
{
    let a = slot(p, -1, -1, x_max, y_max);
    let b = a.union(slot(p, -1, 0, x_max, y_max));
    let c = b.union(slot(p, -1, 1, x_max, y_max));
    let d = c.union(slot(p, 0, -1, x_max, y_max));
    let e = d.union(slot(p, 0, 1, x_max, y_max));
    let f = e.union(slot(p, 1, -1, x_max, y_max));
    let g = f.union(slot(p, 1, 0, x_max, y_max));
    let h = g.union(slot(p, 1, 1, x_max, y_max));
    vstd::set_lib::lemma_set_disjoint_lens(a, slot(p, -1, 0, x_max, y_max));
    vstd::set_lib::lemma_set_disjoint_lens(b, slot(p, -1, 1, x_max, y_max));
    vstd::set_lib::lemma_set_disjoint_lens(c, slot(p, 0, -1, x_max, y_max));
    vstd::set_lib::lemma_set_disjoint_lens(d, slot(p, 0, 1, x_max, y_max));
    vstd::set_lib::lemma_set_disjoint_lens(e, slot(p, 1, -1, x_max, y_max));
    vstd::set_lib::lemma_set_disjoint_lens(f, slot(p, 1, 0, x_max, y_max));
    vstd::set_lib::lemma_set_disjoint_lens(g, slot(p, 1, 1, x_max, y_max));
    assert(h =~= neighborhood(p, x_max, y_max));
}

/// A cell of the grid that touches no edge has eight neighbors.
pub proof fn lemma_interior_has_eight(p: Point, x_max: usize, y_max: usize)
    requires
        on_grid(p.x as int, p.y as int, x_max, y_max),
        edges_touched(p, x_max, y_max) == 0,
    ensures
        neighborhood(p, x_max, y_max).len() == 8,
{
    lemma_neighborhood_len(p, x_max, y_max);
}

/// A cell of the grid that lies on exactly one edge has five neighbors.
pub proof fn lemma_edge_has_five(p: Point, x_max: usize, y_max: usize)
    requires
        on_grid(p.x as int, p.y as int, x_max, y_max),
        edges_touched(p, x_max, y_max) == 1,
    ensures
        neighborhood(p, x_max, y_max).len() == 5,
{
    lemma_neighborhood_len(p, x_max, y_max);
}

/// A cell of the grid that lies on exactly two edges has three neighbors
/// when it is a corner, and two when the grid is a single row or column
/// that the cell lies across.
pub proof fn lemma_corner_has_three(p: Point, x_max: usize, y_max: usize)
    requires
        on_grid(p.x as int, p.y as int, x_max, y_max),
        edges_touched(p, x_max, y_max) == 2,
    ensures
        is_corner(p, x_max, y_max) ==> neighborhood(p, x_max, y_max).len() == 3,
        !is_corner(p, x_max, y_max) ==> neighborhood(p, x_max, y_max).len() == 2,
{
    lemma_neighborhood_len(p, x_max, y_max);
}

/// A neighborhood leaves out its centre and every cell off the grid.
pub proof fn lemma_neighborhood_on_grid(p: Point, x_max: usize, y_max: usize)
    ensures
        !neighborhood(p, x_max, y_max).contains(p),
        forall|q: Point| #[trigger]
            neighborhood(p, x_max, y_max).contains(q) ==> q.x < x_max && q.y < y_max,
{
}

/// Adjacency goes both ways: a cell of the grid is a neighbor of each of
/// its own neighbors.
pub proof fn lemma_neighborhood_symmetric(p: Point, q: Point, x_max: usize, y_max: usize)
    requires
        on_grid(p.x as int, p.y as int, x_max, y_max),
        neighborhood(p, x_max, y_max).contains(q),
    ensures
        neighborhood(q, x_max, y_max).contains(p),
{
}

/// The cells of the grid that are one step away from `point` in any of the
/// eight compass directions.
///
/// `point` itself need not be on the grid. Nothing wraps around: a cell
/// that would have a negative column or row, or one at or beyond `x_max` or
/// `y_max`, is left out.
pub fn neighbors(point: Point, x_max: usize, y_max: usize) -> (result: PointSet)
    ensures
        result@ == neighborhood(point, x_max, y_max),
        result@.finite(),
        result@.len() == neighbor_count(point, x_max, y_max),
        !result@.contains(point),
        forall|q: Point| #[trigger] result@.contains(q) ==> q.x < x_max && q.y < y_max,
        on_grid(point.x as int, point.y as int, x_max, y_max) ==> {
            &&& edges_touched(point, x_max, y_max) == 0 ==> result@.len() == 8
            &&& edges_touched(point, x_max, y_max) == 1 ==> result@.len() == 5
            &&& is_corner(point, x_max, y_max) ==> result@.len() == 3
            &&& edges_touched(point, x_max, y_max) == 2 ==> result@.len() <= 3
        },
{
    let ghost around = neighborhood(point, x_max, y_max);
    let mut result = PointSet::new();
    let mut dx: i128 = -1;
    while dx <= 1
        invariant
            -1 <= dx <= 2,
            around == neighborhood(point, x_max, y_max),
            result@ == Set::new(|q: Point| around.contains(q) && q.x - point.x < dx),
        decreases 2 - dx,
    {
        let mut dy: i128 = -1;
        while dy <= 1
            invariant
                -1 <= dx <= 1,
                -1 <= dy <= 2,
                around == neighborhood(point, x_max, y_max),
                result@ == Set::new(
                    |q: Point|
                        around.contains(q) && (q.x - point.x < dx || (q.x - point.x == dx && q.y
                            - point.y < dy)),
                ),
            decreases 2 - dy,
        {
            if dx != 0 || dy != 0 {
                // Signed, so that a step west of column 0 or north of row 0
                // shows as a negative number.
                let nx: i128 = point.x as i128 + dx;
                let ny: i128 = point.y as i128 + dy;
                if nx >= 0 && ny >= 0 && nx < x_max as i128 && ny < y_max as i128 {
                    result.insert(Point::new(nx as usize, ny as usize));
                }
            }
            dy = dy + 1;
        }
        dx = dx + 1;
    }
    proof {
        assert(result@ =~= around);
        lemma_neighborhood_len(point, x_max, y_max);
    }
    result
}

} // verus!
