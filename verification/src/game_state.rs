//! The engine: one current generation, advanced step by step.

use vstd::prelude::*;
use crate::generation::{rule, Generation, Grid};
use crate::neighbor_counts::NeighborCounts;
use crate::neighborhood::{neighborhood, neighbors};
use crate::point::Point;
use crate::point_set::PointSet;

verus! {

/// A game in progress. It owns its current generation and replaces it
/// with the next one on every step.
pub struct GameState {
    generation: Generation,
}

impl View for GameState {
    type V = Grid;

    closed spec fn view(&self) -> Grid {
        self.generation@
    }
}

/// Whether `q` is a neighbor of one of the first `n` cells of `cells`.
spec fn reached(cells: Seq<Point>, n: int, x_max: usize, y_max: usize, q: Point) -> bool {
    exists|j: int| 0 <= j < n && #[trigger] neighborhood(cells[j], x_max, y_max).contains(q)
}

/// Whether one of the first `n` entries is for the cell `p`.
spec fn listed(entries: Seq<(Point, usize)>, n: int, p: Point) -> bool {
    exists|j: int| 0 <= j < n && (#[trigger] entries[j]).0 == p
}

impl GameState {
    /// A game that starts from `generation`.
    pub fn new(generation: Generation) -> (state: Self)
        ensures
            state@ == generation@,
    {
        Self { generation }
    }

    /// The current generation.
    pub fn generation(&self) -> (g: &Generation)
        ensures
            g@ == self@,
    {
        &self.generation
    }

    /// The cells whose fate the next step has to work out: every live
    /// cell, and every neighbor of a live cell.
    pub fn points_to_evaluate(&self) -> (points: PointSet)
        ensures
            points@ == self@.candidates(),
    {
        let x_max = self.generation.x_max;
        let y_max = self.generation.y_max;
        let ghost live = self.generation.live_cells@;
        let mut points = self.generation.live_cells.clone();
        let cells = self.generation.live_cells.to_vec();
        for i in 0..cells.len()
            invariant
                x_max == self.generation.x_max,
                y_max == self.generation.y_max,
                points@ == Set::new(
                    |q: Point| live.contains(q) || reached(cells@, i as int, x_max, y_max, q),
                ),
        {
            let cell_neighbors = neighbors(cells[i], x_max, y_max);
            proof {
                assert forall|q: Point|
                    reached(cells@, i + 1, x_max, y_max, q) <==> (reached(
                        cells@,
                        i as int,
                        x_max,
                        y_max,
                        q,
                    ) || cell_neighbors@.contains(q)) by {
                    if cell_neighbors@.contains(q) {
                        assert(neighborhood(cells@[i as int], x_max, y_max).contains(q));
                    }
                }
            }
            points.extend(&cell_neighbors);
        }
        proof {
            assert forall|q: Point|
                reached(cells@, cells@.len() as int, x_max, y_max, q) <==> (exists|p: Point|
                    live.contains(p) && neighborhood(p, x_max, y_max).contains(q)) by {
                if reached(cells@, cells@.len() as int, x_max, y_max, q) {
                    let j = choose|j: int|
                        0 <= j < cells@.len() && #[trigger] neighborhood(
                            cells@[j],
                            x_max,
                            y_max,
                        ).contains(q);
                    assert(cells@.to_set().contains(cells@[j]));
                }
                if exists|p: Point| live.contains(p) && neighborhood(p, x_max, y_max).contains(q) {
                    let p = choose|p: Point|
                        live.contains(p) && neighborhood(p, x_max, y_max).contains(q);
                    assert(cells@.to_set().contains(p));
                    let j = choose|j: int| 0 <= j < cells@.len() && cells@[j] == p;
                    assert(neighborhood(cells@[j], x_max, y_max).contains(q));
                }
            }
            assert(points@ =~= self@.candidates());
        }
        points
    }

    /// For each of `points`, the number of its neighbors that are alive in
    /// the current generation.
    pub fn live_neighbor_count(&self, points: &PointSet) -> (counts: NeighborCounts)
        ensures
            counts@.dom() == points@,
            forall|p: Point| points@.contains(p) ==> counts@[p] == self@.live_neighbors(p),
    {
        let x_max = self.generation.x_max;
        let y_max = self.generation.y_max;
        let mut neighbor_counts = NeighborCounts::new();
        let cells = points.to_vec();
        for i in 0..cells.len()
            invariant
                x_max == self.generation.x_max,
                y_max == self.generation.y_max,
                neighbor_counts@.dom() == cells@.take(i as int).to_set(),
                forall|p: Point|
                    neighbor_counts@.contains_key(p) ==> neighbor_counts@[p]
                        == self@.live_neighbors(p),
        {
            let point = cells[i];
            let around = neighbors(point, x_max, y_max);
            let live_neighbors = around.intersection_len(&self.generation.live_cells);
            proof {
                assert(cells@.take(i + 1) =~= cells@.take(i as int).push(point));
                cells@.take(i as int).lemma_push_to_set_commute(point);
            }
            neighbor_counts.insert(point, live_neighbors);
        }
        proof {
            assert(cells@.take(cells@.len() as int) =~= cells@);
        }
        neighbor_counts
    }

    /// The cells that the rule keeps or brings alive, among those that
    /// `live_neighbor_counts` has a count for.
    pub fn live_cells(&self, live_neighbor_counts: &NeighborCounts) -> (cells: PointSet)
        ensures
            cells@ == Set::new(
                |p: Point|
                    live_neighbor_counts@.contains_key(p) && rule(
                        self@.live.contains(p),
                        live_neighbor_counts@[p] as nat,
                    ),
            ),
    {
        let ghost counts = live_neighbor_counts@;
        let ghost live = self@.live;
        let mut new_live_cells = PointSet::new();
        let entries = live_neighbor_counts.entries();
        for i in 0..entries.len()
            invariant
                live == self@.live,
                entries@.to_set() == counts.kv_pairs(),
                new_live_cells@ == Set::new(
                    |p: Point|
                        listed(entries@, i as int, p) && rule(live.contains(p), counts[p] as nat),
                ),
        {
            let point = entries[i].0;
            let count = entries[i].1;
            proof {
                assert(entries@.to_set().contains(entries@[i as int]));
                assert(counts[point] == count);
                assert forall|p: Point|
                    listed(entries@, i + 1, p) <==> (listed(entries@, i as int, p) || p
                        == point) by {
                    if p == point {
                        assert(entries@[i as int].0 == p);
                    }
                }
            }
            if self.generation.live_cells.contains(&point) {
                if count == 2 || count == 3 {
                    new_live_cells.insert(point);
                }
            } else {
                if count == 3 {
                    new_live_cells.insert(point);
                }
            }
        }
        proof {
            assert forall|p: Point|
                listed(entries@, entries@.len() as int, p) <==> counts.contains_key(p) by {
                if listed(entries@, entries@.len() as int, p) {
                    let j = choose|j: int|
                        0 <= j < entries@.len() && (#[trigger] entries@[j]).0 == p;
                    assert(entries@.to_set().contains(entries@[j]));
                }
                if counts.contains_key(p) {
                    assert(counts.kv_pairs().contains((p, counts[p])));
                    let j = choose|j: int| 0 <= j < entries@.len() && entries@[j] == (p, counts[p]);
                    assert(entries@[j].0 == p);
                }
            }
        }
        new_live_cells
    }

    /// Advances the game by one generation and returns the new generation.
    ///
    /// Every cell is judged by the generation before the step. The grid
    /// stays as it is.
    pub fn step(&mut self) -> (g: Generation)
        ensures
            final(self)@ == old(self)@.step(),
            g@ == final(self)@,
            g.x_max == old(self)@.x_max,
            g.y_max == old(self)@.y_max,
            old(self)@.live.is_empty() ==> g@.live.is_empty(),
            old(self)@.well_formed() ==> g@.well_formed(),
    {
        let points_to_evaluate = self.points_to_evaluate();
        let live_neighbor_counts = self.live_neighbor_count(&points_to_evaluate);
        let new_live_cells = self.live_cells(&live_neighbor_counts);
        proof {
            self@.lemma_step_on_candidates();
            self@.lemma_step_well_formed();
            assert(new_live_cells@ =~= self@.step().live);
            if self@.live.is_empty() {
                self@.lemma_step_of_empty();
            }
        }
        self.generation = Generation::new(
            new_live_cells,
            self.generation.x_max,
            self.generation.y_max,
        );
        self.generation.clone()
    }

    /// Like [`GameState::step`], in the manner of an iterator that never
    /// ends: the result is always `Some`.
    pub fn next(&mut self) -> (g: Option<Generation>)
        ensures
            final(self)@ == old(self)@.step(),
            g matches Some(generation) && generation@ == final(self)@,
    {
        Some(self.step())
    }
}

} // verus!
