//! One generation of the game, and the rule that leads to the next.

use vstd::prelude::*;
use crate::neighborhood::{
    lemma_neighborhood_len, lemma_neighborhood_symmetric, neighborhood, on_grid,
};
use crate::point::Point;
use crate::point_set::PointSet;

verus! {

/// The mathematical content of a generation: which cells are alive, on a
/// grid of `x_max` columns and `y_max` rows.
#[verifier::ext_equal]
pub struct Grid {
    pub live: Set<Point>,
    pub x_max: usize,
    pub y_max: usize,
}

/// The rule of the game: a live cell stays alive with two or three live
/// neighbors, a dead cell comes alive with exactly three.
pub open spec fn rule(alive: bool, live_neighbors: nat) -> bool {
    if alive {
        live_neighbors == 2 || live_neighbors == 3
    } else {
        live_neighbors == 3
    }
}

impl Grid {
    /// Whether `p` is a cell of the grid.
    pub open spec fn covers(self, p: Point) -> bool {
        on_grid(p.x as int, p.y as int, self.x_max, self.y_max)
    }

    /// Every live cell is a cell of the grid.
    pub open spec fn well_formed(self) -> bool {
        forall|p: Point| self.live.contains(p) ==> self.covers(p)
    }

    /// The neighbors of `p` that are alive.
    pub open spec fn live_around(self, p: Point) -> Set<Point> {
        neighborhood(p, self.x_max, self.y_max).intersect(self.live)
    }

    /// The number of live neighbors of `p`.
    pub open spec fn live_neighbors(self, p: Point) -> nat {
        self.live_around(p).len()
    }

    /// The cells whose fate has to be worked out: the live cells and their
    /// neighbors.
    pub open spec fn candidates(self) -> Set<Point> {
        Set::new(
            |q: Point|
                self.live.contains(q) || exists|p: Point|
                    self.live.contains(p) && neighborhood(p, self.x_max, self.y_max).contains(q),
        )
    }

    /// Whether `p` is alive in the next generation.
    ///
    /// A live cell is judged wherever it lies; a dead cell comes alive only
    /// on the grid.
    pub open spec fn alive_next(self, p: Point) -> bool {
        if self.live.contains(p) {
            rule(true, self.live_neighbors(p))
        } else {
            self.covers(p) && rule(false, self.live_neighbors(p))
        }
    }

    /// The next generation, on the same grid.
    pub open spec fn step(self) -> Grid {
        Grid { live: Set::new(|p: Point| self.alive_next(p)), x_max: self.x_max, y_max: self.y_max }
    }

    /// The generation `n` steps on.
    pub open spec fn steps(self, n: nat) -> Grid
        decreases n,
    {
        if n == 0 {
            self
        } else {
            self.steps((n - 1) as nat).step()
        }
    }

    /// A cell has at most eight live neighbors.
    pub proof fn lemma_live_neighbors_bound(self, p: Point)
        ensures
            self.live_around(p).finite(),
            self.live_neighbors(p) <= 8,
    {
        lemma_neighborhood_len(p, self.x_max, self.y_max);
        vstd::set_lib::lemma_len_intersect(neighborhood(p, self.x_max, self.y_max), self.live);
    }

    /// A cell that is no candidate is dead and stays dead; if it is on the
    /// grid, it has no live neighbor.
    pub proof fn lemma_outside_candidates(self, p: Point)
        requires
            !self.candidates().contains(p),
        ensures
            !self.live.contains(p),
            self.covers(p) ==> self.live_neighbors(p) == 0,
            !self.step().live.contains(p),
    {
        if self.covers(p) {
            self.lemma_live_neighbors_bound(p);
            if self.live_neighbors(p) != 0 {
                let q = self.live_around(p).choose();
                assert(self.live_around(p).contains(q));
                lemma_neighborhood_symmetric(p, q, self.x_max, self.y_max);
                assert(self.live.contains(q));
                assert(neighborhood(q, self.x_max, self.y_max).contains(p));
            }
        }
    }

    /// The next generation is the rule applied to the candidates: no other
    /// cell needs to be looked at.
    pub proof fn lemma_step_on_candidates(self)
        ensures
            self.step().live == Set::new(
                |p: Point|
                    self.candidates().contains(p) && rule(
                        self.live.contains(p),
                        self.live_neighbors(p),
                    ),
            ),
    {
        let picked = Set::new(
            |p: Point|
                self.candidates().contains(p) && rule(
                    self.live.contains(p),
                    self.live_neighbors(p),
                ),
        );
        assert forall|p: Point| self.step().live.contains(p) implies picked.contains(p) by {
            if !self.candidates().contains(p) {
                self.lemma_outside_candidates(p);
            }
        }
        assert forall|p: Point| picked.contains(p) implies self.step().live.contains(p) by {
            if !self.live.contains(p) {
                let q = choose|q: Point|
                    self.live.contains(q) && neighborhood(q, self.x_max, self.y_max).contains(p);
                assert(self.covers(p));
            }
        }
        assert(self.step().live =~= picked);
    }

    /// A step keeps the grid, and keeps the live cells on it.
    pub proof fn lemma_step_well_formed(self)
        ensures
            self.step().x_max == self.x_max,
            self.step().y_max == self.y_max,
            self.well_formed() ==> self.step().well_formed(),
    {
        if self.well_formed() {
            assert forall|p: Point| self.step().live.contains(p) implies self.step().covers(p) by {
                assert(self.alive_next(p));
            }
        }
    }

    /// With no cell alive, no cell is alive in the next generation.
    pub proof fn lemma_step_of_empty(self)
        requires
            self.live =~= Set::<Point>::empty(),
        ensures
            self.step().live =~= Set::<Point>::empty(),
            self.step() == self,
    {
        assert forall|p: Point| !self.alive_next(p) by {
            assert(self.live_around(p) =~= Set::<Point>::empty());
        }
        assert(self.step() =~= self);
    }

    /// Stepping `a` times and then `b` times is stepping `a + b` times.
    pub proof fn lemma_steps_add(self, a: nat, b: nat)
        ensures
            self.steps(a).steps(b) == self.steps(a + b),
        decreases b,
    {
        if b > 0 {
            self.lemma_steps_add(a, (b - 1) as nat);
        }
    }

    /// Stepping `k` times and `k` times more is stepping `2 * k` times.
    pub proof fn lemma_steps_twice(self, k: nat)
        ensures
            self.steps(k).steps(k) == self.steps(2 * k),
    {
        self.lemma_steps_add(k, k);
    }
}

/// A generation: the live cells, and the size of the grid they live on.
///
/// Columns run from `0` to `x_max - 1`, rows from `0` to `y_max - 1`. The
/// live cells are meant to lie on the grid; nothing here enforces it, and
/// the rule is defined for cells that do not.
#[derive(Debug)]
pub struct Generation {
    pub live_cells: PointSet,
    pub x_max: usize,
    pub y_max: usize,
}

impl View for Generation {
    type V = Grid;

    open spec fn view(&self) -> Grid {
        Grid { live: self.live_cells@, x_max: self.x_max, y_max: self.y_max }
    }
}

impl Generation {
    /// The generation with the given live cells on a grid of `x_max`
    /// columns and `y_max` rows.
    pub fn new(live_cells: PointSet, x_max: usize, y_max: usize) -> (g: Self)
        ensures
            g.live_cells == live_cells,
            g.x_max == x_max,
            g.y_max == y_max,
    {
        Self { live_cells, x_max, y_max }
    }
}

impl Clone for Generation {
    fn clone(&self) -> (g: Self)
        ensures
            g@ == self@,
    {
        Generation { live_cells: self.live_cells.clone(), x_max: self.x_max, y_max: self.y_max }
    }
}

} // verus!
