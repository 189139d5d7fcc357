//! The game behind a flat interface of 32-bit numbers, for hosts that
//! cannot hold the library's own types.

use vstd::prelude::*;
use crate::game_state::GameState;
use crate::generation::{Generation, Grid};
use crate::point::Point;
use crate::point_set::PointSet;

verus! {

/// A cell as a host passes it in: column, then row.
pub struct WasmPoint(pub u32, pub u32);

/// The cell that a host's pair names.
pub open spec fn cell_of(p: WasmPoint) -> Point {
    Point { x: p.0 as usize, y: p.1 as usize }
}

/// The cells that a flat list names: its numbers two by two, column
/// first.
pub open spec fn cells_of(flat: Seq<u32>) -> Seq<Point> {
    Seq::new(
        flat.len() / 2,
        |i: int| Point { x: flat[2 * i] as usize, y: flat[2 * i + 1] as usize },
    )
}

/// Whether every live cell and both sides of the grid fit in 32 bits.
pub open spec fn fits(grid: Grid) -> bool {
    &&& grid.x_max <= u32::MAX
    &&& grid.y_max <= u32::MAX
    &&& forall|p: Point| grid.live.contains(p) ==> p.x <= u32::MAX && p.y <= u32::MAX
}

/// A step never leaves the range of 32 bits.
pub proof fn lemma_step_fits(grid: Grid)
    requires
        fits(grid),
    ensures
        fits(grid.step()),
{
    assert forall|p: Point| grid.step().live.contains(p) implies p.x <= u32::MAX && p.y
        <= u32::MAX by {
        assert(grid.alive_next(p));
    }
}

/// A game that a host drives through 32-bit numbers.
pub struct Life {
    inner: GameState,
}

impl View for Life {
    type V = Grid;

    closed spec fn view(&self) -> Grid {
        self.inner@
    }
}

impl Life {
    #[verifier::type_invariant]
    spec fn well_formed(self) -> bool {
        fits(self.inner@)
    }

    /// A game on a grid of `width` columns and `height` rows, with the
    /// cells of `initial` alive.
    pub fn new(initial: Vec<WasmPoint>, width: u32, height: u32) -> (life: Life)
        ensures
            life@.live == initial@.map_values(|p: WasmPoint| cell_of(p)).to_set(),
            life@.x_max == width,
            life@.y_max == height,
    {
        let ghost named = initial@.map_values(|p: WasmPoint| cell_of(p));
        let mut live_cells = PointSet::new();
        for i in 0..initial.len()
            invariant
                named == initial@.map_values(|p: WasmPoint| cell_of(p)),
                live_cells@ == named.take(i as int).to_set(),
                forall|p: Point| live_cells@.contains(p) ==> p.x <= u32::MAX && p.y <= u32::MAX,
        {
            proof {
                let cell = cell_of(initial@[i as int]);
                assert(named.take(i + 1) =~= named.take(i as int).push(cell));
                named.take(i as int).lemma_push_to_set_commute(cell);
            }
            live_cells.insert(Point::new(initial[i].0 as usize, initial[i].1 as usize));
        }
        proof {
            assert(named.take(named.len() as int) =~= named);
        }
        let generation = Generation::new(live_cells, width as usize, height as usize);
        Life { inner: GameState::new(generation) }
    }

    /// Advances the game by one generation and returns the cells that are
    /// then alive: for each cell its column and its row, the cells in no
    /// particular order, each once.
    pub fn tick(&mut self) -> (out: Vec<u32>)
        ensures
            final(self)@ == old(self)@.step(),
            out@.len() == 2 * final(self)@.live.len(),
            cells_of(out@).no_duplicates(),
            cells_of(out@).to_set() == final(self)@.live,
    {
        proof {
            use_type_invariant(&*self);
            lemma_step_fits(self.inner@);
        }
        let mut inner = GameState::new(Generation::new(PointSet::new(), 0, 0));
        std::mem::swap(&mut inner, &mut self.inner);
        let generation = inner.step();
        self.inner = inner;
        let cells = generation.live_cells.to_vec();
        let mut out: Vec<u32> = Vec::new();
        proof {
            assert forall|j: int| 0 <= j < cells@.len() implies cells@[j].x <= u32::MAX
                && cells@[j].y <= u32::MAX by {
                assert(cells@.to_set().contains(cells@[j]));
            }
        }
        for i in 0..cells.len()
            invariant
                forall|j: int| 0 <= j < cells@.len() ==> cells@[j].x <= u32::MAX && cells@[j].y
                    <= u32::MAX,
                out@.len() == 2 * i,
                forall|j: int|
                    0 <= j < i ==> out@[2 * j] == cells@[j].x && out@[2 * j + 1] == cells@[j].y,
        {
            let p = cells[i];
            out.push(p.x as u32);
            out.push(p.y as u32);
        }
        proof {
            assert(cells_of(out@) =~= cells@);
        }
        out
    }
}

} // verus!
