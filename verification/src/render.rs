//! A generation as text.
//!
//! Each row of the grid becomes one line. A cell takes two characters: a
//! mark and a space where it is alive, two spaces where it is dead.

use vstd::prelude::*;
use vstd::string::StringExecFns;
use crate::generation::{Generation, Grid};
use crate::point::Point;

verus! {

/// How live cells are drawn.
#[derive(Debug, Clone, Copy, PartialEq, Eq, Structural)]
pub enum OutputMode {
    Ascii,
    Unicode,
}

impl OutputMode {
    /// The name of the mode in lower case, as users write it.
    pub fn name(&self) -> (name: &'static str)
        ensures
            name@ == (match self {
                OutputMode::Ascii => "ascii"@,
                OutputMode::Unicode => "unicode"@,
            }),
    {
        match self {
            OutputMode::Ascii => "ascii",
            OutputMode::Unicode => "unicode",
        }
    }

    /// Whether live cells are drawn as filled circles.
    pub fn is_unicode(&self) -> (unicode: bool)
        ensures
            unicode == (*self == OutputMode::Unicode),
    {
        matches!(self, OutputMode::Unicode)
    }
}

/// The two characters of a live cell: a filled circle in Unicode mode, a
/// capital O otherwise, and a space.
pub open spec fn live_glyph(unicode: bool) -> Seq<char> {
    if unicode {
        seq!['\u{25cf}', ' ']
    } else {
        seq!['O', ' ']
    }
}

/// The two characters of a dead cell.
pub open spec fn dead_glyph() -> Seq<char> {
    seq![' ', ' ']
}

/// The two characters of the cell in column `x` of row `y`.
pub open spec fn cell_text(grid: Grid, x: int, y: int, unicode: bool) -> Seq<char> {
    if grid.live.contains(Point { x: x as usize, y: y as usize }) {
        live_glyph(unicode)
    } else {
        dead_glyph()
    }
}

/// The first `n` cells of row `y`.
pub open spec fn row_text(grid: Grid, y: int, n: nat, unicode: bool) -> Seq<char>
    decreases n,
{
    if n == 0 {
        Seq::empty()
    } else {
        row_text(grid, y, (n - 1) as nat, unicode) + cell_text(grid, n - 1, y, unicode)
    }
}

/// The first `n` rows, each ended by a line feed.
pub open spec fn rows_text(grid: Grid, n: nat, unicode: bool) -> Seq<char>
    decreases n,
{
    if n == 0 {
        Seq::empty()
    } else {
        rows_text(grid, (n - 1) as nat, unicode) + row_text(
            grid,
            n - 1,
            grid.x_max as nat,
            unicode,
        ) + seq!['\n']
    }
}

/// The whole grid: `y_max` lines of `x_max` cells.
pub open spec fn grid_text(grid: Grid, unicode: bool) -> Seq<char> {
    rows_text(grid, grid.y_max as nat, unicode)
}

/// Draws a generation, row by row.
pub fn render(generation: &Generation, unicode: bool) -> (text: String)
    ensures
        text@ == grid_text(generation@, unicode),
{
    let ghost grid = generation@;
    let mut text = String::new();
    for y in 0..generation.y_max
        invariant
            grid == generation@,
            text@ == rows_text(grid, y as nat, unicode),
    {
        let ghost above = text@;
        for x in 0..generation.x_max
            invariant
                grid == generation@,
                text@ == above + row_text(grid, y as int, x as nat, unicode),
        {
            proof {
                reveal_strlit("\u{25cf} ");
                reveal_strlit("O ");
                reveal_strlit("  ");
            }
            let ghost before = text@;
            let point = Point::new(x, y);
            if generation.live_cells.contains(&point) {
                if unicode {
                    text.append("\u{25cf} ");
                } else {
                    text.append("O ");
                }
            } else {
                text.append("  ");
            }
            assert(text@ =~= before + cell_text(grid, x as int, y as int, unicode));
            assert(text@ =~= above + row_text(grid, y as int, (x + 1) as nat, unicode));
        }
        proof {
            reveal_strlit("\n");
        }
        let ghost row = text@;
        text.append("\n");
        assert(text@ =~= row + seq!['\n']);
        assert(text@ =~= rows_text(grid, (y + 1) as nat, unicode));
    }
    text
}

} // verus!
