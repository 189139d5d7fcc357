//! Conway's Game of Life on a finite rectangular grid, with machine-checked
//! contracts.
//!
//! The grid has exclusive upper bounds `x_max` and `y_max`; there is no
//! wrap-around. A [`GameState`] owns one [`Generation`] and replaces it with
//! its successor on every step, following the standard B3/S23 rule.

pub mod cells;
pub mod game_state;
pub mod generation;
mod key;
pub mod life;
pub mod neighbor_counts;
pub mod neighborhood;
pub mod point;
pub mod point_set;
pub mod render;

pub use game_state::GameState;
pub use generation::{Generation, Grid};
pub use life::{Life, WasmPoint};
pub use neighbor_counts::NeighborCounts;
pub use point::Point;
pub use point_set::PointSet;
