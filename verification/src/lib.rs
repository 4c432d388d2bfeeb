//! A verified grid layout manager.
//!
//! A [`Grid`](grid::Grid) partitions a rectangular area into uniformly sized
//! rows and columns, places widget handles into cells (optionally spanning
//! several cells), and recomputes every placed widget's pixel geometry when
//! the area is resized. The host user-interface toolkit supplies the actual
//! widgets; this crate computes and records their geometry.

pub mod geom;
pub mod range;
pub mod grid;
pub mod laws;

pub use geom::{Rect, Widget};
pub use range::GridRange;
pub use grid::{Child, Grid, Placement};
