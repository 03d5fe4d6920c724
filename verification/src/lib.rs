//! Conway's Game of Life on a fixed-size, clipped (non-toroidal) grid.
//!
//! The engine is a pure state-transition function over a finite grid: every
//! executable function carries a contract stated over [`Board`], the
//! mathematical model of one generation.

pub mod board;
pub mod cell;
pub mod display;
pub mod grid;
pub mod lifeforms;
pub mod pattern;

pub use board::Board;
pub use cell::{transition, State};
pub use display::Paint;
pub use grid::{Grid, GridPos};
pub use pattern::PatternError;
