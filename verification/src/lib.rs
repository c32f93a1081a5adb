//! A block-pushing puzzle on a rectangular board.
//!
//! The player walks over a grid of squares and shoves blocks ahead of them;
//! the level is cleared once no hall square is left without a block on it.
//! [`stage::Stage`] is the board, read from text, changed by
//! [`stage::Stage::update`] and judged by [`stage::Stage::check_clear`].
//! Every executable function of this crate is proved against the board's
//! mathematical model, [`grid::Grid`].
pub mod cell;
pub mod grid;
pub mod laws;
pub mod level;
pub mod play;
pub mod stage;

pub use cell::State;
pub use grid::Grid;
pub use stage::{ParseStageError, Stage};
