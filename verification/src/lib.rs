//! Rules and search for a three-player tile-drafting game.
//!
//! - [`game_state`]: the position and its invariants;
//! - [`actions`]: which moves are legal, and checks of a position;
//! - [`play`]: playing a move; [`scoring`] and [`round`]: the end of a round
//!   and of the game; [`refill`]: dealing a new round;
//! - [`laws`]: what holds of every move;
//! - [`mcts`]: the search tree and its steps; [`value_fns`]: how a search
//!   values a position;
//! - [`render`] and [`show`]: positions and moves as text.

pub mod actions;
pub mod arrays;
pub mod game_state;
pub mod laws;
pub mod mcts;
pub mod play;
pub mod refill;
pub mod render;
pub mod round;
pub mod scoring;
pub mod show;
pub mod value_fns;
