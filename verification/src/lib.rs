//! Simulation core of a grid-based snake game: board topology with
//! precomputed neighbour links, snake body tracking, apple placement,
//! direction handling, and per-tick movement with collision detection.
//!
//! Rendering, input wiring and timing live outside this crate; a host loop
//! constructs a [`game_state::State`], calls `move_snake` once per tick while
//! the game is running, and reads the board and snake back for drawing.

pub mod game_state;
pub mod keys;
