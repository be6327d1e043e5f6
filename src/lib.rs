//! The rules of the 2048 sliding-tile puzzle on a four-by-four grid:
//! positions and directions, tiles and their per-move states, the move that
//! slides and merges tiles, and the random spawning of new tiles.

pub mod position;
pub mod tile;
pub mod rules;
mod random;
pub mod grid;
pub mod laws;
