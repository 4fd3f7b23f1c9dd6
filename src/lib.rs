//! Rules engine for a two-player naval combat game on a 10x10 grid.
pub mod game;
pub mod location;
pub mod player;
pub mod proofs;
pub mod round_trip;
pub mod ship;
pub mod shot;
pub mod text;
