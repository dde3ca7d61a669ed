//! A grid-based snake simulation: a chain of segments on a wrap-around board,
//! a queue of turn requests, food spawning and the eat / collision rules.
pub mod grid;
pub mod input;
pub mod segment;
pub mod snake;
pub mod food;
pub mod simulation;
