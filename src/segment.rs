//! The segments that make up a snake.
use vstd::prelude::*;
use crate::grid::{Coords, Dir};

verus! {

/// One cell of the snake. `direction.0` is the direction it arrived from,
/// `direction.1` the direction the next segment towards the tail takes.
/// A bloated segment carries a pending growth down the chain.
#[derive(Clone, Copy, Debug, PartialEq, Eq)]
pub struct SnakeSegment {
    pub coords: Coords,
    pub direction: (Dir, Dir),
    pub is_bloated: bool,
}

/// The role of a segment in the chain.
#[derive(Clone, Copy, Debug, PartialEq, Eq, Structural)]
pub enum SegmentType {
    Head,
    Body,
    Tail,
}

impl SnakeSegment {
    /// A head at `coords` facing `dir`.
    pub fn make_head(dir: Dir, coords: Coords) -> (r: (SnakeSegment, SegmentType))
        ensures
            r.0 == (SnakeSegment { coords, direction: (dir, dir), is_bloated: false }),
            r.1 == SegmentType::Head,
    {
        (SnakeSegment { direction: (dir, dir), coords, is_bloated: false }, SegmentType::Head)
    }

    /// A tail at `coords` facing `dir`.
    pub fn make_tail(dir: Dir, coords: Coords) -> (r: (SnakeSegment, SegmentType))
        ensures
            r.0 == (SnakeSegment { coords, direction: (dir, dir), is_bloated: false }),
            r.1 == SegmentType::Tail,
    {
        (SnakeSegment { direction: (dir, dir), coords, is_bloated: false }, SegmentType::Tail)
    }

    /// A body segment at `coords` entered from `from` and leaving towards `to`.
    pub fn make_body(from: Dir, to: Dir, coords: Coords) -> (r: (SnakeSegment, SegmentType))
        ensures
            r.0 == (SnakeSegment { coords, direction: (from, to), is_bloated: false }),
            r.1 == SegmentType::Body,
    {
        (SnakeSegment { direction: (from, to), coords, is_bloated: false }, SegmentType::Body)
    }
}

} // verus!
