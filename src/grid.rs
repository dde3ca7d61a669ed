//! Directions, cells and the wrap-around board.
use vstd::prelude::*;

verus! {

/// One of the four directions of movement on the board.
#[derive(Clone, Copy, Debug, PartialEq, Eq, Structural)]
pub enum Dir {
    N,
    E,
    S,
    W,
}

/// Two directions are parallel when they lie on the same axis.
pub open spec fn parallel(a: Dir, b: Dir) -> bool {
    (a == Dir::N || a == Dir::S) <==> (b == Dir::N || b == Dir::S)
}

/// Horizontal component of the unit vector of a direction.
pub open spec fn dx(d: Dir) -> int {
    match d {
        Dir::E => 1,
        Dir::W => -1,
        _ => 0,
    }
}

/// Vertical component of the unit vector of a direction (North is up).
pub open spec fn dy(d: Dir) -> int {
    match d {
        Dir::N => 1,
        Dir::S => -1,
        _ => 0,
    }
}

impl Dir {
    /// Whether `other` lies on the same axis as `self`.
    pub fn is_parallel(&self, other: Dir) -> (r: bool)
        ensures
            r == parallel(*self, other),
    {
        match self {
            Dir::N | Dir::S => matches!(other, Dir::N | Dir::S),
            Dir::E | Dir::W => matches!(other, Dir::E | Dir::W),
        }
    }
}

/// A cell of the board, column `x` and row `y`.
#[derive(Clone, Copy, Debug, PartialEq, Eq, Structural)]
pub struct Coords {
    pub x: u32,
    pub y: u32,
}

/// The dimensions of the board, fixed for a session.
#[derive(Clone, Copy, Debug, PartialEq, Eq, Structural)]
pub struct BoardSize {
    pub width: u32,
    pub height: u32,
}

impl BoardSize {
    /// A board must have at least one cell.
    pub open spec fn wf(&self) -> bool {
        self.width >= 1 && self.height >= 1
    }

    /// Whether a cell lies on the board.
    pub open spec fn contains(&self, c: Coords) -> bool {
        c.x < self.width && c.y < self.height
    }

    /// Number of cells of the board.
    pub open spec fn area(&self) -> int {
        self.width as int * self.height as int
    }
}

/// Wraps an integer coordinate into `[0, n)`.
pub open spec fn wrap(v: int, n: int) -> int {
    v % n
}

/// The cell one step from `c` in direction `d`, wrapping across the edges.
pub open spec fn stepped(c: Coords, d: Dir, b: BoardSize) -> Coords {
    Coords {
        x: wrap(c.x + dx(d), b.width as int) as u32,
        y: wrap(c.y + dy(d), b.height as int) as u32,
    }
}

pub(crate) proof fn lemma_wrap_one(v: int, n: int)
    requires
        n >= 1,
        -1 <= v <= n,
    ensures
        wrap(v, n) == if v < 0 {
            v + n
        } else if v >= n {
            v - n
        } else {
            v
        },
{
    if v < 0 {
        assert((v + n) % n == v % n) by (nonlinear_arith)
            requires v == -1, n >= 1;
        assert((n - 1) % n == n - 1) by (nonlinear_arith)
            requires n >= 1;
    } else if v >= n {
        assert(v % n == 0) by (nonlinear_arith)
            requires v == n, n >= 1;
    } else {
        assert(v % n == v) by (nonlinear_arith)
            requires 0 <= v < n;
    }
}

/// Moves one cell from `c` in direction `d`, wrapping across the board's edges.
pub fn wrap_step(c: Coords, d: Dir, b: BoardSize) -> (r: Coords)
    requires
        b.wf(),
        b.contains(c),
    ensures
        r == stepped(c, d, b),
        b.contains(r),
{
    proof {
        lemma_wrap_one(c.x + dx(d), b.width as int);
        lemma_wrap_one(c.y + dy(d), b.height as int);
    }
    match d {
        Dir::N => Coords { x: c.x, y: if c.y + 1 == b.height { 0 } else { c.y + 1 } },
        Dir::S => Coords { x: c.x, y: if c.y == 0 { b.height - 1 } else { c.y - 1 } },
        Dir::E => Coords { x: if c.x + 1 == b.width { 0 } else { c.x + 1 }, y: c.y },
        Dir::W => Coords { x: if c.x == 0 { b.width - 1 } else { c.x - 1 }, y: c.y },
    }
}

/// Leaving the board across any edge re-enters it on the opposite edge,
/// in the same row or column.
pub proof fn lemma_wrap_edges(c: Coords, b: BoardSize)
    requires
        b.wf(),
        b.contains(c),
    ensures
        c.x == b.width - 1 ==> stepped(c, Dir::E, b) == (Coords { x: 0, y: c.y }),
        c.x == 0 ==> stepped(c, Dir::W, b) == (Coords { x: (b.width - 1) as u32, y: c.y }),
        c.y == b.height - 1 ==> stepped(c, Dir::N, b) == (Coords { x: c.x, y: 0 }),
        c.y == 0 ==> stepped(c, Dir::S, b) == (Coords { x: c.x, y: (b.height - 1) as u32 }),
{
    lemma_wrap_one(c.x + 1, b.width as int);
    lemma_wrap_one(c.x - 1, b.width as int);
    lemma_wrap_one(c.y + 1, b.height as int);
    lemma_wrap_one(c.y - 1, b.height as int);
    lemma_wrap_one(c.x as int, b.width as int);
    lemma_wrap_one(c.y as int, b.height as int);
}

} // verus!
