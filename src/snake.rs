//! The chain of segments and how it moves.
use vstd::prelude::*;
use crate::grid::{dx, dy, lemma_wrap_one, stepped, wrap, wrap_step, BoardSize, Coords, Dir};
use crate::segment::SnakeSegment;

verus! {

/// The snake: a head, zero or more body segments in order, and a tail.
pub struct Snake {
    pub head: SnakeSegment,
    pub body: Vec<SnakeSegment>,
    pub tail: SnakeSegment,
}

impl View for Snake {
    type V = Seq<SnakeSegment>;

    /// The chain from head to tail.
    open spec fn view(&self) -> Seq<SnakeSegment> {
        seq![self.head] + self.body@ + seq![self.tail]
    }
}

/// Every segment of the chain lies on the board.
pub open spec fn on_board(c: Seq<SnakeSegment>, b: BoardSize) -> bool {
    forall|i: int| 0 <= i < c.len() ==> b.contains(#[trigger] c[i].coords)
}

/// No segment of the chain carries a pending growth.
pub open spec fn none_bloated(c: Seq<SnakeSegment>) -> bool {
    forall|i: int| 0 <= i < c.len() ==> !(#[trigger] c[i]).is_bloated
}

/// Exactly the segment at index `k` carries a pending growth.
pub open spec fn bloated_only_at(c: Seq<SnakeSegment>, k: int) -> bool {
    forall|i: int| 0 <= i < c.len() ==> ((#[trigger] c[i]).is_bloated <==> i == k)
}

/// `s` with its growth mark set to `bloated`.
pub open spec fn with_bloat(s: SnakeSegment, bloated: bool) -> SnakeSegment {
    SnakeSegment { coords: s.coords, direction: s.direction, is_bloated: bloated }
}

/// The chain after one tick moving along `dir`. The head steps to the next
/// cell; each following slot takes what the slot before it held, the old head
/// now pointing along `dir`. A bloated tail stays where it is and loses its
/// mark, and the chain grows by the segment that would have replaced it.
pub open spec fn advanced(c: Seq<SnakeSegment>, dir: Dir, b: BoardSize) -> Seq<SnakeSegment> {
    let h = c[0];
    let front = SnakeSegment { coords: h.coords, direction: (h.direction.1, dir), is_bloated: h.is_bloated };
    let new_head = SnakeSegment { coords: stepped(h.coords, dir, b), direction: (dir, dir), is_bloated: false };
    let middle = c.subrange(1, c.len() - 1);
    if c.last().is_bloated {
        seq![new_head, front] + middle + seq![with_bloat(c.last(), false)]
    } else {
        seq![new_head, front] + middle
    }
}

/// The chain after one tick for each of `dirs`, in order.
pub open spec fn advanced_by(c: Seq<SnakeSegment>, dirs: Seq<Dir>, b: BoardSize) -> Seq<SnakeSegment>
    decreases dirs.len(),
{
    if dirs.len() == 0 {
        c
    } else {
        advanced(advanced_by(c, dirs.drop_last(), b), dirs.last(), b)
    }
}

/// The chain with its head marked as having eaten.
pub open spec fn head_marked(c: Seq<SnakeSegment>) -> Seq<SnakeSegment> {
    c.update(0, with_bloat(c[0], true))
}

/// Ticking along `dirs` and then once more along `d` is ticking along
/// `dirs.push(d)`: successive calls of `Snake::advance` leave the chain at
/// `advanced_by` of the directions taken.
pub proof fn lemma_advanced_by_push(c: Seq<SnakeSegment>, dirs: Seq<Dir>, d: Dir, b: BoardSize)
    ensures
        advanced_by(c, dirs.push(d), b) == advanced(advanced_by(c, dirs, b), d, b),
{
    assert(dirs.push(d).drop_last() =~= dirs);
}

/// Facts about one tick, slot by slot.
proof fn lemma_advanced_slots(c: Seq<SnakeSegment>, dir: Dir, b: BoardSize)
    requires
        c.len() >= 2,
    ensures
        advanced(c, dir, b).len() == c.len() + if c.last().is_bloated { 1int } else { 0int },
        advanced(c, dir, b)[0].coords == stepped(c[0].coords, dir, b),
        !advanced(c, dir, b)[0].is_bloated,
        forall|i: int|
            1 <= i < c.len() ==> (#[trigger] advanced(c, dir, b)[i]).coords == c[i - 1].coords
                && advanced(c, dir, b)[i].is_bloated == c[i - 1].is_bloated,
        c.last().is_bloated ==> advanced(c, dir, b)[c.len() as int] == with_bloat(c.last(), false),
{
    let r = advanced(c, dir, b);
    assert forall|i: int| 2 <= i < c.len() implies (#[trigger] r[i]) == c[i - 1] by {
        assert(r[i] == c.subrange(1, c.len() - 1)[i - 2]);
    }
}

/// On a tick with no growth pending at the tail, the chain keeps its length,
/// the head moves one cell along `dir`, and every other segment moves to the
/// cell that the segment in front of it held.
pub proof fn lemma_tick_shifts_chain(c: Seq<SnakeSegment>, dir: Dir, b: BoardSize)
    requires
        c.len() >= 2,
        !c.last().is_bloated,
    ensures
        advanced(c, dir, b).len() == c.len(),
        advanced(c, dir, b)[0].coords == stepped(c[0].coords, dir, b),
        forall|i: int| 1 <= i < c.len() ==> (#[trigger] advanced(c, dir, b)[i]).coords == c[i - 1].coords,
{
    lemma_advanced_slots(c, dir, b);
}

/// Total horizontal movement of a sequence of moves.
pub open spec fn sum_dx(dirs: Seq<Dir>) -> int
    decreases dirs.len(),
{
    if dirs.len() == 0 {
        0
    } else {
        sum_dx(dirs.drop_last()) + dx(dirs.last())
    }
}

/// Total vertical movement of a sequence of moves.
pub open spec fn sum_dy(dirs: Seq<Dir>) -> int
    decreases dirs.len(),
{
    if dirs.len() == 0 {
        0
    } else {
        sum_dy(dirs.drop_last()) + dy(dirs.last())
    }
}

/// Over any number of ticks with no growth pending anywhere, the chain keeps
/// its length, stays on the board and free of growth marks, the head ends
/// on its starting cell moved by the sum of the moves (wrapped), and after
/// `k` ticks the segment in slot `i >= k` stands where slot `i - k` stood at
/// the start.
pub proof fn lemma_ticks_shift_chain(c: Seq<SnakeSegment>, dirs: Seq<Dir>, b: BoardSize)
    requires
        c.len() >= 2,
        b.wf(),
        on_board(c, b),
        none_bloated(c),
    ensures
        advanced_by(c, dirs, b).len() == c.len(),
        none_bloated(advanced_by(c, dirs, b)),
        on_board(advanced_by(c, dirs, b), b),
        advanced_by(c, dirs, b)[0].coords.x == wrap(c[0].coords.x + sum_dx(dirs), b.width as int),
        advanced_by(c, dirs, b)[0].coords.y == wrap(c[0].coords.y + sum_dy(dirs), b.height as int),
        forall|i: int|
            dirs.len() <= i < c.len() ==> (#[trigger] advanced_by(c, dirs, b)[i]).coords == c[i
                - dirs.len()].coords,
    decreases dirs.len(),
{
    if dirs.len() == 0 {
        assert(b.contains(c[0].coords));
        lemma_wrap_one(c[0].coords.x as int, b.width as int);
        lemma_wrap_one(c[0].coords.y as int, b.height as int);
    } else {
        let p = advanced_by(c, dirs.drop_last(), b);
        let d = dirs.last();
        lemma_ticks_shift_chain(c, dirs.drop_last(), b);
        lemma_advanced_slots(p, d, b);
        let r = advanced_by(c, dirs, b);
        assert(r == advanced(p, d, b));
        assert forall|i: int| 0 <= i < r.len() implies !(#[trigger] r[i]).is_bloated by {
            if i >= 1 {
                assert(!p[i - 1].is_bloated);
            }
        }
        assert forall|i: int| dirs.len() <= i < c.len() implies (#[trigger] r[i]).coords == c[i
            - dirs.len()].coords by {
            assert(r[i].coords == p[i - 1].coords);
        }
        let h = p[0].coords;
        assert(b.contains(h));
        lemma_wrap_one(h.x + dx(d), b.width as int);
        lemma_wrap_one(h.y + dy(d), b.height as int);
        assert forall|i: int| 0 <= i < r.len() implies b.contains(#[trigger] r[i].coords) by {
            if i >= 1 {
                assert(r[i].coords == p[i - 1].coords);
                assert(b.contains(p[i - 1].coords));
            }
        }
        let sx = c[0].coords.x + sum_dx(dirs.drop_last());
        let sy = c[0].coords.y + sum_dy(dirs.drop_last());
        vstd::arithmetic::div_mod::lemma_add_mod_noop_right(dx(d), sx, b.width as int);
        vstd::arithmetic::div_mod::lemma_add_mod_noop_right(dy(d), sy, b.height as int);
        assert(sx + dx(d) == dx(d) + sx);
        assert(sy + dy(d) == dy(d) + sy);
    }
}

/// A growth mark in slot `k` moves one slot towards the tail on each tick
/// while the length stays the same; on the tick after it reaches the tail
/// slot the chain grows by exactly one and no mark is left.
pub proof fn lemma_growth_travels(c: Seq<SnakeSegment>, dirs: Seq<Dir>, b: BoardSize, k: int)
    requires
        c.len() >= 2,
        0 <= k < c.len(),
        bloated_only_at(c, k),
    ensures
        k + dirs.len() < c.len() ==> advanced_by(c, dirs, b).len() == c.len() && bloated_only_at(
            advanced_by(c, dirs, b),
            k + dirs.len(),
        ),
        k + dirs.len() >= c.len() ==> advanced_by(c, dirs, b).len() == c.len() + 1 && none_bloated(
            advanced_by(c, dirs, b),
        ),
    decreases dirs.len(),
{
    if dirs.len() > 0 {
        let p = advanced_by(c, dirs.drop_last(), b);
        let r = advanced_by(c, dirs, b);
        let m = k + dirs.len() - 1;
        lemma_growth_travels(c, dirs.drop_last(), b, k);
        lemma_advanced_slots(p, dirs.last(), b);
        assert(r == advanced(p, dirs.last(), b));
        if m < c.len() {
            assert(p.last().is_bloated <==> m == c.len() - 1);
            assert forall|i: int| 0 <= i < r.len() implies ((#[trigger] r[i]).is_bloated <==> (m
                + 1 < c.len() && i == m + 1)) by {
                if 1 <= i < p.len() {
                    assert(r[i].is_bloated == p[i - 1].is_bloated);
                }
            }
        } else {
            assert forall|i: int| 0 <= i < r.len() implies !(#[trigger] r[i]).is_bloated by {
                if 1 <= i < p.len() {
                    assert(r[i].is_bloated == p[i - 1].is_bloated);
                }
            }
        }
    }
}

/// One eat on a chain with no pending growth makes the chain exactly one
/// segment longer, on the tick after the mark has travelled from the head to
/// the tail slot, and not before.
pub proof fn lemma_one_eat_one_growth(c: Seq<SnakeSegment>, dirs: Seq<Dir>, b: BoardSize)
    requires
        c.len() >= 2,
        none_bloated(c),
    ensures
        advanced_by(head_marked(c), dirs, b).len() == c.len() + if dirs.len() >= c.len() {
            1int
        } else {
            0int
        },
        dirs.len() == c.len() - 1 ==> advanced_by(head_marked(c), dirs, b).last().is_bloated,
        dirs.len() >= c.len() ==> none_bloated(advanced_by(head_marked(c), dirs, b)),
{
    let e = head_marked(c);
    assert(bloated_only_at(e, 0));
    lemma_growth_travels(e, dirs, b, 0);
}

impl Snake {
    /// A snake is well formed on a board when all its segments lie on it.
    pub open spec fn wf(&self, b: BoardSize) -> bool {
        b.wf() && on_board(self@, b)
    }

    /// Number of segments, head and tail included.
    pub fn len(&self) -> (r: usize)
        requires
            self.body@.len() + 2 <= usize::MAX,
        ensures
            r == self@.len(),
    {
        self.body.len() + 2
    }

    /// Where the head is.
    pub fn head_position(&self) -> (r: Coords)
        ensures
            r == self@[0].coords,
    {
        self.head.coords
    }

    /// Marks the head as having eaten: the growth travels down the chain
    /// and is realised when it reaches the tail.
    pub fn mark_head_bloated(&mut self)
        ensures
            final(self)@ == head_marked(old(self)@),
            final(self).body@.len() == old(self).body@.len(),
    {
        self.head.is_bloated = true;
        proof {
            assert(self@ =~= head_marked(old(self)@));
        }
    }

    /// Moves the snake one cell along `dir`.
    pub fn advance(&mut self, dir: Dir, b: BoardSize)
        requires
            old(self).wf(b),
        ensures
            final(self)@ == advanced(old(self)@, dir, b),
            final(self).wf(b),
    {
        let ghost c = self@;
        let h = self.head;
        let mut front = SnakeSegment { coords: h.coords, direction: (h.direction.1, dir), is_bloated: h.is_bloated };
        let ghost carried = seq![front] + self.body@;
        assert(b.contains(c[0].coords));
        let new_head = SnakeSegment { coords: wrap_step(h.coords, dir, b), direction: (dir, dir), is_bloated: false };
        self.head = new_head;
        let n = self.body.len();
        let mut i: usize = 0;
        while i < n
            invariant
                0 <= i <= n,
                n == self.body@.len(),
                carried.len() == n + 1,
                front == carried[i as int],
                forall|j: int| 0 <= j < i ==> self.body@[j] == carried[j],
                forall|j: int| i <= j < n ==> self.body@[j] == carried[j + 1],
                self.head == new_head,
                self.tail == old(self).tail,
            decreases n - i,
        {
            let next = self.body[i];
            self.body.set(i, front);
            front = next;
            i = i + 1;
        }
        proof {
            assert(c.subrange(1, c.len() - 1) =~= old(self).body@);
            assert(c.last() == old(self).tail);
            assert(self.body@ + seq![front] =~= carried);
        }
        if self.tail.is_bloated {
            self.body.push(front);
            self.tail.is_bloated = false;
            proof {
                assert(self.body@ =~= carried);
            }
        } else {
            self.tail = front;
        }
        proof {
            let r = advanced(c, dir, b);
            assert(r[0] == self@[0]);
            assert(r.len() == self@.len());
            assert forall|j: int| 1 <= j <= n + 1 implies self@[j] == r[j] by {
                assert(self@[j] == carried[j - 1]);
                if j >= 2 {
                    assert(r[j] == old(self).body@[j - 2]);
                }
            }
            assert(self@ =~= r);
            assert forall|j: int| 0 <= j < self@.len() implies b.contains(#[trigger] self@[j].coords) by {
                if j >= 1 {
                    assert(self@[j].coords == c[j - 1].coords || self@[j].coords == c.last().coords);
                }
            }
        }
    }
}

} // verus!
