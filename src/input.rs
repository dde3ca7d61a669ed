//! The queue of pending turn requests.
use std::collections::VecDeque;
use vstd::prelude::*;
use crate::grid::{parallel, Dir};

verus! {

/// Directions requested by the player, oldest first.
pub struct InputQueue(pub VecDeque<Dir>);

/// What taking the next valid turn from `q` gives while moving along `cur`:
/// the first entry not parallel to `cur`, and what is left after it. Parallel
/// entries in front of it are dropped; with no valid entry the whole queue is.
pub open spec fn pop_valid(q: Seq<Dir>, cur: Dir) -> (Option<Dir>, Seq<Dir>)
    decreases q.len(),
{
    if q.len() == 0 {
        (None, q)
    } else if !parallel(q[0], cur) {
        (Some(q[0]), q.drop_first())
    } else {
        pop_valid(q.drop_first(), cur)
    }
}

/// A turn taken from a queue is never along the current axis, so it can be
/// neither a reversal nor a repeat of the current direction.
pub proof fn lemma_pop_valid_never_parallel(q: Seq<Dir>, cur: Dir)
    ensures
        pop_valid(q, cur).0 matches Some(d) ==> !parallel(d, cur),
        pop_valid(q, cur).1.len() <= q.len(),
    decreases q.len(),
{
    if q.len() > 0 && parallel(q[0], cur) {
        lemma_pop_valid_never_parallel(q.drop_first(), cur);
    }
}

impl View for InputQueue {
    type V = Seq<Dir>;

    open spec fn view(&self) -> Seq<Dir> {
        self.0@
    }
}

impl InputQueue {
    /// An empty queue.
    pub fn new() -> (r: InputQueue)
        ensures
            r@ == Seq::<Dir>::empty(),
    {
        InputQueue(VecDeque::new())
    }

    /// Appends a request at the back.
    pub fn push(&mut self, d: Dir)
        ensures
            final(self)@ == old(self)@.push(d),
    {
        self.0.push_back(d);
    }

    /// Removes and returns the first request that turns away from `cur`'s
    /// axis, dropping the parallel requests met before it.
    pub fn pop_next_valid(&mut self, cur: Dir) -> (r: Option<Dir>)
        ensures
            (r, final(self)@) == pop_valid(old(self)@, cur),
            r matches Some(d) ==> !parallel(d, cur),
    {
        proof {
            lemma_pop_valid_never_parallel(self@, cur);
        }
        while self.0.len() > 0
            invariant
                pop_valid(self@, cur) == pop_valid(old(self)@, cur),
            decreases self@.len(),
        {
            let d = self.0.pop_front().unwrap();
            if !d.is_parallel(cur) {
                return Some(d);
            }
        }
        None
    }
}

} // verus!
