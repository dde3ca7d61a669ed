//! Food items and where new ones may appear.
use vstd::prelude::*;
use rand::seq::IteratorRandom;
use crate::grid::{BoardSize, Coords};
use crate::segment::SnakeSegment;
use crate::snake::Snake;

verus! {

/// At most this many food items are on the board at once.
pub const MAX_FOOD: usize = 3;

/// A food item on a cell of the board.
#[derive(Clone, Copy, Debug, PartialEq, Eq, Structural)]
pub struct Food {
    pub coords: Coords,
}

/// Some food lies on `p`.
pub open spec fn food_at(foods: Seq<Food>, p: Coords) -> bool {
    exists|i: int| 0 <= i < foods.len() && (#[trigger] foods[i]).coords == p
}

/// Some segment of the chain lies on `p`.
pub open spec fn chain_at(c: Seq<SnakeSegment>, p: Coords) -> bool {
    exists|i: int| 0 <= i < c.len() && (#[trigger] c[i]).coords == p
}

/// A cell of the board that neither the chain nor any food occupies.
pub open spec fn is_free(c: Seq<SnakeSegment>, foods: Seq<Food>, b: BoardSize, p: Coords) -> bool {
    b.contains(p) && !chain_at(c, p) && !food_at(foods, p)
}

/// Food is due when there is none, or when there is room for more and the
/// spawn timer has run out.
pub open spec fn spawn_due(n_food: int, timer_finished: bool) -> bool {
    (n_food < MAX_FOOD && timer_finished) || n_food == 0
}

/// Whether some food lies on `p`.
pub fn has_food_at(foods: &Vec<Food>, p: Coords) -> (r: bool)
    ensures
        r == food_at(foods@, p),
{
    let mut i: usize = 0;
    while i < foods.len()
        invariant
            0 <= i <= foods@.len(),
            forall|j: int| 0 <= j < i ==> (#[trigger] foods@[j]).coords != p,
        decreases foods@.len() - i,
    {
        if foods[i].coords == p {
            return true;
        }
        i = i + 1;
    }
    false
}

/// Whether some segment of the snake lies on `p`.
pub fn snake_covers(snake: &Snake, p: Coords) -> (r: bool)
    ensures
        r == chain_at(snake@, p),
{
    if snake.head.coords == p || snake.tail.coords == p {
        proof {
            let c = snake@;
            if snake.head.coords == p {
                assert(c[0].coords == p);
            } else {
                assert(c[c.len() - 1].coords == p);
            }
        }
        return true;
    }
    let mut i: usize = 0;
    while i < snake.body.len()
        invariant
            0 <= i <= snake.body@.len(),
            forall|j: int| 0 <= j < i ==> (#[trigger] snake.body@[j]).coords != p,
        decreases snake.body@.len() - i,
    {
        if snake.body[i].coords == p {
            proof {
                assert(snake@[i + 1] == snake.body@[i as int]);
            }
            return true;
        }
        i = i + 1;
    }
    proof {
        let c = snake@;
        assert forall|j: int| 0 <= j < c.len() implies (#[trigger] c[j]).coords != p by {
            if 1 <= j < c.len() - 1 {
                assert(c[j] == snake.body@[j - 1]);
            }
        }
    }
    false
}

/// Every cell of the board that neither the snake nor any food occupies,
/// column by column, each once.
pub fn free_cells(snake: &Snake, foods: &Vec<Food>, b: BoardSize) -> (r: Vec<Coords>)
    ensures
        forall|p: Coords| r@.contains(p) <==> is_free(snake@, foods@, b, p),
        r@.no_duplicates(),
{
    let mut r: Vec<Coords> = Vec::new();
    let mut x: u32 = 0;
    while x < b.width
        invariant
            0 <= x <= b.width,
            r@.no_duplicates(),
            forall|p: Coords| r@.contains(p) <==> (p.x < x && is_free(snake@, foods@, b, p)),
        decreases b.width - x,
    {
        let mut y: u32 = 0;
        while y < b.height
            invariant
                0 <= x < b.width,
                0 <= y <= b.height,
                r@.no_duplicates(),
                forall|p: Coords|
                    r@.contains(p) <==> ((p.x < x || (p.x == x && p.y < y)) && is_free(
                        snake@,
                        foods@,
                        b,
                        p,
                    )),
            decreases b.height - y,
        {
            let p = Coords { x, y };
            let ghost before = r@;
            assert(!before.contains(p));
            let free = !snake_covers(snake, p) && !has_food_at(foods, p);
            if free {
                r.push(p);
                proof {
                    assert forall|i: int, j: int|
                        0 <= i < r@.len() && 0 <= j < r@.len() && i != j implies r@[i] != r@[j] by {
                        if j == before.len() {
                            assert(before[i] == r@[i]);
                        } else if i == before.len() {
                            assert(before[j] == r@[j]);
                        } else {
                            assert(before[i] == r@[i] && before[j] == r@[j]);
                        }
                    }
                    assert forall|q: Coords| r@.contains(q) <==> (before.contains(q) || q == p) by {
                        if r@.contains(q) {
                            let k = choose|k: int| 0 <= k < r@.len() && r@[k] == q;
                            if k < before.len() {
                                assert(before[k] == q);
                            }
                        }
                        if before.contains(q) {
                            let k = choose|k: int| 0 <= k < before.len() && before[k] == q;
                            assert(r@[k] == q);
                        }
                        if q == p {
                            assert(r@[before.len() as int] == q);
                        }
                    }
                }
            }
            proof {
                assert(is_free(snake@, foods@, b, p) == free);
                assert forall|q: Coords|
                    r@.contains(q) <==> ((q.x < x || (q.x == x && q.y < y + 1)) && is_free(
                        snake@,
                        foods@,
                        b,
                        q,
                    )) by {
                    if q == p {
                        assert(r@.contains(q) == free);
                    } else {
                        assert(r@.contains(q) == before.contains(q));
                    }
                }
            }
            y = y + 1;
        }
        x = x + 1;
    }
    r
}

/// Relies on rand's `IteratorRandom::choose` with the thread-local generator:
/// it returns `None` exactly when there is nothing to choose from, and
/// otherwise one of the items.
#[verifier::external_body]
fn choose_cell(cells: &Vec<Coords>) -> (r: Option<Coords>)
    ensures
        r is None <==> cells@.len() == 0,
        r matches Some(c) ==> cells@.contains(c),
{
    cells.iter().copied().choose(&mut rand::thread_rng())
}

/// Adds one food item on a free cell chosen at random, if food is due and a
/// free cell exists. Returns whether food was added; the spawn timer is then
/// to be restarted.
pub fn update_food(snake: &Snake, foods: &mut Vec<Food>, b: BoardSize, timer_finished: bool) -> (r: bool)
    ensures
        r <==> spawn_due(old(foods)@.len() as int, timer_finished) && exists|p: Coords| is_free(
            snake@,
            old(foods)@,
            b,
            p,
        ),
        !r ==> final(foods)@ == old(foods)@,
        r ==> exists|p: Coords|
            is_free(snake@, old(foods)@, b, p) && final(foods)@ == old(foods)@.push(Food { coords: p }),
{
    let n = foods.len();
    if (n < MAX_FOOD && timer_finished) || n == 0 {
        let cells = free_cells(snake, foods, b);
        match choose_cell(&cells) {
            Some(p) => {
                foods.push(Food { coords: p });
                proof {
                    assert(is_free(snake@, old(foods)@, b, p));
                }
                true
            },
            None => {
                proof {
                    assert forall|p: Coords| !is_free(snake@, old(foods)@, b, p) by {
                        if is_free(snake@, old(foods)@, b, p) {
                            assert(cells@.contains(p));
                        }
                    }
                }
                false
            },
        }
    } else {
        false
    }
}

} // verus!
