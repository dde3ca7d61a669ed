//! One tick of the game: turning, moving, eating, colliding, winning.
use vstd::prelude::*;
use crate::food::{food_at, has_food_at, is_free, spawn_due, update_food, Food};
use crate::grid::{parallel, stepped, wrap_step, BoardSize, Coords, Dir};
use crate::input::{lemma_pop_valid_never_parallel, pop_valid, InputQueue};
use crate::segment::SnakeSegment;
use crate::snake::{advanced, head_marked, on_board, Snake};

verus! {

/// Whether the game is running or has ended.
#[derive(Clone, Copy, Debug, PartialEq, Eq, Structural)]
pub enum GameState {
    InGame,
    GameWin,
    GameOver,
}

/// What the eat check found on a tick.
#[derive(Clone, Copy, Debug, PartialEq, Eq, Structural)]
pub struct EatOutcome {
    /// The head landed on food, which was removed; the spawn timer is to be
    /// restarted.
    pub ate: bool,
    /// Food lies on the next cell along the head's direction, wrapping
    /// across the board's edges.
    pub anticipating: bool,
}

/// Some food lies on the cell one step from `h` along `d`, wrapping across
/// the board's edges.
pub open spec fn food_ahead(foods: Seq<Food>, h: Coords, d: Dir, b: BoardSize) -> bool {
    food_at(foods, stepped(h, d, b))
}

/// `k` is the first index of food on `p`.
pub open spec fn first_food_at(foods: Seq<Food>, p: Coords, k: int) -> bool {
    0 <= k < foods.len() && foods[k].coords == p && forall|j: int| 0 <= j < k ==> (#[trigger] foods[j]).coords != p
}

/// A segment other than the head shares the head's cell.
pub open spec fn self_collides(c: Seq<SnakeSegment>) -> bool {
    exists|i: int| 1 <= i < c.len() && (#[trigger] c[i]).coords == c[0].coords
}

/// The starting snake: a head in the middle of the board facing East, and
/// its tail on the cell to the West.
pub open spec fn start_chain(b: BoardSize) -> Seq<SnakeSegment> {
    let y = (b.height / 2) as u32;
    let x = (b.width / 2) as u32;
    seq![
        SnakeSegment { coords: Coords { x, y }, direction: (Dir::E, Dir::E), is_bloated: false },
        SnakeSegment { coords: Coords { x: (x - 1) as u32, y }, direction: (Dir::E, Dir::E), is_bloated: false },
    ]
}

/// Builds the starting snake on a board at least two cells wide.
pub fn setup_snake(b: BoardSize) -> (r: Snake)
    requires
        b.wf(),
        b.width >= 2,
    ensures
        r@ == start_chain(b),
        r.wf(b),
{
    let center = Coords { x: b.width / 2, y: b.height / 2 };
    let (head, _) = SnakeSegment::make_head(Dir::E, center);
    let (tail, _) = SnakeSegment::make_tail(Dir::E, Coords { x: center.x - 1, y: center.y });
    let r = Snake { head, body: Vec::new(), tail };
    proof {
        assert(r@ =~= start_chain(b));
    }
    r
}

/// Takes the next valid turn from the queue (or keeps going straight) and
/// moves the snake one cell.
pub fn advance_snake(snake: &mut Snake, queue: &mut InputQueue, b: BoardSize)
    requires
        old(snake).wf(b),
    ensures
        final(queue)@ == pop_valid(old(queue)@, old(snake).head.direction.0).1,
        final(snake)@ == advanced(
            old(snake)@,
            match pop_valid(old(queue)@, old(snake).head.direction.0).0 {
                Some(d) => d,
                None => old(snake).head.direction.1,
            },
            b,
        ),
        final(snake).wf(b),
{
    let dir = match queue.pop_next_valid(snake.head.direction.0) {
        Some(d) => d,
        None => snake.head.direction.1,
    };
    snake.advance(dir, b);
}

/// The index of the first food on `p`, if any.
fn first_food_index(foods: &Vec<Food>, p: Coords) -> (r: Option<usize>)
    ensures
        r matches Some(k) ==> first_food_at(foods@, p, k as int),
        r is None ==> !food_at(foods@, p),
{
    let mut i: usize = 0;
    while i < foods.len()
        invariant
            0 <= i <= foods@.len(),
            forall|j: int| 0 <= j < i ==> (#[trigger] foods@[j]).coords != p,
        decreases foods@.len() - i,
    {
        if foods[i].coords == p {
            return Some(i);
        }
        i = i + 1;
    }
    None
}

/// Eats the first food under the head, if any, marking the head as bloated,
/// and then reports whether food that is left lies on the next cell along
/// the head's direction, wrapping across the board's edges.
pub fn handle_eat(snake: &mut Snake, foods: &mut Vec<Food>, b: BoardSize) -> (r: EatOutcome)
    requires
        old(snake).wf(b),
    ensures
        r.ate == food_at(old(foods)@, old(snake)@[0].coords),
        r.ate ==> final(snake)@ == head_marked(old(snake)@) && exists|k: int|
            first_food_at(old(foods)@, old(snake)@[0].coords, k) && final(foods)@ == old(foods)@.remove(k),
        !r.ate ==> *final(snake) == *old(snake) && final(foods)@ == old(foods)@,
        r.anticipating == food_ahead(final(foods)@, old(snake)@[0].coords, old(snake)@[0].direction.1, b),
        final(snake).body@.len() == old(snake).body@.len(),
{
    let h = snake.head;
    assert(b.contains(snake@[0].coords));
    let ate = match first_food_index(foods, h.coords) {
        Some(k) => {
            foods.remove(k);
            snake.mark_head_bloated();
            true
        },
        None => false,
    };
    let anticipating = has_food_at(foods, wrap_step(h.coords, h.direction.1, b));
    EatOutcome { ate, anticipating }
}

/// Whether a segment other than the head lies on the head's cell.
pub fn handle_collision(snake: &Snake) -> (r: bool)
    ensures
        r == self_collides(snake@),
{
    let p = snake.head.coords;
    if snake.tail.coords == p {
        proof {
            assert(snake@[snake@.len() - 1].coords == p);
        }
        return true;
    }
    let mut i: usize = 0;
    while i < snake.body.len()
        invariant
            0 <= i <= snake.body@.len(),
            p == snake.head.coords,
            forall|j: int| 0 <= j < i ==> (#[trigger] snake.body@[j]).coords != p,
        decreases snake.body@.len() - i,
    {
        if snake.body[i].coords == p {
            proof {
                assert(snake@[i + 1] == snake.body@[i as int]);
                assert(snake@[0] == snake.head);
            }
            return true;
        }
        i = i + 1;
    }
    proof {
        let c = snake@;
        assert forall|j: int| 1 <= j < c.len() implies (#[trigger] c[j]).coords != c[0].coords by {
            if j < c.len() - 1 {
                assert(c[j] == snake.body@[j - 1]);
            }
        }
    }
    false
}

/// Whether the snake fills the whole board.
pub fn check_win(snake: &Snake, b: BoardSize) -> (r: bool)
    ensures
        r == (snake@.len() == b.area()),
{
    proof {
        assert(b.width as int * b.height as int <= u64::MAX) by (nonlinear_arith)
            requires
                b.width <= u32::MAX,
                b.height <= u32::MAX,
        ;
    }
    let area = b.width as u64 * b.height as u64;
    area >= 2 && snake.body.len() as u64 == area - 2
}

/// The direction the snake takes on a tick: the next valid turn from the
/// queue, or straight on.
pub open spec fn chosen_dir(q: Seq<Dir>, head: SnakeSegment) -> Dir {
    match pop_valid(q, head.direction.0).0 {
        Some(d) => d,
        None => head.direction.1,
    }
}

/// A head that has moved straight along `d` points along `d` both ways.
pub open spec fn head_settled(head: SnakeSegment) -> bool {
    head.direction.0 == head.direction.1
}

/// A tick never sends a settled head straight back the way it came: it keeps
/// going the same way or turns onto the other axis.
pub proof fn lemma_never_reverses(q: Seq<Dir>, head: SnakeSegment)
    requires
        head_settled(head),
    ensures
        chosen_dir(q, head) == head.direction.0 || !parallel(chosen_dir(q, head), head.direction.0),
{
    lemma_pop_valid_never_parallel(q, head.direction.0);
}

/// The whole state of a session: board, snake, food, pending turns and
/// whether the game still runs.
pub struct Game {
    pub board: BoardSize,
    pub snake: Snake,
    pub foods: Vec<Food>,
    pub queue: InputQueue,
    pub state: GameState,
}

impl Game {
    /// The snake lies on the board and its head points one way.
    pub open spec fn wf(&self) -> bool {
        self.snake.wf(self.board) && head_settled(self.snake.head)
    }

    /// A new session on a board at least two cells wide: the starting
    /// snake, no food, no pending turns.
    pub fn new(board: BoardSize) -> (r: Game)
        requires
            board.wf(),
            board.width >= 2,
        ensures
            r.wf(),
            r.board == board,
            r.snake@ == start_chain(board),
            r.foods@.len() == 0,
            r.queue@.len() == 0,
            r.state == GameState::InGame,
    {
        Game {
            board,
            snake: setup_snake(board),
            foods: Vec::new(),
            queue: InputQueue::new(),
            state: GameState::InGame,
        }
    }

    /// One tick of a running game: turn and move, eat what lies under the
    /// head, and end the game if the head ran into the snake. A game that has
    /// ended does not change.
    pub fn tick(&mut self) -> (r: EatOutcome)
        requires
            old(self).wf(),
        ensures
            final(self).wf(),
            final(self).board == old(self).board,
            old(self).state != GameState::InGame ==> final(self).snake@ == old(self).snake@
                && final(self).foods@ == old(self).foods@ && final(self).queue@ == old(self).queue@
                && final(self).state == old(self).state && !r.ate,
            old(self).state == GameState::InGame ==> {
                let moved = advanced(old(self).snake@, chosen_dir(old(self).queue@, old(self).snake.head), old(self).board);
                &&& final(self).queue@ == pop_valid(old(self).queue@, old(self).snake.head.direction.0).1
                &&& r.ate == food_at(old(self).foods@, moved[0].coords)
                &&& r.anticipating == food_ahead(
                    final(self).foods@,
                    moved[0].coords,
                    moved[0].direction.1,
                    old(self).board,
                )
                &&& final(self).snake@ == if r.ate { head_marked(moved) } else { moved }
                &&& r.ate ==> exists|k: int| first_food_at(old(self).foods@, moved[0].coords, k)
                    && final(self).foods@ == old(self).foods@.remove(k)
                &&& !r.ate ==> final(self).foods@ == old(self).foods@
                &&& final(self).state == if self_collides(final(self).snake@) {
                    GameState::GameOver
                } else {
                    GameState::InGame
                }
            },
    {
        if self.state != GameState::InGame {
            return EatOutcome { ate: false, anticipating: false };
        }
        advance_snake(&mut self.snake, &mut self.queue, self.board);
        let ghost moved = self.snake@;
        let r = handle_eat(&mut self.snake, &mut self.foods, self.board);
        proof {
            if r.ate {
                assert forall|i: int| 0 <= i < self.snake@.len() implies self.board.contains(
                    #[trigger] self.snake@[i].coords,
                ) by {
                    assert(self.snake@[i].coords == moved[i].coords);
                }
            }
            assert(head_marked(moved)[0].coords == moved[0].coords);
        }
        if handle_collision(&self.snake) {
            self.state = GameState::GameOver;
        }
        r
    }

    /// Adds food on a random free cell when it is due in a running game.
    /// Returns whether food was added; the spawn timer is then to be
    /// restarted.
    pub fn update_food(&mut self, timer_finished: bool) -> (r: bool)
        requires
            old(self).wf(),
        ensures
            final(self).wf(),
            final(self).board == old(self).board,
            final(self).snake@ == old(self).snake@,
            final(self).queue@ == old(self).queue@,
            final(self).state == old(self).state,
            r <==> old(self).state == GameState::InGame && spawn_due(old(self).foods@.len() as int, timer_finished)
                && exists|p: Coords| is_free(old(self).snake@, old(self).foods@, old(self).board, p),
            !r ==> final(self).foods@ == old(self).foods@,
            r ==> exists|p: Coords|
                is_free(old(self).snake@, old(self).foods@, old(self).board, p) && final(self).foods@
                    == old(self).foods@.push(Food { coords: p }),
    {
        if self.state != GameState::InGame {
            return false;
        }
        update_food(&self.snake, &mut self.foods, self.board, timer_finished)
    }

    /// Ends a running game as won once the snake fills the board.
    pub fn check_win(&mut self) -> (r: bool)
        ensures
            final(self).board == old(self).board,
            final(self).snake@ == old(self).snake@,
            final(self).foods@ == old(self).foods@,
            final(self).queue@ == old(self).queue@,
            r == (old(self).state == GameState::InGame && old(self).snake@.len() == old(self).board.area()),
            final(self).state == if r { GameState::GameWin } else { old(self).state },
    {
        if self.state == GameState::InGame && check_win(&self.snake, self.board) {
            self.state = GameState::GameWin;
            true
        } else {
            false
        }
    }
}

} // verus!
