use std::collections::VecDeque;

use snake_engine::food::{free_cells, has_food_at, snake_covers, update_food, Food, MAX_FOOD};
use snake_engine::grid::{wrap_step, BoardSize, Coords, Dir};
use snake_engine::input::InputQueue;
use snake_engine::segment::{SegmentType, SnakeSegment};
use snake_engine::simulation::{
    advance_snake, check_win, handle_collision, handle_eat, setup_snake, Game, GameState,
};
use snake_engine::snake::Snake;

fn board15() -> BoardSize {
    BoardSize { width: 15, height: 15 }
}

fn c(x: u32, y: u32) -> Coords {
    Coords { x, y }
}

fn seg(x: u32, y: u32, from: Dir, to: Dir) -> SnakeSegment {
    SnakeSegment::make_body(from, to, c(x, y)).0
}

fn positions(s: &Snake) -> Vec<Coords> {
    let mut v = vec![s.head.coords];
    for b in &s.body {
        v.push(b.coords);
    }
    v.push(s.tail.coords);
    v
}

/// A straight snake of `n` segments lying West of `(hx, y)`, facing East.
fn straight(hx: u32, y: u32, n: u32) -> Snake {
    let head = SnakeSegment::make_head(Dir::E, c(hx, y)).0;
    let mut body = Vec::new();
    for i in 1..n - 1 {
        body.push(seg(hx - i, y, Dir::E, Dir::E));
    }
    let tail = SnakeSegment::make_tail(Dir::E, c(hx - (n - 1), y)).0;
    Snake { head, body, tail }
}

#[test]
fn parallel_pairs() {
    assert!(Dir::N.is_parallel(Dir::S));
    assert!(Dir::S.is_parallel(Dir::S));
    assert!(Dir::E.is_parallel(Dir::W));
    assert!(!Dir::E.is_parallel(Dir::N));
    assert!(!Dir::N.is_parallel(Dir::W));
}

#[test]
fn segment_constructors() {
    let (h, t) = SnakeSegment::make_head(Dir::N, c(1, 2));
    assert_eq!(t, SegmentType::Head);
    assert_eq!(h.direction, (Dir::N, Dir::N));
    assert!(!h.is_bloated);
    let (tl, tt) = SnakeSegment::make_tail(Dir::W, c(3, 4));
    assert_eq!(tt, SegmentType::Tail);
    assert_eq!(tl.coords, c(3, 4));
    let (b, bt) = SnakeSegment::make_body(Dir::E, Dir::S, c(5, 6));
    assert_eq!(bt, SegmentType::Body);
    assert_eq!(b.direction, (Dir::E, Dir::S));
}

#[test]
fn wrap_east_edge() {
    assert_eq!(wrap_step(c(14, 7), Dir::E, board15()), c(0, 7));
}

#[test]
fn wrap_west_edge() {
    assert_eq!(wrap_step(c(0, 3), Dir::W, board15()), c(14, 3));
}

#[test]
fn wrap_north_edge() {
    assert_eq!(wrap_step(c(5, 14), Dir::N, board15()), c(5, 0));
}

#[test]
fn wrap_south_edge() {
    assert_eq!(wrap_step(c(5, 0), Dir::S, board15()), c(5, 14));
}

#[test]
fn step_inside_board() {
    assert_eq!(wrap_step(c(5, 5), Dir::N, board15()), c(5, 6));
    assert_eq!(wrap_step(c(5, 5), Dir::E, board15()), c(6, 5));
}

#[test]
fn wrap_through_advance() {
    let mut s = straight(14, 7, 2);
    s.advance(Dir::E, board15());
    assert_eq!(s.head.coords, c(0, 7));
    assert_eq!(s.tail.coords, c(14, 7));
}

#[test]
fn queue_accepts_perpendicular() {
    let mut q = InputQueue::new();
    q.push(Dir::S);
    assert_eq!(q.pop_next_valid(Dir::E), Some(Dir::S));
    assert!(q.0.is_empty());
}

#[test]
fn queue_rejects_reversal() {
    let mut q = InputQueue::new();
    q.push(Dir::W);
    assert_eq!(q.pop_next_valid(Dir::E), None);
    assert!(q.0.is_empty());
}

#[test]
fn queue_skips_parallel_then_keeps_rest() {
    let mut q = InputQueue(VecDeque::from(vec![Dir::W, Dir::E, Dir::N, Dir::S]));
    assert_eq!(q.pop_next_valid(Dir::E), Some(Dir::N));
    assert_eq!(q.0, VecDeque::from(vec![Dir::S]));
}

#[test]
fn reversal_falls_back_to_straight() {
    let mut s = setup_snake(board15());
    let mut q = InputQueue::new();
    q.push(Dir::W);
    advance_snake(&mut s, &mut q, board15());
    assert_eq!(s.head.coords, c(8, 7));
    assert_eq!(s.head.direction, (Dir::E, Dir::E));
}

#[test]
fn turn_from_queue() {
    let mut s = setup_snake(board15());
    let mut q = InputQueue::new();
    q.push(Dir::S);
    advance_snake(&mut s, &mut q, board15());
    assert_eq!(s.head.coords, c(7, 6));
    assert_eq!(s.head.direction, (Dir::S, Dir::S));
    assert_eq!(s.tail.coords, c(7, 7));
    assert_eq!(s.tail.direction, (Dir::E, Dir::S));
}

#[test]
fn setup_in_middle() {
    let s = setup_snake(board15());
    assert_eq!(s.head.coords, c(7, 7));
    assert_eq!(s.tail.coords, c(6, 7));
    assert_eq!(s.len(), 2);
    assert_eq!(s.head_position(), c(7, 7));
}

#[test]
fn ticks_shift_every_segment() {
    let b = board15();
    let mut s = straight(6, 3, 5);
    let dirs = [Dir::E, Dir::N, Dir::N, Dir::W, Dir::N, Dir::E];
    for d in dirs {
        let before = positions(&s);
        s.advance(d, b);
        let after = positions(&s);
        assert_eq!(after.len(), before.len());
        assert_eq!(after[0], wrap_step(before[0], d, b));
        for i in 1..after.len() {
            assert_eq!(after[i], before[i - 1]);
        }
    }
    assert_eq!(s.len(), 5);
}

#[test]
fn growth_reaches_tail_then_grows_once() {
    let b = board15();
    let mut s = straight(6, 3, 4);
    s.mark_head_bloated();
    for _ in 0..3 {
        s.advance(Dir::E, b);
        assert_eq!(s.len(), 4);
    }
    assert!(s.tail.is_bloated);
    let tail_cell = s.tail.coords;
    s.advance(Dir::E, b);
    assert_eq!(s.len(), 5);
    assert!(!s.tail.is_bloated);
    assert_eq!(s.tail.coords, tail_cell);
    assert_eq!(s.body[s.body.len() - 1].coords, c(7, 3));
    for _ in 0..5 {
        s.advance(Dir::E, b);
        assert_eq!(s.len(), 5);
    }
}

#[test]
fn collision_with_body() {
    // head moved onto the cell of the last body segment
    let head = SnakeSegment::make_head(Dir::S, c(5, 5)).0;
    let body = vec![
        seg(5, 6, Dir::W, Dir::S),
        seg(6, 6, Dir::S, Dir::W),
        seg(6, 5, Dir::E, Dir::S),
        seg(5, 5, Dir::E, Dir::E),
    ];
    let tail = SnakeSegment::make_tail(Dir::E, c(4, 5)).0;
    let s = Snake { head, body, tail };
    assert!(handle_collision(&s));
}

#[test]
fn collision_with_tail() {
    let head = SnakeSegment::make_head(Dir::E, c(5, 5)).0;
    let tail = SnakeSegment::make_tail(Dir::E, c(5, 5)).0;
    let s = Snake { head, body: vec![], tail };
    assert!(handle_collision(&s));
}

#[test]
fn no_collision_on_straight_snake() {
    let s = straight(8, 2, 6);
    assert!(!handle_collision(&s));
}

#[test]
fn eat_removes_food_and_marks_head() {
    let mut s = setup_snake(board15());
    let mut foods = vec![Food { coords: c(1, 1) }, Food { coords: c(7, 7) }];
    let out = handle_eat(&mut s, &mut foods, board15());
    assert!(out.ate);
    assert!(!out.anticipating);
    assert!(s.head.is_bloated);
    assert_eq!(foods, vec![Food { coords: c(1, 1) }]);
}

#[test]
fn anticipation_one_cell_ahead() {
    let mut s = setup_snake(board15());
    let mut foods = vec![Food { coords: c(8, 7) }];
    let out = handle_eat(&mut s, &mut foods, board15());
    assert!(!out.ate);
    assert!(out.anticipating);
    assert!(!s.head.is_bloated);
    assert_eq!(foods.len(), 1);
}

#[test]
fn anticipation_wraps_across_edge() {
    let mut s = straight(14, 4, 2);
    let mut foods = vec![Food { coords: c(0, 4) }];
    let out = handle_eat(&mut s, &mut foods, board15());
    assert!(!out.ate);
    assert!(out.anticipating);
}

#[test]
fn eaten_food_is_not_anticipated() {
    // on a one-column board the cell ahead along East is the head's own cell
    let b = BoardSize { width: 1, height: 3 };
    let head = SnakeSegment::make_head(Dir::E, c(0, 1)).0;
    let tail = SnakeSegment::make_tail(Dir::E, c(0, 0)).0;
    let mut s = Snake { head, body: vec![], tail };
    let mut foods = vec![Food { coords: c(0, 1) }];
    let out = handle_eat(&mut s, &mut foods, b);
    assert!(out.ate);
    assert!(foods.is_empty());
    assert!(!out.anticipating);
}

#[test]
fn second_food_on_same_cell_is_anticipated() {
    let b = BoardSize { width: 1, height: 3 };
    let head = SnakeSegment::make_head(Dir::E, c(0, 1)).0;
    let tail = SnakeSegment::make_tail(Dir::E, c(0, 0)).0;
    let mut s = Snake { head, body: vec![], tail };
    let mut foods = vec![Food { coords: c(0, 1) }, Food { coords: c(0, 1) }];
    let out = handle_eat(&mut s, &mut foods, b);
    assert!(out.ate);
    assert_eq!(foods.len(), 1);
    assert!(out.anticipating);
}

#[test]
fn anticipation_follows_head_direction() {
    let mut s = straight(14, 4, 2);
    let mut foods = vec![Food { coords: c(14, 5) }];
    let out = handle_eat(&mut s, &mut foods, board15());
    assert!(!out.anticipating);
    s.head.direction = (Dir::N, Dir::N);
    let out = handle_eat(&mut s, &mut foods, board15());
    assert!(out.anticipating);
}

#[test]
fn tick_reports_anticipation_across_edge() {
    let mut g = Game::new(BoardSize { width: 4, height: 3 });
    g.foods.push(Food { coords: c(0, 1) });
    let out = g.tick();
    assert_eq!(g.snake.head.coords, c(3, 1));
    assert!(!out.ate);
    assert!(out.anticipating);
}

#[test]
fn free_cells_listed_once() {
    let b = BoardSize { width: 4, height: 4 };
    let s = straight(2, 2, 3);
    let cells = free_cells(&s, &vec![], b);
    assert_eq!(cells.len(), 13);
    for i in 0..cells.len() {
        for j in i + 1..cells.len() {
            assert_ne!(cells[i], cells[j]);
        }
    }
}

#[test]
fn occupancy_checks() {
    let s = setup_snake(board15());
    assert!(snake_covers(&s, c(6, 7)));
    assert!(!snake_covers(&s, c(8, 7)));
    let foods = vec![Food { coords: c(2, 3) }];
    assert!(has_food_at(&foods, c(2, 3)));
    assert!(!has_food_at(&foods, c(3, 2)));
}

#[test]
fn free_cells_exclude_snake_and_food() {
    let b = BoardSize { width: 3, height: 2 };
    let s = straight(1, 0, 2);
    let foods = vec![Food { coords: c(2, 1) }];
    let cells = free_cells(&s, &foods, b);
    assert_eq!(cells, vec![c(0, 1), c(1, 1), c(2, 0)]);
}

#[test]
fn spawn_never_on_occupied_cell() {
    let b = BoardSize { width: 4, height: 3 };
    for _ in 0..50 {
        let s = straight(2, 1, 3);
        let mut foods = vec![Food { coords: c(3, 2) }];
        assert!(update_food(&s, &mut foods, b, true));
        assert_eq!(foods.len(), 2);
        let p = foods[1].coords;
        assert!(p.x < 4 && p.y < 3);
        assert!(!positions(&s).contains(&p));
        assert_ne!(p, c(3, 2));
    }
}

#[test]
fn spawn_picks_the_only_free_cell() {
    let b = BoardSize { width: 2, height: 2 };
    let s = straight(1, 0, 2);
    let mut foods = vec![Food { coords: c(0, 1) }];
    assert!(update_food(&s, &mut foods, b, true));
    assert_eq!(foods[1].coords, c(1, 1));
}

#[test]
fn spawn_on_full_board_is_no_op() {
    let b = BoardSize { width: 2, height: 1 };
    let s = straight(1, 0, 2);
    let mut foods = vec![];
    assert!(!update_food(&s, &mut foods, b, true));
    assert!(foods.is_empty());
}

#[test]
fn spawn_waits_for_timer_unless_empty() {
    let b = board15();
    let s = setup_snake(b);
    let mut foods = vec![Food { coords: c(0, 0) }];
    assert!(!update_food(&s, &mut foods, b, false));
    assert_eq!(foods.len(), 1);
    let mut none = vec![];
    assert!(update_food(&s, &mut none, b, false));
    assert_eq!(none.len(), 1);
}

#[test]
fn spawn_respects_capacity() {
    let b = board15();
    let s = setup_snake(b);
    let mut foods = vec![];
    for i in 0..MAX_FOOD as u32 {
        foods.push(Food { coords: c(i, 0) });
    }
    assert!(!update_food(&s, &mut foods, b, true));
    assert_eq!(foods.len(), MAX_FOOD);
}

#[test]
fn win_when_board_full() {
    let b = BoardSize { width: 2, height: 1 };
    let s = straight(1, 0, 2);
    assert!(check_win(&s, b));
    assert!(!check_win(&s, board15()));
}

#[test]
fn end_to_end_tick_without_food() {
    let mut g = Game::new(board15());
    assert_eq!(g.snake.head.coords, c(7, 7));
    assert_eq!(g.snake.tail.coords, c(6, 7));
    let out = g.tick();
    assert!(!out.ate);
    assert_eq!(g.snake.head.coords, c(8, 7));
    assert_eq!(g.snake.tail.coords, c(7, 7));
    assert_eq!(g.snake.len(), 2);
    assert_eq!(g.state, GameState::InGame);
}

#[test]
fn end_to_end_eat_then_grow() {
    let mut g = Game::new(board15());
    g.foods.push(Food { coords: c(8, 7) });
    let out = g.tick();
    assert!(out.ate);
    assert!(g.foods.is_empty());
    assert_eq!(g.snake.head.coords, c(8, 7));
    assert_eq!(g.snake.len(), 2);
    g.tick();
    assert_eq!(g.snake.len(), 2);
    assert!(g.snake.tail.is_bloated);
    g.tick();
    assert_eq!(g.snake.len(), 3);
    assert_eq!(g.snake.head.coords, c(10, 7));
    assert_eq!(g.snake.tail.coords, c(8, 7));
    assert_eq!(g.state, GameState::InGame);
}

#[test]
fn game_over_freezes() {
    let mut g = Game::new(board15());
    g.snake.body = vec![seg(8, 7, Dir::E, Dir::E)];
    g.snake.tail.coords = c(9, 7);
    g.tick();
    assert_eq!(g.state, GameState::GameOver);
    let head = g.snake.head.coords;
    g.queue.push(Dir::N);
    g.tick();
    assert_eq!(g.snake.head.coords, head);
    assert_eq!(g.queue.0.len(), 1);
    assert!(!g.update_food(true));
    assert!(g.foods.is_empty());
}

#[test]
fn game_win_on_full_board() {
    let mut g = Game::new(BoardSize { width: 2, height: 1 });
    assert!(g.check_win());
    assert_eq!(g.state, GameState::GameWin);
}

#[test]
fn game_spawns_food() {
    let mut g = Game::new(board15());
    assert!(g.update_food(false));
    assert_eq!(g.foods.len(), 1);
    assert!(!positions(&g.snake).contains(&g.foods[0].coords));
}
