use snake::frame::BODY_GLYPH;
use snake::game::{requested_dir, Key, TickResult};
use snake::model::{Collision, Dir, Point, StepResult, Tile};
use snake::world::{init_world, reverse, turn, Placement, Snake, World, FOOD_TRIES};

fn pt(x: usize, y: usize) -> Point {
    Point { x, y }
}

fn at(w: &World, x: usize, y: usize) -> Tile {
    w.screen[x + y * w.width]
}

fn food_cells(w: &World) -> Vec<Point> {
    let mut out = Vec::new();
    for y in 0..w.height {
        for x in 0..w.width {
            if at(w, x, y) == Tile::Food {
                out.push(pt(x, y));
            }
        }
    }
    out
}

fn clear_food(w: &mut World) {
    for t in w.screen.iter_mut() {
        if *t == Tile::Food {
            *t = Tile::Floor;
        }
    }
}

/// A fresh world whose only food sits at `food`.
fn world_with_food(width: usize, height: usize, len: usize, food: Point) -> World {
    let mut w = init_world(width, height, len);
    clear_food(&mut w);
    assert_eq!(w.place_food_from(&vec![food]), Placement::Placed(food));
    w
}

/// A bare grid with the given snake and no food.
fn crafted(width: usize, height: usize, segments: Vec<Point>, dir: Dir) -> World {
    let mut w = init_world(width, height, 1);
    clear_food(&mut w);
    w.snake = Snake { segments, dir };
    w
}

#[test]
fn init_centres_snake_heading_right() {
    let w = init_world(10, 10, 3);
    assert_eq!(w.snake.segments, vec![pt(4, 5), pt(5, 5), pt(6, 5)]);
    assert_eq!(w.snake.dir, Dir::Right);
    assert_eq!(w.score, 0);
    assert_eq!(w.screen.len(), 100);
    for y in 0..10 {
        for x in 0..10 {
            let border = x == 0 || x == 9 || y == 0 || y == 9;
            assert_eq!(at(&w, x, y) == Tile::Wall, border);
        }
    }
    let food = food_cells(&w);
    assert_eq!(food.len(), 1);
    assert!(!w.snake.segments.contains(&food[0]));
}

#[test]
fn init_even_length_and_odd_width() {
    let w = init_world(11, 7, 4);
    assert_eq!(w.snake.segments, vec![pt(3, 3), pt(4, 3), pt(5, 3), pt(6, 3)]);
    assert_eq!(food_cells(&w).len(), 1);
}

#[test]
fn scenario_a_moves_right_until_the_wall() {
    // On a 10-wide grid the head starts at x = 6, so two moves fit before the wall.
    let mut w = world_with_food(10, 10, 3, pt(1, 1));
    for k in 1..=2 {
        assert_eq!(w.step(None), StepResult::Continue);
        assert_eq!(w.snake.segments.len(), 3);
        assert_eq!(*w.snake.segments.last().unwrap(), pt(6 + k, 5));
        assert_eq!(w.score, 0);
    }
    assert_eq!(w.step(None), StepResult::Terminated(Collision::Wall));
}

#[test]
fn scenario_a_five_ticks_on_a_wider_grid() {
    let mut w = world_with_food(20, 10, 3, pt(1, 1));
    let start = w.snake.segments.clone();
    for _ in 0..5 {
        assert_eq!(w.step(None), StepResult::Continue);
    }
    let moved: Vec<Point> = start.iter().map(|p| pt(p.x + 5, p.y)).collect();
    assert_eq!(w.snake.segments, moved);
    assert_eq!(w.score, 0);
    assert_eq!(food_cells(&w), vec![pt(1, 1)]);
}

#[test]
fn scenario_b_eating_food() {
    let mut w = world_with_food(10, 10, 3, pt(7, 5));
    assert_eq!(w.step(None), StepResult::Grew);
    assert_eq!(w.score, 1);
    assert_eq!(w.snake.segments, vec![pt(4, 5), pt(5, 5), pt(6, 5), pt(7, 5)]);
    assert_eq!(at(&w, 7, 5), Tile::Floor);
    assert!(food_cells(&w).is_empty());
    match w.place_food() {
        Placement::Placed(p) => {
            assert_eq!(food_cells(&w), vec![p]);
            assert!(p != pt(7, 5));
            assert!(!w.snake.segments.contains(&p));
        }
        Placement::BoardFull => panic!("the board has room"),
    }
}

#[test]
fn scenario_b_through_tick() {
    let mut w = world_with_food(10, 10, 3, pt(7, 5));
    assert_eq!(w.tick(None), TickResult::Running);
    assert_eq!(w.score, 1);
    assert_eq!(w.snake.segments.len(), 4);
    let food = food_cells(&w);
    assert_eq!(food.len(), 1);
    assert!(food[0] != pt(7, 5));
    assert!(!w.snake.segments.contains(&food[0]));
}

#[test]
fn scenario_c_wall_ahead() {
    let mut w = crafted(10, 10, vec![pt(6, 4), pt(7, 4), pt(8, 4)], Dir::Right);
    w.place_food_from(&vec![pt(2, 2)]);
    let segments = w.snake.segments.clone();
    let screen = w.screen.clone();
    assert_eq!(w.step(None), StepResult::Terminated(Collision::Wall));
    assert_eq!(w.snake.segments, segments);
    assert_eq!(w.screen, screen);
    assert_eq!(w.score, 0);
    assert_eq!(w.snake.dir, Dir::Right);
}

#[test]
fn scenario_c_through_tick() {
    let mut w = crafted(10, 10, vec![pt(7, 4), pt(8, 4)], Dir::Right);
    assert_eq!(w.tick(Some(Key::Other)), TickResult::Over(Collision::Wall));
}

#[test]
fn scenario_d_reverse_is_ignored() {
    let mut w = world_with_food(10, 10, 3, pt(1, 1));
    assert_eq!(w.step(Some(Dir::Left)), StepResult::Continue);
    assert_eq!(w.snake.dir, Dir::Right);
    assert_eq!(*w.snake.segments.last().unwrap(), pt(7, 5));
}

#[test]
fn no_reversal_in_any_direction() {
    let cases = [
        (vec![pt(4, 6), pt(4, 5), pt(4, 4)], Dir::Up),
        (vec![pt(4, 4), pt(4, 5), pt(4, 6)], Dir::Down),
        (vec![pt(6, 4), pt(5, 4), pt(4, 4)], Dir::Left),
        (vec![pt(4, 4), pt(5, 4), pt(6, 4)], Dir::Right),
    ];
    for (segments, dir) in cases {
        assert_eq!(turn(dir, Some(reverse(dir))), dir);
        let mut w = crafted(10, 10, segments, dir);
        assert_eq!(w.step(Some(reverse(dir))), StepResult::Continue);
        assert_eq!(w.snake.dir, dir);
    }
}

#[test]
fn turning_is_accepted() {
    assert_eq!(turn(Dir::Right, Some(Dir::Up)), Dir::Up);
    assert_eq!(turn(Dir::Up, None), Dir::Up);
    let mut w = world_with_food(10, 10, 3, pt(1, 1));
    assert_eq!(w.step(Some(Dir::Down)), StepResult::Continue);
    assert_eq!(w.snake.dir, Dir::Down);
    assert_eq!(*w.snake.segments.last().unwrap(), pt(6, 6));
}

fn square_snake() -> Vec<Point> {
    // Tail at (2, 2), head at (2, 3), heading up into the tail's cell.
    vec![pt(2, 2), pt(3, 2), pt(3, 3), pt(2, 3)]
}

#[test]
fn moving_into_the_tail_survives_without_growth() {
    let mut w = crafted(8, 8, square_snake(), Dir::Up);
    assert_eq!(w.step(None), StepResult::Continue);
    assert_eq!(w.snake.segments, vec![pt(3, 2), pt(3, 3), pt(2, 3), pt(2, 2)]);
}

#[test]
fn moving_into_the_tail_dies_when_growing() {
    let mut w = crafted(8, 8, square_snake(), Dir::Up);
    let i = 2 + 2 * w.width;
    w.screen[i] = Tile::Food;
    assert_eq!(w.step(None), StepResult::Terminated(Collision::Itself));
    assert_eq!(w.snake.segments, square_snake());
    assert_eq!(w.score, 0);
}

#[test]
fn moving_into_the_body_dies() {
    let mut w = crafted(8, 8, vec![pt(2, 2), pt(3, 2), pt(4, 2), pt(4, 3), pt(3, 3)], Dir::Up);
    assert_eq!(w.step(None), StepResult::Terminated(Collision::Itself));
}

#[test]
fn growth_fills_the_board() {
    let segments = vec![pt(1, 1), pt(2, 1), pt(3, 1), pt(3, 2), pt(2, 2), pt(1, 2), pt(1, 3), pt(2, 3)];
    let mut w = crafted(5, 5, segments, Dir::Right);
    w.score = 3;
    assert_eq!(w.place_food_from(&vec![pt(1, 1), pt(3, 3)]), Placement::Placed(pt(3, 3)));
    assert_eq!(w.tick(None), TickResult::BoardFull);
    assert_eq!(w.score, 4);
    assert_eq!(w.snake.segments.len(), 9);
    assert!(food_cells(&w).is_empty());
    assert_eq!(w.place_food(), Placement::BoardFull);
    assert_eq!(w.place_food_from(&vec![pt(2, 2)]), Placement::BoardFull);
}

#[test]
fn placement_takes_the_first_free_candidate() {
    let mut w = crafted(10, 10, vec![pt(4, 5), pt(5, 5), pt(6, 5)], Dir::Right);
    let candidates = vec![pt(0, 0), pt(5, 5), pt(9, 3), pt(20, 20), pt(3, 3), pt(2, 2)];
    assert_eq!(w.place_food_from(&candidates), Placement::Placed(pt(3, 3)));
    assert_eq!(food_cells(&w), vec![pt(3, 3)]);
}

#[test]
fn placement_scans_when_no_candidate_is_free() {
    let mut w = crafted(10, 10, vec![pt(1, 1), pt(2, 1)], Dir::Right);
    assert_eq!(w.place_food_from(&vec![pt(1, 1), pt(0, 4)]), Placement::Placed(pt(3, 1)));
    let mut w = crafted(10, 10, vec![pt(1, 1), pt(2, 1)], Dir::Right);
    assert_eq!(w.place_food_from(&Vec::new()), Placement::Placed(pt(3, 1)));
}

#[test]
fn random_placement_lands_on_a_free_cell() {
    assert!(FOOD_TRIES > 0);
    let mut w = init_world(12, 9, 5);
    for _ in 0..200 {
        clear_food(&mut w);
        match w.place_food() {
            Placement::Placed(p) => {
                assert!(1 <= p.x && p.x <= 10 && 1 <= p.y && p.y <= 7);
                assert!(!w.snake.segments.contains(&p));
                assert_eq!(food_cells(&w), vec![p]);
            }
            Placement::BoardFull => panic!("the board has room"),
        }
    }
}

#[test]
fn score_rises_once_per_food() {
    let mut w = world_with_food(20, 10, 3, pt(12, 5));
    let mut last = w.score;
    let mut grew = 0;
    for _ in 0..6 {
        let before = w.snake.segments.len();
        let r = w.step(None);
        assert!(w.score >= last);
        if r == StepResult::Grew {
            grew += 1;
            assert_eq!(w.snake.segments.len(), before + 1);
            w.place_food_from(&vec![pt(1, 8)]);
        } else {
            assert_eq!(w.snake.segments.len(), before);
        }
        last = w.score;
    }
    assert_eq!(grew, 1);
    assert_eq!(w.score, 1);
}

#[test]
fn keys_map_to_headings() {
    assert_eq!(requested_dir(Some(Key::Up)), Some(Dir::Up));
    assert_eq!(requested_dir(Some(Key::Down)), Some(Dir::Down));
    assert_eq!(requested_dir(Some(Key::Left)), Some(Dir::Left));
    assert_eq!(requested_dir(Some(Key::Right)), Some(Dir::Right));
    assert_eq!(requested_dir(Some(Key::Quit)), None);
    assert_eq!(requested_dir(Some(Key::Other)), None);
    assert_eq!(requested_dir(None), None);
}

#[test]
fn quit_leaves_the_world_alone() {
    let mut w = world_with_food(10, 10, 3, pt(1, 1));
    assert_eq!(w.tick(Some(Key::Quit)), TickResult::Quit);
    assert_eq!(w.snake.segments, vec![pt(4, 5), pt(5, 5), pt(6, 5)]);
}

#[test]
fn tick_turns_and_moves() {
    let mut w = world_with_food(10, 10, 3, pt(1, 1));
    assert_eq!(w.tick(Some(Key::Up)), TickResult::Running);
    assert_eq!(w.snake.dir, Dir::Up);
    assert_eq!(*w.snake.segments.last().unwrap(), pt(6, 4));
    assert_eq!(food_cells(&w), vec![pt(1, 1)]);
}

#[test]
fn frame_overlays_snake_and_food() {
    let mut w = world_with_food(10, 10, 3, pt(1, 1));
    let f = w.frame();
    assert_eq!(f.len(), 100);
    assert_eq!(f[0], '#');
    assert_eq!(f[9 + 9 * 10], '#');
    assert_eq!(f[1 + 10], '@');
    assert_eq!(f[2 + 2 * 10], ' ');
    assert_eq!(f[4 + 5 * 10], BODY_GLYPH);
    assert_eq!(f[5 + 5 * 10], '*');
    assert_eq!(f[6 + 5 * 10], '>');
    w.step(Some(Dir::Up));
    let f = w.frame();
    assert_eq!(f[6 + 4 * 10], '^');
    assert_eq!(f[6 + 5 * 10], '*');
    assert_eq!(f[4 + 5 * 10], ' ');
    w.step(Some(Dir::Left));
    assert_eq!(w.frame()[5 + 4 * 10], '<');
    w.step(Some(Dir::Down));
    assert_eq!(w.frame()[5 + 5 * 10], 'v');
}
