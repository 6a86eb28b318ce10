use snake::control::Reaction;
use snake::engine::{Ending, Game, Outcome, Paint, Role};
use snake::events::{Event, KeyEventsQueue, KeyPress};
use snake::geometry::Direction;
use std::sync::mpsc;

const ALL: [Direction; 4] = [Direction::Right, Direction::Up, Direction::Left, Direction::Down];

fn free_count(game: &Game) -> usize {
    let (w, h) = game.size();
    let mut n = 0;
    for x in 0..w {
        for y in 0..h {
            if game.is_free((x, y)) {
                n += 1;
            }
        }
    }
    n
}

/// Steps once with the food parked on `park`, so the step cannot grow.
fn plain_step(game: &mut Game, park: (usize, usize)) -> Outcome {
    assert!(game.place_food(park));
    game.make_step()
}

#[test]
fn opposite_directions() {
    assert_eq!(Direction::Right.opposite(), Direction::Left);
    assert_eq!(Direction::Left.opposite(), Direction::Right);
    assert_eq!(Direction::Up.opposite(), Direction::Down);
    assert_eq!(Direction::Down.opposite(), Direction::Up);
}

#[test]
fn move_point_inside_the_grid() {
    let size = (5, 4);
    assert_eq!(Direction::Right.move_point(size, (2, 1)), (3, 1));
    assert_eq!(Direction::Left.move_point(size, (2, 1)), (1, 1));
    assert_eq!(Direction::Up.move_point(size, (2, 1)), (2, 0));
    assert_eq!(Direction::Down.move_point(size, (2, 1)), (2, 2));
}

#[test]
fn move_point_wraps_at_edges() {
    let size = (5, 4);
    assert_eq!(Direction::Right.move_point(size, (4, 2)), (0, 2));
    assert_eq!(Direction::Left.move_point(size, (0, 2)), (4, 2));
    assert_eq!(Direction::Up.move_point(size, (3, 0)), (3, 3));
    assert_eq!(Direction::Down.move_point(size, (3, 3)), (3, 0));
}

#[test]
fn full_lap_returns_to_start() {
    let size = (7, 3);
    for &dir in ALL.iter() {
        let lap = match dir {
            Direction::Right | Direction::Left => size.0,
            Direction::Up | Direction::Down => size.1,
        };
        for x in 0..size.0 {
            for y in 0..size.1 {
                let mut cell = (x, y);
                for step in 0..lap {
                    cell = dir.move_point(size, cell);
                    if step + 1 < lap {
                        assert_ne!(cell, (x, y));
                    }
                }
                assert_eq!(cell, (x, y));
            }
        }
    }
}

#[test]
fn new_game_layout() {
    let game = Game::new((20, 10));
    assert_eq!(game.snake(), vec![(10, 5), (10, 6)]);
    assert_eq!(game.direction(), Direction::Up);
    assert!(!game.is_paused());
    assert_eq!(game.ending(), None);
    assert_eq!(free_count(&game), 198);
    let food = game.food();
    assert!(game.is_free(food));
    assert!(!game.snake().contains(&food));
}

#[test]
fn new_game_on_smallest_grid_wraps_the_tail() {
    let game = Game::new((2, 2));
    assert_eq!(game.snake(), vec![(1, 1), (1, 0)]);
    assert_eq!(free_count(&game), 2);
    assert!(game.is_free(game.food()));
}

#[test]
fn new_game_paints_body_then_food() {
    let mut game = Game::new((6, 6));
    let food = game.food();
    let paints = game.take_paints();
    assert_eq!(
        paints,
        vec![
            Paint { cell: (3, 3), role: Role::Body },
            Paint { cell: (3, 4), role: Role::Body },
            Paint { cell: food, role: Role::Food },
        ]
    );
    assert!(game.take_paints().is_empty());
}

#[test]
fn food_is_drawn_from_free_cells() {
    for _ in 0..50 {
        let game = Game::new((3, 2));
        let food = game.food();
        assert!(food.0 < 3 && food.1 < 2);
        assert!(game.is_free(food));
        assert_ne!(food, (1, 1));
        assert_ne!(food, (1, 0));
    }
}

#[test]
fn set_direction_rejects_only_the_opposite() {
    for &current in ALL.iter() {
        for &requested in ALL.iter() {
            let mut game = Game::new((8, 8));
            if current == Direction::Down {
                assert!(game.set_direction(Direction::Left));
            }
            if current != Direction::Up {
                assert!(game.set_direction(current));
            }
            assert_eq!(game.direction(), current);
            let accepted = game.set_direction(requested);
            assert_eq!(accepted, requested != current.opposite());
            if accepted {
                assert_eq!(game.direction(), requested);
            } else {
                assert_eq!(game.direction(), current);
            }
        }
    }
}

#[test]
fn reverse_request_is_rejected() {
    let mut game = Game::new((4, 4));
    assert_eq!(game.direction(), Direction::Up);
    assert!(!game.set_direction(Direction::Down));
    assert_eq!(game.direction(), Direction::Up);
}

#[test]
fn growing_step_keeps_tail() {
    let mut game = Game::new((4, 4));
    assert_eq!(game.snake(), vec![(2, 2), (2, 3)]);
    assert_eq!(game.direction(), Direction::Up);
    assert!(game.place_food((2, 1)));
    assert_eq!(game.make_step(), Outcome::Grew);
    assert_eq!(game.snake(), vec![(2, 1), (2, 2), (2, 3)]);
    assert!(!game.is_free((2, 3)));
    assert_eq!(free_count(&game), 13);
    let food = game.food();
    assert!(game.is_free(food));
    assert!(!game.snake().contains(&food));
    assert_eq!(game.ending(), None);
}

#[test]
fn plain_step_frees_tail() {
    let mut game = Game::new((4, 4));
    assert!(game.place_food((1, 0)));
    assert_eq!(game.make_step(), Outcome::Moved);
    assert_eq!(game.snake(), vec![(2, 1), (2, 2)]);
    assert!(game.is_free((2, 3)));
    assert!(!game.is_free((2, 1)));
    assert_eq!(free_count(&game), 14);
    assert_eq!(game.food(), (1, 0));
}

#[test]
fn plain_step_paints_head_then_cleared_tail() {
    let mut game = Game::new((4, 4));
    assert!(game.place_food((1, 0)));
    game.take_paints();
    assert_eq!(game.make_step(), Outcome::Moved);
    assert_eq!(
        game.take_paints(),
        vec![
            Paint { cell: (2, 1), role: Role::Body },
            Paint { cell: (2, 3), role: Role::Empty },
        ]
    );
}

#[test]
fn place_food_refuses_body_and_outside_cells() {
    let mut game = Game::new((4, 4));
    let food = game.food();
    game.take_paints();
    assert!(!game.place_food((2, 2)));
    assert!(!game.place_food((2, 3)));
    assert!(!game.place_food((4, 0)));
    assert!(!game.place_food((0, 9)));
    assert_eq!(game.food(), food);
    assert!(game.take_paints().is_empty());
    let target = if food == (0, 0) { (3, 3) } else { (0, 0) };
    assert!(game.place_food(target));
    assert_eq!(game.food(), target);
    assert_eq!(
        game.take_paints(),
        vec![
            Paint { cell: food, role: Role::Empty },
            Paint { cell: target, role: Role::Food },
        ]
    );
}

#[test]
fn walking_through_an_edge_wraps() {
    let mut game = Game::new((4, 4));
    // head (2,2) -> (2,1) -> (2,0) -> (2,3)
    assert_eq!(plain_step(&mut game, (0, 0)), Outcome::Moved);
    assert_eq!(plain_step(&mut game, (0, 0)), Outcome::Moved);
    assert_eq!(plain_step(&mut game, (0, 0)), Outcome::Moved);
    assert_eq!(game.snake(), vec![(2, 3), (2, 0)]);
    assert_eq!(free_count(&game), 14);
}

#[test]
fn running_into_the_body_dies_without_moving() {
    let mut game = Game::new((10, 10));
    // grow the snake to five cells going up
    for target in [(5, 4), (5, 3), (5, 2)] {
        assert!(game.place_food(target));
        assert_eq!(game.make_step(), Outcome::Grew);
    }
    assert_eq!(game.snake(), vec![(5, 2), (5, 3), (5, 4), (5, 5), (5, 6)]);
    assert!(game.set_direction(Direction::Left));
    assert_eq!(plain_step(&mut game, (0, 9)), Outcome::Moved);
    assert!(game.set_direction(Direction::Down));
    assert_eq!(plain_step(&mut game, (0, 9)), Outcome::Moved);
    assert!(game.set_direction(Direction::Right));
    assert!(game.place_food((0, 9)));
    let before = game.snake();
    assert_eq!(before, vec![(4, 3), (4, 2), (5, 2), (5, 3), (5, 4)]);
    let free_before = free_count(&game);
    game.take_paints();
    assert_eq!(game.make_step(), Outcome::Died);
    assert_eq!(game.ending(), Some(Ending::Died));
    assert_eq!(game.snake(), before);
    assert_eq!(free_count(&game), free_before);
    assert_eq!(game.food(), (0, 9));
    assert!(game.take_paints().is_empty());
}

#[test]
fn stepping_onto_the_tail_dies() {
    let mut game = Game::new((2, 2));
    // heading up from (1,1) wraps onto the tail at (1,0)
    assert_eq!(game.make_step(), Outcome::Died);
    assert_eq!(game.snake(), vec![(1, 1), (1, 0)]);
}

#[test]
fn taking_the_last_free_cell_wins() {
    let mut game = Game::new((2, 2));
    assert!(game.set_direction(Direction::Left));
    assert!(game.place_food((0, 1)));
    assert_eq!(game.make_step(), Outcome::Grew);
    assert_eq!(game.snake(), vec![(0, 1), (1, 1), (1, 0)]);
    assert_eq!(free_count(&game), 1);
    assert_eq!(game.food(), (0, 0));
    assert!(game.set_direction(Direction::Up));
    game.take_paints();
    assert_eq!(game.make_step(), Outcome::Won);
    assert_eq!(game.ending(), Some(Ending::Won));
    assert_eq!(free_count(&game), 0);
    assert_eq!(game.snake().len(), 4);
    assert_eq!(
        game.take_paints(),
        vec![Paint { cell: (0, 0), role: Role::Body }]
    );
}

#[test]
fn key_map() {
    let left = Some(Event::Move(Direction::Left));
    let down = Some(Event::Move(Direction::Down));
    let up = Some(Event::Move(Direction::Up));
    let right = Some(Event::Move(Direction::Right));
    assert_eq!(Event::from_key(KeyPress::Char('h')), left);
    assert_eq!(Event::from_key(KeyPress::Char('a')), left);
    assert_eq!(Event::from_key(KeyPress::Left), left);
    assert_eq!(Event::from_key(KeyPress::Char('j')), down);
    assert_eq!(Event::from_key(KeyPress::Char('s')), down);
    assert_eq!(Event::from_key(KeyPress::Down), down);
    assert_eq!(Event::from_key(KeyPress::Char('k')), up);
    assert_eq!(Event::from_key(KeyPress::Char('w')), up);
    assert_eq!(Event::from_key(KeyPress::Up), up);
    assert_eq!(Event::from_key(KeyPress::Char('l')), right);
    assert_eq!(Event::from_key(KeyPress::Char('d')), right);
    assert_eq!(Event::from_key(KeyPress::Right), right);
    assert_eq!(Event::from_key(KeyPress::Char('q')), Some(Event::Quit));
    assert_eq!(Event::from_key(KeyPress::Ctrl('c')), Some(Event::Quit));
    assert_eq!(Event::from_key(KeyPress::Esc), Some(Event::Quit));
    assert_eq!(Event::from_key(KeyPress::Char('p')), Some(Event::Pause));
    assert_eq!(Event::from_key(KeyPress::Char(' ')), Some(Event::Pause));
}

#[test]
fn unknown_keys_are_dropped() {
    assert_eq!(Event::from_key(KeyPress::Char('x')), None);
    assert_eq!(Event::from_key(KeyPress::Char('Q')), None);
    assert_eq!(Event::from_key(KeyPress::Ctrl('d')), None);
    assert_eq!(Event::from_key(KeyPress::Other), None);
}

#[test]
fn key_events_queue_is_fifo_and_non_blocking() {
    let (tx, rx) = mpsc::channel();
    let queue = KeyEventsQueue::new(rx);
    assert_eq!(queue.pop(), None);
    tx.send(Event::Pause).unwrap();
    tx.send(Event::Move(Direction::Left)).unwrap();
    tx.send(Event::Quit).unwrap();
    assert_eq!(queue.pop(), Some(Event::Pause));
    assert_eq!(queue.pop(), Some(Event::Move(Direction::Left)));
    assert_eq!(queue.pop(), Some(Event::Quit));
    assert_eq!(queue.pop(), None);
    drop(tx);
    assert_eq!(queue.pop(), None);
}

#[test]
fn pause_blocks_moves_and_ticks() {
    let mut game = Game::new((6, 6));
    assert_eq!(game.handle_event(Event::Pause), Reaction::Paused);
    assert!(game.is_paused());
    let before = game.snake();
    assert_eq!(game.handle_event(Event::Move(Direction::Left)), Reaction::Ignored);
    assert_eq!(game.direction(), Direction::Up);
    assert_eq!(game.handle_tick(), Reaction::Ignored);
    assert_eq!(game.snake(), before);
    assert_eq!(game.handle_event(Event::Pause), Reaction::Resumed);
    assert!(!game.is_paused());
}

#[test]
fn accepted_move_steps_at_once() {
    let mut game = Game::new((6, 6));
    assert!(game.place_food((0, 0)));
    assert_eq!(
        game.handle_event(Event::Move(Direction::Left)),
        Reaction::Stepped(Outcome::Moved)
    );
    assert_eq!(game.direction(), Direction::Left);
    assert_eq!(game.snake(), vec![(2, 3), (3, 3)]);
}

#[test]
fn reverse_move_event_is_ignored() {
    let mut game = Game::new((6, 6));
    let before = game.snake();
    assert_eq!(game.handle_event(Event::Move(Direction::Down)), Reaction::Ignored);
    assert_eq!(game.snake(), before);
    assert_eq!(game.direction(), Direction::Up);
}

#[test]
fn tick_steps_in_current_direction() {
    let mut game = Game::new((6, 6));
    assert!(game.place_food((0, 0)));
    assert_eq!(game.handle_tick(), Reaction::Stepped(Outcome::Moved));
    assert_eq!(game.snake(), vec![(3, 2), (3, 3)]);
}

#[test]
fn quit_changes_nothing() {
    let mut game = Game::new((6, 6));
    let before = game.snake();
    let reaction = game.handle_event(Event::Quit);
    assert_eq!(reaction, Reaction::Quit);
    assert!(reaction.ends_game());
    assert_eq!(game.snake(), before);
}

#[test]
fn reaction_flags() {
    assert!(!Reaction::Ignored.restarts_timer());
    assert!(Reaction::Stepped(Outcome::Moved).restarts_timer());
    assert!(Reaction::Paused.restarts_timer());
    assert!(Reaction::Resumed.restarts_timer());
    assert!(!Reaction::Quit.restarts_timer());
    assert!(!Reaction::Ignored.ends_game());
    assert!(!Reaction::Stepped(Outcome::Moved).ends_game());
    assert!(!Reaction::Stepped(Outcome::Grew).ends_game());
    assert!(Reaction::Stepped(Outcome::Died).ends_game());
    assert!(Reaction::Stepped(Outcome::Won).ends_game());
    assert!(!Reaction::Paused.ends_game());
    assert!(Reaction::Quit.ends_game());
}
