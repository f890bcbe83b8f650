use rusty_snake::{Cell, Direction, Game, SnakeEventType};

fn names(game: &Game) -> Vec<String> {
    game.snakes.iter().map(|s| s.name.clone()).collect()
}

fn steer(game: &mut Game, name: &str, d: Direction) {
    game.handle_events(SnakeEventType::Movement(d), name.to_string());
}

/// Counts the cells of the table that hold `cell`.
fn count(game: &Game, cell: Cell) -> usize {
    let mut n = 0;
    for x in 0..game.size.0 as isize {
        for y in 0..game.size.1 as isize {
            if game.get_owners_tables().get_cell(x, y) == cell {
                n += 1;
            }
        }
    }
    n
}

/// Checks by hand what the invariants promise: heads lead bodies, every
/// segment and every piece of food has its cell, and no cell is orphaned.
fn assert_consistent(game: &Game) {
    let mut claimed = 0;
    for snake in &game.snakes {
        assert!(snake.alive);
        assert_eq!(snake.head, snake.body[0]);
        for part in &snake.body {
            assert_eq!(game.cells.get_cell(part.0, part.1), Cell::Player(snake.id));
            claimed += 1;
        }
    }
    for piece in &game.food {
        assert_eq!(game.cells.get_cell(piece.0, piece.1), Cell::Food);
    }
    let mut players = 0;
    for x in 0..game.size.0 as isize {
        for y in 0..game.size.1 as isize {
            if let Cell::Player(_) = game.cells.get_cell(x, y) {
                players += 1;
            }
        }
    }
    assert_eq!(players, claimed);
    assert_eq!(count(game, Cell::Food), game.food.len());
}

#[test]
fn eating_food_grows_the_snake() {
    let mut game = Game::new(10, 10, 1, 5, true);
    assert!(game.add_player_at("ann".to_string(), 5, 5));
    assert!(game.place_food(6, 5));
    steer(&mut game, "ann", Direction::Right);
    game.step();
    let snake = game.get_snake("ann".to_string()).unwrap();
    assert_eq!(snake.get_body(), &vec![(6, 5), (5, 5)]);
    assert_eq!(snake.head, (6, 5));
    assert!(!game.get_food().contains(&(6, 5)));
    assert!(game.get_food().is_empty());
    assert_eq!(game.get_owners_tables().get_cell(6, 5), Cell::Player(0));
    assert_eq!(game.get_owners_tables().get_cell(5, 5), Cell::Player(0));
    assert_consistent(&game);
}

#[test]
fn first_in_roster_meets_the_second_and_dies() {
    let mut game = Game::new(10, 10, 0, 5, true);
    assert!(game.add_player_at("a".to_string(), 3, 3));
    assert!(game.add_player_at("b".to_string(), 4, 3));
    steer(&mut game, "a", Direction::Right);
    steer(&mut game, "b", Direction::Left);
    game.step();
    assert_eq!(names(&game), vec!["b".to_string()]);
    let b = game.get_snake("b".to_string()).unwrap();
    assert_eq!(b.get_body(), &vec![(3, 3)]);
    assert_eq!(game.get_owners_tables().get_cell(3, 3), Cell::Player(1));
    assert_eq!(game.get_owners_tables().get_cell(4, 3), Cell::Empty);
    assert_consistent(&game);
}

#[test]
fn second_in_roster_follows_into_the_cell_the_first_has_left() {
    // Both head right, the one in front is first in the roster: it has
    // left its cell when the turn of the one behind comes.
    let mut game = Game::new(10, 10, 0, 5, true);
    assert!(game.add_player_at("front".to_string(), 4, 3));
    assert!(game.add_player_at("back".to_string(), 3, 3));
    steer(&mut game, "front", Direction::Right);
    steer(&mut game, "back", Direction::Right);
    game.step();
    assert_eq!(names(&game), vec!["front".to_string(), "back".to_string()]);
    assert_eq!(game.get_snake("front".to_string()).unwrap().head, (5, 3));
    assert_eq!(game.get_snake("back".to_string()).unwrap().head, (4, 3));
    assert_consistent(&game);
}

#[test]
fn first_in_roster_runs_into_the_cell_the_second_has_not_left_yet() {
    // The same move with the roster the other way round: the one behind
    // has its turn first and finds the cell still taken.
    let mut game = Game::new(10, 10, 0, 5, true);
    assert!(game.add_player_at("back".to_string(), 3, 3));
    assert!(game.add_player_at("front".to_string(), 4, 3));
    steer(&mut game, "front", Direction::Right);
    steer(&mut game, "back", Direction::Right);
    game.step();
    assert_eq!(names(&game), vec!["front".to_string()]);
    assert_eq!(game.get_snake("front".to_string()).unwrap().head, (5, 3));
    assert_eq!(game.get_owners_tables().get_cell(3, 3), Cell::Empty);
    assert_eq!(game.get_owners_tables().get_cell(4, 3), Cell::Empty);
    assert_consistent(&game);
}

#[test]
fn a_snake_that_stands_still_stays() {
    let mut game = Game::new(4, 4, 0, 5, true);
    assert!(game.add_player_at("ann".to_string(), 1, 2));
    game.step();
    let snake = game.get_snake("ann".to_string()).unwrap();
    assert_eq!(snake.get_body(), &vec![(1, 2)]);
    assert_eq!(snake.direction, Direction::Stop);
    assert_eq!(snake.moved_from, Direction::Stop);
    assert_consistent(&game);
}

#[test]
fn each_heading_moves_one_cell() {
    for (d, to, from) in [
        (Direction::Up, (2, 1), Direction::Down),
        (Direction::Left, (1, 2), Direction::Right),
        (Direction::Down, (2, 3), Direction::Up),
        (Direction::Right, (3, 2), Direction::Left),
    ] {
        let mut game = Game::new(5, 5, 0, 5, true);
        assert!(game.add_player_at("ann".to_string(), 2, 2));
        steer(&mut game, "ann", d);
        game.step();
        let snake = game.get_snake("ann".to_string()).unwrap();
        assert_eq!(snake.get_body(), &vec![to]);
        assert_eq!(snake.head, to);
        assert_eq!(snake.direction, d);
        assert_eq!(snake.moved_from, from);
        assert_eq!(game.get_owners_tables().get_cell(2, 2), Cell::Empty);
        assert_eq!(game.get_owners_tables().get_cell(to.0, to.1), Cell::Player(0));
        assert_consistent(&game);
    }
}

#[test]
fn teleport_wraps_at_every_edge() {
    for (start, d, to) in [
        ((0, 1), Direction::Left, (3, 1)),
        ((3, 1), Direction::Right, (0, 1)),
        ((2, 0), Direction::Up, (2, 2)),
        ((2, 2), Direction::Down, (2, 0)),
    ] {
        let mut game = Game::new(4, 3, 0, 5, true);
        assert!(game.add_player_at("ann".to_string(), start.0, start.1));
        steer(&mut game, "ann", d);
        game.step();
        let snake = game.get_snake("ann".to_string()).unwrap();
        assert_eq!(snake.get_body(), &vec![to]);
        assert_consistent(&game);
    }
}

#[test]
fn without_teleport_the_edge_is_fatal() {
    let mut game = Game::new(4, 3, 0, 5, false);
    assert!(game.add_player_at("ann".to_string(), 3, 1));
    steer(&mut game, "ann", Direction::Right);
    game.step();
    assert!(game.snakes.is_empty());
    assert!(game.get_snake("ann".to_string()).is_none());
    assert_eq!(count(&game, Cell::Empty), 12);
}

#[test]
fn on_a_grid_one_cell_wide_a_wrapping_snake_meets_itself() {
    let mut game = Game::new(1, 3, 0, 5, true);
    assert!(game.add_player_at("ann".to_string(), 0, 1));
    steer(&mut game, "ann", Direction::Right);
    game.step();
    assert!(game.snakes.is_empty());
    assert_eq!(count(&game, Cell::Empty), 3);
}

#[test]
fn a_wall_is_fatal() {
    let mut game = Game::new(5, 5, 0, 5, true);
    assert!(game.add_player_at("ann".to_string(), 2, 2));
    game.cells.set_cell(3, 2, Cell::Wall);
    steer(&mut game, "ann", Direction::Right);
    game.step();
    assert!(game.snakes.is_empty());
    assert_eq!(game.get_owners_tables().get_cell(2, 2), Cell::Empty);
    assert_eq!(game.get_owners_tables().get_cell(3, 2), Cell::Wall);
}

/// Grows a snake to four segments along the top row, heading right.
fn long_snake() -> Game {
    let mut game = Game::new(6, 6, 3, 5, true);
    assert!(game.add_player_at("ann".to_string(), 0, 0));
    for x in 1..4 {
        assert!(game.place_food(x, 0));
    }
    steer(&mut game, "ann", Direction::Right);
    for _ in 0..3 {
        game.step();
    }
    game
}

#[test]
fn the_body_follows_the_head() {
    let mut game = long_snake();
    assert_eq!(
        game.get_snake("ann".to_string()).unwrap().get_body(),
        &vec![(3, 0), (2, 0), (1, 0), (0, 0)]
    );
    assert!(game.get_food().is_empty());
    steer(&mut game, "ann", Direction::Down);
    game.step();
    assert_eq!(
        game.get_snake("ann".to_string()).unwrap().get_body(),
        &vec![(3, 1), (3, 0), (2, 0), (1, 0)]
    );
    assert_eq!(game.get_owners_tables().get_cell(0, 0), Cell::Empty);
    assert_consistent(&game);
}

#[test]
fn a_snake_that_turns_into_its_own_body_dies() {
    let mut game = long_snake();
    steer(&mut game, "ann", Direction::Down);
    game.step();
    steer(&mut game, "ann", Direction::Left);
    game.step();
    assert_eq!(
        game.get_snake("ann".to_string()).unwrap().get_body(),
        &vec![(2, 1), (3, 1), (3, 0), (2, 0)]
    );
    steer(&mut game, "ann", Direction::Up);
    game.step();
    assert!(game.snakes.is_empty());
    assert_eq!(count(&game, Cell::Empty), 36);
}

#[test]
fn the_cell_of_the_own_tail_is_still_taken() {
    // A square of four: the head turns into the cell that the tail would
    // leave in this very move.
    let mut game = Game::new(6, 6, 3, 5, true);
    assert!(game.add_player_at("ann".to_string(), 0, 0));
    assert!(game.place_food(1, 0));
    assert!(game.place_food(1, 1));
    assert!(game.place_food(0, 1));
    steer(&mut game, "ann", Direction::Right);
    game.step();
    steer(&mut game, "ann", Direction::Down);
    game.step();
    steer(&mut game, "ann", Direction::Left);
    game.step();
    assert_eq!(
        game.get_snake("ann".to_string()).unwrap().get_body(),
        &vec![(0, 1), (1, 1), (1, 0), (0, 0)]
    );
    steer(&mut game, "ann", Direction::Up);
    game.step();
    assert!(game.snakes.is_empty());
    assert_eq!(count(&game, Cell::Empty), 36);
}

#[test]
fn only_the_eaten_piece_leaves_the_food_list() {
    let mut game = Game::new(10, 10, 3, 5, true);
    assert!(game.add_player_at("ann".to_string(), 5, 5));
    assert!(game.place_food(0, 0));
    assert!(game.place_food(6, 5));
    assert!(game.place_food(9, 9));
    steer(&mut game, "ann", Direction::Right);
    game.step();
    assert_eq!(game.get_food(), &vec![(0, 0), (9, 9)]);
    assert_eq!(game.get_snake("ann".to_string()).unwrap().get_body().len(), 2);
    assert_consistent(&game);
}

#[test]
fn the_dead_are_struck_and_the_living_keep_their_order() {
    let mut game = Game::new(10, 10, 0, 5, false);
    assert!(game.add_player_at("a".to_string(), 0, 0));
    assert!(game.add_player_at("b".to_string(), 5, 5));
    assert!(game.add_player_at("c".to_string(), 9, 9));
    assert!(game.add_player_at("d".to_string(), 2, 7));
    steer(&mut game, "a", Direction::Left);
    steer(&mut game, "b", Direction::Up);
    steer(&mut game, "c", Direction::Down);
    game.step();
    assert_eq!(names(&game), vec!["b".to_string(), "d".to_string()]);
    assert_eq!(game.get_snake("b".to_string()).unwrap().id, 1);
    assert_eq!(game.get_snake("d".to_string()).unwrap().id, 3);
    assert_eq!(game.get_owners_tables().get_cell(0, 0), Cell::Empty);
    assert_eq!(game.get_owners_tables().get_cell(9, 9), Cell::Empty);
    assert_eq!(game.get_owners_tables().get_cell(5, 4), Cell::Player(1));
    assert_consistent(&game);
}

#[test]
fn a_tick_on_an_empty_game_changes_nothing() {
    let mut game = Game::new(3, 3, 2, 5, true);
    game.step();
    assert!(game.snakes.is_empty());
    assert!(game.food.is_empty());
    assert_eq!(count(&game, Cell::Empty), 9);
}

#[test]
fn many_ticks_keep_the_table_and_the_entities_in_step() {
    let mut game = Game::new(7, 5, 4, 4, true);
    assert!(game.add_player_at("a".to_string(), 1, 1));
    assert!(game.add_player_at("b".to_string(), 5, 3));
    assert!(game.add_player_at("c".to_string(), 3, 2));
    let turns = [Direction::Right, Direction::Down, Direction::Left, Direction::Up, Direction::Stop];
    for round in 0..60 {
        steer(&mut game, "a", turns[round % 5]);
        steer(&mut game, "b", turns[(round / 2) % 5]);
        steer(&mut game, "c", turns[(round / 3) % 5]);
        game.step();
        game.add_missing_food();
        assert_consistent(&game);
        assert!(game.food.len() <= 4);
    }
}
