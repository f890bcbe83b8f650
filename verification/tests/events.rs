use rusty_snake::{Cell, Direction, Game, Signal, Snake, SnakeEvent, SnakeEventType};

fn movement(game: &mut Game, name: &str, d: Direction) {
    game.handle_events(SnakeEventType::Movement(d), name.to_string());
}

fn signal(game: &mut Game, name: &str, s: Signal) {
    game.handle_events(SnakeEventType::Signal(s), name.to_string());
}

fn empty_count(game: &Game) -> usize {
    let mut n = 0;
    for x in 0..game.size.0 as isize {
        for y in 0..game.size.1 as isize {
            if game.cells.get_cell(x, y) == Cell::Empty {
                n += 1;
            }
        }
    }
    n
}

#[test]
fn a_new_snake_is_one_segment_standing_still() {
    let snake = Snake::new(3, 4, "ann".to_string(), 7);
    assert_eq!(snake.name, "ann");
    assert_eq!(snake.id, 7);
    assert_eq!(snake.get_body(), &vec![(3, 4)]);
    assert_eq!(snake.head, (3, 4));
    assert_eq!(snake.direction, Direction::Stop);
    assert_eq!(snake.moved_from, Direction::Stop);
    assert!(snake.alive);
}

#[test]
fn a_cloned_snake_holds_the_same_values() {
    let mut snake = Snake::new(3, 4, "ann".to_string(), 7);
    snake.body.push((3, 5));
    snake.direction = Direction::Up;
    let copy = snake.clone();
    assert_eq!(copy.name, snake.name);
    assert_eq!(copy.id, 7);
    assert_eq!(copy.body, vec![(3, 4), (3, 5)]);
    assert_eq!(copy.head, (3, 4));
    assert_eq!(copy.direction, Direction::Up);
    assert_eq!(copy.moved_from, Direction::Stop);
    assert!(copy.alive);
}

#[test]
fn reversed_gives_the_opposite_heading() {
    assert_eq!(Direction::Up.reversed(), Direction::Down);
    assert_eq!(Direction::Down.reversed(), Direction::Up);
    assert_eq!(Direction::Left.reversed(), Direction::Right);
    assert_eq!(Direction::Right.reversed(), Direction::Left);
    assert_eq!(Direction::Stop.reversed(), Direction::Stop);
}

#[test]
fn a_new_game_is_empty() {
    let game = Game::new(4, 3, 2, 5, false);
    assert_eq!(game.size, (4, 3));
    assert_eq!(game.food_amount, 2);
    assert_eq!(game.max_players, 5);
    assert!(!game.teleport);
    assert!(game.snakes.is_empty());
    assert!(game.get_food().is_empty());
    assert_eq!(empty_count(&game), 12);
    assert_eq!(game.get_owners_tables().get_cell(4, 0), Cell::Void);
}

#[test]
fn a_movement_sets_the_heading() {
    let mut game = Game::new(5, 5, 0, 5, true);
    assert!(game.add_player_at("ann".to_string(), 2, 2));
    movement(&mut game, "ann", Direction::Up);
    assert_eq!(game.get_snake("ann".to_string()).unwrap().direction, Direction::Up);
    movement(&mut game, "ann", Direction::Left);
    assert_eq!(game.get_snake("ann".to_string()).unwrap().direction, Direction::Left);
}

#[test]
fn a_turn_straight_back_is_refused() {
    let mut game = Game::new(5, 5, 0, 5, true);
    assert!(game.add_player_at("ann".to_string(), 2, 2));
    movement(&mut game, "ann", Direction::Up);
    game.step();
    let snake = game.get_snake("ann".to_string()).unwrap();
    assert_eq!(snake.moved_from, Direction::Down);
    movement(&mut game, "ann", Direction::Down);
    let snake = game.get_snake("ann".to_string()).unwrap();
    assert_eq!(snake.direction, Direction::Up);
    assert_eq!(snake.moved_from, Direction::Down);
    game.step();
    assert_eq!(game.get_snake("ann".to_string()).unwrap().head, (2, 0));
}

#[test]
fn every_heading_refuses_its_own_reverse() {
    for (d, back) in [
        (Direction::Up, Direction::Down),
        (Direction::Down, Direction::Up),
        (Direction::Left, Direction::Right),
        (Direction::Right, Direction::Left),
    ] {
        let mut game = Game::new(5, 5, 0, 5, true);
        assert!(game.add_player_at("ann".to_string(), 2, 2));
        movement(&mut game, "ann", d);
        game.step();
        movement(&mut game, "ann", back);
        assert_eq!(game.get_snake("ann".to_string()).unwrap().direction, d);
        for other in [Direction::Up, Direction::Down, Direction::Left, Direction::Right] {
            if other != back {
                movement(&mut game, "ann", other);
                assert_eq!(game.get_snake("ann".to_string()).unwrap().direction, other);
            }
        }
    }
}

#[test]
fn a_sideways_turn_made_before_the_tick_does_not_lift_the_refusal() {
    let mut game = Game::new(5, 5, 0, 5, true);
    assert!(game.add_player_at("ann".to_string(), 2, 2));
    movement(&mut game, "ann", Direction::Up);
    game.step();
    movement(&mut game, "ann", Direction::Left);
    movement(&mut game, "ann", Direction::Down);
    assert_eq!(game.get_snake("ann".to_string()).unwrap().direction, Direction::Left);
}

#[test]
fn stop_is_always_accepted() {
    let mut game = Game::new(5, 5, 0, 5, true);
    assert!(game.add_player_at("ann".to_string(), 2, 2));
    movement(&mut game, "ann", Direction::Stop);
    assert_eq!(game.get_snake("ann".to_string()).unwrap().direction, Direction::Stop);
    movement(&mut game, "ann", Direction::Right);
    game.step();
    movement(&mut game, "ann", Direction::Stop);
    let snake = game.get_snake("ann".to_string()).unwrap();
    assert_eq!(snake.direction, Direction::Stop);
    assert_eq!(snake.moved_from, Direction::Left);
    game.step();
    assert_eq!(game.get_snake("ann".to_string()).unwrap().head, (3, 2));
}

#[test]
fn an_event_for_an_unknown_player_is_ignored() {
    let mut game = Game::new(5, 5, 0, 5, true);
    assert!(game.add_player_at("ann".to_string(), 2, 2));
    movement(&mut game, "bob", Direction::Up);
    signal(&mut game, "bob", Signal::Disconnect);
    assert_eq!(game.snakes.len(), 1);
    assert_eq!(game.get_snake("ann".to_string()).unwrap().direction, Direction::Stop);
    assert!(game.get_snake("bob".to_string()).is_none());
    assert_eq!(game.cells.get_cell(2, 2), Cell::Player(0));
}

#[test]
fn a_connect_puts_a_snake_on_an_empty_cell() {
    let mut game = Game::new(6, 4, 0, 5, true);
    signal(&mut game, "ann", Signal::Connect);
    assert_eq!(game.snakes.len(), 1);
    let snake = game.get_snake("ann".to_string()).unwrap();
    assert_eq!(snake.id, 0);
    assert_eq!(snake.body.len(), 1);
    assert_eq!(snake.head, snake.body[0]);
    assert_eq!(snake.direction, Direction::Stop);
    let (x, y) = snake.head;
    assert!(0 <= x && x < 6 && 0 <= y && y < 4);
    assert_eq!(game.cells.get_cell(x, y), Cell::Player(0));
    assert_eq!(empty_count(&game), 23);
}

#[test]
fn a_connect_never_lands_on_a_taken_cell() {
    for _ in 0..40 {
        let mut game = Game::new(2, 2, 0, 5, true);
        assert!(game.add_player_at("a".to_string(), 0, 0));
        assert!(game.place_food(1, 0));
        game.cells.set_cell(0, 1, Cell::Wall);
        assert!(game.add_player("b".to_string()));
        assert_eq!(game.get_snake("b".to_string()).unwrap().head, (1, 1));
        assert_eq!(game.cells.get_cell(0, 0), Cell::Player(0));
        assert_eq!(game.cells.get_cell(1, 0), Cell::Food);
        assert_eq!(game.cells.get_cell(0, 1), Cell::Wall);
        assert_eq!(game.cells.get_cell(1, 1), Cell::Player(1));
    }
}

#[test]
fn a_connect_reaches_every_empty_cell() {
    let mut seen = [false; 3];
    for _ in 0..400 {
        let mut game = Game::new(3, 1, 0, 5, true);
        assert!(game.add_player("a".to_string()));
        seen[game.get_snake("a".to_string()).unwrap().head.0 as usize] = true;
    }
    assert_eq!(seen, [true, true, true]);
}

#[test]
fn a_connect_on_a_full_grid_is_ignored() {
    let mut game = Game::new(2, 1, 0, 5, true);
    assert!(game.add_player_at("a".to_string(), 0, 0));
    assert!(game.add_player_at("b".to_string(), 1, 0));
    assert!(!game.add_player("c".to_string()));
    signal(&mut game, "c", Signal::Connect);
    assert_eq!(game.snakes.len(), 2);
    assert!(game.get_snake("c".to_string()).is_none());
}

#[test]
fn a_connect_on_a_grid_without_cells_is_ignored() {
    let mut game = Game::new(0, 0, 3, 5, true);
    assert!(!game.add_player("a".to_string()));
    assert!(!game.add_player_at("a".to_string(), 0, 0));
    game.add_missing_food();
    game.step();
    assert!(game.snakes.is_empty());
    assert!(game.food.is_empty());
}

#[test]
fn a_connect_beyond_the_cap_is_ignored() {
    let mut game = Game::new(5, 5, 0, 2, true);
    assert!(game.add_player("a".to_string()));
    assert!(game.add_player("b".to_string()));
    assert!(!game.add_player("c".to_string()));
    for (x, y) in game.empty_cells() {
        assert!(!game.add_player_at("c".to_string(), x, y));
    }
    assert_eq!(game.snakes.len(), 2);
    assert_eq!(empty_count(&game), 23);
}

#[test]
fn a_connect_under_a_name_in_use_is_ignored() {
    let mut game = Game::new(5, 5, 0, 5, true);
    assert!(game.add_player_at("ann".to_string(), 1, 1));
    assert!(!game.add_player("ann".to_string()));
    assert!(!game.add_player_at("ann".to_string(), 3, 3));
    signal(&mut game, "ann", Signal::Connect);
    assert_eq!(game.snakes.len(), 1);
    assert_eq!(game.cells.get_cell(3, 3), Cell::Empty);
    assert_eq!(empty_count(&game), 24);
}

#[test]
fn a_player_is_placed_only_on_an_empty_cell_of_the_grid() {
    let mut game = Game::new(3, 3, 1, 5, true);
    assert!(game.place_food(1, 1));
    assert!(!game.add_player_at("a".to_string(), 1, 1));
    assert!(!game.add_player_at("a".to_string(), 3, 0));
    assert!(!game.add_player_at("a".to_string(), -1, 0));
    assert!(!game.add_player_at("a".to_string(), 0, 3));
    assert!(game.snakes.is_empty());
    assert!(game.add_player_at("a".to_string(), 2, 2));
    assert!(!game.add_player_at("b".to_string(), 2, 2));
    assert_eq!(game.snakes.len(), 1);
}

#[test]
fn the_id_of_a_new_snake_is_the_least_that_no_snake_bears() {
    let mut game = Game::new(5, 5, 0, 5, true);
    assert_eq!(game.fresh_id(), 0);
    assert!(game.add_player_at("a".to_string(), 0, 0));
    assert_eq!(game.fresh_id(), 1);
    assert!(game.add_player_at("b".to_string(), 1, 0));
    assert!(game.add_player_at("c".to_string(), 2, 0));
    assert_eq!(game.get_snake("a".to_string()).unwrap().id, 0);
    assert_eq!(game.get_snake("b".to_string()).unwrap().id, 1);
    assert_eq!(game.get_snake("c".to_string()).unwrap().id, 2);
    game.remove_player("b".to_string());
    assert_eq!(game.fresh_id(), 1);
    assert!(game.add_player_at("d".to_string(), 3, 0));
    assert_eq!(game.get_snake("d".to_string()).unwrap().id, 1);
    assert_eq!(game.cells.get_cell(3, 0), Cell::Player(1));
    assert_eq!(game.fresh_id(), 3);
}

#[test]
fn a_snake_that_joins_after_another_has_left_takes_no_id_in_use() {
    let mut game = Game::new(5, 5, 0, 5, true);
    assert!(game.add_player_at("a".to_string(), 0, 0));
    assert!(game.add_player_at("b".to_string(), 1, 0));
    game.remove_player("a".to_string());
    assert!(game.add_player_at("c".to_string(), 2, 0));
    let b = game.get_snake("b".to_string()).unwrap().id;
    let c = game.get_snake("c".to_string()).unwrap().id;
    assert_eq!((b, c), (1, 0));
    assert_eq!(game.cells.get_cell(1, 0), Cell::Player(1));
    assert_eq!(game.cells.get_cell(2, 0), Cell::Player(0));
    assert!(game.is_wf());
    for round in 0..20 {
        let name = format!("p{}", round);
        if round % 3 == 2 {
            game.remove_player(format!("p{}", round - 1));
        }
        game.add_player(name);
        let mut ids: Vec<usize> = game.snakes.iter().map(|s| s.id).collect();
        ids.sort();
        ids.dedup();
        assert_eq!(ids.len(), game.snakes.len());
        assert!(game.is_wf());
    }
}

#[test]
fn a_disconnect_removes_the_snake_and_empties_its_cells() {
    let mut game = Game::new(6, 6, 2, 5, true);
    assert!(game.add_player_at("ann".to_string(), 0, 0));
    assert!(game.add_player_at("bob".to_string(), 4, 4));
    assert!(game.place_food(1, 0));
    assert!(game.place_food(2, 0));
    movement(&mut game, "ann", Direction::Right);
    game.step();
    game.step();
    assert_eq!(game.get_snake("ann".to_string()).unwrap().body.len(), 3);
    signal(&mut game, "ann", Signal::Disconnect);
    assert!(game.get_snake("ann".to_string()).is_none());
    assert_eq!(game.snakes.len(), 1);
    assert_eq!(game.snakes[0].name, "bob");
    assert_eq!(empty_count(&game), 35);
    assert_eq!(game.cells.get_cell(4, 4), Cell::Player(1));
}

#[test]
fn a_player_can_come_back_after_leaving() {
    let mut game = Game::new(4, 4, 0, 1, true);
    assert!(game.add_player("ann".to_string()));
    game.remove_player("ann".to_string());
    assert!(game.snakes.is_empty());
    assert_eq!(empty_count(&game), 16);
    assert!(game.add_player("ann".to_string()));
    assert_eq!(game.snakes.len(), 1);
}

#[test]
fn get_snake_finds_the_last_of_a_name() {
    let mut game = Game::new(4, 4, 0, 5, true);
    game.snakes.push(Snake::new(0, 0, "twin".to_string(), 0));
    game.snakes.push(Snake::new(1, 1, "other".to_string(), 1));
    game.snakes.push(Snake::new(2, 2, "twin".to_string(), 2));
    assert_eq!(game.get_snake("twin".to_string()).unwrap().id, 2);
    assert_eq!(game.get_snake("other".to_string()).unwrap().id, 1);
    assert!(game.get_snake("none".to_string()).is_none());
}

#[test]
fn a_round_applies_the_queue_then_ticks_then_restocks() {
    let mut game = Game::new(8, 8, 3, 5, true);
    assert!(game.add_player_at("ann".to_string(), 2, 2));
    assert!(game.add_player_at("bob".to_string(), 6, 6));
    let queue = vec![
        SnakeEvent {
            event_type: SnakeEventType::Movement(Direction::Right),
            event_owner: "ann".to_string(),
        },
        SnakeEvent {
            event_type: SnakeEventType::Movement(Direction::Down),
            event_owner: "ann".to_string(),
        },
        SnakeEvent {
            event_type: SnakeEventType::Signal(Signal::Disconnect),
            event_owner: "bob".to_string(),
        },
        SnakeEvent {
            event_type: SnakeEventType::Signal(Signal::Connect),
            event_owner: "cat".to_string(),
        },
    ];
    game.round(&queue);
    assert_eq!(queue.len(), 4);
    assert!(game.get_snake("bob".to_string()).is_none());
    assert_eq!(game.cells.get_cell(6, 6), Cell::Empty);
    let cat = game.get_snake("cat".to_string()).unwrap();
    assert_eq!(cat.id, 1);
    assert_eq!(cat.body.len(), 1);
    if cat.head == (2, 3) {
        // The newcomer stood where ann was heading.
        assert!(game.get_snake("ann".to_string()).is_none());
        assert_eq!(game.snakes.len(), 1);
        assert_eq!(game.cells.get_cell(2, 2), Cell::Empty);
        assert_eq!(empty_count(&game), 64 - 1 - 3);
    } else {
        let ann = game.get_snake("ann".to_string()).unwrap();
        assert_eq!(ann.direction, Direction::Down);
        assert_eq!(ann.moved_from, Direction::Up);
        assert_eq!(ann.body, vec![(2, 3)]);
        assert_eq!(game.snakes.len(), 2);
        assert_eq!(empty_count(&game), 64 - 2 - 3);
    }
    assert_eq!(game.food.len(), 3);
}

#[test]
fn a_round_without_events_is_a_tick_and_a_restock() {
    let mut game = Game::new(8, 8, 2, 5, true);
    game.round(&Vec::new());
    assert!(game.snakes.is_empty());
    assert_eq!(game.food.len(), 2);
}

#[test]
fn a_cloned_event_holds_the_same_values() {
    let event = SnakeEvent {
        event_type: SnakeEventType::Movement(Direction::Left),
        event_owner: "ann".to_string(),
    };
    let copy = event.clone();
    assert_eq!(copy.event_type, SnakeEventType::Movement(Direction::Left));
    assert_eq!(copy.event_owner, "ann");
}

#[test]
fn a_snapshot_is_a_copy_that_stays_as_it_was() {
    let mut game = Game::new(5, 4, 2, 3, false);
    assert!(game.add_player_at("ann".to_string(), 1, 1));
    assert!(game.place_food(2, 1));
    assert!(game.place_food(4, 3));
    let snapshot = game.clone();
    game.handle_events(SnakeEventType::Movement(Direction::Right), "ann".to_string());
    game.step();
    assert_eq!(snapshot.size, (5, 4));
    assert_eq!(snapshot.food_amount, 2);
    assert_eq!(snapshot.max_players, 3);
    assert!(!snapshot.teleport);
    assert_eq!(snapshot.snakes.len(), 1);
    assert_eq!(snapshot.snakes[0].body, vec![(1, 1)]);
    assert_eq!(snapshot.snakes[0].direction, Direction::Stop);
    assert_eq!(snapshot.food, vec![(2, 1), (4, 3)]);
    assert_eq!(snapshot.cells.get_cell(1, 1), Cell::Player(0));
    assert_eq!(snapshot.cells.get_cell(2, 1), Cell::Food);
    assert_eq!(snapshot.cells.get_cell(4, 3), Cell::Food);
    assert_eq!(snapshot.cells.get_cell(0, 0), Cell::Empty);
    assert_eq!(game.snakes[0].body, vec![(2, 1), (1, 1)]);
}
