use rusty_snake::connection::{Connection, ConnectionInput, ConnectionOutput, ConnectionState};
use rusty_snake::framing::{
    frame, frame_with, length_from, read_length, split_frame, take_payload, FrameError,
    FrameReader, HEADER_LEN,
};
use rusty_snake::{
    Cell, CellManager, Direction, Game, Signal, Snake, SnakeEvent, SnakeEventType,
};

fn refused() -> Box<bincode::ErrorKind> {
    Box::new(bincode::ErrorKind::SizeLimit)
}

#[test]
fn the_length_prefix_is_eight_bytes() {
    assert_eq!(HEADER_LEN, 8);
}

#[test]
fn a_frame_is_the_length_lowest_byte_first_then_the_payload() {
    assert_eq!(frame(&[1, 2, 3]), Ok(vec![3, 0, 0, 0, 0, 0, 0, 0, 1, 2, 3]));
    assert_eq!(frame(&[]), Ok(vec![0, 0, 0, 0, 0, 0, 0, 0]));
    let long = vec![7u8; 0x0102];
    let framed = frame(&long).unwrap();
    assert_eq!(framed.len(), 8 + 0x0102);
    assert_eq!(&framed[..8], &[0x02, 0x01, 0, 0, 0, 0, 0, 0]);
    assert_eq!(&framed[8..], &long[..]);
}

#[test]
fn a_frame_agrees_with_the_encoder_of_the_length() {
    let payload = vec![9u8; 70000];
    let framed = frame(&payload).unwrap();
    let prefix = bincode::serialize(&(payload.len() as u64)).unwrap();
    assert_eq!(prefix.len(), 8);
    assert_eq!(&framed[..8], &prefix[..]);
    assert_eq!(&framed[..8], &(70000u64).to_le_bytes());
}

#[test]
fn framing_puts_the_given_prefix_in_front() {
    assert_eq!(frame_with(Ok(vec![2, 0]), &[5, 6]), Ok(vec![2, 0, 5, 6]));
    assert_eq!(frame_with(Ok(vec![]), &[]), Ok(vec![]));
}

#[test]
fn a_prefix_that_the_encoder_refused_is_an_encode_error() {
    assert_eq!(frame_with(Err(refused()), &[5, 6]), Err(FrameError::Encode));
}

#[test]
fn a_decoded_length_becomes_the_payload_length() {
    assert_eq!(length_from(Ok(0)), Ok(0));
    assert_eq!(length_from(Ok(513)), Ok(513));
    assert_eq!(length_from(Ok(usize::MAX as u64)), Ok(usize::MAX));
    assert_eq!(length_from(Err(refused())), Err(FrameError::Header));
}

#[test]
fn a_length_prefix_is_read_lowest_byte_first() {
    assert_eq!(read_length(&[3, 0, 0, 0, 0, 0, 0, 0]), Ok(3));
    assert_eq!(read_length(&[0x02, 0x01, 0, 0, 0, 0, 0, 0]), Ok(0x0102));
    assert_eq!(read_length(&[0, 0, 0, 0, 1, 0, 0, 0]), Ok(1 << 32));
    assert_eq!(read_length(&[0xff; 8]), Ok(usize::MAX));
    assert_eq!(read_length(&[0; 8]), Ok(0));
}

#[test]
fn a_length_prefix_of_the_wrong_size_is_malformed() {
    assert_eq!(read_length(&[]), Err(FrameError::Header));
    assert_eq!(read_length(&[3, 0, 0, 0, 0, 0, 0]), Err(FrameError::Header));
    assert_eq!(read_length(&[3, 0, 0, 0, 0, 0, 0, 0, 0]), Err(FrameError::Header));
}

#[test]
fn the_payload_is_taken_from_behind_the_prefix() {
    let bytes = [2, 0, 0, 0, 0, 0, 0, 0, 10, 11, 12];
    assert_eq!(take_payload(&bytes, 2), Ok((vec![10, 11], 10)));
    assert_eq!(take_payload(&bytes, 3), Ok((vec![10, 11, 12], 11)));
    assert_eq!(take_payload(&bytes, 0), Ok((vec![], 8)));
    assert_eq!(take_payload(&bytes, 4), Err(FrameError::Truncated));
    assert_eq!(take_payload(&bytes[..5], 0), Err(FrameError::Truncated));
    assert_eq!(take_payload(&bytes, usize::MAX), Err(FrameError::Truncated));
}

#[test]
fn the_first_frame_is_split_off_a_buffer() {
    let mut bytes = frame(&[1, 2, 3]).unwrap();
    bytes.extend(frame(&[4]).unwrap());
    let (first, used) = split_frame(&bytes).unwrap();
    assert_eq!(first, vec![1, 2, 3]);
    assert_eq!(used, 11);
    let (second, used) = split_frame(&bytes[used..]).unwrap();
    assert_eq!(second, vec![4]);
    assert_eq!(used, 9);
    assert_eq!(split_frame(&bytes[20..]), Err(FrameError::Truncated));
}

#[test]
fn a_frame_that_ends_early_is_truncated() {
    let bytes = frame(&[1, 2, 3]).unwrap();
    for cut in 0..bytes.len() {
        assert_eq!(split_frame(&bytes[..cut]), Err(FrameError::Truncated));
    }
    assert_eq!(split_frame(&[0xff; 8]), Err(FrameError::Truncated));
}

#[test]
fn framing_and_splitting_give_the_payload_back_byte_for_byte() {
    for size in [0usize, 1, 7, 8, 9, 255, 256, 1000] {
        let payload: Vec<u8> = (0..size).map(|k| (k * 31 % 251) as u8).collect();
        let framed = frame(&payload).unwrap();
        assert_eq!(framed.len(), 8 + size);
        assert_eq!(split_frame(&framed), Ok((payload, 8 + size)));
    }
}

#[test]
fn a_reader_asks_for_the_prefix_and_then_for_the_payload() {
    let mut reader = FrameReader::new();
    assert_eq!(reader.wanted(), 8);
    assert_eq!(reader.accept(&[3, 0, 0]), Ok(None));
    assert_eq!(reader.wanted(), 5);
    assert_eq!(reader.accept(&[0, 0, 0, 0, 0]), Ok(None));
    assert_eq!(reader.wanted(), 3);
    assert_eq!(reader.accept(&[7]), Ok(None));
    assert_eq!(reader.wanted(), 2);
    assert_eq!(reader.accept(&[8, 9]), Ok(Some(vec![7, 8, 9])));
    assert_eq!(reader.wanted(), 8);
}

#[test]
fn a_reader_hands_out_an_empty_payload_with_the_last_byte_of_the_prefix() {
    let mut reader = FrameReader::new();
    assert_eq!(reader.accept(&[0; 7]), Ok(None));
    assert_eq!(reader.wanted(), 1);
    assert_eq!(reader.accept(&[0]), Ok(Some(vec![])));
    assert_eq!(reader.wanted(), 8);
}

#[test]
fn a_reader_takes_an_empty_delivery_for_a_closed_stream() {
    let mut reader = FrameReader::new();
    assert_eq!(reader.accept(&[]), Err(FrameError::Closed));
    assert_eq!(reader.accept(&[2, 0, 0, 0]), Ok(None));
    assert_eq!(reader.accept(&[]), Err(FrameError::Closed));
    assert_eq!(reader.wanted(), 4);
    assert_eq!(reader.accept(&[0, 0, 0, 0]), Ok(None));
    assert_eq!(reader.accept(&[]), Err(FrameError::Closed));
    assert_eq!(reader.wanted(), 2);
    assert_eq!(reader.accept(&[5, 6]), Ok(Some(vec![5, 6])));
}

/// Feeds a stream to a reader in pieces of at most `piece` bytes, never
/// more than the reader wants.
fn read_all(stream: &[u8], piece: usize) -> Vec<Vec<u8>> {
    let mut reader = FrameReader::new();
    let mut payloads = Vec::new();
    let mut at = 0;
    while at < stream.len() {
        let n = reader.wanted().min(piece).min(stream.len() - at);
        if let Some(payload) = reader.accept(&stream[at..at + n]).unwrap() {
            payloads.push(payload);
        }
        at += n;
    }
    assert_eq!(reader.wanted(), 8);
    payloads
}

#[test]
fn a_reader_gives_the_same_payloads_however_the_stream_is_cut() {
    let messages: Vec<Vec<u8>> = vec![vec![1, 2, 3], vec![], vec![9; 300], vec![4], vec![]];
    let mut stream = Vec::new();
    for m in &messages {
        stream.extend(frame(m).unwrap());
    }
    for piece in [1, 2, 3, 5, 8, 13, 64, 1000] {
        assert_eq!(read_all(&stream, piece), messages);
    }
}

fn connection(state: ConnectionState) -> Connection {
    let mut c = Connection::new("ann".to_string());
    c.state = state;
    c
}

fn request(event_type: SnakeEventType, owner: &str) -> ConnectionInput {
    ConnectionInput::Request(SnakeEvent { event_type, event_owner: owner.to_string() })
}

fn forwarded(out: ConnectionOutput) -> (SnakeEventType, String) {
    match out {
        ConnectionOutput::Forward(e) => (e.event_type, e.event_owner),
        other => panic!("nothing was forwarded: {:?}", other),
    }
}

fn is_nothing(out: ConnectionOutput) -> bool {
    matches!(out, ConnectionOutput::Nothing)
}

/// Every kind of input, the requests in the name of `bob`.
fn inputs() -> Vec<ConnectionInput> {
    vec![
        ConnectionInput::Accepted,
        ConnectionInput::SnapshotReady,
        request(SnakeEventType::Movement(Direction::Up), "bob"),
        request(SnakeEventType::Signal(Signal::Connect), "bob"),
        request(SnakeEventType::Signal(Signal::Disconnect), "bob"),
        ConnectionInput::Failed,
        ConnectionInput::Released,
    ]
}

#[test]
fn a_new_connection_waits_to_be_accepted() {
    let c = Connection::new("ann".to_string());
    assert_eq!(c.state, ConnectionState::Connecting);
    assert_eq!(c.player, Some("ann".to_string()));
    assert!(!c.is_closed());
    assert!(!c.is_ending());
    let c = Connection::unnamed();
    assert_eq!(c.state, ConnectionState::Connecting);
    assert_eq!(c.player, None);
}

#[test]
fn an_accepted_connection_announces_its_player() {
    let mut c = Connection::new("ann".to_string());
    let out = c.handle(ConnectionInput::Accepted);
    assert_eq!(forwarded(out), (SnakeEventType::Signal(Signal::Connect), "ann".to_string()));
    assert_eq!(c.state, ConnectionState::Active);
    assert_eq!(c.player, Some("ann".to_string()));
}

#[test]
fn an_accepted_connection_without_a_player_is_active_and_silent() {
    let mut c = Connection::unnamed();
    assert!(is_nothing(c.handle(ConnectionInput::Accepted)));
    assert_eq!(c.state, ConnectionState::Active);
    assert_eq!(c.player, None);
    assert!(matches!(c.handle(ConnectionInput::SnapshotReady), ConnectionOutput::SendSnapshot));
}

#[test]
fn the_first_request_names_the_player_of_a_connection_without_one() {
    let mut c = Connection::unnamed();
    c.handle(ConnectionInput::Accepted);
    let out = c.handle(request(SnakeEventType::Signal(Signal::Connect), "bob"));
    assert_eq!(forwarded(out), (SnakeEventType::Signal(Signal::Connect), "bob".to_string()));
    assert_eq!(c.player, Some("bob".to_string()));
    assert_eq!(c.state, ConnectionState::Active);
    let out = c.handle(request(SnakeEventType::Movement(Direction::Up), "eve"));
    assert_eq!(forwarded(out), (SnakeEventType::Movement(Direction::Up), "bob".to_string()));
    assert_eq!(c.player, Some("bob".to_string()));
    let out = c.handle(ConnectionInput::Failed);
    assert_eq!(forwarded(out), (SnakeEventType::Signal(Signal::Disconnect), "bob".to_string()));
    assert_eq!(c.state, ConnectionState::Closing);
}

#[test]
fn a_connection_without_a_player_has_no_one_to_disconnect() {
    let mut c = Connection::unnamed();
    c.handle(ConnectionInput::Accepted);
    assert!(is_nothing(c.handle(ConnectionInput::Failed)));
    assert_eq!(c.state, ConnectionState::Closing);
    assert!(c.is_ending());
    assert_eq!(c.player, None);
}

#[test]
fn a_connection_that_fails_before_it_was_accepted_is_closed_in_silence() {
    let mut c = Connection::new("ann".to_string());
    assert!(is_nothing(c.handle(ConnectionInput::Failed)));
    assert_eq!(c.state, ConnectionState::Closed);
    assert!(c.is_closed());
}

#[test]
fn a_connecting_connection_ignores_everything_else() {
    for input in inputs() {
        if matches!(input, ConnectionInput::Accepted | ConnectionInput::Failed) {
            continue;
        }
        let mut c = Connection::unnamed();
        assert!(is_nothing(c.handle(input)));
        assert_eq!(c.state, ConnectionState::Connecting);
        assert_eq!(c.player, None);
    }
}

#[test]
fn an_active_connection_sends_each_snapshot() {
    let mut c = connection(ConnectionState::Active);
    assert!(matches!(c.handle(ConnectionInput::SnapshotReady), ConnectionOutput::SendSnapshot));
    assert_eq!(c.state, ConnectionState::Active);
}

#[test]
fn an_active_connection_forwards_requests_in_the_name_of_its_player() {
    let mut c = connection(ConnectionState::Active);
    for event_type in [
        SnakeEventType::Movement(Direction::Up),
        SnakeEventType::Movement(Direction::Stop),
        SnakeEventType::Signal(Signal::Connect),
    ] {
        let out = c.handle(request(event_type, "bob"));
        assert_eq!(forwarded(out), (event_type, "ann".to_string()));
        assert_eq!(c.state, ConnectionState::Active);
        assert_eq!(c.player, Some("ann".to_string()));
    }
}

#[test]
fn a_disconnect_request_is_forwarded_and_starts_the_closing() {
    let mut c = connection(ConnectionState::Active);
    let out = c.handle(request(SnakeEventType::Signal(Signal::Disconnect), "ann"));
    assert_eq!(forwarded(out), (SnakeEventType::Signal(Signal::Disconnect), "ann".to_string()));
    assert_eq!(c.state, ConnectionState::Closing);
}

#[test]
fn a_failure_makes_an_active_connection_disconnect_its_player() {
    let mut c = connection(ConnectionState::Active);
    let out = c.handle(ConnectionInput::Failed);
    assert_eq!(forwarded(out), (SnakeEventType::Signal(Signal::Disconnect), "ann".to_string()));
    assert_eq!(c.state, ConnectionState::Closing);
}

#[test]
fn an_active_connection_ignores_what_does_not_concern_it() {
    for input in [ConnectionInput::Accepted, ConnectionInput::Released] {
        let mut c = connection(ConnectionState::Active);
        assert!(is_nothing(c.handle(input)));
        assert_eq!(c.state, ConnectionState::Active);
    }
}

#[test]
fn a_closing_connection_is_silent_and_closes_when_released() {
    for input in inputs() {
        let released = matches!(input, ConnectionInput::Released);
        let mut c = connection(ConnectionState::Closing);
        assert!(is_nothing(c.handle(input)));
        if released {
            assert_eq!(c.state, ConnectionState::Closed);
        } else {
            assert_eq!(c.state, ConnectionState::Closing);
        }
        assert_eq!(c.player, Some("ann".to_string()));
    }
}

#[test]
fn a_closed_connection_stays_closed_and_silent() {
    for input in inputs() {
        let mut c = connection(ConnectionState::Closed);
        assert!(is_nothing(c.handle(input)));
        assert_eq!(c.state, ConnectionState::Closed);
        assert!(c.is_closed());
        assert!(c.is_ending());
    }
}

#[test]
fn a_whole_life_disconnects_the_player_exactly_once() {
    let mut c = Connection::new("ann".to_string());
    let script = vec![
        ConnectionInput::Accepted,
        ConnectionInput::SnapshotReady,
        request(SnakeEventType::Movement(Direction::Left), "ann"),
        ConnectionInput::Failed,
        ConnectionInput::Failed,
        request(SnakeEventType::Signal(Signal::Disconnect), "ann"),
        ConnectionInput::Released,
        ConnectionInput::Failed,
    ];
    let mut connects = 0;
    let mut disconnects = 0;
    for input in script {
        if let ConnectionOutput::Forward(e) = c.handle(input) {
            assert_eq!(e.event_owner, "ann");
            match e.event_type {
                SnakeEventType::Signal(Signal::Connect) => connects += 1,
                SnakeEventType::Signal(Signal::Disconnect) => disconnects += 1,
                _ => {}
            }
        }
    }
    assert_eq!((connects, disconnects), (1, 1));
    assert!(c.is_closed());
}

/// A snake as plain values that the encoder takes: name, id, body, head,
/// the two headings and the flag.
type PlainSnake = (String, u64, Vec<(i64, i64)>, (i64, i64), u32, u32, bool);

/// A whole game as plain values: the settings, the roster, the food and
/// the table column by column, a cell as its kind and its owner.
type PlainGame =
    ((u64, u64), u64, u64, bool, Vec<PlainSnake>, Vec<(i64, i64)>, Vec<Vec<(u32, u64)>>);

fn heading(d: Direction) -> u32 {
    match d {
        Direction::Up => 0,
        Direction::Left => 1,
        Direction::Down => 2,
        Direction::Right => 3,
        Direction::Stop => 4,
    }
}

fn heading_back(n: u32) -> Direction {
    [Direction::Up, Direction::Left, Direction::Down, Direction::Right, Direction::Stop][n as usize]
}

fn cell(c: Cell) -> (u32, u64) {
    match c {
        Cell::Void => (0, 0),
        Cell::Wall => (1, 0),
        Cell::Player(id) => (2, id as u64),
        Cell::Food => (3, 0),
        Cell::Empty => (4, 0),
    }
}

fn cell_back(c: (u32, u64)) -> Cell {
    match c.0 {
        0 => Cell::Void,
        1 => Cell::Wall,
        2 => Cell::Player(c.1 as usize),
        3 => Cell::Food,
        _ => Cell::Empty,
    }
}

fn pair(p: (isize, isize)) -> (i64, i64) {
    (p.0 as i64, p.1 as i64)
}

fn pair_back(p: (i64, i64)) -> (isize, isize) {
    (p.0 as isize, p.1 as isize)
}

fn plain(game: &Game) -> PlainGame {
    let (w, h) = game.cells.size();
    (
        (game.size.0 as u64, game.size.1 as u64),
        game.food_amount as u64,
        game.max_players as u64,
        game.teleport,
        game.snakes
            .iter()
            .map(|s| {
                (
                    s.name.clone(),
                    s.id as u64,
                    s.body.iter().map(|p| pair(*p)).collect(),
                    pair(s.head),
                    heading(s.direction),
                    heading(s.moved_from),
                    s.alive,
                )
            })
            .collect(),
        game.food.iter().map(|p| pair(*p)).collect(),
        (0..w as isize)
            .map(|x| (0..h as isize).map(|y| cell(game.cells.get_cell(x, y))).collect())
            .collect(),
    )
}

fn rebuilt(p: PlainGame) -> Game {
    let table = p.6;
    let width = table.len();
    let height = table.first().map_or(0, |column| column.len());
    let mut cells = CellManager::new(width, height);
    for (x, column) in table.into_iter().enumerate() {
        for (y, c) in column.into_iter().enumerate() {
            cells.set_cell(x as isize, y as isize, cell_back(c));
        }
    }
    Game {
        size: ((p.0).0 as usize, (p.0).1 as usize),
        food_amount: p.1 as usize,
        max_players: p.2 as usize,
        teleport: p.3,
        snakes: p
            .4
            .into_iter()
            .map(|s| Snake {
                name: s.0,
                id: s.1 as usize,
                body: s.2.into_iter().map(pair_back).collect(),
                head: pair_back(s.3),
                direction: heading_back(s.4),
                moved_from: heading_back(s.5),
                alive: s.6,
            })
            .collect(),
        food: p.5.into_iter().map(pair_back).collect(),
        cells,
    }
}

#[test]
fn a_snapshot_comes_out_of_the_wire_as_it_went_in() {
    let mut game = Game::new(7, 5, 3, 4, true);
    assert!(game.add_player_at("ann".to_string(), 1, 1));
    assert!(game.add_player_at("bob".to_string(), 5, 3));
    assert!(game.place_food(2, 1));
    assert!(game.place_food(0, 4));
    game.handle_events(SnakeEventType::Movement(Direction::Right), "ann".to_string());
    game.handle_events(SnakeEventType::Movement(Direction::Up), "bob".to_string());
    game.step();
    game.cells.set_cell(6, 0, Cell::Wall);
    let sent = plain(&game);

    let payload = bincode::serialize(&sent).unwrap();
    let mut stream = frame(&payload).unwrap();
    stream.extend(frame(&payload).unwrap());
    let received = read_all(&stream, 11);
    assert_eq!(received.len(), 2);
    assert_eq!(received[0], payload);
    assert_eq!(received[1], payload);
    let back: PlainGame = bincode::deserialize(&received[0]).unwrap();
    assert_eq!(back, sent);

    let copy = rebuilt(back);
    assert!(copy.is_wf());
    assert_eq!(copy.size, (7, 5));
    assert_eq!(copy.food_amount, 3);
    assert_eq!(copy.max_players, 4);
    assert!(copy.teleport);
    assert_eq!(copy.food, vec![(0, 4)]);
    assert_eq!(copy.snakes.len(), 2);
    let ann = copy.get_snake("ann".to_string()).unwrap();
    assert_eq!(ann.id, 0);
    assert_eq!(ann.body, vec![(2, 1), (1, 1)]);
    assert_eq!(ann.head, (2, 1));
    assert_eq!(ann.direction, Direction::Right);
    assert_eq!(ann.moved_from, Direction::Left);
    let bob = copy.get_snake("bob".to_string()).unwrap();
    assert_eq!(bob.body, vec![(5, 2)]);
    assert_eq!(bob.moved_from, Direction::Down);
    for x in -1..8 {
        for y in -1..6 {
            assert_eq!(copy.cells.get_cell(x, y), game.cells.get_cell(x, y));
        }
    }
    assert_eq!(plain(&copy), sent);
}
