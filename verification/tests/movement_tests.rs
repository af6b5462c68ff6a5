use sokoban::level::load_level;
use sokoban::systems::player_move;
use sokoban::Direction;
use sokoban::Game;
use sokoban::GameError;

fn load(map: &str) -> Game {
    let mut game = Game::new();
    load_level(&mut game, map.to_string()).unwrap();
    game
}

fn player_pos(game: &Game) -> (i32, i32, i32) {
    let e = game.world.iter().find(|e| e.player).expect("player entity");
    (e.position.x, e.position.y, e.position.z)
}

#[test]
fn empty_queue_is_a_no_op() {
    let mut game = load("W W W\nW P W\nW W W");
    let before = player_pos(&game);
    assert!(game.tick().is_ok());
    assert_eq!(player_pos(&game), before);
    assert!(game.tick().is_ok());
    assert_eq!(player_pos(&game), before);
}

#[test]
fn boxed_player_stays_whatever_the_direction() {
    for d in [Direction::Up, Direction::Down, Direction::Left, Direction::Right] {
        let mut game = load("W W W\nW P W\nW W W");
        game.input_queue.keys_pressed.push(d);
        assert!(game.tick().is_ok());
        assert_eq!(player_pos(&game), (1, 1, 10));
        assert_eq!(game.input_queue.keys_pressed.len(), 0);
    }
}

#[test]
fn up_moves_into_the_free_cell() {
    let mut game = load("W W W\nW . W\nW P W\nW W W");
    assert_eq!(player_pos(&game), (1, 2, 10));
    game.input_queue.keys_pressed.push(Direction::Up);
    assert!(game.tick().is_ok());
    assert_eq!(player_pos(&game), (1, 1, 10));
}

#[test]
fn free_moves_are_exactly_one_unit_delta() {
    let cases = [
        (Direction::Up, (5, 4)),
        (Direction::Down, (5, 6)),
        (Direction::Left, (4, 5)),
        (Direction::Right, (6, 5)),
    ];
    for (d, expected) in cases {
        let mut game = Game::new();
        game.create_player(sokoban::Position { x: 5, y: 5, z: 0 });
        game.input_queue.keys_pressed.push(d);
        assert!(game.tick().is_ok());
        let (x, y, z) = player_pos(&game);
        assert_eq!((x, y), expected);
        assert_eq!(z, 10);
    }
}

#[test]
fn four_directions_round_trip() {
    let mut game = Game::new();
    game.create_player(sokoban::Position { x: 3, y: 3, z: 0 });
    // LIFO: pushing Right, Left, Down, Up makes the ticks apply
    // Up, Down, Left, Right in that order.
    for d in [Direction::Right, Direction::Left, Direction::Down, Direction::Up] {
        game.input_queue.keys_pressed.push(d);
    }
    for _ in 0..4 {
        assert!(game.tick().is_ok());
    }
    assert_eq!(player_pos(&game), (3, 3, 10));
}

#[test]
fn most_recent_input_is_processed_first() {
    let mut game = Game::new();
    game.create_player(sokoban::Position { x: 5, y: 5, z: 0 });
    game.input_queue.keys_pressed.push(Direction::Up);
    game.input_queue.keys_pressed.push(Direction::Left);
    assert!(game.tick().is_ok());
    // The first drain pops Left, not Up.
    assert_eq!(player_pos(&game), (4, 5, 10));
    assert_eq!(game.input_queue.keys_pressed, vec![Direction::Up]);
    assert!(game.tick().is_ok());
    assert_eq!(player_pos(&game), (4, 4, 10));
    assert_eq!(game.input_queue.keys_pressed.len(), 0);
}

#[test]
fn missing_player_is_an_error() {
    let mut game = load("W .");
    assert_eq!(game.tick(), Err(GameError::MissingPlayerError));
    game.input_queue.keys_pressed.push(Direction::Up);
    assert_eq!(game.tick(), Err(GameError::MissingPlayerError));
    assert_eq!(game.input_queue.keys_pressed.len(), 1);
}

#[test]
fn collision_depends_on_the_destination_only() {
    // A wall to the left; left is rejected, down commits.
    let mut game = load("W P .\n. . .");
    game.input_queue.keys_pressed.push(Direction::Left);
    assert!(game.tick().is_ok());
    assert_eq!(player_pos(&game), (1, 0, 10));
    game.input_queue.keys_pressed.push(Direction::Down);
    assert!(game.tick().is_ok());
    assert_eq!(player_pos(&game), (1, 1, 10));
}

#[test]
fn rejected_move_still_consumes_the_input() {
    let mut game = load("W W W\nW P W\nW W W");
    game.input_queue.keys_pressed.push(Direction::Up);
    assert!(game.tick().is_ok());
    assert_eq!(game.input_queue.keys_pressed.len(), 0);
}

#[test]
fn walls_do_not_move_when_the_player_does() {
    let mut game = load("W W W\nW . W\nW P W\nW W W");
    let walls_before: Vec<(i32, i32)> = game
        .world
        .iter()
        .filter(|e| e.wall)
        .map(|e| (e.position.x, e.position.y))
        .collect();
    game.input_queue.keys_pressed.push(Direction::Up);
    assert!(game.tick().is_ok());
    let walls_after: Vec<(i32, i32)> = game
        .world
        .iter()
        .filter(|e| e.wall)
        .map(|e| (e.position.x, e.position.y))
        .collect();
    assert_eq!(walls_before, walls_after);
}

#[test]
fn player_move_runs_on_bare_world_and_queue() {
    let mut world = vec![sokoban::player_entity(0, 0), sokoban::wall_entity(1, 0)];
    let mut keys = sokoban::InputQueue { keys_pressed: vec![Direction::Right] };
    assert!(player_move(&mut world, &mut keys).is_ok());
    // Blocked by the wall at (1, 0).
    assert_eq!((world[0].position.x, world[0].position.y), (0, 0));
    let mut keys = sokoban::InputQueue { keys_pressed: vec![Direction::Down] };
    assert!(player_move(&mut world, &mut keys).is_ok());
    assert_eq!((world[0].position.x, world[0].position.y), (0, 1));
}
