use sokoban::Game;
use sokoban::Position;

#[test]
fn new_game_is_empty() {
    let game = Game::new();
    assert_eq!(game.world.len(), 0);
    assert_eq!(game.input_queue.keys_pressed.len(), 0);
}

#[test]
fn create_wall_attaches_wall_components() {
    let mut game = Game::new();
    game.create_wall(Position { x: 2, y: 3, z: 0 });
    assert_eq!(game.world.len(), 1);
    let e = &game.world[0];
    assert_eq!((e.position.x, e.position.y, e.position.z), (2, 3, 10));
    assert_eq!(e.renderable.path, "/wall.png");
    assert!(e.wall && e.immovable);
    assert!(!e.player && !e.is_box && !e.box_spot && !e.movable);
}

#[test]
fn create_floor_attaches_no_tags() {
    let mut game = Game::new();
    game.create_floor(Position { x: 7, y: 1, z: 42 });
    let e = &game.world[0];
    assert_eq!((e.position.x, e.position.y, e.position.z), (7, 1, 5));
    assert_eq!(e.renderable.path, "/floor.png");
    assert!(!e.wall && !e.player && !e.is_box && !e.box_spot && !e.movable && !e.immovable);
}

#[test]
fn create_box_is_movable() {
    let mut game = Game::new();
    game.create_box(Position { x: 0, y: 0, z: 0 });
    let e = &game.world[0];
    assert_eq!(e.position.z, 10);
    assert_eq!(e.renderable.path, "/box.png");
    assert!(e.is_box && e.movable && !e.immovable && !e.wall);
}

#[test]
fn create_box_spot_sits_between_layers() {
    let mut game = Game::new();
    game.create_box_spot(Position { x: 4, y: 4, z: 0 });
    let e = &game.world[0];
    assert_eq!(e.position.z, 9);
    assert_eq!(e.renderable.path, "/box_spot.png");
    assert!(e.box_spot && !e.movable && !e.immovable);
}

#[test]
fn create_player_is_movable() {
    let mut game = Game::new();
    game.create_player(Position { x: 1, y: 2, z: 0 });
    let e = &game.world[0];
    assert_eq!((e.position.x, e.position.y, e.position.z), (1, 2, 10));
    assert_eq!(e.renderable.path, "/player.png");
    assert!(e.player && e.movable && !e.immovable);
}

#[test]
fn renderables_pairs_every_entity() {
    let mut game = Game::new();
    game.create_floor(Position { x: 0, y: 0, z: 0 });
    game.create_player(Position { x: 1, y: 0, z: 0 });
    let pairs = game.renderables();
    assert_eq!(pairs.len(), 2);
    assert_eq!(pairs[0].0, "/floor.png");
    assert_eq!((pairs[0].1.x, pairs[0].1.y, pairs[0].1.z), (0, 0, 5));
    assert_eq!(pairs[1].0, "/player.png");
    assert_eq!((pairs[1].1.x, pairs[1].1.y, pairs[1].1.z), (1, 0, 10));
}
