use sokoban::level::load_level;
use sokoban::level::initialize_level;
use sokoban::Game;
use sokoban::GameError;

fn load(map: &str) -> Result<Game, GameError> {
    let mut game = Game::new();
    load_level(&mut game, map.to_string()).map(|_| game)
}

#[test]
fn load_simple_floor() {
    let game = load(".").unwrap();
    assert_eq!(game.world.len(), 1);
    let e = &game.world[0];
    assert_eq!((e.position.x, e.position.y, e.position.z), (0, 0, 5));
    assert_eq!(e.renderable.path, "/floor.png");
    assert!(!e.wall && !e.player && !e.is_box && !e.box_spot && !e.movable && !e.immovable);
}

#[test]
fn load_wall_entity_fields() {
    let game = load("W").unwrap();
    assert_eq!(game.world.len(), 2);
    let floor = &game.world[0];
    let wall = &game.world[1];
    assert_eq!((floor.position.x, floor.position.y, floor.position.z), (0, 0, 5));
    assert_eq!((wall.position.x, wall.position.y, wall.position.z), (0, 0, 10));
    assert_eq!(wall.renderable.path, "/wall.png");
    assert!(wall.wall && wall.immovable && !wall.movable && !wall.player);
}

#[test]
fn every_wall_has_colocated_floor() {
    let game = load("W W W\nW . W\nW P W\nW W W").unwrap();
    for e in &game.world {
        if e.wall {
            let found = game.world.iter().any(|f| {
                !f.wall && !f.player && !f.is_box && !f.box_spot
                    && f.position.x == e.position.x && f.position.y == e.position.y
                    && f.position.z == 5
            });
            assert!(found, "wall without a co-located floor");
        }
    }
}

#[test]
fn unknown_token_rejected() {
    let mut game = Game::new();
    let r = load_level(&mut game, "W X".to_string());
    assert_eq!(r, Err(GameError::MapFormatError));
    assert_eq!(game.world.len(), 0);
}

#[test]
fn bad_token_creates_no_entities() {
    let mut game = Game::new();
    let r = load_level(&mut game, "W W\n. Q\nW W".to_string());
    assert_eq!(r, Err(GameError::MapFormatError));
    assert_eq!(game.world.len(), 0);
    assert_eq!(game.input_queue.keys_pressed.len(), 0);
}

#[test]
fn multichar_token_rejected() {
    assert!(matches!(load("WW"), Err(GameError::MapFormatError)));
}

#[test]
fn double_space_rejected() {
    assert!(matches!(load("W  W"), Err(GameError::MapFormatError)));
}

#[test]
fn empty_map_rejected() {
    assert!(matches!(load(""), Err(GameError::MapFormatError)));
}

#[test]
fn n_token_creates_nothing() {
    let game = load("N N\nN P").unwrap();
    assert_eq!(game.world.len(), 2);
    assert!(game.world.iter().any(|e| e.player && e.position.x == 1 && e.position.y == 1));
}

#[test]
fn grid_positions_and_layers() {
    let game = load(". W B\nS P .").unwrap();
    assert_eq!(game.world.len(), 10);
    let wall = game.world.iter().find(|e| e.wall).unwrap();
    assert_eq!((wall.position.x, wall.position.y, wall.position.z), (1, 0, 10));
    let boxe = game.world.iter().find(|e| e.is_box).unwrap();
    assert_eq!((boxe.position.x, boxe.position.y, boxe.position.z), (2, 0, 10));
    assert_eq!(boxe.renderable.path, "/box.png");
    assert!(boxe.movable && !boxe.immovable);
    let spot = game.world.iter().find(|e| e.box_spot).unwrap();
    assert_eq!((spot.position.x, spot.position.y, spot.position.z), (0, 1, 9));
    assert_eq!(spot.renderable.path, "/box_spot.png");
    let player = game.world.iter().find(|e| e.player).unwrap();
    assert_eq!((player.position.x, player.position.y, player.position.z), (1, 1, 10));
    assert_eq!(player.renderable.path, "/player.png");
    assert!(player.movable);
    assert_eq!(game.world.iter().filter(|e| e.position.z == 5).count(), 6);
}

#[test]
fn surrounding_whitespace_insignificant() {
    let game = load("  \n\n   W  \n\n  ").unwrap();
    assert_eq!(game.world.len(), 2);
    assert!(game.world[1].wall);
    assert_eq!((game.world[1].position.x, game.world[1].position.y), (0, 0));
}

#[test]
fn load_appends_to_existing_world() {
    let mut game = Game::new();
    load_level(&mut game, ".".to_string()).unwrap();
    load_level(&mut game, "W".to_string()).unwrap();
    assert_eq!(game.world.len(), 3);
}

#[test]
fn initialize_level_populates_the_world() {
    let mut game = Game::new();
    initialize_level(&mut game).unwrap();
    assert_eq!(game.world.len(), 103);
    assert_eq!(game.world.iter().filter(|e| e.position.z == 5).count(), 70);
    assert_eq!(game.world.iter().filter(|e| e.wall).count(), 30);
    assert_eq!(game.world.iter().filter(|e| e.player).count(), 1);
    let player = game.world.iter().find(|e| e.player).unwrap();
    assert_eq!((player.position.x, player.position.y), (2, 4));
    let boxe = game.world.iter().find(|e| e.is_box).unwrap();
    assert_eq!((boxe.position.x, boxe.position.y), (4, 2));
    let spot = game.world.iter().find(|e| e.box_spot).unwrap();
    assert_eq!((spot.position.x, spot.position.y), (3, 6));
}
