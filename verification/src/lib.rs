//! A minimal grid-based Sokoban core: an entity store of tagged components,
//! a textual level loader, and a per-tick movement/collision system.
//!
//! Entities are rows of a sparse component table: every entity carries a
//! `Position` and a `Renderable`, and a set of boolean tag components
//! (Wall, Player, Box, BoxSpot, Movable, Immovable). The loader populates
//! the store from a whitespace-delimited map text; the movement system
//! resolves at most one player move per tick against the Wall tags.

use vstd::prelude::*;

pub mod level;
pub mod systems;

verus! {

/// Grid coordinates plus a draw-order layer. `x` grows rightward, `y`
/// downward from the top-left origin; `z` is only a draw priority
/// (floor = 5, box spot = 9, wall/box/player = 10) and never affects movement.
#[derive(Clone, Copy, Debug, PartialEq, Eq, Structural)]
pub struct Position {
    pub x: i32,
    pub y: i32,
    pub z: i32,
}

/// An opaque asset reference, immutable after creation.
#[derive(Clone, Debug)]
pub struct Renderable {
    pub path: String,
}

/// A directional input token. Only these four are ever enqueued; other
/// keys are discarded by the input collaborator before they reach the core.
#[derive(Clone, Copy, Debug, PartialEq, Eq, Structural)]
pub enum Direction {
    Up,
    Down,
    Left,
    Right,
}

/// The ordered buffer of pending directional inputs. The producer appends
/// at the tail; the movement system pops from the tail, so the most
/// recently pressed key is processed first (a deliberate LIFO policy).
pub struct InputQueue {
    pub keys_pressed: Vec<Direction>,
}

impl View for InputQueue {
    type V = Seq<Direction>;

    open spec fn view(&self) -> Seq<Direction> {
        self.keys_pressed@
    }
}

/// The fatal errors of the core. Collision rejection is not an error:
/// a denied move is a normal branch outcome that leaves state unchanged.
#[derive(Clone, Copy, Debug, PartialEq, Eq, Structural)]
pub enum GameError {
    /// An unrecognized map token; the level is rejected, no entities are created.
    MapFormatError,
    /// No Player-tagged entity exists when the movement system runs.
    MissingPlayerError,
}

/// One entity: an identity owning an open bag of components. The tag
/// components are zero-data markers, stored here as presence flags.
#[derive(Clone, Debug)]
pub struct Entity {
    pub position: Position,
    pub renderable: Renderable,
    pub wall: bool,
    pub player: bool,
    pub is_box: bool,
    pub box_spot: bool,
    pub movable: bool,
    pub immovable: bool,
}

/// The mathematical model of an entity: plain integers for the position,
/// a character sequence for the asset path, and the tag flags.
#[verifier::ext_equal]
pub ghost struct EntityModel {
    pub x: int,
    pub y: int,
    pub z: int,
    pub path: Seq<char>,
    pub wall: bool,
    pub player: bool,
    pub is_box: bool,
    pub box_spot: bool,
    pub movable: bool,
    pub immovable: bool,
}

impl View for Entity {
    type V = EntityModel;

    open spec fn view(&self) -> EntityModel {
        EntityModel {
            x: self.position.x as int,
            y: self.position.y as int,
            z: self.position.z as int,
            path: self.renderable.path@,
            wall: self.wall,
            player: self.player,
            is_box: self.is_box,
            box_spot: self.box_spot,
            movable: self.movable,
            immovable: self.immovable,
        }
    }
}

/// The model of a whole entity store, in creation order.
pub open spec fn models(w: Seq<Entity>) -> Seq<EntityModel> {
    w.map_values(|e: Entity| e@)
}

pub open spec fn wall_model(x: int, y: int) -> EntityModel {
    EntityModel {
        x,
        y,
        z: 10,
        path: "/wall.png"@,
        wall: true,
        player: false,
        is_box: false,
        box_spot: false,
        movable: false,
        immovable: true,
    }
}

pub open spec fn floor_model(x: int, y: int) -> EntityModel {
    EntityModel {
        x,
        y,
        z: 5,
        path: "/floor.png"@,
        wall: false,
        player: false,
        is_box: false,
        box_spot: false,
        movable: false,
        immovable: false,
    }
}

pub open spec fn box_model(x: int, y: int) -> EntityModel {
    EntityModel {
        x,
        y,
        z: 10,
        path: "/box.png"@,
        wall: false,
        player: false,
        is_box: true,
        box_spot: false,
        movable: true,
        immovable: false,
    }
}

pub open spec fn box_spot_model(x: int, y: int) -> EntityModel {
    EntityModel {
        x,
        y,
        z: 9,
        path: "/box_spot.png"@,
        wall: false,
        player: false,
        is_box: false,
        box_spot: true,
        movable: false,
        immovable: false,
    }
}

pub open spec fn player_model(x: int, y: int) -> EntityModel {
    EntityModel {
        x,
        y,
        z: 10,
        path: "/player.png"@,
        wall: false,
        player: true,
        is_box: false,
        box_spot: false,
        movable: true,
        immovable: false,
    }
}

/// The game controller: it exclusively owns the entity store for the
/// process lifetime and the input queue shared with the input collaborator.
pub struct Game {
    pub world: Vec<Entity>,
    pub input_queue: InputQueue,
}

impl Game {
    /// A fresh game: no entities, no pending inputs.
    pub fn new() -> (game: Game)
        ensures
            game.world@.len() == 0,
            game.input_queue@.len() == 0,
    {
        Game { world: Vec::new(), input_queue: InputQueue { keys_pressed: Vec::new() } }
    }

    /// The render sequence read by the rendering collaborator after each
    /// tick: one `(asset path, position)` pair for every entity carrying
    /// both Renderable and Position — here, every entity — in store order.
    pub fn renderables(&self) -> (r: Vec<(String, Position)>)
        ensures
            r@.len() == self.world@.len(),
            forall|i: int|
                0 <= i < r@.len() ==> r@[i].0@ == self.world@[i]@.path && r@[i].1
                    == self.world@[i].position,
    {
        let mut r: Vec<(String, Position)> = Vec::new();
        let mut i: usize = 0;
        while i < self.world.len()
            invariant
                0 <= i <= self.world@.len(),
                r@.len() == i,
                forall|j: int|
                    0 <= j < i ==> r@[j].0@ == self.world@[j]@.path && r@[j].1
                        == self.world@[j].position,
            decreases self.world@.len() - i,
        {
            let path = self.world[i].renderable.path.clone();
            let pos = self.world[i].position;
            r.push((path, pos));
            i += 1;
        }
        r
    }

    /// Creates a Wall entity (Position, Renderable, Wall, Immovable) at the
    /// cell of `position`, on draw layer 10.
    pub fn create_wall(&mut self, position: Position)
        ensures
            models(final(self).world@) == models(old(self).world@).push(
                wall_model(position.x as int, position.y as int),
            ),
            final(self).input_queue == old(self).input_queue,
    {
        let e = wall_entity(position.x, position.y);
        self.world.push(e);
        proof {
            assert(models(self.world@) =~= models(old(self).world@).push(e@));
        }
    }

    /// Creates a Floor entity (Position, Renderable only) at the cell of
    /// `position`, on draw layer 5.
    pub fn create_floor(&mut self, position: Position)
        ensures
            models(final(self).world@) == models(old(self).world@).push(
                floor_model(position.x as int, position.y as int),
            ),
            final(self).input_queue == old(self).input_queue,
    {
        let e = floor_entity(position.x, position.y);
        self.world.push(e);
        proof {
            assert(models(self.world@) =~= models(old(self).world@).push(e@));
        }
    }

    /// Creates a Box entity (Position, Renderable, Box, Movable) at the cell
    /// of `position`, on draw layer 10.
    pub fn create_box(&mut self, position: Position)
        ensures
            models(final(self).world@) == models(old(self).world@).push(
                box_model(position.x as int, position.y as int),
            ),
            final(self).input_queue == old(self).input_queue,
    {
        let e = box_entity(position.x, position.y);
        self.world.push(e);
        proof {
            assert(models(self.world@) =~= models(old(self).world@).push(e@));
        }
    }

    /// Creates a BoxSpot entity (Position, Renderable, BoxSpot) at the cell
    /// of `position`, on draw layer 9.
    pub fn create_box_spot(&mut self, position: Position)
        ensures
            models(final(self).world@) == models(old(self).world@).push(
                box_spot_model(position.x as int, position.y as int),
            ),
            final(self).input_queue == old(self).input_queue,
    {
        let e = box_spot_entity(position.x, position.y);
        self.world.push(e);
        proof {
            assert(models(self.world@) =~= models(old(self).world@).push(e@));
        }
    }

    /// Creates a Player entity (Position, Renderable, Player, Movable) at the
    /// cell of `position`, on draw layer 10.
    pub fn create_player(&mut self, position: Position)
        ensures
            models(final(self).world@) == models(old(self).world@).push(
                player_model(position.x as int, position.y as int),
            ),
            final(self).input_queue == old(self).input_queue,
    {
        let e = player_entity(position.x, position.y);
        self.world.push(e);
        proof {
            assert(models(self.world@) =~= models(old(self).world@).push(e@));
        }
    }
}

/// The Wall entity value for a cell.
pub fn wall_entity(x: i32, y: i32) -> (e: Entity)
    ensures
        e@ == wall_model(x as int, y as int),
{
    Entity {
        position: Position { x, y, z: 10 },
        renderable: Renderable { path: String::from_str("/wall.png") },
        wall: true,
        player: false,
        is_box: false,
        box_spot: false,
        movable: false,
        immovable: true,
    }
}

/// The Floor entity value for a cell.
pub fn floor_entity(x: i32, y: i32) -> (e: Entity)
    ensures
        e@ == floor_model(x as int, y as int),
{
    Entity {
        position: Position { x, y, z: 5 },
        renderable: Renderable { path: String::from_str("/floor.png") },
        wall: false,
        player: false,
        is_box: false,
        box_spot: false,
        movable: false,
        immovable: false,
    }
}

/// The Box entity value for a cell.
pub fn box_entity(x: i32, y: i32) -> (e: Entity)
    ensures
        e@ == box_model(x as int, y as int),
{
    Entity {
        position: Position { x, y, z: 10 },
        renderable: Renderable { path: String::from_str("/box.png") },
        wall: false,
        player: false,
        is_box: true,
        box_spot: false,
        movable: true,
        immovable: false,
    }
}

/// The BoxSpot entity value for a cell.
pub fn box_spot_entity(x: i32, y: i32) -> (e: Entity)
    ensures
        e@ == box_spot_model(x as int, y as int),
{
    Entity {
        position: Position { x, y, z: 9 },
        renderable: Renderable { path: String::from_str("/box_spot.png") },
        wall: false,
        player: false,
        is_box: false,
        box_spot: true,
        movable: false,
        immovable: false,
    }
}

/// The Player entity value for a cell.
pub fn player_entity(x: i32, y: i32) -> (e: Entity)
    ensures
        e@ == player_model(x as int, y as int),
{
    Entity {
        position: Position { x, y, z: 10 },
        renderable: Renderable { path: String::from_str("/player.png") },
        wall: false,
        player: true,
        is_box: false,
        box_spot: false,
        movable: true,
        immovable: false,
    }
}

} // verus!
