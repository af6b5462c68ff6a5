//! The movement/collision system: the single per-tick logic unit. It pops
//! the most recently queued direction (LIFO), computes the player's
//! candidate destination, and commits the move unless a Wall occupies it.

use vstd::prelude::*;

use crate::Direction;
use crate::Entity;
use crate::EntityModel;
use crate::Game;
use crate::GameError;
use crate::InputQueue;
use crate::models;

verus! {

/// The horizontal component of a direction's unit delta.
pub open spec fn delta_x(d: Direction) -> int {
    match d {
        Direction::Left => -1,
        Direction::Right => 1,
        _ => 0,
    }
}

/// The vertical component of a direction's unit delta (y grows downward).
pub open spec fn delta_y(d: Direction) -> int {
    match d {
        Direction::Up => -1,
        Direction::Down => 1,
        _ => 0,
    }
}

/// Whether some entity carries the Player tag.
pub open spec fn has_player(w: Seq<EntityModel>) -> bool {
    exists|i: int| 0 <= i < w.len() && w[i].player
}

/// The index of the first Player-tagged entity.
pub open spec fn player_index(w: Seq<EntityModel>) -> int
    decreases w.len(),
{
    if w.len() == 0 {
        0
    } else if w[0].player {
        0
    } else {
        1 + player_index(w.drop_first())
    }
}

/// Whether a Wall-tagged entity occupies cell `(x, y)` (z is ignored).
pub open spec fn wall_at(w: Seq<EntityModel>, x: int, y: int) -> bool {
    exists|i: int| 0 <= i < w.len() && w[i].wall && w[i].x == x && w[i].y == y
}

/// One tick of the movement system with direction `d` already popped:
/// the player moves to its candidate destination unless a Wall occupies
/// that cell, in which case the world is unchanged.
pub open spec fn apply_move(w: Seq<EntityModel>, d: Direction) -> Seq<EntityModel>
    recommends
        has_player(w),
{
    let pi = player_index(w);
    let p = w[pi];
    let nx = p.x + delta_x(d);
    let ny = p.y + delta_y(d);
    if wall_at(w, nx, ny) {
        w
    } else {
        w.update(pi, EntityModel { x: nx, y: ny, ..p })
    }
}

/// The coordinates of the first player leave room for a unit step in
/// either axis without leaving `i32`.
pub open spec fn player_step_fits(w: Seq<EntityModel>) -> bool {
    let p = w[player_index(w)];
    i32::MIN < p.x < i32::MAX && i32::MIN < p.y < i32::MAX
}

proof fn lemma_player_index_props(w: Seq<EntityModel>)
    requires
        has_player(w),
    ensures
        0 <= player_index(w) < w.len(),
        w[player_index(w)].player,
        forall|j: int| 0 <= j < player_index(w) ==> !w[j].player,
    decreases w.len(),
{
    if w.len() == 0 {
    } else if w[0].player {
    } else {
        let i = choose|i: int| 0 <= i < w.len() && w[i].player;
        assert(w.drop_first()[i - 1].player);
        lemma_player_index_props(w.drop_first());
        assert forall|j: int| 0 <= j < player_index(w) implies !w[j].player by {
            if j > 0 {
                assert(!w.drop_first()[j - 1].player);
            }
        }
    }
}

proof fn lemma_player_index_first(w: Seq<EntityModel>, i: int)
    requires
        0 <= i < w.len(),
        w[i].player,
        forall|j: int| 0 <= j < i ==> !w[j].player,
    ensures
        player_index(w) == i,
{
    assert(has_player(w));
    lemma_player_index_props(w);
    let pi = player_index(w);
    if pi < i {
        assert(!w[pi].player);
    }
    if i < pi {
        assert(!w[i].player);
    }
}

proof fn lemma_player_index_update(w: Seq<EntityModel>, p1: EntityModel)
    requires
        has_player(w),
        p1.player,
    ensures
        has_player(w.update(player_index(w), p1)),
        player_index(w.update(player_index(w), p1)) == player_index(w),
{
    lemma_player_index_props(w);
    let pi = player_index(w);
    let w1 = w.update(pi, p1);
    assert(w1[pi].player);
    assert(forall|j: int| 0 <= j < pi ==> !w1[j].player);
    lemma_player_index_first(w1, pi);
}

proof fn lemma_wall_at_player_update(w: Seq<EntityModel>, pi: int, p1: EntityModel, x: int, y: int)
    requires
        0 <= pi < w.len(),
        !w[pi].wall,
        !p1.wall,
    ensures
        wall_at(w.update(pi, p1), x, y) == wall_at(w, x, y),
{
    let w1 = w.update(pi, p1);
    if wall_at(w, x, y) {
        let i = choose|i: int| 0 <= i < w.len() && w[i].wall && w[i].x == x && w[i].y == y;
        assert(w1[i].wall && w1[i].x == x && w1[i].y == y);
    }
    if wall_at(w1, x, y) {
        let i = choose|i: int| 0 <= i < w1.len() && w1[i].wall && w1[i].x == x && w1[i].y == y;
        assert(w[i].wall && w[i].x == x && w[i].y == y);
    }
}

/// A tick whose candidate destination coincides with a Wall's position
/// leaves the world unchanged, whichever direction caused the collision.
pub proof fn lemma_collision_rejected(w: Seq<EntityModel>, d: Direction)
    requires
        has_player(w),
        wall_at(
            w,
            w[player_index(w)].x + delta_x(d),
            w[player_index(w)].y + delta_y(d),
        ),
    ensures
        apply_move(w, d) == w,
{
}

/// A tick whose candidate destination is free of Walls moves the player
/// exactly one unit delta, leaving its draw layer, its tags, and every
/// other entity unchanged.
pub proof fn lemma_free_move(w: Seq<EntityModel>, d: Direction)
    requires
        has_player(w),
        !wall_at(
            w,
            w[player_index(w)].x + delta_x(d),
            w[player_index(w)].y + delta_y(d),
        ),
    ensures
        apply_move(w, d).len() == w.len(),
        apply_move(w, d)[player_index(w)] == (EntityModel {
            x: w[player_index(w)].x + delta_x(d),
            y: w[player_index(w)].y + delta_y(d),
            ..w[player_index(w)]
        }),
        forall|j: int| 0 <= j < w.len() && j != player_index(w) ==> apply_move(w, d)[j] == w[j],
{
    lemma_player_index_props(w);
}

/// Round trip: from a cell where the player's own cell, the cell above,
/// and the cell to the left are all free of Walls, applying the four
/// directions Up, Down, Left, Right in sequence returns the world to
/// exactly its original state.
pub proof fn lemma_round_trip(w: Seq<EntityModel>)
    requires
        has_player(w),
        !wall_at(w, w[player_index(w)].x, w[player_index(w)].y),
        !wall_at(w, w[player_index(w)].x, w[player_index(w)].y - 1),
        !wall_at(w, w[player_index(w)].x - 1, w[player_index(w)].y),
    ensures
        apply_move(apply_move(apply_move(apply_move(w, Direction::Up), Direction::Down), Direction::Left), Direction::Right) == w,
{
    lemma_player_index_props(w);
    let pi = player_index(w);
    let p = w[pi];
    assert(!p.wall);

    // Up commits: the cell above is free.
    let p_up = EntityModel { x: p.x, y: p.y - 1, ..p };
    let w1 = w.update(pi, p_up);
    assert(apply_move(w, Direction::Up) == w1);
    lemma_player_index_update(w, p_up);

    // Down commits: the candidate is the original cell, which is free.
    lemma_wall_at_player_update(w, pi, p_up, p.x, p.y);
    let w2 = apply_move(w1, Direction::Down);
    assert(w2 == w1.update(pi, EntityModel { x: p.x, y: p.y, ..p_up }));
    assert(w2 =~= w);

    // Left commits: the cell to the left is free.
    let p_left = EntityModel { x: p.x - 1, y: p.y, ..p };
    let w3 = apply_move(w2, Direction::Left);
    assert(w3 == w.update(pi, p_left));
    lemma_player_index_update(w, p_left);

    // Right commits: the candidate is again the original cell.
    lemma_wall_at_player_update(w, pi, p_left, p.x, p.y);
    let w4 = apply_move(w3, Direction::Right);
    assert(w4 == w3.update(pi, EntityModel { x: p.x, y: p.y, ..p_left }));
    assert(w4 =~= w);
}

/// Resolves at most one player move for this tick.
///
/// Locates the first Player-tagged entity (an error if none exists), pops
/// the most recently queued direction (a no-op if the queue is empty),
/// and commits the move exactly when no Wall occupies the candidate cell.
pub fn player_move(world: &mut Vec<Entity>, keys: &mut InputQueue) -> (r: Result<(), GameError>)
    requires
        old(keys)@.len() > 0 && has_player(models(old(world)@)) ==> player_step_fits(
            models(old(world)@),
        ),
    ensures
        !has_player(models(old(world)@)) ==> r == Err::<(), GameError>(
            GameError::MissingPlayerError,
        ) && final(world)@ == old(world)@ && final(keys)@ == old(keys)@,
        has_player(models(old(world)@)) && old(keys)@.len() == 0 ==> r == Ok::<(), GameError>(())
            && final(world)@ == old(world)@ && final(keys)@ == old(keys)@,
        has_player(models(old(world)@)) && old(keys)@.len() > 0 ==> r == Ok::<(), GameError>(())
            && final(keys)@ == old(keys)@.drop_last() && models(final(world)@) == apply_move(
            models(old(world)@),
            old(keys)@.last(),
        ),
{
    let ghost w0 = models(old(world)@);

    // Step 1: locate the first Player-tagged entity.
    let mut pi: usize = 0;
    while pi < world.len() && !world[pi].player
        invariant
            0 <= pi <= world@.len(),
            world@ == old(world)@,
            forall|j: int| 0 <= j < pi ==> !models(world@)[j].player,
        decreases world@.len() - pi,
    {
        pi += 1;
    }
    if pi >= world.len() {
        assert(!has_player(w0));
        return Err(GameError::MissingPlayerError);
    }
    proof {
        lemma_player_index_first(w0, pi as int);
    }

    // Step 2: pop the most recently queued direction.
    let d = match keys.keys_pressed.pop() {
        None => {
            return Ok(());
        },
        Some(d) => d,
    };

    // Steps 3 and 4: the candidate destination is one unit delta away.
    let px = world[pi].position.x;
    let py = world[pi].position.y;
    let (nx, ny): (i32, i32) = match d {
        Direction::Up => (px, py - 1),
        Direction::Down => (px, py + 1),
        Direction::Left => (px - 1, py),
        Direction::Right => (px + 1, py),
    };

    // Step 5: scan the Wall-tagged entities for the candidate cell.
    let mut hit = false;
    let mut j: usize = 0;
    while j < world.len()
        invariant
            0 <= j <= world@.len(),
            world@ == old(world)@,
            hit <==> exists|k: int|
                0 <= k < j && (#[trigger] w0[k]).wall && w0[k].x == nx as int && w0[k].y
                    == ny as int,
            w0 == models(world@),
        decreases world@.len() - j,
    {
        if world[j].wall && world[j].position.x == nx && world[j].position.y == ny {
            hit = true;
            proof {
                assert(w0[j as int].wall && w0[j as int].x == nx as int && w0[j as int].y
                    == ny as int);
            }
        } else {
            proof {
                assert(!(w0[j as int].wall && w0[j as int].x == nx as int && w0[j as int].y
                    == ny as int));
                if hit {
                    let k = choose|k: int|
                        0 <= k < j && (#[trigger] w0[k]).wall && w0[k].x == nx as int && w0[k].y
                            == ny as int;
                    assert(0 <= k < j + 1 && w0[k].wall && w0[k].x == nx as int && w0[k].y
                        == ny as int);
                }
            }
        }
        j += 1;
    }
    proof {
        if hit {
            let k = choose|k: int|
                0 <= k < world@.len() && (#[trigger] w0[k]).wall && w0[k].x == nx as int
                    && w0[k].y == ny as int;
            assert(wall_at(w0, nx as int, ny as int));
        }
        if wall_at(w0, nx as int, ny as int) {
            let k = choose|k: int|
                0 <= k < w0.len() && w0[k].wall && w0[k].x == nx as int && w0[k].y == ny as int;
            assert(0 <= k < world@.len() && (#[trigger] w0[k]).wall && w0[k].x == nx as int
                && w0[k].y == ny as int);
        }
        assert(hit == wall_at(w0, nx as int, ny as int));
    }

    // Step 6: commit unless a Wall occupies the destination.
    if !hit {
        world[pi].position.x = nx;
        world[pi].position.y = ny;
        proof {
            let p = w0[pi as int];
            assert(nx as int == p.x + delta_x(d) && ny as int == p.y + delta_y(d));
            assert(world@[pi as int]@ == EntityModel { x: nx as int, y: ny as int, ..p });
            assert(models(world@) =~= apply_move(w0, d));
        }
    }
    Ok(())
}

impl Game {
    /// One discrete tick of the scheduler: runs the movement/collision
    /// system exactly once against the entity store and the input queue.
    pub fn tick(&mut self) -> (r: Result<(), GameError>)
        requires
            old(self).input_queue@.len() > 0 && has_player(models(old(self).world@))
                ==> player_step_fits(models(old(self).world@)),
        ensures
            !has_player(models(old(self).world@)) ==> {
                &&& r == Err::<(), GameError>(GameError::MissingPlayerError)
                &&& final(self).world@ == old(self).world@
                &&& final(self).input_queue@ == old(self).input_queue@
            },
            has_player(models(old(self).world@)) && old(self).input_queue@.len() == 0 ==> {
                &&& r == Ok::<(), GameError>(())
                &&& final(self).world@ == old(self).world@
                &&& final(self).input_queue@ == old(self).input_queue@
            },
            has_player(models(old(self).world@)) && old(self).input_queue@.len() > 0 ==> {
                &&& r == Ok::<(), GameError>(())
                &&& final(self).input_queue@ == old(self).input_queue@.drop_last()
                &&& models(final(self).world@) == apply_move(
                    models(old(self).world@),
                    old(self).input_queue@.last(),
                )
            },
    {
        player_move(&mut self.world, &mut self.input_queue)
    }
}

} // verus!
