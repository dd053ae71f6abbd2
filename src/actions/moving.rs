use vstd::prelude::*;

use crate::arena::{Arena, Handle};
use crate::creatures::Creature;
use crate::geometry::{step, Direction, Position};
use crate::map::TileType;
use crate::world::{on_map, tile_at, World};

use super::ActionError;

verus! {

/// Time a live creature needs for one step.
pub const MOVE_COST: u32 = 100;

/// Where the live creature `h` of `world` would step to in direction `d`.
pub open spec fn move_target(world: &World, h: Handle, d: Direction) -> Position {
    step(world.spec_creatures()[h].spec_position(), d)->Some_0
}

/// The verdict on creature `h` stepping in direction `d`, checks in order:
/// the creature must be alive, the target must have coordinates and lie on
/// the creature's level, must be free, and must be passable.
pub open spec fn move_check(world: &World, h: Handle, d: Direction) -> Result<(), ActionError> {
    if !world.spec_creatures().dom().contains(h) {
        Err(ActionError::SubjectIsDead)
    } else {
        let p = world.spec_creatures()[h].spec_position();
        let level = world.spec_levels()[p.level as int];
        let (width, height) = (level.len() as usize, level[0].len() as usize);
        match step(p, d) {
            None => Err(ActionError::OutOfBounds { position: None, width, height }),
            Some(q) => if q.x >= width || q.y >= height {
                Err(ActionError::OutOfBounds { position: Some(q), width, height })
            } else if level[q.x as int][q.y as int].occupant is Some {
                Err(ActionError::TileIsOccupied(level[q.x as int][q.y as int].occupant->Some_0))
            } else if !level[q.x as int][q.y as int].tile_type.spec_is_passable() {
                Err(ActionError::TileIsImpassable(q))
            } else {
                Ok(())
            },
        }
    }
}

/// A live creature in the first column that steps left gets `OutOfBounds`
/// with no position; one in the last column that steps right gets
/// `OutOfBounds` at the column just past the map. Both carry the width and
/// height of the creature's level.
pub proof fn lemma_move_bounds(world: &World, h: Handle)
    requires
        world.wf(),
        world.spec_creatures().dom().contains(h),
    ensures
        ({
            let p = world.spec_creatures()[h].spec_position();
            let level = world.spec_levels()[p.level as int];
            let (width, height) = (level.len() as usize, level[0].len() as usize);
            &&& p.x == 0 ==> move_check(world, h, Direction::Left) == Err::<(), ActionError>(
                ActionError::OutOfBounds { position: None, width, height },
            )
            &&& p.x == width - 1 ==> move_check(world, h, Direction::Right) == Err::<(), ActionError>(
                ActionError::OutOfBounds {
                    position: Some(Position { level: p.level, x: width, y: p.y }),
                    width,
                    height,
                },
            )
        }),
{
    let p = world.spec_creatures()[h].spec_position();
    assert(on_map(world.spec_levels(), p));
    assert(crate::map::is_grid(world.spec_levels()[p.level as int]));
}

/// Stepping onto a tile that holds a creature gets `TileIsOccupied` naming
/// it, and that creature is alive and stands there; stepping onto a free
/// wall gets `TileIsImpassable` at the target.
pub proof fn lemma_move_blocked(world: &World, h: Handle, d: Direction)
    requires
        world.wf(),
        world.spec_creatures().dom().contains(h),
        step(world.spec_creatures()[h].spec_position(), d) is Some,
        on_map(world.spec_levels(), move_target(world, h, d)),
    ensures
        ({
            let q = move_target(world, h, d);
            let tile = tile_at(world.spec_levels(), q);
            &&& tile.occupant matches Some(o) ==> {
                &&& move_check(world, h, d) == Err::<(), ActionError>(ActionError::TileIsOccupied(o))
                &&& world.spec_creatures().dom().contains(o)
                &&& world.spec_creatures()[o].spec_position() == q
            }
            &&& tile.occupant is None && tile.tile_type == TileType::Wall ==> move_check(world, h, d)
                == Err::<(), ActionError>(ActionError::TileIsImpassable(q))
        }),
{
    let p = world.spec_creatures()[h].spec_position();
    let q = move_target(world, h, d);
    assert(on_map(world.spec_levels(), p));
    assert(crate::map::is_grid(world.spec_levels()[p.level as int]));
    let levels = world.spec_levels();
    assert(0 <= q.x < levels[q.level as int].len());
    assert(levels[q.level as int][q.x as int].len() == levels[q.level as int][0].len());
}

/// A move that succeeds empties the mover's old tile, names the mover on
/// the target tile, and puts the mover there.
pub proof fn lemma_move_exchanges_occupancy(before: &World, after: &World, h: Handle, d: Direction)
    requires
        before.wf(),
        move_check(before, h, d) is Ok,
        after.relocated(*before, h, move_target(before, h, d)),
    ensures
        ({
            let from = before.spec_creatures()[h].spec_position();
            let to = move_target(before, h, d);
            &&& to == step(from, d)->Some_0
            &&& tile_at(after.spec_levels(), from).occupant is None
            &&& tile_at(after.spec_levels(), to).occupant == Some(h)
            &&& after.spec_creatures()[h].spec_position() == to
        }),
{
    let from = before.spec_creatures()[h].spec_position();
    let to = move_target(before, h, d);
    assert(on_map(before.spec_levels(), from));
    assert(from != to);
}

pub fn is_move_valid(world: &World, creature: Handle, direction: Direction) -> (r: Result<
    (),
    ActionError,
>)
    requires
        world.wf(),
    ensures
        r == move_check(world, creature, direction),
{
    let position = match world.creatures().get(creature) {
        Some(c) => c.position(),
        None => {
            return Err(ActionError::SubjectIsDead);
        },
    };
    let ghost levels = world.spec_levels();
    assert(crate::world::on_map(levels, position));
    let map = world.get_level(position.level).unwrap();
    assert(crate::map::is_grid(levels[position.level as int]));
    let width = map.width();
    let height = map.height();
    let target = match position + direction {
        Some(target) => target,
        None => {
            return Err(ActionError::OutOfBounds { position: None, width, height });
        },
    };
    if target.x >= width || target.y >= height {
        return Err(ActionError::OutOfBounds { position: Some(target), width, height });
    }
    let tile = map.tile(target.x, target.y).unwrap();
    match tile.occupant {
        Some(occupant) => {
            return Err(ActionError::TileIsOccupied(occupant));
        },
        None => {},
    }
    if !tile.tile_type.is_passable() {
        return Err(ActionError::TileIsImpassable(target));
    }
    Ok(())
}

pub fn move_creature(world: &mut World, creature: Handle, direction: Direction) -> (r: Result<
    (),
    ActionError,
>)
    requires
        old(world).wf(),
    ensures
        final(world).wf(),
        r == move_check(old(world), creature, direction),
        r is Err ==> *final(world) == *old(world),
        r is Ok ==> final(world).relocated(*old(world), creature, move_target(old(world), creature, direction)),
{
    match is_move_valid(world, creature, direction) {
        Ok(()) => {},
        Err(e) => {
            return Err(e);
        },
    }
    let position = world.creatures().get(creature).unwrap().position();
    let target = (position + direction).unwrap();
    world.relocate(creature, target);
    Ok(())
}

pub fn move_cost(creatures: &Arena<Creature>, creature: Handle, direction: Direction) -> (r:
    u32)
    ensures
        r == (if creatures@.dom().contains(creature) {
            MOVE_COST
        } else {
            0
        }),
{
    if creatures.contains(creature) {
        MOVE_COST
    } else {
        0
    }
}

} // verus!
