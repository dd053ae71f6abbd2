use vstd::prelude::*;

use crate::arena::{Arena, Handle};
use crate::creatures::Creature;
use crate::geometry::{Direction, Position};
use crate::world::World;

mod moving;

pub use moving::{
    is_move_valid, lemma_move_blocked, lemma_move_bounds, lemma_move_exchanges_occupancy,
    move_check, move_cost, move_creature, move_target, MOVE_COST,
};

verus! {

/// Why an action could not be carried out.
#[derive(Clone, Copy, Debug, PartialEq, Eq, Structural)]
pub enum ActionError {
    /// The acting creature no longer exists in the world.
    SubjectIsDead,
    /// The target lies off the map; `position` is `None` when it has no
    /// coordinates at all (one would be negative).
    OutOfBounds { position: Option<Position>, width: usize, height: usize },
    /// The target tile holds this creature.
    TileIsOccupied(Handle),
    /// The target tile cannot be walked on.
    TileIsImpassable(Position),
}

/// Something a creature does in its turn.
#[derive(Clone, Copy, Debug, PartialEq, Eq, Structural)]
pub enum Action {
    /// Step one tile in a direction.
    Move(Handle, Direction),
    /// Stay in place for the given number of time units.
    Wait(Handle, u32),
}

impl Action {
    pub open spec fn spec_actor(&self) -> Handle {
        match *self {
            Action::Move(h, _) => h,
            Action::Wait(h, _) => h,
        }
    }

    /// What applying the action in `world` yields.
    pub open spec fn outcome(&self, world: &World) -> Result<(), ActionError> {
        match *self {
            Action::Move(h, d) => move_check(world, h, d),
            Action::Wait(h, _) => if world.spec_creatures().dom().contains(h) {
                Ok(())
            } else {
                Err(ActionError::SubjectIsDead)
            },
        }
    }

    /// Time the action takes, given the live creatures: nothing for a dead
    /// actor.
    pub open spec fn spec_cost(&self, creatures: Map<Handle, Creature>) -> u32 {
        if !creatures.dom().contains(self.spec_actor()) {
            0
        } else {
            match *self {
                Action::Move(_, _) => MOVE_COST,
                Action::Wait(_, time) => time,
            }
        }
    }

    /// Carries the action out; on failure the world is left as it was.
    pub fn apply(&self, world: &mut World) -> (r: Result<(), ActionError>)
        requires
            old(world).wf(),
        ensures
            final(world).wf(),
            r == self.outcome(old(world)),
            r is Err ==> *final(world) == *old(world),
            r is Ok ==> match *self {
                Action::Move(h, d) => final(world).relocated(*old(world), h, move_target(old(world), h, d)),
                Action::Wait(_, _) => *final(world) == *old(world),
            },
    {
        match *self {
            Action::Move(creature, direction) => moving::move_creature(world, creature, direction),
            Action::Wait(creature, _) => if world.creatures().contains(creature) {
                Ok(())
            } else {
                Err(ActionError::SubjectIsDead)
            },
        }
    }

    /// Time the action takes; used only to order turns.
    pub fn cost(&self, creatures: &Arena<Creature>) -> (r: u32)
        ensures
            r == self.spec_cost(creatures@),
    {
        match *self {
            Action::Move(creature, direction) => moving::move_cost(creatures, creature, direction),
            Action::Wait(creature, time) => if creatures.contains(creature) {
                time
            } else {
                0
            },
        }
    }

    /// Checks, without changing anything, what `apply` would yield.
    pub fn is_valid(&self, world: &World) -> (r: Result<(), ActionError>)
        requires
            world.wf(),
        ensures
            r == self.outcome(world),
    {
        match *self {
            Action::Move(creature, direction) => moving::is_move_valid(world, creature, direction),
            Action::Wait(creature, _) => if world.creatures().contains(creature) {
                Ok(())
            } else {
                Err(ActionError::SubjectIsDead)
            },
        }
    }

    /// The creature performing the action.
    pub fn actor(&self) -> (r: &Handle)
        ensures
            *r == self.spec_actor(),
    {
        match self {
            Action::Move(creature, _) => creature,
            Action::Wait(creature, _) => creature,
        }
    }
}

} // verus!
