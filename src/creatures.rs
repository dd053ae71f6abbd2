use vstd::prelude::*;

use crate::geometry::Position;

verus! {

/// Upper bound of a demon's demonicity.
pub const MAX_DEMONICITY: u32 = 100;

/// A bounded quantity such as health or mana.
#[derive(Clone, Copy, Debug, PartialEq, Eq, Structural)]
pub struct Points {
    current: u32,
    max: u32,
}

impl Points {
    pub closed spec fn spec_current(&self) -> u32 {
        self.current
    }

    pub closed spec fn spec_max(&self) -> u32 {
        self.max
    }

    /// A full pool: the current value equals the maximum.
    pub fn full(max: u32) -> (r: Points)
        ensures
            r.spec_current() == max,
            r.spec_max() == max,
    {
        Points { current: max, max }
    }

    #[verifier::when_used_as_spec(spec_current)]
    pub fn current(&self) -> (r: u32)
        ensures
            r == self.spec_current(),
    {
        self.current
    }

    #[verifier::when_used_as_spec(spec_max)]
    pub fn max(&self) -> (r: u32)
        ensures
            r == self.spec_max(),
    {
        self.max
    }
}

/// What kind of being a creature is.
#[derive(Clone, Copy, Debug, PartialEq, Eq, Structural)]
pub enum CreatureType {
    Human,
    Demon { demonicity: Points },
}

/// A living being on the map.
#[derive(Debug)]
pub struct Creature {
    name: String,
    position: Position,
    health: Points,
    mana: Points,
    creature_type: CreatureType,
}

impl Creature {
    pub closed spec fn spec_name(&self) -> Seq<char> {
        self.name@
    }

    pub closed spec fn spec_position(&self) -> Position {
        self.position
    }

    pub closed spec fn spec_health(&self) -> Points {
        self.health
    }

    pub closed spec fn spec_mana(&self) -> Points {
        self.mana
    }

    pub closed spec fn spec_kind(&self) -> CreatureType {
        self.creature_type
    }

    /// A demon with full health and mana; its demonicity is capped at
    /// `MAX_DEMONICITY`.
    pub fn demon(
        name: String,
        health: u32,
        mana: u32,
        position: Position,
        initial_demonicity: u32,
    ) -> (r: Creature)
        ensures
            r.spec_name() == name@,
            r.spec_position() == position,
            r.spec_health().spec_current() == health,
            r.spec_health().spec_max() == health,
            r.spec_mana().spec_current() == mana,
            r.spec_mana().spec_max() == mana,
            r.spec_kind() matches CreatureType::Demon { demonicity }
                && demonicity.spec_max() == MAX_DEMONICITY
                && demonicity.spec_current() == if initial_demonicity <= MAX_DEMONICITY {
                    initial_demonicity
                } else {
                    MAX_DEMONICITY
                },
    {
        let current = if initial_demonicity <= MAX_DEMONICITY {
            initial_demonicity
        } else {
            MAX_DEMONICITY
        };
        Creature {
            name,
            position,
            health: Points::full(health),
            mana: Points::full(mana),
            creature_type: CreatureType::Demon {
                demonicity: Points { current, max: MAX_DEMONICITY },
            },
        }
    }

    #[verifier::when_used_as_spec(spec_position)]
    pub fn position(&self) -> (r: Position)
        ensures
            r == self.spec_position(),
    {
        self.position
    }

    /// Moves the creature; nothing else about it changes.
    pub fn set_position(&mut self, position: Position)
        ensures
            final(self).spec_position() == position,
            final(self).spec_name() == old(self).spec_name(),
            final(self).spec_health() == old(self).spec_health(),
            final(self).spec_mana() == old(self).spec_mana(),
            final(self).spec_kind() == old(self).spec_kind(),
    {
        self.position = position;
    }

    pub fn name(&self) -> (r: &str)
        ensures
            r@ == self.spec_name(),
    {
        self.name.as_str()
    }

    pub fn health(&self) -> (r: Points)
        ensures
            r == self.spec_health(),
    {
        self.health
    }

    pub fn mana(&self) -> (r: Points)
        ensures
            r == self.spec_mana(),
    {
        self.mana
    }

    pub fn kind(&self) -> (r: CreatureType)
        ensures
            r == self.spec_kind(),
    {
        self.creature_type
    }
}

} // verus!
