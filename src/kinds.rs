//! The closed set of particle types.
use vstd::prelude::*;

verus! {

/// How many particle types there are.
pub const NUM_TYPES: usize = 4;

/// The type of a particle, fixed when the particle is made.
#[derive(Clone, Copy, Debug, PartialEq, Eq, Structural)]
pub enum ParticleType {
    Red,
    Green,
    Blue,
    Yellow,
}

/// The position of each type in the engine's list of groups and in the rule
/// table.
pub open spec fn type_index(k: ParticleType) -> int {
    match k {
        ParticleType::Red => 0,
        ParticleType::Green => 1,
        ParticleType::Blue => 2,
        ParticleType::Yellow => 3,
    }
}

/// The type at a position of the list of groups.
pub open spec fn type_at(i: int) -> ParticleType {
    if i == 0 {
        ParticleType::Red
    } else if i == 1 {
        ParticleType::Green
    } else if i == 2 {
        ParticleType::Blue
    } else {
        ParticleType::Yellow
    }
}

impl ParticleType {
    pub fn index(&self) -> (r: usize)
        ensures
            r as int == type_index(*self),
            r < NUM_TYPES,
            type_at(r as int) == *self,
    {
        match self {
            ParticleType::Red => 0,
            ParticleType::Green => 1,
            ParticleType::Blue => 2,
            ParticleType::Yellow => 3,
        }
    }

    pub fn from_index(i: usize) -> (r: ParticleType)
        requires
            i < NUM_TYPES,
        ensures
            r == type_at(i as int),
            type_index(r) == i,
    {
        if i == 0 {
            ParticleType::Red
        } else if i == 1 {
            ParticleType::Green
        } else if i == 2 {
            ParticleType::Blue
        } else {
            ParticleType::Yellow
        }
    }
}

} // verus!
