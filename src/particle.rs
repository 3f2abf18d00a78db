//! A single particle.
use crate::draw::{draw, drawn_from};
use crate::fixed::{POS_LIMIT, VEL_LIMIT};
use crate::kinds::ParticleType;
use vstd::prelude::*;

verus! {

/// Position, velocity and drawing size in fixed-point units, and the type.
#[derive(Clone, Copy, Debug, PartialEq, Eq, Structural)]
pub struct Particle {
    pub x: i64,
    pub y: i64,
    pub vx: i64,
    pub vy: i64,
    pub radius: i64,
    pub kind: ParticleType,
}

/// Position and velocity lie within the representable world.
pub open spec fn particle_in_range(p: Particle) -> bool {
    &&& -POS_LIMIT <= p.x <= POS_LIMIT
    &&& -POS_LIMIT <= p.y <= POS_LIMIT
    &&& -VEL_LIMIT <= p.vx <= VEL_LIMIT
    &&& -VEL_LIMIT <= p.vy <= VEL_LIMIT
}

/// A particle as made at the start of a run: at rest, somewhere in the box.
pub open spec fn fresh_in(p: Particle, width: int, height: int, radius: int, kind: ParticleType) -> bool {
    &&& drawn_from(p.x as int, 0, width)
    &&& drawn_from(p.y as int, 0, height)
    &&& p.vx == 0
    &&& p.vy == 0
    &&& p.radius == radius
    &&& p.kind == kind
}

impl Particle {
    /// A particle at rest at a position drawn uniformly from
    /// `[0, width) x [0, height)`.
    pub fn new(width: i64, height: i64, radius: i64, kind: ParticleType) -> (r: Particle)
        requires
            0 < width <= POS_LIMIT,
            0 < height <= POS_LIMIT,
        ensures
            fresh_in(r, width as int, height as int, radius as int, kind),
            particle_in_range(r),
    {
        let x = draw(0, width);
        let y = draw(0, height);
        Particle { x, y, vx: 0, vy: 0, radius, kind }
    }
}

} // verus!
