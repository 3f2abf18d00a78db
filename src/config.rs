//! The fixed settings of a run.
use crate::fixed::{MAX_IMPULSE, MAX_RADIUS, MAX_STRENGTH, POS_LIMIT, SCALE};
use crate::kinds::NUM_TYPES;
use crate::rules::{bounds_error, RuleError};
use vstd::prelude::*;

verus! {

/// Settings fixed for a whole run; lengths, speeds and fractions in
/// fixed-point units (`SCALE` stands for one).
pub struct Config {
    /// Width of the box that the boundary impulse pushes particles back into.
    pub width: i64,
    /// Height of that box.
    pub height: i64,
    /// How many particles each type has, in type order.
    pub populations: Vec<usize>,
    /// Drawing size of every particle.
    pub particle_radius: i64,
    /// Velocity added toward the box to a particle found outside it.
    pub impulse: i64,
    /// Fraction of the velocity lost at every tick, in `[0, SCALE)`.
    pub viscosity: i64,
    /// Fraction of the net force that turns into velocity, in `[0, SCALE]`.
    pub damper: i64,
    /// Rule strengths are drawn from `[-strength_limit, strength_limit)`.
    pub strength_limit: i64,
    /// Rule radii are drawn from `[radius_lower, radius_upper)`.
    pub radius_lower: i64,
    pub radius_upper: i64,
}

#[derive(Clone, Copy, Debug, PartialEq, Eq, Structural)]
pub enum ConfigError {
    /// Width or height is not in `(0, POS_LIMIT]`.
    Viewport,
    /// The populations do not list one count per type.
    Populations,
    /// The particle radius is not in `[0, POS_LIMIT]`.
    ParticleRadius,
    /// The impulse is not in `[0, MAX_IMPULSE]`.
    Impulse,
    /// The viscosity is not in `[0, SCALE)`.
    Viscosity,
    /// The damper is not in `[0, SCALE]`.
    Damper,
    /// The bounds for drawing rules are out of range.
    Rules(RuleError),
}

/// The first thing wrong with a configuration, if any.
pub open spec fn config_error(c: Config) -> Option<ConfigError> {
    if !(0 < c.width <= POS_LIMIT && 0 < c.height <= POS_LIMIT) {
        Some(ConfigError::Viewport)
    } else if c.populations@.len() != NUM_TYPES {
        Some(ConfigError::Populations)
    } else if !(0 <= c.particle_radius <= POS_LIMIT) {
        Some(ConfigError::ParticleRadius)
    } else if !(0 <= c.impulse <= MAX_IMPULSE) {
        Some(ConfigError::Impulse)
    } else if !(0 <= c.viscosity < SCALE) {
        Some(ConfigError::Viscosity)
    } else if !(0 <= c.damper <= SCALE) {
        Some(ConfigError::Damper)
    } else {
        match bounds_error(c.strength_limit as int, c.radius_lower as int, c.radius_upper as int) {
            Some(e) => Some(ConfigError::Rules(e)),
            None => None,
        }
    }
}

pub open spec fn config_ok(c: Config) -> bool {
    config_error(c) is None
}

impl Config {
    /// Accepts a configuration, or names the first thing wrong with it.
    pub fn validate(&self) -> (r: Result<(), ConfigError>)
        ensures
            match r {
                Ok(_) => config_error(*self) is None,
                Err(e) => config_error(*self) == Some(e),
            },
    {
        if !(0 < self.width && self.width <= POS_LIMIT && 0 < self.height && self.height
            <= POS_LIMIT) {
            return Err(ConfigError::Viewport);
        }
        if self.populations.len() != NUM_TYPES {
            return Err(ConfigError::Populations);
        }
        if !(0 <= self.particle_radius && self.particle_radius <= POS_LIMIT) {
            return Err(ConfigError::ParticleRadius);
        }
        if !(0 <= self.impulse && self.impulse <= MAX_IMPULSE) {
            return Err(ConfigError::Impulse);
        }
        if !(0 <= self.viscosity && self.viscosity < SCALE) {
            return Err(ConfigError::Viscosity);
        }
        if !(0 <= self.damper && self.damper <= SCALE) {
            return Err(ConfigError::Damper);
        }
        if self.strength_limit < 0 || self.strength_limit > MAX_STRENGTH {
            return Err(ConfigError::Rules(RuleError::StrengthOutOfRange));
        }
        if self.radius_lower < 0 || self.radius_lower > self.radius_upper || self.radius_upper
            > MAX_RADIUS {
            return Err(ConfigError::Rules(RuleError::RadiusOutOfRange));
        }
        Ok(())
    }
}

} // verus!
