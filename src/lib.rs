//! Particle life: typed particles in the plane pull on and push away from one
//! another according to a table of rules, one rule for each ordered pair of
//! types.
//!
//! Lengths, velocities, rule strengths and fractions are fixed-point integers
//! counted in thousandths (`fixed::SCALE` stands for one), so that every step
//! of the force law is exact integer arithmetic: distances are square roots
//! rounded down, quotients are rounded toward zero, and positions and
//! velocities saturate at the edge of the representable world.
//!
//! - `kinds`: the particle types.
//! - `rules`: the rule table and its random generation.
//! - `particle`: one particle.
//! - `config`: the settings of a run and their validation.
//! - `physics`: the force law and the one-tick update of a particle.
//! - `engine`: the groups, the tick, the reset, and reads for drawing.
//! - `laws`: properties of ticking, proved over the specification.

pub mod config;
pub mod draw;
pub mod engine;
pub mod fixed;
pub mod kinds;
pub mod laws;
pub mod particle;
pub mod physics;
pub mod rules;
