//! A two-dimensional N-body gravity engine in integer simulation units.
//!
//! Bodies carry position, momentum and net force as integers, so that the
//! pairwise gravity pass and inelastic merges conserve momentum exactly.
//! Velocity and acceleration are read out as momentum / mass and force / mass.
//!
//! Fixed choices:
//! - separations under one unit count as one unit, and coincident bodies
//!   exert no force on each other (`gravity`);
//! - a pair force with a component beyond `PAIR_FORCE_MAX` is divided, both
//!   components by one factor, into that bound (`gravity`);
//! - positions, momenta, forces, masses and radii are bounded (see `body`):
//!   a result beyond its bound is clamped to it. In particular a merged mass
//!   is `m1 + m2` up to `MASS_MAX` and saturates there, and a merged momentum
//!   is `p1 + p2` up to `MOMENTUM_MAX`;
//! - in a merge the body earlier in the store, which holds the older handle,
//!   survives (`collision`);
//! - a created body's velocity is its drag vector divided by 40 (`world`).
//!
//! A tick runs, per iteration: collisions, position half, forces, velocity
//! half, trails, removal of absorbed bodies (`world::World::step`).
pub mod arith;
pub mod body;
pub mod collision;
pub mod gravity;
pub mod integrator;
pub mod laws;
pub mod store;
pub mod world;
