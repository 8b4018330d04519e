//! Bodies, their bounds, and the bounded trail of past positions.
use vstd::prelude::*;
use crate::arith::{clamp_spec, clamp_to, trunc_div, div_trunc};

verus! {

/// Largest coordinate magnitude of a position.
pub const POS_MAX: i64 = 0x100_0000_0000;
/// Largest component magnitude of a momentum.
pub const MOMENTUM_MAX: i64 = 0x1000_0000_0000_0000;
/// Largest component magnitude of the net force on one body.
pub const FORCE_MAX: i64 = 0x200_0000_0000_0000;
/// Largest component magnitude of the force between one pair of bodies.
pub const PAIR_FORCE_MAX: i64 = 0x100_0000_0000;
/// Largest mass.
pub const MASS_MAX: u64 = 0x1_0000_0000;
/// Largest radius.
pub const RADIUS_MAX: u64 = 0x100_0000_0000;
/// Largest trail capacity.
pub const TRAIL_MAX: usize = 0x10_0000;
/// Largest number of bodies a world holds.
pub const BODIES_MAX: usize = 0x1_0000;

/// A point or a vector in integer simulation units.
#[derive(Clone, Copy, PartialEq, Eq, Debug, Structural)]
pub struct Vec2 {
    pub x: i64,
    pub y: i64,
}

impl Vec2 {
    pub fn new(x: i64, y: i64) -> (r: Vec2)
        ensures
            r.x == x,
            r.y == y,
    {
        Vec2 { x, y }
    }
}

/// A circular body.
///
/// Kinematic state is kept as momentum (`mass * velocity`) and net force
/// (`mass * acceleration`), which keeps the conservation laws exact.
#[derive(Clone, Copy, PartialEq, Eq, Debug, Structural)]
pub struct Body {
    pub pos: Vec2,
    pub momentum: Vec2,
    pub force: Vec2,
    pub mass: u64,
    pub radius: u64,
    /// A transient marker of a body being created: no gravity, no collisions.
    pub preview: bool,
    /// Largest number of past positions kept in this body's trail.
    pub trail_max: usize,
}

pub open spec fn within(v: Vec2, bound: i64) -> bool {
    -bound <= v.x <= bound && -bound <= v.y <= bound
}

proof fn lemma_mass_product_fits(m: u64, v: i64)
    requires
        1 <= m <= MASS_MAX,
    ensures
        -0x1_0000_0000 * 0x8000_0000_0000_0000 <= m * v <= 0x1_0000_0000 * 0x8000_0000_0000_0000,
{
    assert(-0x1_0000_0000 * 0x8000_0000_0000_0000 <= m * v <= 0x1_0000_0000 * 0x8000_0000_0000_0000)
        by (nonlinear_arith)
        requires 1 <= m <= 0x1_0000_0000, -0x8000_0000_0000_0000 <= v < 0x8000_0000_0000_0000;
}

impl Body {
    /// The body's values lie within the engine's bounds.
    pub open spec fn wf(&self) -> bool {
        &&& within(self.pos, POS_MAX)
        &&& within(self.momentum, MOMENTUM_MAX)
        &&& within(self.force, FORCE_MAX)
        &&& 1 <= self.mass <= MASS_MAX
        &&& 1 <= self.radius <= RADIUS_MAX
        &&& self.trail_max <= TRAIL_MAX
    }

    /// Takes part in gravity, collisions and integration.
    pub open spec fn is_physical(&self) -> bool {
        !self.preview
    }

    /// Velocity along x, rounded toward zero.
    pub open spec fn velocity_x_spec(&self) -> int {
        trunc_div(self.momentum.x as int, self.mass as int)
    }

    pub open spec fn velocity_y_spec(&self) -> int {
        trunc_div(self.momentum.y as int, self.mass as int)
    }

    /// A body at rest in force, with momentum `mass * velocity` clamped to bounds.
    pub fn new(pos: Vec2, velocity: Vec2, mass: u64, radius: u64, trail_max: usize) -> (r: Body)
        requires
            within(pos, POS_MAX),
            1 <= mass <= MASS_MAX,
            1 <= radius <= RADIUS_MAX,
            trail_max <= TRAIL_MAX,
        ensures
            r.wf(),
            r.pos == pos,
            r.momentum.x == clamp_spec(mass * velocity.x, MOMENTUM_MAX as int),
            r.momentum.y == clamp_spec(mass * velocity.y, MOMENTUM_MAX as int),
            r.force == (Vec2 { x: 0, y: 0 }),
            r.mass == mass,
            r.radius == radius,
            !r.preview,
            r.trail_max == trail_max,
    {
        proof {
            lemma_mass_product_fits(mass, velocity.x);
            lemma_mass_product_fits(mass, velocity.y);
        }
        let px = (mass as i128) * (velocity.x as i128);
        let py = (mass as i128) * (velocity.y as i128);
        Body {
            pos,
            momentum: Vec2 { x: clamp_to(px, MOMENTUM_MAX), y: clamp_to(py, MOMENTUM_MAX) },
            force: Vec2 { x: 0, y: 0 },
            mass,
            radius,
            preview: false,
            trail_max,
        }
    }

    /// A preview marker: a body that the pipeline leaves untouched.
    pub fn new_preview(pos: Vec2, velocity: Vec2, radius: u64) -> (r: Body)
        requires
            within(pos, POS_MAX),
            1 <= radius <= RADIUS_MAX,
        ensures
            r.wf(),
            r.preview,
            r.pos == pos,
            r.mass == 1,
            r.momentum.x == clamp_spec(velocity.x as int, MOMENTUM_MAX as int),
            r.momentum.y == clamp_spec(velocity.y as int, MOMENTUM_MAX as int),
            r.force == (Vec2 { x: 0, y: 0 }),
            r.radius == radius,
            r.trail_max == 0,
    {
        let b = Body::new(pos, velocity, 1, radius, 0);
        Body { preview: true, ..b }
    }

    /// Velocity, momentum / mass, each component rounded toward zero.
    pub fn velocity(&self) -> (r: Vec2)
        requires
            self.wf(),
        ensures
            r.x == self.velocity_x_spec(),
            r.y == self.velocity_y_spec(),
    {
        let vx = div_trunc(self.momentum.x as i128, self.mass as i128);
        let vy = div_trunc(self.momentum.y as i128, self.mass as i128);
        proof {
            crate::arith::lemma_trunc_div_bound(self.momentum.x as int, self.mass as int, MOMENTUM_MAX as int);
            crate::arith::lemma_trunc_div_bound(self.momentum.y as int, self.mass as int, MOMENTUM_MAX as int);
        }
        Vec2 { x: vx as i64, y: vy as i64 }
    }

    /// Acceleration, force / mass, each component rounded toward zero.
    pub fn acceleration(&self) -> (r: Vec2)
        requires
            self.wf(),
        ensures
            r.x == trunc_div(self.force.x as int, self.mass as int),
            r.y == trunc_div(self.force.y as int, self.mass as int),
    {
        let ax = div_trunc(self.force.x as i128, self.mass as i128);
        let ay = div_trunc(self.force.y as i128, self.mass as i128);
        proof {
            crate::arith::lemma_trunc_div_bound(self.force.x as int, self.mass as int, FORCE_MAX as int);
            crate::arith::lemma_trunc_div_bound(self.force.y as int, self.mass as int, FORCE_MAX as int);
        }
        Vec2 { x: ax as i64, y: ay as i64 }
    }
}

/// The trail after appending `p` and evicting the oldest entries beyond `max`.
pub open spec fn bounded_push(t: Seq<Vec2>, p: Vec2, max: nat) -> Seq<Vec2> {
    let s = t.push(p);
    if s.len() > max {
        s.subrange(s.len() - max, s.len() as int)
    } else {
        s
    }
}

/// Appends a position to a trail, evicting the oldest entries first so that
/// at most `max` remain.
pub fn push_trail(trail: &mut Vec<Vec2>, p: Vec2, max: usize)
    requires
        old(trail)@.len() < usize::MAX,
    ensures
        final(trail)@ == bounded_push(old(trail)@, p, max as nat),
        final(trail)@.len() <= max,
        final(trail)@.len() == (if old(trail)@.len() + 1 <= max { old(trail)@.len() + 1 } else { max as nat }),
{
    trail.push(p);
    let ghost s = trail@;
    if trail.len() > max {
        let drop = trail.len() - max;
        let mut kept: Vec<Vec2> = Vec::new();
        let mut i: usize = drop;
        while i < trail.len()
            invariant
                drop <= i <= trail@.len(),
                trail@ == s,
                s.len() > max,
                drop == s.len() - max,
                kept@ == s.subrange(drop as int, i as int),
            decreases trail@.len() - i,
        {
            kept.push(trail[i]);
            i = i + 1;
        }
        *trail = kept;
    }
}

} // verus!
