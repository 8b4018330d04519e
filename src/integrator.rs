//! The two halves of the fixed-step integrator.
//!
//! With velocity `v = p / m` and acceleration `a = f / m`, the position half is
//! `x += v * dt + a * dt² / 2`, computed as `(2 * p * dt + f * dt²) / (2 * m)`
//! rounded toward zero, and the velocity half is `v += a * dt`, kept exactly as
//! `p += f * dt`.
use vstd::prelude::*;
use crate::arith::{clamp_spec, clamp_to, trunc_div, div_trunc, lemma_trunc_div_bound};
use crate::body::{Body, Vec2, POS_MAX, MOMENTUM_MAX, FORCE_MAX};

verus! {

/// Largest time step.
pub const DT_MAX: u64 = 0x1_0000;

/// Displacement along one axis over a step.
pub open spec fn displacement(p: int, f: int, m: int, dt: int) -> int {
    trunc_div(2 * p * dt + f * dt * dt, 2 * m)
}

/// A body after the position half of a step.
pub open spec fn moved(b: Body, dt: int) -> Body {
    Body {
        pos: Vec2 {
            x: clamp_spec(b.pos.x + displacement(b.momentum.x as int, b.force.x as int, b.mass as int, dt), POS_MAX as int) as i64,
            y: clamp_spec(b.pos.y + displacement(b.momentum.y as int, b.force.y as int, b.mass as int, dt), POS_MAX as int) as i64,
        },
        ..b
    }
}

/// A body after the velocity half of a step.
pub open spec fn kicked(b: Body, dt: int) -> Body {
    Body {
        momentum: Vec2 {
            x: clamp_spec(b.momentum.x + b.force.x * dt, MOMENTUM_MAX as int) as i64,
            y: clamp_spec(b.momentum.y + b.force.y * dt, MOMENTUM_MAX as int) as i64,
        },
        ..b
    }
}

pub open spec fn all_wf(bs: Seq<Body>) -> bool {
    forall|k: int| 0 <= k < bs.len() ==> (#[trigger] bs[k]).wf()
}

proof fn lemma_step_terms(p: int, f: int, dt: int)
    requires
        -MOMENTUM_MAX <= p <= MOMENTUM_MAX,
        -FORCE_MAX <= f <= FORCE_MAX,
        1 <= dt <= DT_MAX,
    ensures
        -0x2_0000_0000_0000_0000_0000 <= 2 * p * dt <= 0x2_0000_0000_0000_0000_0000,
        -0x200_0000_0000_0000_0000_0000 <= f * dt * dt <= 0x200_0000_0000_0000_0000_0000,
        -0x2_0000_0000_0000_0000_0000 <= f * dt <= 0x2_0000_0000_0000_0000_0000,
{
    assert(-0x2_0000_0000_0000_0000_0000 <= 2 * p * dt <= 0x2_0000_0000_0000_0000_0000) by (nonlinear_arith)
        requires -0x1000_0000_0000_0000 <= p <= 0x1000_0000_0000_0000, 1 <= dt <= 0x1_0000;
    assert(-0x200_0000_0000_0000_0000_0000 <= f * dt * dt <= 0x200_0000_0000_0000_0000_0000) by (nonlinear_arith)
        requires -0x200_0000_0000_0000 <= f <= 0x200_0000_0000_0000, 1 <= dt <= 0x1_0000;
    assert(-0x2_0000_0000_0000_0000_0000 <= f * dt <= 0x2_0000_0000_0000_0000_0000) by (nonlinear_arith)
        requires -0x200_0000_0000_0000 <= f <= 0x200_0000_0000_0000, 1 <= dt <= 0x1_0000;
}

/// Position half for one body.
pub fn move_body(b: &Body, dt: u64) -> (r: Body)
    requires
        b.wf(),
        1 <= dt <= DT_MAX,
    ensures
        r == moved(*b, dt as int),
        r.wf(),
{
    proof {
        lemma_step_terms(b.momentum.x as int, b.force.x as int, dt as int);
        lemma_step_terms(b.momentum.y as int, b.force.y as int, dt as int);
    }
    let d = dt as i128;
    let m2 = 2 * (b.mass as i128);
    let nx = 2 * (b.momentum.x as i128) * d + (b.force.x as i128) * d * d;
    let ny = 2 * (b.momentum.y as i128) * d + (b.force.y as i128) * d * d;
    let qx = div_trunc(nx, m2);
    let qy = div_trunc(ny, m2);
    proof {
        lemma_trunc_div_bound(nx as int, m2 as int, 0x202_0000_0000_0000_0000_0000);
        lemma_trunc_div_bound(ny as int, m2 as int, 0x202_0000_0000_0000_0000_0000);
    }
    let x = clamp_to(b.pos.x as i128 + qx, POS_MAX);
    let y = clamp_to(b.pos.y as i128 + qy, POS_MAX);
    Body { pos: Vec2 { x, y }, ..*b }
}

/// Velocity half for one body.
pub fn kick_body(b: &Body, dt: u64) -> (r: Body)
    requires
        b.wf(),
        1 <= dt <= DT_MAX,
    ensures
        r == kicked(*b, dt as int),
        r.wf(),
{
    proof {
        lemma_step_terms(b.momentum.x as int, b.force.x as int, dt as int);
        lemma_step_terms(b.momentum.y as int, b.force.y as int, dt as int);
    }
    let d = dt as i128;
    let x = clamp_to(b.momentum.x as i128 + (b.force.x as i128) * d, MOMENTUM_MAX);
    let y = clamp_to(b.momentum.y as i128 + (b.force.y as i128) * d, MOMENTUM_MAX);
    Body { momentum: Vec2 { x, y }, ..*b }
}

/// The bodies after the position half: live bodies moved, the rest unchanged.
pub open spec fn positions_advanced(bs: Seq<Body>, live: Seq<bool>, dt: int) -> Seq<Body> {
    Seq::new(bs.len(), |k: int| if live[k] { moved(bs[k], dt) } else { bs[k] })
}

/// The bodies after the velocity half: live bodies kicked, the rest unchanged.
pub open spec fn velocities_advanced(bs: Seq<Body>, live: Seq<bool>, dt: int) -> Seq<Body> {
    Seq::new(bs.len(), |k: int| if live[k] { kicked(bs[k], dt) } else { bs[k] })
}

/// Position half of the integrator over every live body.
pub fn integrate_positions(bodies: &mut Vec<Body>, live: &Vec<bool>, dt: u64)
    requires
        old(bodies).len() == live.len(),
        all_wf(old(bodies)@),
        1 <= dt <= DT_MAX,
    ensures
        final(bodies)@ == positions_advanced(old(bodies)@, live@, dt as int),
        all_wf(final(bodies)@),
{
    let ghost bs = bodies@;
    let n = bodies.len();
    let mut i: usize = 0;
    while i < n
        invariant
            n == bodies.len(),
            n == bs.len(),
            n == live.len(),
            1 <= dt <= DT_MAX,
            all_wf(bs),
            i <= n,
            forall|k: int| 0 <= k < i ==> #[trigger] bodies@[k] == positions_advanced(bs, live@, dt as int)[k],
            forall|k: int| i <= k < n ==> #[trigger] bodies@[k] == bs[k],
        decreases n - i,
    {
        if live[i] {
            let b = move_body(&bodies[i], dt);
            bodies.set(i, b);
        }
        i = i + 1;
    }
    assert(bodies@ =~= positions_advanced(bs, live@, dt as int));
}

/// Velocity half of the integrator over every live body.
pub fn integrate_velocities(bodies: &mut Vec<Body>, live: &Vec<bool>, dt: u64)
    requires
        old(bodies).len() == live.len(),
        all_wf(old(bodies)@),
        1 <= dt <= DT_MAX,
    ensures
        final(bodies)@ == velocities_advanced(old(bodies)@, live@, dt as int),
        all_wf(final(bodies)@),
{
    let ghost bs = bodies@;
    let n = bodies.len();
    let mut i: usize = 0;
    while i < n
        invariant
            n == bodies.len(),
            n == bs.len(),
            n == live.len(),
            1 <= dt <= DT_MAX,
            all_wf(bs),
            i <= n,
            forall|k: int| 0 <= k < i ==> #[trigger] bodies@[k] == velocities_advanced(bs, live@, dt as int)[k],
            forall|k: int| i <= k < n ==> #[trigger] bodies@[k] == bs[k],
        decreases n - i,
    {
        if live[i] {
            let b = kick_body(&bodies[i], dt);
            bodies.set(i, b);
        }
        i = i + 1;
    }
    assert(bodies@ =~= velocities_advanced(bs, live@, dt as int));
}

} // verus!
