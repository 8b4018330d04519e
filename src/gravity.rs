//! Pairwise gravitational forces.
//!
//! The force on `a` from `b` has magnitude `G * m_a * m_b / r²` and points from
//! `a` toward `b`. As a vector it is `G * m_a * m_b * d / r³`, with `d` the
//! separation. Separations under one unit are taken as one unit, so the
//! divisor is never zero. Where a component of a pair's force exceeds
//! `PAIR_FORCE_MAX`, both components are divided by one factor, so that the
//! force keeps its direction up to rounding. Division rounds toward zero,
//! which keeps the force on `b` from `a` the exact negation of the force on
//! `a` from `b`.
use vstd::prelude::*;
use crate::arith::{trunc_div, div_trunc, is_isqrt, isqrt, lemma_trunc_div_neg};
use crate::body::{Body, Vec2, POS_MAX, MASS_MAX, PAIR_FORCE_MAX, FORCE_MAX, BODIES_MAX, within};

verus! {

/// Largest gravitational constant.
pub const G_MAX: u64 = 0x1_0000;

/// The floor of the square root of `n`.
pub open spec fn sqrt_floor(n: int) -> int {
    choose|r: int| is_isqrt(n, r)
}

pub proof fn lemma_isqrt_unique(n: int, r1: int, r2: int)
    requires
        is_isqrt(n, r1),
        is_isqrt(n, r2),
    ensures
        r1 == r2,
{
    if r1 < r2 {
        assert((r1 + 1) * (r1 + 1) <= r2 * r2) by (nonlinear_arith)
            requires 0 <= r1, r1 + 1 <= r2;
    } else if r2 < r1 {
        assert((r2 + 1) * (r2 + 1) <= r1 * r1) by (nonlinear_arith)
            requires 0 <= r2, r2 + 1 <= r1;
    }
}

/// One component of the pair force for separation component `d`, before
/// bounding.
pub open spec fn force_component(gmm: int, d: int, rsq: int) -> int {
    let r = sqrt_floor(rsq);
    let rs1 = if rsq < 1 { 1 } else { rsq };
    let r1 = if r < 1 { 1 } else { r };
    trunc_div(gmm * d, rs1 * r1)
}

pub open spec fn abs_int(x: int) -> int {
    if x < 0 { -x } else { x }
}

/// The larger component size of `(fx, fy)`.
pub open spec fn max_component(fx: int, fy: int) -> int {
    if abs_int(fx) >= abs_int(fy) { abs_int(fx) } else { abs_int(fy) }
}

/// `(fx, fy)` divided by one factor, rounding toward zero, so that no
/// component exceeds `PAIR_FORCE_MAX`; unchanged when none does.
pub open spec fn bounded_force(fx: int, fy: int) -> (int, int) {
    let m = max_component(fx, fy);
    if m <= PAIR_FORCE_MAX {
        (fx, fy)
    } else {
        let c = m / (PAIR_FORCE_MAX as int) + 1;
        (trunc_div(fx, c), trunc_div(fy, c))
    }
}

proof fn lemma_scaled_bound(x: int, c: int, bound: int)
    requires
        c > 0,
        bound > 0,
        abs_int(x) < c * bound,
    ensures
        abs_int(trunc_div(x, c)) <= bound,
{
    let a = abs_int(x);
    vstd::arithmetic::div_mod::lemma_fundamental_div_mod(a, c);
    let q = a / c;
    vstd::arithmetic::div_mod::lemma_div_pos_is_pos(a, c);
    assert(q < bound) by (nonlinear_arith)
        requires c * q + a % c == a, 0 <= a % c, a < c * bound, c > 0;
}

pub proof fn lemma_bounded_force(fx: int, fy: int)
    ensures
        -PAIR_FORCE_MAX <= bounded_force(fx, fy).0 <= PAIR_FORCE_MAX,
        -PAIR_FORCE_MAX <= bounded_force(fx, fy).1 <= PAIR_FORCE_MAX,
        bounded_force(-fx, -fy).0 == -bounded_force(fx, fy).0,
        bounded_force(-fx, -fy).1 == -bounded_force(fx, fy).1,
{
    let m = max_component(fx, fy);
    assert(max_component(-fx, -fy) == m);
    if m > PAIR_FORCE_MAX {
        let p = PAIR_FORCE_MAX as int;
        let c = m / p + 1;
        vstd::arithmetic::div_mod::lemma_fundamental_div_mod(m, p);
        assert(m < c * p) by (nonlinear_arith)
            requires m == p * (m / p) + m % p, m % p < p, c == m / p + 1;
        vstd::arithmetic::div_mod::lemma_div_pos_is_pos(m, p);
        lemma_scaled_bound(fx, c, p);
        lemma_scaled_bound(fy, c, p);
        lemma_trunc_div_neg(fx, c);
        lemma_trunc_div_neg(fy, c);
    }
}

/// The force on `a` exerted by `b`, under gravitational constant `g`.
pub open spec fn pair_force(a: Body, b: Body, g: int) -> (int, int) {
    let dx = b.pos.x - a.pos.x;
    let dy = b.pos.y - a.pos.y;
    let rsq = dx * dx + dy * dy;
    let gmm = g * a.mass * b.mass;
    bounded_force(force_component(gmm, dx, rsq), force_component(gmm, dy, rsq))
}

/// Newton's third law for one pair.
pub proof fn lemma_pair_force_antisymmetric(a: Body, b: Body, g: int)
    ensures
        pair_force(b, a, g).0 == -pair_force(a, b, g).0,
        pair_force(b, a, g).1 == -pair_force(a, b, g).1,
{
    let dx = b.pos.x - a.pos.x;
    let dy = b.pos.y - a.pos.y;
    assert((-dx) * (-dx) == dx * dx) by (nonlinear_arith);
    assert((-dy) * (-dy) == dy * dy) by (nonlinear_arith);
    assert(g * b.mass * a.mass == g * a.mass * b.mass) by (nonlinear_arith);
    let gmm = g * a.mass * b.mass;
    assert(gmm * (-dx) == -(gmm * dx)) by (nonlinear_arith);
    assert(gmm * (-dy) == -(gmm * dy)) by (nonlinear_arith);
    let rsq = dx * dx + dy * dy;
    let r = sqrt_floor(rsq);
    let rs1 = if rsq < 1 { 1 } else { rsq };
    let r1 = if r < 1 { 1 } else { r };
    assert(rs1 * r1 > 0) by (nonlinear_arith)
        requires rs1 >= 1, r1 >= 1;
    lemma_trunc_div_neg(gmm * dx, rs1 * r1);
    lemma_trunc_div_neg(gmm * dy, rs1 * r1);
    lemma_bounded_force(force_component(gmm, dx, rsq), force_component(gmm, dy, rsq));
}

/// What body `m` contributes to the net force on body `k`.
pub open spec fn pull_from(bs: Seq<Body>, live: Seq<bool>, k: int, m: int, g: int) -> (int, int) {
    if k != m && live[k] && live[m] {
        pair_force(bs[k], bs[m], g)
    } else {
        (0, 0)
    }
}

/// The force on body `k` from bodies `0 .. h`.
pub open spec fn row_sum(bs: Seq<Body>, live: Seq<bool>, k: int, h: int, g: int) -> (int, int)
    decreases h,
{
    if h <= 0 {
        (0, 0)
    } else {
        let s = row_sum(bs, live, k, h - 1, g);
        let c = pull_from(bs, live, k, h - 1, g);
        (s.0 + c.0, s.1 + c.1)
    }
}

/// The net gravitational force on body `k` from every other live body.
pub open spec fn net_force(bs: Seq<Body>, live: Seq<bool>, k: int, g: int) -> (int, int) {
    row_sum(bs, live, k, bs.len() as int, g)
}

/// The bodies after the force pass: every force overwritten by its net force.
pub open spec fn forces_applied(bs: Seq<Body>, live: Seq<bool>, k: int, g: int) -> Body {
    Body {
        force: Vec2 {
            x: net_force(bs, live, k, g).0 as i64,
            y: net_force(bs, live, k, g).1 as i64,
        },
        ..bs[k]
    }
}

proof fn lemma_pull_from_bound(bs: Seq<Body>, live: Seq<bool>, k: int, m: int, g: int)
    ensures
        -PAIR_FORCE_MAX <= pull_from(bs, live, k, m, g).0 <= PAIR_FORCE_MAX,
        -PAIR_FORCE_MAX <= pull_from(bs, live, k, m, g).1 <= PAIR_FORCE_MAX,
{
    let a = bs[k];
    let b = bs[m];
    let dx = b.pos.x - a.pos.x;
    let dy = b.pos.y - a.pos.y;
    let rsq = dx * dx + dy * dy;
    let gmm = g * a.mass * b.mass;
    lemma_bounded_force(force_component(gmm, dx, rsq), force_component(gmm, dy, rsq));
}

pub proof fn lemma_row_sum_bound(bs: Seq<Body>, live: Seq<bool>, k: int, h: int, g: int)
    requires
        0 <= h,
    ensures
        -h * PAIR_FORCE_MAX <= row_sum(bs, live, k, h, g).0 <= h * PAIR_FORCE_MAX,
        -h * PAIR_FORCE_MAX <= row_sum(bs, live, k, h, g).1 <= h * PAIR_FORCE_MAX,
    decreases h,
{
    if h > 0 {
        lemma_row_sum_bound(bs, live, k, h - 1, g);
        lemma_pull_from_bound(bs, live, k, h - 1, g);
    }
}

/// The net force on any body fits the bound that a well-formed body has.
pub proof fn lemma_net_force_bound(bs: Seq<Body>, live: Seq<bool>, k: int, g: int)
    requires
        bs.len() <= BODIES_MAX,
    ensures
        -FORCE_MAX <= net_force(bs, live, k, g).0 <= FORCE_MAX,
        -FORCE_MAX <= net_force(bs, live, k, g).1 <= FORCE_MAX,
{
    lemma_row_sum_bound(bs, live, k, bs.len() as int, g);
    assert(bs.len() * PAIR_FORCE_MAX <= FORCE_MAX) by (nonlinear_arith)
        requires bs.len() <= 0x1_0000;
}

proof fn lemma_component_fits(gmm: int, d: int)
    requires
        0 <= gmm <= 0x1_0000_0000_0000_0000_0000,
        -0x200_0000_0000 <= d <= 0x200_0000_0000,
    ensures
        -0x200_0000_0000_0000_0000_0000_0000_0000 <= gmm * d <= 0x200_0000_0000_0000_0000_0000_0000_0000,
{
    assert(-0x200_0000_0000_0000_0000_0000_0000_0000 <= gmm * d <= 0x200_0000_0000_0000_0000_0000_0000_0000)
        by (nonlinear_arith)
        requires 0 <= gmm <= 0x1_0000_0000_0000_0000_0000, -0x200_0000_0000 <= d <= 0x200_0000_0000;
}

/// Computes `pair_force(a, b, g)`.
pub fn pair_force_exec(a: &Body, b: &Body, g: u64) -> (r: Vec2)
    requires
        within(a.pos, POS_MAX),
        within(b.pos, POS_MAX),
        1 <= a.mass <= MASS_MAX,
        1 <= b.mass <= MASS_MAX,
        1 <= g <= G_MAX,
    ensures
        r.x == pair_force(*a, *b, g as int).0,
        r.y == pair_force(*a, *b, g as int).1,
{
    let dx: i128 = b.pos.x as i128 - a.pos.x as i128;
    let dy: i128 = b.pos.y as i128 - a.pos.y as i128;
    assert(dx * dx <= 0x4_0000_0000_0000_0000_0000) by (nonlinear_arith)
        requires -0x200_0000_0000 <= dx <= 0x200_0000_0000;
    assert(dy * dy <= 0x4_0000_0000_0000_0000_0000) by (nonlinear_arith)
        requires -0x200_0000_0000 <= dy <= 0x200_0000_0000;
    assert(0 <= dx * dx && 0 <= dy * dy) by (nonlinear_arith);
    let rsq: i128 = dx * dx + dy * dy;
    let r: i128 = isqrt(rsq as u128) as i128;
    proof {
        lemma_isqrt_unique(rsq as int, r as int, sqrt_floor(rsq as int));
        assert(r <= 0x400_0000_0000) by (nonlinear_arith)
            requires r * r <= rsq, rsq <= 0x8_0000_0000_0000_0000_0000, 0 <= r;
    }
    let rs1: i128 = if rsq < 1 { 1 } else { rsq };
    let r1: i128 = if r < 1 { 1 } else { r };
    assert(1 <= rs1 * r1 <= 0x8_0000_0000_0000_0000_0000 * 0x400_0000_0000) by (nonlinear_arith)
        requires 1 <= rs1 <= 0x8_0000_0000_0000_0000_0000, 1 <= r1 <= 0x400_0000_0000;
    let denom: i128 = rs1 * r1;
    assert(1 <= g * a.mass <= 0x1_0000_0000_0000) by (nonlinear_arith)
        requires 1 <= g <= 0x1_0000, 1 <= a.mass <= 0x1_0000_0000;
    let gm: i128 = (g as i128) * (a.mass as i128);
    assert(1 <= gm * b.mass <= 0x1_0000_0000_0000_0000_0000) by (nonlinear_arith)
        requires 1 <= gm <= 0x1_0000_0000_0000, 1 <= b.mass <= 0x1_0000_0000;
    let gmm: i128 = gm * (b.mass as i128);
    proof {
        lemma_component_fits(gmm as int, dx as int);
        lemma_component_fits(gmm as int, dy as int);
    }
    let fx = div_trunc(gmm * dx, denom);
    let fy = div_trunc(gmm * dy, denom);
    proof {
        lemma_bounded_force(fx as int, fy as int);
        crate::arith::lemma_trunc_div_bound(gmm * dx, denom as int, 0x200_0000_0000_0000_0000_0000_0000_0000);
        crate::arith::lemma_trunc_div_bound(gmm * dy, denom as int, 0x200_0000_0000_0000_0000_0000_0000_0000);
    }
    let ax: i128 = if fx < 0 { -fx } else { fx };
    let ay: i128 = if fy < 0 { -fy } else { fy };
    let m: i128 = if ax >= ay { ax } else { ay };
    if m <= PAIR_FORCE_MAX as i128 {
        Vec2 { x: fx as i64, y: fy as i64 }
    } else {
        let c = m / (PAIR_FORCE_MAX as i128) + 1;
        let bx = div_trunc(fx, c);
        let by = div_trunc(fy, c);
        Vec2 { x: bx as i64, y: by as i64 }
    }
}

} // verus!

verus! {

/// How many bodies' forces from body `k`'s point of view are accumulated,
/// when the pass has finished rows `0 .. i` and pairs `(i, i+1 .. j)`.
pub open spec fn done_prefix(n: int, i: int, j: int, k: int) -> int {
    if k < i {
        n
    } else if k == i {
        j
    } else if k < j {
        i + 1
    } else {
        i
    }
}

/// Bodies differ from `old` in their force alone.
pub open spec fn same_but_force(bs: Seq<Body>, old: Seq<Body>) -> bool {
    &&& bs.len() == old.len()
    &&& forall|k: int| 0 <= k < bs.len() ==> (Body { force: old[k].force, ..#[trigger] bs[k] }) == old[k]
}

/// Overwrites every body's force with the net gravitational force from the
/// other live bodies, evaluating each unordered pair once.
pub fn compute_forces(bodies: &mut Vec<Body>, live: &Vec<bool>, g: u64)
    requires
        old(bodies).len() == live.len(),
        old(bodies).len() <= BODIES_MAX,
        forall|k: int| 0 <= k < old(bodies).len() ==> (#[trigger] old(bodies)[k]).wf(),
        1 <= g <= G_MAX,
    ensures
        final(bodies).len() == old(bodies).len(),
        forall|k: int| 0 <= k < final(bodies).len() ==>
            #[trigger] final(bodies)[k] == forces_applied(old(bodies)@, live@, k, g as int),
{
    let ghost bs = bodies@;
    let ghost lv = live@;
    let ghost gi = g as int;
    let n = bodies.len();
    let mut z: usize = 0;
    while z < n
        invariant
            n == bodies.len(),
            same_but_force(bodies@, bs),
            forall|k: int| 0 <= k < z ==> #[trigger] bodies@[k].force == (Vec2 { x: 0, y: 0 }),
            z <= n,
        decreases n - z,
    {
        let mut b = bodies[z];
        b.force = Vec2 { x: 0, y: 0 };
        bodies.set(z, b);
        z = z + 1;
    }
    let mut i: usize = 0;
    while i < n
        invariant
            n == bodies.len(),
            n == bs.len(),
            n == lv.len(),
            lv == live@,
            n <= BODIES_MAX,
            1 <= g <= G_MAX,
            gi == g as int,
            forall|k: int| 0 <= k < n ==> (#[trigger] bs[k]).wf(),
            same_but_force(bodies@, bs),
            i <= n,
            forall|k: int| 0 <= k < n ==> (#[trigger] bodies@[k]).force.x == row_sum(bs, lv, k, rows_prefix(n as int, i as int, k), gi).0
                && bodies@[k].force.y == row_sum(bs, lv, k, rows_prefix(n as int, i as int, k), gi).1,
        decreases n - i,
    {
        proof {
            assert(pull_from(bs, lv, i as int, i as int, gi) == (0int, 0int));
            assert(row_sum(bs, lv, i as int, i + 1, gi) == row_sum(bs, lv, i as int, i as int, gi));
        }
        let mut j: usize = i + 1;
        while j < n
            invariant
                n == bodies.len(),
                n == bs.len(),
                n == lv.len(),
                lv == live@,
                n <= BODIES_MAX,
                1 <= g <= G_MAX,
                gi == g as int,
                forall|k: int| 0 <= k < n ==> (#[trigger] bs[k]).wf(),
                same_but_force(bodies@, bs),
                i < n,
                i < j <= n,
                forall|k: int| 0 <= k < n ==> (#[trigger] bodies@[k]).force.x == row_sum(bs, lv, k, done_prefix(n as int, i as int, j as int, k), gi).0
                    && bodies@[k].force.y == row_sum(bs, lv, k, done_prefix(n as int, i as int, j as int, k), gi).1,
            decreases n - j,
        {
            let ghost before = bodies@;
            proof {
                lemma_pair_force_antisymmetric(bs[i as int], bs[j as int], gi);
                lemma_row_sum_bound(bs, lv, i as int, j + 1, gi);
                lemma_row_sum_bound(bs, lv, j as int, i + 1, gi);
                assert((j + 1) * PAIR_FORCE_MAX <= FORCE_MAX) by (nonlinear_arith)
                    requires j + 1 <= 0x1_0000;
                assert((i + 1) * PAIR_FORCE_MAX <= FORCE_MAX) by (nonlinear_arith)
                    requires i + 1 <= 0x1_0000;
                assert(row_sum(bs, lv, i as int, j + 1, gi) == {
                    let s = row_sum(bs, lv, i as int, j as int, gi);
                    let c = pull_from(bs, lv, i as int, j as int, gi);
                    (s.0 + c.0, s.1 + c.1)
                });
                assert(row_sum(bs, lv, j as int, i + 1, gi) == {
                    let s = row_sum(bs, lv, j as int, i as int, gi);
                    let c = pull_from(bs, lv, j as int, i as int, gi);
                    (s.0 + c.0, s.1 + c.1)
                });
                assert(done_prefix(n as int, i as int, j as int, j as int) == i);
                assert(done_prefix(n as int, i as int, j as int, i as int) == j);
            }
            if live[i] && live[j] {
                let bi = bodies[i];
                let bj = bodies[j];
                let f = pair_force_exec(&bi, &bj, g);
                assert(pair_force(bi, bj, gi) == pair_force(bs[i as int], bs[j as int], gi));
                let nbi = Body { force: Vec2 { x: bi.force.x + f.x, y: bi.force.y + f.y }, ..bi };
                let nbj = Body { force: Vec2 { x: bj.force.x - f.x, y: bj.force.y - f.y }, ..bj };
                bodies.set(i, nbi);
                bodies.set(j, nbj);
            }
            proof {
                assert forall|k: int| 0 <= k < n implies (#[trigger] bodies@[k]).force.x == row_sum(bs, lv, k, done_prefix(n as int, i as int, (j + 1) as int, k), gi).0
                    && bodies@[k].force.y == row_sum(bs, lv, k, done_prefix(n as int, i as int, (j + 1) as int, k), gi).1 by {
                    if k == i {
                        assert(done_prefix(n as int, i as int, (j + 1) as int, k) == j + 1);
                        assert(before[k].force.x == row_sum(bs, lv, k, j as int, gi).0);
                        assert(before[k].force.y == row_sum(bs, lv, k, j as int, gi).1);
                        if !(lv[i as int] && lv[j as int]) {
                            assert(pull_from(bs, lv, i as int, j as int, gi) == (0int, 0int));
                        }
                    } else if k == j {
                        assert(done_prefix(n as int, i as int, (j + 1) as int, k) == i + 1);
                        assert(before[k].force.x == row_sum(bs, lv, k, i as int, gi).0);
                        assert(before[k].force.y == row_sum(bs, lv, k, i as int, gi).1);
                        if !(lv[i as int] && lv[j as int]) {
                            assert(pull_from(bs, lv, j as int, i as int, gi) == (0int, 0int));
                        }
                    } else {
                        assert(bodies@[k] == before[k]);
                        assert(done_prefix(n as int, i as int, j as int, k) == done_prefix(n as int, i as int, (j + 1) as int, k));
                    }
                }
                assert forall|k: int| 0 <= k < n implies (Body { force: bs[k].force, ..#[trigger] bodies@[k] }) == bs[k] by {
                    assert((Body { force: bs[k].force, ..before[k] }) == bs[k]);
                }
            }
            j = j + 1;
        }
        i = i + 1;
    }
    proof {
        assert forall|k: int| 0 <= k < n implies #[trigger] bodies@[k] == forces_applied(bs, lv, k, gi) by {
            assert((Body { force: bs[k].force, ..bodies@[k] }) == bs[k]);
        }
    }
}

/// Rows `0 .. i` finished: how many bodies' forces body `k` has received.
pub open spec fn rows_prefix(n: int, i: int, k: int) -> int {
    if k < i {
        n
    } else {
        i
    }
}

} // verus!
