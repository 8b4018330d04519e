//! Properties that relate the engine's passes to one another.
use vstd::prelude::*;
use crate::arith::{is_isqrt, trunc_div};
use crate::body::{Body, Vec2, bounded_push, BODIES_MAX, MASS_MAX, MOMENTUM_MAX, PAIR_FORCE_MAX};
use crate::collision::{collision_pass, collision_pass_start, merged, merges_at, overlaps, pair_step, scan_row, scan_rows, PassState};
use crate::gravity::{bounded_force, lemma_isqrt_unique, lemma_net_force_bound, lemma_pair_force_antisymmetric, net_force, pair_force, pull_from, row_sum, sqrt_floor};
use crate::integrator::{positions_advanced, velocities_advanced};
use crate::store::reaped;
use crate::world::{forces_pass, integrated, live_mask, run_state, step_state, WorldView};

verus! {

/// Total momentum of bodies `0 .. h`.
pub open spec fn momentum_sum(bs: Seq<Body>, h: int) -> (int, int)
    decreases h,
{
    if h <= 0 {
        (0, 0)
    } else {
        let s = momentum_sum(bs, h - 1);
        (s.0 + bs[h - 1].momentum.x, s.1 + bs[h - 1].momentum.y)
    }
}

/// No two physical bodies overlap.
pub open spec fn no_overlaps(bs: Seq<Body>) -> bool {
    forall|a: int, b: int| 0 <= a < b < bs.len() && !bs[a].preview && !bs[b].preview ==> !overlaps(#[trigger] bs[a], #[trigger] bs[b])
}

/// Which bodies are physical.
pub open spec fn physical_mask(bs: Seq<Body>) -> Seq<bool> {
    live_mask(bs, Seq::new(bs.len(), |m: int| false))
}

/// Bodies after the position half when nothing has merged.
pub open spec fn quiet_moved(bs: Seq<Body>, dt: int) -> Seq<Body> {
    positions_advanced(bs, physical_mask(bs), dt)
}

/// Total momentum of all bodies.
pub open spec fn total_momentum(bs: Seq<Body>) -> (int, int) {
    momentum_sum(bs, bs.len() as int)
}

/// Sum over bodies `0 .. h` of the force on each from bodies `0 .. w`.
pub open spec fn force_table_sum(bs: Seq<Body>, live: Seq<bool>, h: int, w: int, g: int) -> (int, int)
    decreases h,
{
    if h <= 0 {
        (0, 0)
    } else {
        let s = force_table_sum(bs, live, h - 1, w, g);
        let r = row_sum(bs, live, h - 1, w, g);
        (s.0 + r.0, s.1 + r.1)
    }
}

/// Sum over bodies `0 .. h` of the pull of body `w` on each.
pub open spec fn column_sum(bs: Seq<Body>, live: Seq<bool>, h: int, w: int, g: int) -> (int, int)
    decreases h,
{
    if h <= 0 {
        (0, 0)
    } else {
        let s = column_sum(bs, live, h - 1, w, g);
        let c = pull_from(bs, live, h - 1, w, g);
        (s.0 + c.0, s.1 + c.1)
    }
}

proof fn lemma_pull_antisymmetric(bs: Seq<Body>, live: Seq<bool>, k: int, m: int, g: int)
    ensures
        pull_from(bs, live, m, k, g).0 == -pull_from(bs, live, k, m, g).0,
        pull_from(bs, live, m, k, g).1 == -pull_from(bs, live, k, m, g).1,
{
    lemma_pair_force_antisymmetric(bs[k], bs[m], g);
}

proof fn lemma_table_extend(bs: Seq<Body>, live: Seq<bool>, h: int, w: int, g: int)
    requires
        0 <= h,
        0 <= w,
    ensures
        force_table_sum(bs, live, h, w + 1, g).0 == force_table_sum(bs, live, h, w, g).0 + column_sum(bs, live, h, w, g).0,
        force_table_sum(bs, live, h, w + 1, g).1 == force_table_sum(bs, live, h, w, g).1 + column_sum(bs, live, h, w, g).1,
    decreases h,
{
    if h > 0 {
        lemma_table_extend(bs, live, h - 1, w, g);
    }
}

proof fn lemma_column_is_negated_row(bs: Seq<Body>, live: Seq<bool>, h: int, n: int, g: int)
    requires
        0 <= h,
    ensures
        column_sum(bs, live, h, n, g).0 == -row_sum(bs, live, n, h, g).0,
        column_sum(bs, live, h, n, g).1 == -row_sum(bs, live, n, h, g).1,
    decreases h,
{
    if h > 0 {
        lemma_column_is_negated_row(bs, live, h - 1, n, g);
        lemma_pull_antisymmetric(bs, live, n, h - 1, g);
    }
}

/// Forces between the bodies cancel: the net forces on bodies `0 .. n`
/// from bodies `0 .. n` sum to zero.
pub proof fn lemma_forces_cancel(bs: Seq<Body>, live: Seq<bool>, n: int, g: int)
    requires
        0 <= n,
    ensures
        force_table_sum(bs, live, n, n, g) == (0int, 0int),
    decreases n,
{
    if n > 0 {
        let m = n - 1;
        lemma_forces_cancel(bs, live, m, g);
        lemma_table_extend(bs, live, m, m, g);
        lemma_column_is_negated_row(bs, live, m, m, g);
        assert(pull_from(bs, live, m, m, g) == (0int, 0int));
    }
}

proof fn lemma_momentum_after_kick(b0: Seq<Body>, b2: Seq<Body>, bs: Seq<Body>, live: Seq<bool>, h: int, dt: int, g: int)
    requires
        0 <= h <= b0.len(),
        b2.len() == b0.len(),
        forall|k: int| 0 <= k < b0.len() ==> (#[trigger] b2[k]).momentum.x == b0[k].momentum.x + net_force(bs, live, k, g).0 * dt
            && b2[k].momentum.y == b0[k].momentum.y + net_force(bs, live, k, g).1 * dt,
    ensures
        momentum_sum(b2, h).0 == momentum_sum(b0, h).0 + force_table_sum(bs, live, h, bs.len() as int, g).0 * dt,
        momentum_sum(b2, h).1 == momentum_sum(b0, h).1 + force_table_sum(bs, live, h, bs.len() as int, g).1 * dt,
    decreases h,
{
    if h > 0 {
        lemma_momentum_after_kick(b0, b2, bs, live, h - 1, dt, g);
        let a = force_table_sum(bs, live, h - 1, bs.len() as int, g);
        let f = net_force(bs, live, h - 1, g);
        assert(a.0 * dt + f.0 * dt == (a.0 + f.0) * dt) by (nonlinear_arith);
        assert(a.1 * dt + f.1 * dt == (a.1 + f.1) * dt) by (nonlinear_arith);
        assert(b2[h - 1].momentum.x == b0[h - 1].momentum.x + f.0 * dt);
        assert(b2[h - 1].momentum.y == b0[h - 1].momentum.y + f.1 * dt);
    } else {
        assert(0 * dt == 0);
    }
}

/// Gravity conserves momentum: recomputing forces and applying the velocity
/// half leaves the total momentum unchanged, whenever no momentum reaches its
/// bound.
pub proof fn lemma_momentum_conserved(bs: Seq<Body>, live: Seq<bool>, dt: int, g: int)
    requires
        live.len() == bs.len(),
        bs.len() <= BODIES_MAX,
        forall|k: int| 0 <= k < bs.len() ==> {
            let f = #[trigger] net_force(bs, live, k, g);
            &&& -MOMENTUM_MAX <= bs[k].momentum.x + f.0 * dt <= MOMENTUM_MAX
            &&& -MOMENTUM_MAX <= bs[k].momentum.y + f.1 * dt <= MOMENTUM_MAX
        },
    ensures
        total_momentum(velocities_advanced(forces_pass(bs, live, g), live, dt)) == total_momentum(bs),
{
    let after = velocities_advanced(forces_pass(bs, live, g), live, dt);
    assert forall|k: int| 0 <= k < bs.len() implies (#[trigger] after[k]).momentum.x == bs[k].momentum.x + net_force(bs, live, k, g).0 * dt
        && after[k].momentum.y == bs[k].momentum.y + net_force(bs, live, k, g).1 * dt by {
        lemma_net_force_bound(bs, live, k, g);
        if !live[k] {
            lemma_silent_row(bs, live, k, bs.len() as int, g);
        }
    }
    lemma_momentum_after_kick(bs, after, bs, live, bs.len() as int, dt, g);
    lemma_forces_cancel(bs, live, bs.len() as int, g);
}

proof fn lemma_silent_row(bs: Seq<Body>, live: Seq<bool>, k: int, h: int, g: int)
    requires
        0 <= k < live.len(),
        !live[k],
    ensures
        row_sum(bs, live, k, h, g) == (0int, 0int),
    decreases h,
{
    if h > 0 {
        lemma_silent_row(bs, live, k, h - 1, g);
    }
}

proof fn lemma_quiet_row(s: PassState, i: int, j: int)
    requires
        no_overlaps(s.0),
        0 <= i,
        j <= s.0.len(),
    ensures
        scan_row(s, i, j) == s,
    decreases j - i,
{
    if j > i + 1 {
        lemma_quiet_row(s, i, j - 1);
        assert(!merges_at(s, i, j - 1));
    }
}

proof fn lemma_quiet_rows(s: PassState, n: int, i: int)
    requires
        no_overlaps(s.0),
        s.0.len() == n,
        i <= n,
    ensures
        scan_rows(s, n, i) == s,
    decreases i,
{
    if i > 0 {
        lemma_quiet_rows(s, n, i - 1);
        lemma_quiet_row(s, i - 1, n);
    }
}

/// Where no physical bodies overlap, a collision pass changes nothing.
pub proof fn lemma_quiet_pass(bs: Seq<Body>)
    requires
        no_overlaps(bs),
    ensures
        collision_pass(bs) == collision_pass_start(bs),
{
    lemma_quiet_rows(collision_pass_start(bs), bs.len() as int, bs.len() as int);
}

proof fn lemma_reaped_none<T>(s: Seq<T>, gone: Seq<bool>)
    requires
        gone.len() == s.len(),
        forall|k: int| 0 <= k < gone.len() ==> !#[trigger] gone[k],
    ensures
        reaped(s, gone) == s,
    decreases s.len(),
{
    if s.len() > 0 {
        let g = gone.drop_first();
        assert forall|k: int| 0 <= k < g.len() implies !#[trigger] g[k] by {
            assert(g[k] == gone[k + 1]);
        }
        lemma_reaped_none(s.drop_first(), g);
        assert(seq![s[0]] + s.drop_first() =~= s);
    }
}

proof fn lemma_momentum_sum_by_momenta(a: Seq<Body>, b: Seq<Body>, h: int)
    requires
        0 <= h <= a.len(),
        a.len() == b.len(),
        forall|k: int| 0 <= k < a.len() ==> (#[trigger] a[k]).momentum == b[k].momentum,
    ensures
        momentum_sum(a, h) == momentum_sum(b, h),
    decreases h,
{
    if h > 0 {
        lemma_momentum_sum_by_momenta(a, b, h - 1);
    }
}

/// A whole pipeline iteration in which no physical bodies overlap conserves
/// total momentum, whenever no momentum reaches its bound: nothing merges or
/// is removed, the position half leaves momenta alone, and gravity cancels.
pub proof fn lemma_step_conserves_momentum(w: WorldView, dt: int, g: int)
    requires
        w.0.len() == w.1.len(),
        w.2.len() == w.1.len(),
        w.1.len() <= BODIES_MAX,
        no_overlaps(w.1),
        forall|k: int| 0 <= k < w.1.len() ==> {
            &&& -MOMENTUM_MAX <= w.1[k].momentum.x + (#[trigger] net_force(quiet_moved(w.1, dt), physical_mask(w.1), k, g)).0 * dt <= MOMENTUM_MAX
            &&& -MOMENTUM_MAX <= w.1[k].momentum.y + net_force(quiet_moved(w.1, dt), physical_mask(w.1), k, g).1 * dt <= MOMENTUM_MAX
        },
    ensures
        step_state(w, dt, g).0 == w.0,
        total_momentum(step_state(w, dt, g).1) == total_momentum(w.1),
{
    let bs = w.1;
    let none = Seq::new(bs.len(), |m: int| false);
    lemma_quiet_pass(bs);
    let live = live_mask(bs, none);
    assert(live == physical_mask(bs));
    let b2 = positions_advanced(bs, live, dt);
    let b4 = integrated(bs, live, dt, g);
    assert forall|k: int| 0 <= k < b2.len() implies (#[trigger] b2[k]).momentum == bs[k].momentum by {}
    assert(b2 == quiet_moved(bs, dt));
    assert forall|k: int| 0 <= k < b2.len() implies {
        let f = #[trigger] net_force(b2, live, k, g);
        &&& -MOMENTUM_MAX <= b2[k].momentum.x + f.0 * dt <= MOMENTUM_MAX
        &&& -MOMENTUM_MAX <= b2[k].momentum.y + f.1 * dt <= MOMENTUM_MAX
    } by {
        assert(net_force(quiet_moved(bs, dt), physical_mask(bs), k, g) == net_force(b2, live, k, g));
    }
    lemma_momentum_conserved(b2, live, dt, g);
    lemma_momentum_sum_by_momenta(b2, bs, bs.len() as int);
    lemma_reaped_none(w.0, none);
    lemma_reaped_none(b4, none);
}

/// The force between two bodies a distance `d` apart along the x axis has
/// magnitude `G * m1 * m2 / d²` (rounded down, then scaled into its bound),
/// points from the first toward the second, and has no y component. Where `d²` divides
/// `G * m2` and the force is within its bound, the first body's acceleration,
/// force / `m1`, is exactly `G * m2 / d²`.
pub proof fn lemma_gravity_magnitude(a: Body, b: Body, g: int, d: int)
    requires
        d > 0,
        g >= 0,
        b.pos.x == a.pos.x + d,
        b.pos.y == a.pos.y,
    ensures
        pair_force(a, b, g) == bounded_force(g * a.mass * b.mass / (d * d), 0),
        g * a.mass * b.mass / (d * d) <= PAIR_FORCE_MAX ==> pair_force(a, b, g).0 == g * a.mass * b.mass / (d * d),
        pair_force(a, b, g).0 >= 0,
        pair_force(a, b, g).1 == 0,
        pair_force(b, a, g).0 == -pair_force(a, b, g).0,
        (g * b.mass) % (d * d) == 0 && g * a.mass * b.mass / (d * d) <= PAIR_FORCE_MAX ==>
            pair_force(a, b, g).0 == a.mass * ((g * b.mass) / (d * d)),
{
    let rsq = d * d + 0 * 0;
    assert(d * d >= 1) by (nonlinear_arith)
        requires d >= 1;
    assert((d + 1) * (d + 1) > d * d) by (nonlinear_arith)
        requires d >= 1;
    assert(is_isqrt(rsq, d));
    lemma_isqrt_unique(rsq, d, sqrt_floor(rsq));
    let gmm = g * a.mass * b.mass;
    assert(gmm >= 0) by (nonlinear_arith)
        requires g >= 0, a.mass >= 0, b.mass >= 0, gmm == g * a.mass * b.mass;
    assert(gmm * d >= 0) by (nonlinear_arith)
        requires gmm >= 0, d >= 0;
    assert(gmm * d == d * gmm && rsq * d == d * (d * d)) by (nonlinear_arith)
        requires rsq == d * d;
    vstd::arithmetic::div_mod::lemma_div_multiples_vanish_quotient(d, gmm, d * d);
    assert(gmm * 0 == 0);
    lemma_pair_force_antisymmetric(a, b, g);
    let q = gmm / (d * d);
    vstd::arithmetic::div_mod::lemma_div_pos_is_pos(gmm, d * d);
    if q > PAIR_FORCE_MAX {
        let c = q / (PAIR_FORCE_MAX as int) + 1;
        vstd::arithmetic::div_mod::lemma_div_pos_is_pos(q, c);
        assert(trunc_div(0, c) == 0);
    }
    if (g * b.mass) % (d * d) == 0 {
        let q = (g * b.mass) / (d * d);
        vstd::arithmetic::div_mod::lemma_fundamental_div_mod(g * b.mass, d * d);
        assert(gmm == (d * d) * (a.mass * q)) by (nonlinear_arith)
            requires g * b.mass == (d * d) * q + 0, gmm == g * a.mass * b.mass;
        vstd::arithmetic::div_mod::lemma_div_multiples_vanish(a.mass * q, d * d);
    }
}

/// With two live bodies, each one's net force is the pair force from the
/// other: the force pass overwrites rather than accumulates.
pub proof fn lemma_two_body_force(bs: Seq<Body>, live: Seq<bool>, g: int)
    requires
        bs.len() == 2,
        live.len() == 2,
        live[0],
        live[1],
    ensures
        net_force(bs, live, 0, g) == pair_force(bs[0], bs[1], g),
        net_force(bs, live, 1, g) == pair_force(bs[1], bs[0], g),
        net_force(bs, live, 1, g).0 == -net_force(bs, live, 0, g).0,
        net_force(bs, live, 1, g).1 == -net_force(bs, live, 0, g).1,
{
    assert(row_sum(bs, live, 0, 0, g) == (0int, 0int));
    assert(row_sum(bs, live, 1, 0, g) == (0int, 0int));
    assert(pull_from(bs, live, 0, 0, g) == (0int, 0int));
    let a = row_sum(bs, live, 0, 1, g);
    assert(a.0 == 0 && a.1 == 0);
    let b = row_sum(bs, live, 1, 1, g);
    assert(b.0 == pull_from(bs, live, 1, 0, g).0 && b.1 == pull_from(bs, live, 1, 0, g).1);
    lemma_pair_force_antisymmetric(bs[0], bs[1], g);
}

/// Running the pipeline is a function of its input: equal worlds under equal
/// configuration stay equal after any number of iterations.
pub proof fn lemma_pipeline_deterministic(w1: WorldView, w2: WorldView, dt: int, g: int, k: nat)
    requires
        w1 == w2,
    ensures
        run_state(w1, dt, g, k) == run_state(w2, dt, g, k),
{
}

/// A trail never exceeds its bound after an append; the oldest entries are
/// the ones evicted, and the new position is the newest entry.
pub proof fn lemma_trail_bound(t: Seq<Vec2>, p: Vec2, max: nat)
    ensures
        bounded_push(t, p, max).len() <= max,
        bounded_push(t, p, max) == t.push(p).subrange(t.len() + 1 - bounded_push(t, p, max).len(), t.len() + 1int),
        max > 0 ==> bounded_push(t, p, max).last() == p,
{
    let s = t.push(p);
    if s.len() > max {
        assert(bounded_push(t, p, max).len() == max);
    } else {
        assert(s.subrange(0, s.len() as int) =~= s);
    }
}

/// A merge adds the masses and the momenta, whenever the sums lie within
/// their bounds.
pub proof fn lemma_merge_conserves(a: Body, b: Body)
    requires
        a.mass + b.mass <= MASS_MAX,
        -MOMENTUM_MAX <= a.momentum.x + b.momentum.x <= MOMENTUM_MAX,
        -MOMENTUM_MAX <= a.momentum.y + b.momentum.y <= MOMENTUM_MAX,
    ensures
        merged(a, b).mass == a.mass + b.mass,
        merged(a, b).momentum.x == a.momentum.x + b.momentum.x,
        merged(a, b).momentum.y == a.momentum.y + b.momentum.y,
{
}

/// A body that already took part in a merge in this pass takes part in no
/// other: any pair holding it leaves the pass state as it was. A merge marks
/// both its participants.
pub proof fn lemma_no_double_merge(s: PassState, i: int, j: int)
    requires
        0 <= i < s.1.len(),
        0 <= j < s.1.len(),
    ensures
        s.1[i] || s.1[j] ==> pair_step(s, i, j) == s,
        merges_at(s, i, j) ==> pair_step(s, i, j).1[i] && pair_step(s, i, j).1[j],
{
}

} // verus!
