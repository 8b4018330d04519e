//! Collision detection and perfectly inelastic merges.
//!
//! A pass scans the unordered pairs `(i, j)`, `i < j`, in order. Two physical
//! bodies whose centres lie no farther apart than the sum of their radii merge
//! into the lower-indexed one, which keeps its handle; the other is marked gone.
//! Both then sit out the rest of the pass, so no body merges twice in a pass.
use vstd::prelude::*;
use crate::arith::{clamp_spec, clamp_to, trunc_div, div_trunc, is_isqrt, isqrt, lemma_trunc_div_bound};
use crate::body::{Body, Vec2, POS_MAX, MOMENTUM_MAX, FORCE_MAX, MASS_MAX, RADIUS_MAX};
use crate::gravity::{sqrt_floor, lemma_isqrt_unique};

verus! {

/// The two bodies' discs touch or overlap.
pub open spec fn overlaps(a: Body, b: Body) -> bool {
    let dx = b.pos.x - a.pos.x;
    let dy = b.pos.y - a.pos.y;
    dx * dx + dy * dy <= (a.radius + b.radius) * (a.radius + b.radius)
}

/// Mass-weighted mean of two coordinates, rounded toward zero.
pub open spec fn centroid(ma: int, xa: int, mb: int, xb: int) -> int {
    trunc_div(ma * xa + mb * xb, ma + mb)
}

/// The body that `a` becomes on absorbing `b`: masses and momenta add, the
/// position is the centre of mass, and the radius keeps the combined area.
pub open spec fn merged(a: Body, b: Body) -> Body {
    Body {
        pos: Vec2 {
            x: clamp_spec(centroid(a.mass as int, a.pos.x as int, b.mass as int, b.pos.x as int), POS_MAX as int) as i64,
            y: clamp_spec(centroid(a.mass as int, a.pos.y as int, b.mass as int, b.pos.y as int), POS_MAX as int) as i64,
        },
        momentum: Vec2 {
            x: clamp_spec(a.momentum.x + b.momentum.x, MOMENTUM_MAX as int) as i64,
            y: clamp_spec(a.momentum.y + b.momentum.y, MOMENTUM_MAX as int) as i64,
        },
        force: Vec2 {
            x: clamp_spec(a.force.x + b.force.x, FORCE_MAX as int) as i64,
            y: clamp_spec(a.force.y + b.force.y, FORCE_MAX as int) as i64,
        },
        mass: if a.mass + b.mass > MASS_MAX { MASS_MAX } else { (a.mass + b.mass) as u64 },
        radius: if sqrt_floor(a.radius * a.radius + b.radius * b.radius) > RADIUS_MAX {
            RADIUS_MAX
        } else {
            sqrt_floor(a.radius * a.radius + b.radius * b.radius) as u64
        },
        ..a
    }
}

/// Tests whether two bodies overlap.
pub fn bodies_overlap(a: &Body, b: &Body) -> (r: bool)
    requires
        a.wf(),
        b.wf(),
    ensures
        r == overlaps(*a, *b),
{
    let dx: i128 = b.pos.x as i128 - a.pos.x as i128;
    let dy: i128 = b.pos.y as i128 - a.pos.y as i128;
    assert(0 <= dx * dx <= 0x4_0000_0000_0000_0000_0000) by (nonlinear_arith)
        requires -0x200_0000_0000 <= dx <= 0x200_0000_0000;
    assert(0 <= dy * dy <= 0x4_0000_0000_0000_0000_0000) by (nonlinear_arith)
        requires -0x200_0000_0000 <= dy <= 0x200_0000_0000;
    let s: i128 = a.radius as i128 + b.radius as i128;
    assert(0 <= s * s <= 0x4_0000_0000_0000_0000_0000) by (nonlinear_arith)
        requires 0 <= s <= 0x200_0000_0000;
    dx * dx + dy * dy <= s * s
}

/// Merges `b` into `a`.
pub fn merge_bodies(a: &Body, b: &Body) -> (r: Body)
    requires
        a.wf(),
        b.wf(),
    ensures
        r == merged(*a, *b),
        r.wf(),
{
    let ma = a.mass as i128;
    let mb = b.mass as i128;
    assert(-0x1_0000_0000_0000_0000_0000 <= ma * a.pos.x <= 0x1_0000_0000_0000_0000_0000) by (nonlinear_arith)
        requires 1 <= ma <= 0x1_0000_0000, -0x100_0000_0000 <= a.pos.x <= 0x100_0000_0000;
    assert(-0x1_0000_0000_0000_0000_0000 <= ma * a.pos.y <= 0x1_0000_0000_0000_0000_0000) by (nonlinear_arith)
        requires 1 <= ma <= 0x1_0000_0000, -0x100_0000_0000 <= a.pos.y <= 0x100_0000_0000;
    assert(-0x1_0000_0000_0000_0000_0000 <= mb * b.pos.x <= 0x1_0000_0000_0000_0000_0000) by (nonlinear_arith)
        requires 1 <= mb <= 0x1_0000_0000, -0x100_0000_0000 <= b.pos.x <= 0x100_0000_0000;
    assert(-0x1_0000_0000_0000_0000_0000 <= mb * b.pos.y <= 0x1_0000_0000_0000_0000_0000) by (nonlinear_arith)
        requires 1 <= mb <= 0x1_0000_0000, -0x100_0000_0000 <= b.pos.y <= 0x100_0000_0000;
    let cx = div_trunc(ma * (a.pos.x as i128) + mb * (b.pos.x as i128), ma + mb);
    let cy = div_trunc(ma * (a.pos.y as i128) + mb * (b.pos.y as i128), ma + mb);
    proof {
        lemma_trunc_div_bound(ma * a.pos.x + mb * b.pos.x, ma + mb, 0x2_0000_0000_0000_0000_0000);
        lemma_trunc_div_bound(ma * a.pos.y + mb * b.pos.y, ma + mb, 0x2_0000_0000_0000_0000_0000);
    }
    let ra = a.radius as u128;
    let rb = b.radius as u128;
    assert(ra * ra <= 0x1_0000_0000_0000_0000_0000) by (nonlinear_arith)
        requires ra <= 0x100_0000_0000;
    assert(rb * rb <= 0x1_0000_0000_0000_0000_0000) by (nonlinear_arith)
        requires rb <= 0x100_0000_0000;
    let root = isqrt(ra * ra + rb * rb);
    proof {
        lemma_isqrt_unique((ra * ra + rb * rb) as int, root as int, sqrt_floor((ra * ra + rb * rb) as int));
        assert(root >= 1) by (nonlinear_arith)
            requires root * root <= ra * ra + rb * rb, ra * ra + rb * rb < (root + 1) * (root + 1), ra >= 1, root >= 0;
    }
    let mass = if a.mass > MASS_MAX - b.mass { MASS_MAX } else { a.mass + b.mass };
    let radius = if root > RADIUS_MAX as u128 { RADIUS_MAX } else { root as u64 };
    Body {
        pos: Vec2 { x: clamp_to(cx, POS_MAX), y: clamp_to(cy, POS_MAX) },
        momentum: Vec2 {
            x: clamp_to(a.momentum.x as i128 + b.momentum.x as i128, MOMENTUM_MAX),
            y: clamp_to(a.momentum.y as i128 + b.momentum.y as i128, MOMENTUM_MAX),
        },
        force: Vec2 {
            x: clamp_to(a.force.x as i128 + b.force.x as i128, FORCE_MAX),
            y: clamp_to(a.force.y as i128 + b.force.y as i128, FORCE_MAX),
        },
        mass,
        radius,
        ..*a
    }
}

/// The state of a collision pass: bodies, which have taken part in a merge,
/// and which were absorbed and await removal.
pub type PassState = (Seq<Body>, Seq<bool>, Seq<bool>);

/// The pair `(i, j)` merges in state `s`.
pub open spec fn merges_at(s: PassState, i: int, j: int) -> bool {
    &&& !s.0[i].preview
    &&& !s.0[j].preview
    &&& !s.1[i]
    &&& !s.1[j]
    &&& overlaps(s.0[i], s.0[j])
}

/// Considers the pair `(i, j)`.
pub open spec fn pair_step(s: PassState, i: int, j: int) -> PassState {
    if merges_at(s, i, j) {
        (s.0.update(i, merged(s.0[i], s.0[j])), s.1.update(i, true).update(j, true), s.2.update(j, true))
    } else {
        s
    }
}

/// Considers the pairs `(i, i + 1) .. (i, j - 1)` in order.
pub open spec fn scan_row(s: PassState, i: int, j: int) -> PassState
    decreases j - i,
{
    if j <= i + 1 {
        s
    } else {
        pair_step(scan_row(s, i, j - 1), i, j - 1)
    }
}

/// Considers every pair whose first index is below `i`, over `n` bodies.
pub open spec fn scan_rows(s: PassState, n: int, i: int) -> PassState
    decreases i,
{
    if i <= 0 {
        s
    } else {
        scan_row(scan_rows(s, n, i - 1), i - 1, n)
    }
}

/// The whole collision pass over `bs`.
pub open spec fn collision_pass(bs: Seq<Body>) -> PassState {
    scan_rows(collision_pass_start(bs), bs.len() as int, bs.len() as int)
}

pub open spec fn pass_wf(s: PassState, n: int) -> bool {
    &&& s.0.len() == n
    &&& s.1.len() == n
    &&& s.2.len() == n
    &&& forall|k: int| 0 <= k < n ==> (#[trigger] s.0[k]).wf()
    &&& forall|k: int| 0 <= k < n && #[trigger] s.2[k] ==> s.1[k]
}

proof fn lemma_pair_step_wf(s: PassState, n: int, i: int, j: int)
    requires
        pass_wf(s, n),
        0 <= i < j < n,
    ensures
        pass_wf(pair_step(s, i, j), n),
{
    if merges_at(s, i, j) {
        lemma_merged_wf(s.0[i], s.0[j]);
        let t = pair_step(s, i, j);
        assert forall|k: int| 0 <= k < n && #[trigger] t.2[k] implies t.1[k] by {
            if k != j {
                assert(s.2[k]);
            }
        }
    }
}

proof fn lemma_merged_wf(a: Body, b: Body)
    requires
        a.wf(),
        b.wf(),
    ensures
        merged(a, b).wf(),
{
    let n = a.radius * a.radius + b.radius * b.radius;
    assert(n >= 1) by (nonlinear_arith)
        requires a.radius >= 1, b.radius >= 1, n == a.radius * a.radius + b.radius * b.radius;
    let r = sqrt_floor(n);
    assert(exists|q: int| is_isqrt(n, q)) by {
        let q = isqrt_witness(n);
    }
    assert(is_isqrt(n, r));
    assert(r >= 1) by (nonlinear_arith)
        requires r * r <= n, n < (r + 1) * (r + 1), n >= 1, r >= 0;
}

/// Some integer is the floor square root of a non-negative `n`.
proof fn isqrt_witness(n: int) -> (r: int)
    requires
        n >= 0,
    ensures
        is_isqrt(n, r),
    decreases n,
{
    if n == 0 {
        assert(is_isqrt(0, 0));
        0
    } else {
        let q = isqrt_witness(n - 1);
        if (q + 1) * (q + 1) <= n {
            let w = q + 1;
            assert(n < (w + 1) * (w + 1)) by (nonlinear_arith)
                requires n - 1 < w * w, w >= 1;
            assert(is_isqrt(n, w));
            w
        } else {
            assert(is_isqrt(n, q));
            q
        }
    }
}

} // verus!

verus! {

/// One collision pass. Returns which bodies were absorbed; they stay in place
/// until the caller removes them.
pub fn resolve_collisions(bodies: &mut Vec<Body>) -> (gone: Vec<bool>)
    requires
        forall|k: int| 0 <= k < old(bodies).len() ==> (#[trigger] old(bodies)[k]).wf(),
    ensures
        final(bodies)@ == collision_pass(old(bodies)@).0,
        gone@ == collision_pass(old(bodies)@).2,
        pass_wf(collision_pass(old(bodies)@), old(bodies).len() as int),
{
    let n = bodies.len();
    let mut used: Vec<bool> = Vec::new();
    let mut gone: Vec<bool> = Vec::new();
    let mut z: usize = 0;
    while z < n
        invariant
            z <= n,
            used@ == Seq::new(z as nat, |k: int| false),
            gone@ == Seq::new(z as nat, |k: int| false),
        decreases n - z,
    {
        used.push(false);
        gone.push(false);
        z = z + 1;
        assert(used@ =~= Seq::new(z as nat, |k: int| false));
        assert(gone@ =~= Seq::new(z as nat, |k: int| false));
    }
    let ghost s0: PassState = (bodies@, used@, gone@);
    assert(s0 == (bodies@, Seq::new(n as nat, |k: int| false), Seq::new(n as nat, |k: int| false)));
    let mut i: usize = 0;
    while i < n
        invariant
            i <= n,
            n == bodies.len(),
            n == s0.0.len(),
            s0 == collision_pass_start(s0.0),
            (bodies@, used@, gone@) == scan_rows(s0, n as int, i as int),
            pass_wf((bodies@, used@, gone@), n as int),
        decreases n - i,
    {
        let mut j: usize = i + 1;
        while j < n
            invariant
                i < n,
                i < j <= n,
                n == bodies.len(),
                (bodies@, used@, gone@) == scan_row(scan_rows(s0, n as int, i as int), i as int, j as int),
                pass_wf((bodies@, used@, gone@), n as int),
            decreases n - j,
        {
            let ghost cur: PassState = (bodies@, used@, gone@);
            proof {
                lemma_pair_step_wf(cur, n as int, i as int, j as int);
            }
            if !bodies[i].preview && !bodies[j].preview && !used[i] && !used[j]
                && bodies_overlap(&bodies[i], &bodies[j]) {
                let m = merge_bodies(&bodies[i], &bodies[j]);
                bodies.set(i, m);
                used.set(i, true);
                used.set(j, true);
                gone.set(j, true);
            }
            assert((bodies@, used@, gone@) == pair_step(cur, i as int, j as int));
            j = j + 1;
        }
        i = i + 1;
    }
    gone
}

/// The starting state of a pass over `bs`: nothing used, nothing gone.
pub open spec fn collision_pass_start(bs: Seq<Body>) -> PassState {
    (bs, Seq::new(bs.len(), |k: int| false), Seq::new(bs.len(), |k: int| false))
}

} // verus!

verus! {

/// Two body sequences of one length whose trail capacities agree.
pub open spec fn same_trail_caps(a: Seq<Body>, b: Seq<Body>) -> bool {
    &&& a.len() == b.len()
    &&& forall|k: int| 0 <= k < a.len() ==> (#[trigger] a[k]).trail_max == b[k].trail_max
}

proof fn lemma_scan_row_caps(s: PassState, i: int, j: int)
    requires
        0 <= i,
        j <= s.0.len(),
    ensures
        same_trail_caps(scan_row(s, i, j).0, s.0),
    decreases j - i,
{
    if j > i + 1 {
        lemma_scan_row_caps(s, i, j - 1);
    }
}

/// A collision pass keeps every body's trail capacity: a survivor keeps its own.
pub proof fn lemma_pass_keeps_trail_caps(bs: Seq<Body>)
    ensures
        same_trail_caps(collision_pass(bs).0, bs),
{
    lemma_scan_rows_caps(collision_pass_start(bs), bs.len() as int, bs.len() as int);
}

proof fn lemma_scan_rows_caps(s: PassState, n: int, i: int)
    requires
        s.0.len() == n,
        i <= n,
    ensures
        same_trail_caps(scan_rows(s, n, i).0, s.0),
    decreases i,
{
    if i > 0 {
        lemma_scan_rows_caps(s, n, i - 1);
        lemma_scan_row_caps(scan_rows(s, n, i - 1), i - 1, n);
    }
}

} // verus!

verus! {

/// Total mass of the bodies `0 .. h` not marked gone.
pub open spec fn kept_mass(bs: Seq<Body>, gone: Seq<bool>, h: int) -> int
    decreases h,
{
    if h <= 0 {
        0
    } else {
        kept_mass(bs, gone, h - 1) + if gone[h - 1] { 0 } else { bs[h - 1].mass as int }
    }
}

proof fn lemma_kept_mass_update(bs: Seq<Body>, gone: Seq<bool>, i: int, x: Body, h: int)
    requires
        0 <= i < bs.len(),
        0 <= h <= bs.len(),
        !gone[i],
    ensures
        kept_mass(bs.update(i, x), gone, h) == kept_mass(bs, gone, h) + (if i < h { x.mass - bs[i].mass } else { 0 }),
    decreases h,
{
    if h > 0 {
        lemma_kept_mass_update(bs, gone, i, x, h - 1);
    }
}

proof fn lemma_kept_mass_drop(bs: Seq<Body>, gone: Seq<bool>, j: int, h: int)
    requires
        0 <= j < gone.len(),
        0 <= h <= gone.len(),
        !gone[j],
    ensures
        kept_mass(bs, gone.update(j, true), h) == kept_mass(bs, gone, h) - (if j < h { bs[j].mass as int } else { 0 }),
    decreases h,
{
    if h > 0 {
        lemma_kept_mass_drop(bs, gone, j, h - 1);
    }
}

proof fn lemma_kept_mass_pair(bs: Seq<Body>, gone: Seq<bool>, i: int, j: int, h: int)
    requires
        0 <= i < j < h <= bs.len(),
        h <= gone.len(),
        !gone[i],
        !gone[j],
    ensures
        bs[i].mass + bs[j].mass <= kept_mass(bs, gone, h),
    decreases h,
{
    lemma_kept_mass_nonneg(bs, gone, h - 1);
    if j < h - 1 {
        lemma_kept_mass_pair(bs, gone, i, j, h - 1);
    } else {
        lemma_kept_mass_single(bs, gone, i, h - 1);
    }
}

proof fn lemma_kept_mass_single(bs: Seq<Body>, gone: Seq<bool>, i: int, h: int)
    requires
        0 <= i < h <= bs.len(),
        h <= gone.len(),
        !gone[i],
    ensures
        bs[i].mass <= kept_mass(bs, gone, h),
    decreases h,
{
    lemma_kept_mass_nonneg(bs, gone, h - 1);
    if i < h - 1 {
        lemma_kept_mass_single(bs, gone, i, h - 1);
    }
}

proof fn lemma_kept_mass_nonneg(bs: Seq<Body>, gone: Seq<bool>, h: int)
    ensures
        kept_mass(bs, gone, h) >= 0,
    decreases h,
{
    if h > 0 {
        lemma_kept_mass_nonneg(bs, gone, h - 1);
    }
}

proof fn lemma_pair_step_mass(s: PassState, n: int, i: int, j: int)
    requires
        pass_wf(s, n),
        0 <= i < j < n,
        kept_mass(s.0, s.2, n) <= MASS_MAX,
    ensures
        kept_mass(pair_step(s, i, j).0, pair_step(s, i, j).2, n) == kept_mass(s.0, s.2, n),
{
    if merges_at(s, i, j) {
        assert(!s.2[i] && !s.2[j]);
        lemma_kept_mass_pair(s.0, s.2, i, j, n);
        let m = merged(s.0[i], s.0[j]);
        assert(m.mass == s.0[i].mass + s.0[j].mass);
        lemma_kept_mass_update(s.0, s.2, i, m, n);
        lemma_kept_mass_drop(s.0.update(i, m), s.2, j, n);
    }
}

proof fn lemma_scan_row_mass(s: PassState, n: int, i: int, j: int)
    requires
        pass_wf(s, n),
        0 <= i < n,
        j <= n,
        kept_mass(s.0, s.2, n) <= MASS_MAX,
    ensures
        pass_wf(scan_row(s, i, j), n),
        kept_mass(scan_row(s, i, j).0, scan_row(s, i, j).2, n) == kept_mass(s.0, s.2, n),
    decreases j - i,
{
    if j > i + 1 {
        lemma_scan_row_mass(s, n, i, j - 1);
        let t = scan_row(s, i, j - 1);
        lemma_pair_step_wf(t, n, i, j - 1);
        lemma_pair_step_mass(t, n, i, j - 1);
    }
}

proof fn lemma_scan_rows_mass(s: PassState, n: int, i: int)
    requires
        pass_wf(s, n),
        i <= n,
        kept_mass(s.0, s.2, n) <= MASS_MAX,
    ensures
        pass_wf(scan_rows(s, n, i), n),
        kept_mass(scan_rows(s, n, i).0, scan_rows(s, n, i).2, n) == kept_mass(s.0, s.2, n),
    decreases i,
{
    if i > 0 {
        lemma_scan_rows_mass(s, n, i - 1);
        lemma_scan_row_mass(scan_rows(s, n, i - 1), n, i - 1, n);
    }
}

/// A collision pass conserves the mass of the bodies it keeps, whenever the
/// total mass lies within `MASS_MAX` (so no merged mass saturates).
pub proof fn lemma_pass_conserves_mass(bs: Seq<Body>)
    requires
        forall|k: int| 0 <= k < bs.len() ==> (#[trigger] bs[k]).wf(),
        kept_mass(bs, Seq::new(bs.len(), |k: int| false), bs.len() as int) <= MASS_MAX,
    ensures
        kept_mass(collision_pass(bs).0, collision_pass(bs).2, bs.len() as int)
            == kept_mass(bs, Seq::new(bs.len(), |k: int| false), bs.len() as int),
{
    let s = collision_pass_start(bs);
    assert(pass_wf(s, bs.len() as int));
    lemma_scan_rows_mass(s, bs.len() as int, bs.len() as int);
}

} // verus!
