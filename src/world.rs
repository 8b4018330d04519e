//! The body store, the per-iteration pipeline and the simulation clock.
//!
//! Bodies live in three parallel arrays (handles, bodies, trails). Handles are
//! handed out in increasing order and never reused, so a removed handle is
//! never mistaken for a live one.
use vstd::prelude::*;
use crate::arith::{clamp_spec, clamp_to, div_trunc, trunc_div};
use crate::body::{FORCE_MAX, MOMENTUM_MAX, Body, Vec2, bounded_push, push_trail, within, POS_MAX, MASS_MAX, RADIUS_MAX, BODIES_MAX, TRAIL_MAX};
use crate::collision::{collision_pass, resolve_collisions};
use crate::gravity::{compute_forces, forces_applied, G_MAX};
use crate::integrator::{all_wf, integrate_positions, integrate_velocities, positions_advanced, velocities_advanced, DT_MAX};
use crate::store::{reaped, reap, strictly_increasing, lemma_reaped_increasing, lemma_reaped_pairs};

verus! {

/// Gravitational constant of a new configuration.
pub const DEFAULT_GRAVITY: u64 = 67;
/// A created body's velocity is its drag vector divided by this.
pub const CREATION_VELOCITY_DIVISOR: i64 = 40;
/// Trail capacity of a new configuration.
pub const DEFAULT_TRAIL_MAX: usize = 100;
/// Preview iterations of a new configuration.
pub const DEFAULT_PREVIEW_ITERATIONS: u64 = 25;

/// Tunables, read at the start of each tick.
#[derive(Clone, Copy, PartialEq, Eq, Debug, Structural)]
pub struct Config {
    pub dt: u64,
    pub gravity: u64,
    pub iterations_per_tick: u64,
    pub preview_iterations: u64,
    pub trail_max: usize,
}

impl Config {
    pub open spec fn valid(&self) -> bool {
        &&& 1 <= self.dt <= DT_MAX
        &&& 1 <= self.gravity <= G_MAX
        &&& 1 <= self.iterations_per_tick
        &&& self.trail_max <= TRAIL_MAX
    }

    pub fn default_config() -> (r: Config)
        ensures
            r.valid(),
            r.dt == 1,
            r.gravity == DEFAULT_GRAVITY,
            r.iterations_per_tick == 1,
            r.preview_iterations == DEFAULT_PREVIEW_ITERATIONS,
            r.trail_max == DEFAULT_TRAIL_MAX,
    {
        Config {
            dt: 1,
            gravity: DEFAULT_GRAVITY,
            iterations_per_tick: 1,
            preview_iterations: DEFAULT_PREVIEW_ITERATIONS,
            trail_max: DEFAULT_TRAIL_MAX,
        }
    }
}

/// Whether ticks advance the simulation.
#[derive(Clone, Copy, PartialEq, Eq, Debug, Structural)]
pub enum RunMode {
    Paused,
    Running,
}

/// Handles, bodies and trails, as values.
pub type WorldView = (Seq<u64>, Seq<Body>, Seq<Seq<Vec2>>);

pub open spec fn trail_views(ts: Seq<Vec<Vec2>>) -> Seq<Seq<Vec2>> {
    Seq::new(ts.len(), |k: int| ts[k]@)
}

/// Bodies that take part in the rest of an iteration: physical and not absorbed.
pub open spec fn live_mask(bs: Seq<Body>, gone: Seq<bool>) -> Seq<bool> {
    Seq::new(bs.len(), |k: int| !bs[k].preview && !gone[k])
}

pub open spec fn forces_pass(bs: Seq<Body>, live: Seq<bool>, g: int) -> Seq<Body> {
    Seq::new(bs.len(), |k: int| forces_applied(bs, live, k, g))
}

/// Position half, force recomputation, velocity half.
pub open spec fn integrated(bs: Seq<Body>, live: Seq<bool>, dt: int, g: int) -> Seq<Body> {
    velocities_advanced(forces_pass(positions_advanced(bs, live, dt), live, g), live, dt)
}

/// Each live body's current position appended to its trail.
pub open spec fn trails_recorded(ts: Seq<Seq<Vec2>>, bs: Seq<Body>, live: Seq<bool>) -> Seq<Seq<Vec2>> {
    Seq::new(ts.len(), |k: int| if live[k] { bounded_push(ts[k], bs[k].pos, bs[k].trail_max as nat) } else { ts[k] })
}

/// One pipeline iteration: collisions, position half, forces, velocity half,
/// trails, then removal of the absorbed bodies.
pub open spec fn step_state(w: WorldView, dt: int, g: int) -> WorldView {
    let s = collision_pass(w.1);
    let live = live_mask(s.0, s.2);
    let b = integrated(s.0, live, dt, g);
    (reaped(w.0, s.2), reaped(b, s.2), reaped(trails_recorded(w.2, b, live), s.2))
}

/// `k` pipeline iterations.
pub open spec fn run_state(w: WorldView, dt: int, g: int, k: nat) -> WorldView
    decreases k,
{
    if k == 0 {
        w
    } else {
        step_state(run_state(w, dt, g, (k - 1) as nat), dt, g)
    }
}

pub proof fn lemma_trail_views_reaped(ts: Seq<Vec<Vec2>>, gone: Seq<bool>)
    requires
        gone.len() == ts.len(),
    ensures
        trail_views(reaped(ts, gone)) == reaped(trail_views(ts), gone),
    decreases ts.len(),
{
    if ts.len() > 0 {
        lemma_trail_views_reaped(ts.drop_first(), gone.drop_first());
        assert(trail_views(ts).drop_first() =~= trail_views(ts.drop_first()));
        let rest = reaped(ts.drop_first(), gone.drop_first());
        if !gone[0] {
            assert(trail_views(seq![ts[0]] + rest) =~= seq![ts[0]@] + trail_views(rest));
        }
    }
}

pub proof fn lemma_reaped_len<T>(s: Seq<T>, gone: Seq<bool>)
    ensures
        reaped(s, gone).len() <= s.len(),
    decreases s.len(),
{
    if s.len() > 0 {
        lemma_reaped_len(s.drop_first(), gone.drop_first());
    }
}

pub proof fn lemma_reaped_all<T>(s: Seq<T>, gone: Seq<bool>, p: spec_fn(T) -> bool)
    requires
        forall|k: int| 0 <= k < s.len() ==> p(#[trigger] s[k]),
    ensures
        forall|k: int| 0 <= k < reaped(s, gone).len() ==> p(#[trigger] reaped(s, gone)[k]),
    decreases s.len(),
{
    if s.len() > 0 {
        let t = s.drop_first();
        assert forall|k: int| 0 <= k < t.len() implies p(#[trigger] t[k]) by {
            assert(t[k] == s[k + 1]);
        }
        lemma_reaped_all(t, gone.drop_first(), p);
        let rest = reaped(t, gone.drop_first());
        if !gone[0] {
            let r = seq![s[0]] + rest;
            assert forall|k: int| 0 <= k < r.len() implies p(#[trigger] r[k]) by {
                if k > 0 {
                    assert(r[k] == rest[k - 1]);
                }
            }
        }
    }
}

/// The simulation: its bodies, its configuration and its run mode.
pub struct World {
    pub ids: Vec<u64>,
    pub bodies: Vec<Body>,
    pub trails: Vec<Vec<Vec2>>,
    pub next_id: u64,
    pub mode: RunMode,
    pub config: Config,
}

impl World {
    pub open spec fn state(&self) -> WorldView {
        (self.ids@, self.bodies@, trail_views(self.trails@))
    }

    pub open spec fn wf(&self) -> bool {
        &&& self.ids.len() == self.bodies.len()
        &&& self.ids.len() == self.trails.len()
        &&& self.ids.len() <= BODIES_MAX
        &&& strictly_increasing(self.ids@)
        &&& forall|k: int| 0 <= k < self.ids.len() ==> #[trigger] self.ids@[k] < self.next_id
        &&& all_wf(self.bodies@)
        &&& forall|k: int| 0 <= k < self.trails.len() ==> (#[trigger] self.trails@[k])@.len() <= TRAIL_MAX
        &&& forall|k: int| 0 <= k < self.trails.len() ==> (#[trigger] self.trails@[k])@.len() <= self.bodies@[k].trail_max
        &&& self.config.valid()
    }

    /// An empty, running world.
    pub fn new(config: Config) -> (r: World)
        requires
            config.valid(),
        ensures
            r.wf(),
            r.ids@.len() == 0,
            r.next_id == 0,
            r.config == config,
            r.mode == RunMode::Running,
    {
        World { ids: Vec::new(), bodies: Vec::new(), trails: Vec::new(), next_id: 0, mode: RunMode::Running, config }
    }

    pub fn body_count(&self) -> (r: usize)
        ensures
            r == self.ids@.len(),
    {
        self.ids.len()
    }

    /// Where handle `id` stands in the arrays, if it is alive.
    pub fn index_of(&self, id: u64) -> (r: Option<usize>)
        ensures
            r.is_none() <==> !self.ids@.contains(id),
            r.is_some() ==> r.unwrap() < self.ids@.len() && self.ids@[r.unwrap() as int] == id,
    {
        let mut k: usize = 0;
        while k < self.ids.len()
            invariant
                k <= self.ids@.len(),
                forall|m: int| 0 <= m < k ==> self.ids@[m] != id,
            decreases self.ids@.len() - k,
        {
            if self.ids[k] == id {
                return Some(k);
            }
            k = k + 1;
        }
        None
    }

    /// Whether handle `id` names a body that is still alive.
    pub fn is_alive(&self, id: u64) -> (r: bool)
        ensures
            r == self.ids@.contains(id),
    {
        self.index_of(id).is_some()
    }

    /// The body named `id`, or `None` when it was removed or never existed.
    pub fn get(&self, id: u64) -> (r: Option<Body>)
        requires
            self.wf(),
        ensures
            r.is_none() <==> !self.ids@.contains(id),
            r.is_some() ==> exists|k: int| 0 <= k < self.ids@.len() && self.ids@[k] == id && r.unwrap() == self.bodies@[k],
    {
        match self.index_of(id) {
            Some(k) => Some(self.bodies[k]),
            None => None,
        }
    }

    /// The trail of body `id`, oldest position first.
    pub fn trail(&self, id: u64) -> (r: Option<Vec<Vec2>>)
        requires
            self.wf(),
        ensures
            r.is_none() <==> !self.ids@.contains(id),
            r.is_some() ==> exists|k: int| 0 <= k < self.ids@.len() && self.ids@[k] == id && r.unwrap()@ == self.trails@[k]@,
    {
        match self.index_of(id) {
            Some(k) => Some(copy_points(&self.trails[k])),
            None => None,
        }
    }

    /// Adds a body and returns its new handle; `None` when the world is full
    /// or its handles are spent.
    pub fn insert(&mut self, body: Body) -> (r: Option<u64>)
        requires
            old(self).wf(),
            body.wf(),
        ensures
            final(self).wf(),
            final(self).config == old(self).config,
            final(self).mode == old(self).mode,
            r.is_none() <==> (old(self).ids.len() == BODIES_MAX || old(self).next_id == u64::MAX),
            r.is_none() ==> final(self).state() == old(self).state(),
            r.is_some() ==> {
                &&& r.unwrap() == old(self).next_id
                &&& final(self).ids@ == old(self).ids@.push(r.unwrap())
                &&& final(self).bodies@ == old(self).bodies@.push(body)
                &&& final(self).state().2 == old(self).state().2.push(Seq::empty())
            },
    {
        if self.ids.len() == BODIES_MAX || self.next_id == u64::MAX {
            return None;
        }
        let id = self.next_id;
        let ghost ts = self.trails@;
        self.ids.push(id);
        self.bodies.push(body);
        self.trails.push(Vec::new());
        self.next_id = id + 1;
        assert(trail_views(self.trails@) =~= trail_views(ts).push(Seq::empty()));
        Some(id)
    }

    /// Adds a physical body for a completed drag from `start` to `end`: its
    /// velocity is `(start - end) / CREATION_VELOCITY_DIVISOR`, each component
    /// rounded toward zero. `None` when the mass, radius or start point is out
    /// of range, or the world cannot take another body.
    pub fn create_body(&mut self, start: Vec2, end: Vec2, mass: u64, radius: u64) -> (r: Option<u64>)
        requires
            old(self).wf(),
        ensures
            final(self).wf(),
            final(self).config == old(self).config,
            r.is_none() <==> !(within(start, POS_MAX) && within(end, POS_MAX) && 1 <= mass <= MASS_MAX && 1 <= radius <= RADIUS_MAX
                && old(self).ids.len() < BODIES_MAX && old(self).next_id < u64::MAX),
            r.is_none() ==> final(self).state() == old(self).state(),
            r.is_some() ==> {
                &&& r.unwrap() == old(self).next_id
                &&& final(self).ids@ == old(self).ids@.push(r.unwrap())
                &&& final(self).bodies@ == old(self).bodies@.push(created_body(start, end, mass, radius, old(self).config.trail_max))
                &&& final(self).state().2 == old(self).state().2.push(Seq::empty())
            },
    {
        if !(-POS_MAX <= start.x && start.x <= POS_MAX && -POS_MAX <= start.y && start.y <= POS_MAX)
            || !(-POS_MAX <= end.x && end.x <= POS_MAX && -POS_MAX <= end.y && end.y <= POS_MAX)
            || mass < 1 || mass > MASS_MAX || radius < 1 || radius > RADIUS_MAX {
            return None;
        }
        let vel = creation_velocity(start, end);
        let body = Body::new(start, vel, mass, radius, self.config.trail_max);
        self.insert(body)
    }

    /// Removes body `id` at once; false when it was not alive.
    pub fn remove(&mut self, id: u64) -> (r: bool)
        requires
            old(self).wf(),
        ensures
            final(self).wf(),
            final(self).config == old(self).config,
            final(self).mode == old(self).mode,
            r == old(self).ids@.contains(id),
            !final(self).ids@.contains(id),
            !r ==> final(self).state() == old(self).state(),
            r ==> exists|k: int| 0 <= k < old(self).ids@.len() && old(self).ids@[k] == id
                && final(self).ids@ == old(self).ids@.remove(k)
                && final(self).bodies@ == old(self).bodies@.remove(k)
                && final(self).state().2 == old(self).state().2.remove(k),
    {
        match self.index_of(id) {
            None => false,
            Some(k) => {
                let ghost old_w = (self.ids@, self.bodies@, self.trails@);
                self.ids.remove(k);
                self.bodies.remove(k);
                self.trails.remove(k);
                proof {
                    assert(trail_views(self.trails@) =~= trail_views(old_w.2).remove(k as int));
                    assert forall|a: int, b: int| 0 <= a < b < self.ids@.len() implies self.ids@[a] < self.ids@[b] by {
                        let a2 = if a < k { a } else { a + 1 };
                        let b2 = if b < k { b } else { b + 1 };
                        assert(self.ids@[a] == old_w.0[a2] && self.ids@[b] == old_w.0[b2]);
                    }
                    assert forall|m: int| 0 <= m < self.ids@.len() implies self.ids@[m] != id by {
                        let m2 = if m < k { m } else { m + 1 };
                        assert(self.ids@[m] == old_w.0[m2]);
                        assert(m2 != k);
                    }
                    assert forall|m: int| 0 <= m < self.ids@.len() implies #[trigger] self.ids@[m] < self.next_id by {
                        let m2 = if m < k { m } else { m + 1 };
                        assert(self.ids@[m] == old_w.0[m2]);
                    }
                    assert forall|m: int| 0 <= m < self.bodies@.len() implies (#[trigger] self.bodies@[m]).wf() by {
                        let m2 = if m < k { m } else { m + 1 };
                        assert(self.bodies@[m] == old_w.1[m2]);
                    }
                    assert forall|m: int| 0 <= m < self.trails@.len() implies (#[trigger] self.trails@[m])@.len() <= TRAIL_MAX
                        && self.trails@[m]@.len() <= self.bodies@[m].trail_max by {
                        let m2 = if m < k { m } else { m + 1 };
                        assert(self.trails@[m] == old_w.2[m2]);
                        assert(self.bodies@[m] == old_w.1[m2]);
                    }
                }
                true
            },
        }
    }

    /// Sets the trail capacity of body `id` and drops the oldest entries
    /// beyond it at once. False, with nothing changed, when `id` is not alive
    /// or `max` exceeds `TRAIL_MAX`.
    pub fn set_trail_max(&mut self, id: u64, max: usize) -> (r: bool)
        requires
            old(self).wf(),
        ensures
            final(self).wf(),
            final(self).config == old(self).config,
            final(self).mode == old(self).mode,
            final(self).next_id == old(self).next_id,
            r == (old(self).ids@.contains(id) && max <= TRAIL_MAX),
            final(self).ids@ == old(self).ids@,
            final(self).bodies@.len() == old(self).bodies@.len(),
            final(self).state().2.len() == old(self).state().2.len(),
            forall|k: int| 0 <= k < old(self).ids@.len() ==> #[trigger] final(self).bodies@[k] == (if r && old(self).ids@[k] == id {
                Body { trail_max: max, ..old(self).bodies@[k] }
            } else {
                old(self).bodies@[k]
            }),
            forall|k: int| 0 <= k < old(self).ids@.len() ==> #[trigger] final(self).state().2[k] == (if r && old(self).ids@[k] == id {
                trimmed(old(self).state().2[k], max as nat)
            } else {
                old(self).state().2[k]
            }),
    {
        if max > TRAIL_MAX {
            return false;
        }
        match self.index_of(id) {
            None => false,
            Some(k) => {
                let ghost ts = self.trails@;
                let b = self.bodies[k];
                self.bodies.set(k, Body { trail_max: max, ..b });
                let t = trim_trail(&self.trails[k], max);
                self.trails.set(k, t);
                proof {
                    assert forall|m: int| 0 <= m < self.ids@.len() && self.ids@[m] == id implies m == k by {
                        if m != k {
                            assert(self.ids@[m] != self.ids@[k as int]);
                        }
                    }
                    assert forall|m: int| 0 <= m < self.trails@.len() implies #[trigger] trail_views(self.trails@)[m] == (if m == k {
                        trimmed(trail_views(ts)[m], max as nat)
                    } else {
                        trail_views(ts)[m]
                    }) by {}
                }
                true
            },
        }
    }

    /// Gives body `id` a new mass and radius, keeping its velocity and
    /// acceleration: momentum and force are rescaled by new mass / old mass,
    /// rounded toward zero and bounded. False, with nothing changed, when `id`
    /// is not alive or the values are out of range.
    pub fn set_mass_radius(&mut self, id: u64, mass: u64, radius: u64) -> (r: bool)
        requires
            old(self).wf(),
        ensures
            final(self).wf(),
            final(self).config == old(self).config,
            final(self).mode == old(self).mode,
            final(self).next_id == old(self).next_id,
            r == (old(self).ids@.contains(id) && 1 <= mass <= MASS_MAX && 1 <= radius <= RADIUS_MAX),
            final(self).ids@ == old(self).ids@,
            final(self).trails@ == old(self).trails@,
            final(self).bodies@.len() == old(self).bodies@.len(),
            forall|k: int| 0 <= k < old(self).ids@.len() ==> #[trigger] final(self).bodies@[k] == (if r && old(self).ids@[k] == id {
                resized(old(self).bodies@[k], mass, radius)
            } else {
                old(self).bodies@[k]
            }),
    {
        if mass < 1 || mass > MASS_MAX || radius < 1 || radius > RADIUS_MAX {
            return false;
        }
        match self.index_of(id) {
            None => false,
            Some(k) => {
                let b = self.bodies[k];
                let nb = resize_body(&b, mass, radius);
                self.bodies.set(k, nb);
                proof {
                    assert forall|m: int| 0 <= m < self.ids@.len() && self.ids@[m] == id implies m == k by {
                        if m != k {
                            assert(self.ids@[m] != self.ids@[k as int]);
                        }
                    }
                }
                true
            },
        }
    }

    /// Replaces the configuration; false, with nothing changed, when it is
    /// not valid.
    pub fn set_config(&mut self, config: Config) -> (r: bool)
        requires
            old(self).wf(),
        ensures
            final(self).wf(),
            r == config.valid(),
            final(self).config == (if r { config } else { old(self).config }),
            final(self).state() == old(self).state(),
            final(self).next_id == old(self).next_id,
            final(self).mode == old(self).mode,
    {
        if config.dt < 1 || config.dt > DT_MAX || config.gravity < 1 || config.gravity > G_MAX
            || config.iterations_per_tick < 1 || config.trail_max > TRAIL_MAX {
            return false;
        }
        self.config = config;
        true
    }

    /// Switches between paused and running.
    pub fn toggle_pause(&mut self)
        ensures
            final(self).mode == (if old(self).mode == RunMode::Running { RunMode::Paused } else { RunMode::Running }),
            final(self).ids == old(self).ids,
            final(self).bodies == old(self).bodies,
            final(self).trails == old(self).trails,
            final(self).next_id == old(self).next_id,
            final(self).config == old(self).config,
    {
        self.mode = match self.mode {
            RunMode::Running => RunMode::Paused,
            RunMode::Paused => RunMode::Running,
        };
    }

    pub fn is_running(&self) -> (r: bool)
        ensures
            r == (self.mode == RunMode::Running),
    {
        match self.mode {
            RunMode::Running => true,
            RunMode::Paused => false,
        }
    }
}

/// The velocity given to a body dragged from `start` to `end`.
pub fn creation_velocity(start: Vec2, end: Vec2) -> (r: Vec2)
    requires
        within(start, POS_MAX),
        within(end, POS_MAX),
    ensures
        r.x == trunc_div(start.x - end.x, CREATION_VELOCITY_DIVISOR as int),
        r.y == trunc_div(start.y - end.y, CREATION_VELOCITY_DIVISOR as int),
{
    let dx = crate::arith::div_trunc(start.x as i128 - end.x as i128, CREATION_VELOCITY_DIVISOR as i128);
    let dy = crate::arith::div_trunc(start.y as i128 - end.y as i128, CREATION_VELOCITY_DIVISOR as i128);
    proof {
        crate::arith::lemma_trunc_div_bound(start.x - end.x, CREATION_VELOCITY_DIVISOR as int, 0x200_0000_0000);
        crate::arith::lemma_trunc_div_bound(start.y - end.y, CREATION_VELOCITY_DIVISOR as int, 0x200_0000_0000);
    }
    Vec2 { x: dx as i64, y: dy as i64 }
}

/// `x * new / old`, rounded toward zero and bounded.
pub open spec fn rescaled(x: int, new: int, old: int, bound: int) -> int {
    clamp_spec(trunc_div(x * new, old), bound)
}

/// Body `b` with a new mass and radius and the same velocity and acceleration.
pub open spec fn resized(b: Body, mass: u64, radius: u64) -> Body {
    Body {
        momentum: Vec2 {
            x: rescaled(b.momentum.x as int, mass as int, b.mass as int, MOMENTUM_MAX as int) as i64,
            y: rescaled(b.momentum.y as int, mass as int, b.mass as int, MOMENTUM_MAX as int) as i64,
        },
        force: Vec2 {
            x: rescaled(b.force.x as int, mass as int, b.mass as int, FORCE_MAX as int) as i64,
            y: rescaled(b.force.y as int, mass as int, b.mass as int, FORCE_MAX as int) as i64,
        },
        mass,
        radius,
        ..b
    }
}

fn rescale(x: i64, new: u64, old: u64, bound: i64) -> (r: i64)
    requires
        1 <= new <= MASS_MAX,
        1 <= old <= MASS_MAX,
        bound >= 0,
    ensures
        r == rescaled(x as int, new as int, old as int, bound as int),
{
    assert(-0x1_0000_0000 * 0x8000_0000_0000_0000 <= x * new <= 0x1_0000_0000 * 0x8000_0000_0000_0000) by (nonlinear_arith)
        requires 1 <= new <= 0x1_0000_0000, -0x8000_0000_0000_0000 <= x < 0x8000_0000_0000_0000;
    let q = div_trunc((x as i128) * (new as i128), old as i128);
    clamp_to(q, bound)
}

/// Computes `resized(*b, mass, radius)`.
pub fn resize_body(b: &Body, mass: u64, radius: u64) -> (r: Body)
    requires
        b.wf(),
        1 <= mass <= MASS_MAX,
        1 <= radius <= RADIUS_MAX,
    ensures
        r == resized(*b, mass, radius),
        r.wf(),
{
    Body {
        momentum: Vec2 {
            x: rescale(b.momentum.x, mass, b.mass, MOMENTUM_MAX),
            y: rescale(b.momentum.y, mass, b.mass, MOMENTUM_MAX),
        },
        force: Vec2 {
            x: rescale(b.force.x, mass, b.mass, FORCE_MAX),
            y: rescale(b.force.y, mass, b.mass, FORCE_MAX),
        },
        mass,
        radius,
        ..*b
    }
}

/// The newest `max` entries of a trail.
pub open spec fn trimmed(t: Seq<Vec2>, max: nat) -> Seq<Vec2> {
    if t.len() > max {
        t.subrange(t.len() - max, t.len() as int)
    } else {
        t
    }
}

/// Copies the newest `max` entries of a trail.
pub fn trim_trail(t: &Vec<Vec2>, max: usize) -> (r: Vec<Vec2>)
    ensures
        r@ == trimmed(t@, max as nat),
        r@.len() <= max,
{
    let start: usize = if t.len() > max { t.len() - max } else { 0 };
    let mut r: Vec<Vec2> = Vec::new();
    let mut i: usize = start;
    while i < t.len()
        invariant
            start <= i <= t@.len(),
            start == (if t@.len() > max { t@.len() - max } else { 0 }),
            r@ == t@.subrange(start as int, i as int),
        decreases t@.len() - i,
    {
        r.push(t[i]);
        i = i + 1;
        assert(r@ =~= t@.subrange(start as int, i as int));
    }
    assert(t@.subrange(0, t@.len() as int) =~= t@);
    r
}

/// A copy of a list of plain values.
pub fn copy_points<T: Copy>(v: &Vec<T>) -> (r: Vec<T>)
    ensures
        r@ == v@,
{
    let mut r: Vec<T> = Vec::new();
    let mut k: usize = 0;
    while k < v.len()
        invariant
            k <= v@.len(),
            r@ == v@.subrange(0, k as int),
        decreases v@.len() - k,
    {
        r.push(v[k]);
        k = k + 1;
        assert(r@ =~= v@.subrange(0, k as int));
    }
    assert(v@.subrange(0, v@.len() as int) =~= v@);
    r
}

} // verus!

verus! {

/// Appends each live body's position to its trail.
pub fn record_trails(trails: &mut Vec<Vec<Vec2>>, bodies: &Vec<Body>, live: &Vec<bool>)
    requires
        old(trails).len() == bodies.len(),
        live.len() == bodies.len(),
        all_wf(bodies@),
        forall|k: int| 0 <= k < old(trails).len() ==> (#[trigger] old(trails)@[k])@.len() <= TRAIL_MAX,
    ensures
        trail_views(final(trails)@) == trails_recorded(trail_views(old(trails)@), bodies@, live@),
        final(trails).len() == old(trails).len(),
        forall|k: int| 0 <= k < final(trails).len() ==> (#[trigger] final(trails)@[k])@.len() <= TRAIL_MAX,
{
    let ghost ts = trail_views(trails@);
    let n = trails.len();
    let mut k: usize = 0;
    while k < n
        invariant
            n == trails.len(),
            n == bodies.len(),
            n == live.len(),
            n == ts.len(),
            all_wf(bodies@),
            k <= n,
            forall|m: int| 0 <= m < k ==> (#[trigger] trails@[m])@ == trails_recorded(ts, bodies@, live@)[m],
            forall|m: int| k <= m < n ==> (#[trigger] trails@[m])@ == ts[m],
            forall|m: int| 0 <= m < n ==> (#[trigger] trails@[m])@.len() <= TRAIL_MAX,
        decreases n - k,
    {
        if live[k] {
            let mut t = copy_points(&trails[k]);
            let b = bodies[k];
            assert(b.wf());
            push_trail(&mut t, b.pos, b.trail_max);
            trails.set(k, t);
        }
        k = k + 1;
    }
    assert(trail_views(trails@) =~= trails_recorded(ts, bodies@, live@));
}

/// Marks bodies that are physical and not absorbed.
pub fn live_bodies(bodies: &Vec<Body>, gone: &Vec<bool>) -> (r: Vec<bool>)
    requires
        gone.len() == bodies.len(),
    ensures
        r@ == live_mask(bodies@, gone@),
{
    let mut r: Vec<bool> = Vec::new();
    let mut k: usize = 0;
    while k < bodies.len()
        invariant
            k <= bodies.len(),
            gone.len() == bodies.len(),
            r@ == live_mask(bodies@, gone@).subrange(0, k as int),
        decreases bodies.len() - k,
    {
        r.push(!bodies[k].preview && !gone[k]);
        k = k + 1;
        assert(r@ =~= live_mask(bodies@, gone@).subrange(0, k as int));
    }
    assert(r@ =~= live_mask(bodies@, gone@));
    r
}

impl World {
    /// Runs one pipeline iteration.
    pub fn step(&mut self)
        requires
            old(self).wf(),
        ensures
            final(self).wf(),
            final(self).state() == step_state(old(self).state(), old(self).config.dt as int, old(self).config.gravity as int),
            final(self).config == old(self).config,
            final(self).mode == old(self).mode,
            final(self).next_id == old(self).next_id,
    {
        let ghost w0 = self.state();
        let ghost ids0 = self.ids@;
        let ghost ts0 = self.trails@;
        let dt = self.config.dt;
        let g = self.config.gravity;
        let gone = resolve_collisions(&mut self.bodies);
        let ghost b1 = self.bodies@;
        let live = live_bodies(&self.bodies, &gone);
        proof {
            let s = collision_pass(w0.1);
            assert forall|k: int| 0 <= k < b1.len() implies (#[trigger] b1[k]).wf() by {
                assert(s.0[k].wf());
            }
        }
        integrate_positions(&mut self.bodies, &live, dt);
        let ghost b2 = self.bodies@;
        compute_forces(&mut self.bodies, &live, g);
        proof {
            assert(self.bodies@ =~= forces_pass(b2, live@, g as int));
            assert forall|k: int| 0 <= k < self.bodies@.len() implies (#[trigger] self.bodies@[k]).wf() by {
                crate::gravity::lemma_net_force_bound(b2, live@, k, g as int);
                assert(b2[k].wf());
            }
        }
        integrate_velocities(&mut self.bodies, &live, dt);
        let ghost b4 = self.bodies@;
        assert(b4 == integrated(b1, live@, dt as int, g as int));
        record_trails(&mut self.trails, &self.bodies, &live);
        let ghost ts1 = self.trails@;
        reap(&mut self.ids, &gone);
        reap(&mut self.bodies, &gone);
        reap(&mut self.trails, &gone);
        proof {
            lemma_trail_views_reaped(ts1, gone@);
            lemma_reaped_increasing(ids0, gone@);
            lemma_reaped_len(ids0, gone@);
            lemma_reaped_all(b4, gone@, |b: Body| b.wf());
            lemma_reaped_all(ts1, gone@, |t: Vec<Vec2>| t@.len() <= TRAIL_MAX);
            lemma_reaped_all(ids0, gone@, |i: u64| i < self.next_id);
            lemma_reaped_len(b4, gone@);
            lemma_reaped_len(ts1, gone@);
            lemma_reaped_same_len(ids0, b4, gone@);
            lemma_reaped_same_len(ids0, ts1, gone@);
            crate::collision::lemma_pass_keeps_trail_caps(w0.1);
            assert forall|k: int| 0 <= k < ts1.len() implies (#[trigger] ts1[k])@.len() <= b4[k].trail_max by {
                assert(b4[k].trail_max == b1[k].trail_max);
                assert(b1[k].trail_max == w0.1[k].trail_max);
                assert(trail_views(ts1)[k] == ts1[k]@);
                assert(trail_views(ts0)[k] == ts0[k]@);
            }
            lemma_reaped_pairs(ts1, b4, gone@, |t: Vec<Vec2>, b: Body| t@.len() <= b.trail_max);
        }
    }

    /// Runs the configured number of iterations when running; does nothing
    /// when paused.
    pub fn tick(&mut self)
        requires
            old(self).wf(),
        ensures
            final(self).wf(),
            final(self).config == old(self).config,
            final(self).mode == old(self).mode,
            final(self).next_id == old(self).next_id,
            old(self).mode == RunMode::Paused ==> final(self).state() == old(self).state(),
            old(self).mode == RunMode::Running ==> final(self).state() == run_state(
                old(self).state(), old(self).config.dt as int, old(self).config.gravity as int,
                old(self).config.iterations_per_tick as nat),
    {
        if !self.is_running() {
            return;
        }
        let ghost w0 = self.state();
        let iterations = self.config.iterations_per_tick;
        let mut k: u64 = 0;
        while k < iterations
            invariant
                self.wf(),
                k <= iterations,
                iterations == self.config.iterations_per_tick,
                self.config == old(self).config,
                self.mode == old(self).mode,
                self.next_id == old(self).next_id,
                self.state() == run_state(w0, self.config.dt as int, self.config.gravity as int, k as nat),
            decreases iterations - k,
        {
            self.step();
            k = k + 1;
        }
    }
}

/// Entries kept from two sequences of one length have one length.
pub proof fn lemma_reaped_same_len<A, B>(a: Seq<A>, b: Seq<B>, gone: Seq<bool>)
    requires
        a.len() == b.len(),
    ensures
        reaped(a, gone).len() == reaped(b, gone).len(),
    decreases a.len(),
{
    if a.len() > 0 {
        lemma_reaped_same_len(a.drop_first(), b.drop_first(), gone.drop_first());
    }
}

} // verus!

verus! {

/// The body created by a drag from `start` to `end`.
pub open spec fn created_body(start: Vec2, end: Vec2, mass: u64, radius: u64, trail_max: usize) -> Body {
    Body {
        pos: start,
        momentum: Vec2 {
            x: clamp_spec(mass * trunc_div(start.x - end.x, CREATION_VELOCITY_DIVISOR as int), MOMENTUM_MAX as int) as i64,
            y: clamp_spec(mass * trunc_div(start.y - end.y, CREATION_VELOCITY_DIVISOR as int), MOMENTUM_MAX as int) as i64,
        },
        force: Vec2 { x: 0, y: 0 },
        mass,
        radius,
        preview: false,
        trail_max,
    }
}

/// The world that a preview runs on: the committed bodies and the
/// hypothetical one, under handle `id`, with empty trails.
pub open spec fn preview_start(w: WorldView, body: Body, id: u64) -> WorldView {
    (w.0.push(id), w.1.push(body), Seq::new(w.1.len() + 1, |k: int| Seq::<Vec2>::empty()))
}

/// Positions of body `id` over up to `k` iterations from `w`, ending early
/// when it is absorbed.
pub open spec fn preview_track(w: WorldView, dt: int, g: int, id: u64, k: nat) -> Seq<Vec2>
    decreases k,
{
    if k == 0 {
        Seq::empty()
    } else {
        let t = step_state(w, dt, g);
        if t.0.len() > 0 && t.0.last() == id {
            seq![t.1.last().pos] + preview_track(t, dt, g, id, (k - 1) as nat)
        } else {
            Seq::empty()
        }
    }
}

impl World {
    /// The trajectory that a body dragged from `start` to `end` would follow
    /// over the configured number of preview iterations, run on a copy of
    /// the bodies; the world itself is only read. `None` when the body would
    /// be refused by `create_body`.
    pub fn preview_path(&self, start: Vec2, end: Vec2, mass: u64, radius: u64) -> (r: Option<Vec<Vec2>>)
        requires
            self.wf(),
        ensures
            r.is_none() <==> !(within(start, POS_MAX) && within(end, POS_MAX) && 1 <= mass <= MASS_MAX
                && 1 <= radius <= RADIUS_MAX && self.ids.len() < BODIES_MAX && self.next_id < u64::MAX),
            r.is_some() ==> r.unwrap()@ == preview_track(
                preview_start(self.state(), created_body(start, end, mass, radius, 0), self.next_id),
                self.config.dt as int, self.config.gravity as int, self.next_id,
                self.config.preview_iterations as nat),
    {
        if !(-POS_MAX <= start.x && start.x <= POS_MAX && -POS_MAX <= start.y && start.y <= POS_MAX)
            || !(-POS_MAX <= end.x && end.x <= POS_MAX && -POS_MAX <= end.y && end.y <= POS_MAX)
            || mass < 1 || mass > MASS_MAX || radius < 1 || radius > RADIUS_MAX
            || self.ids.len() >= BODIES_MAX || self.next_id == u64::MAX {
            return None;
        }
        let mut trails: Vec<Vec<Vec2>> = Vec::new();
        let mut k: usize = 0;
        while k < self.bodies.len()
            invariant
                k <= self.bodies.len(),
                trails.len() == k,
                forall|m: int| 0 <= m < k ==> (#[trigger] trails@[m])@ == Seq::<Vec2>::empty(),
            decreases self.bodies.len() - k,
        {
            trails.push(Vec::new());
            k = k + 1;
        }
        let mut scratch = World {
            ids: copy_points(&self.ids),
            bodies: copy_points(&self.bodies),
            trails,
            next_id: self.next_id,
            mode: RunMode::Running,
            config: self.config,
        };
        let vel = creation_velocity(start, end);
        let body = Body::new(start, vel, mass, radius, 0);
        let id = match scratch.insert(body) {
            Some(id) => id,
            None => { return None; },
        };
        let ghost w0 = scratch.state();
        proof {
            assert(body == created_body(start, end, mass, radius, 0));
            assert(w0.2 =~= preview_start(self.state(), body, id).2);
            assert(w0 == preview_start(self.state(), body, id));
        }
        let dt = self.config.dt;
        let g = self.config.gravity;
        let total = self.config.preview_iterations;
        let mut path: Vec<Vec2> = Vec::new();
        let mut done: u64 = 0;
        let mut ended = false;
        while done < total && !ended
            invariant
                scratch.wf(),
                scratch.config == self.config,
                dt == self.config.dt,
                g == self.config.gravity,
                total == self.config.preview_iterations,
                done <= total,
                ended ==> path@ == preview_track(w0, dt as int, g as int, id, total as nat),
                !ended ==> path@ + preview_track(scratch.state(), dt as int, g as int, id, (total - done) as nat)
                    == preview_track(w0, dt as int, g as int, id, total as nat),
            decreases (total - done) * 2 + (if ended { 0int } else { 1int }),
        {
            let ghost before = scratch.state();
            scratch.step();
            let n = scratch.ids.len();
            if n > 0 && scratch.ids[n - 1] == id {
                path.push(scratch.bodies[n - 1].pos);
                done = done + 1;
                proof {
                    let t = scratch.state();
                    assert(preview_track(before, dt as int, g as int, id, (total - done + 1) as nat)
                        == seq![t.1.last().pos] + preview_track(t, dt as int, g as int, id, (total - done) as nat));
                    assert(path@ + preview_track(t, dt as int, g as int, id, (total - done) as nat)
                        =~= path@.drop_last() + preview_track(before, dt as int, g as int, id, (total - done + 1) as nat));
                }
            } else {
                ended = true;
                proof {
                    assert(preview_track(before, dt as int, g as int, id, (total - done) as nat) == Seq::<Vec2>::empty());
                    assert(path@ =~= path@ + Seq::<Vec2>::empty());
                }
            }
        }
        proof {
            if !ended {
                assert(path@ =~= path@ + Seq::<Vec2>::empty());
            }
        }
        Some(path)
    }
}

} // verus!

verus! {

/// Point `p` lies on the disc of body `b`.
pub open spec fn covers(b: Body, p: Vec2) -> bool {
    let dx = p.x - b.pos.x;
    let dy = p.y - b.pos.y;
    dx * dx + dy * dy <= b.radius * b.radius
}

impl World {
    /// The handle of the first physical body whose disc holds `p`, if any.
    pub fn body_at(&self, p: Vec2) -> (r: Option<u64>)
        requires
            self.wf(),
            within(p, POS_MAX),
        ensures
            r.is_none() <==> forall|k: int| 0 <= k < self.bodies@.len() ==> !(#[trigger] self.bodies@[k]).preview ==> !covers(self.bodies@[k], p),
            r.is_some() ==> exists|k: int| 0 <= k < self.bodies@.len() && self.ids@[k] == r.unwrap()
                && !self.bodies@[k].preview && covers(self.bodies@[k], p)
                && forall|m: int| 0 <= m < k ==> !(#[trigger] self.bodies@[m]).preview ==> !covers(self.bodies@[m], p),
    {
        let mut k: usize = 0;
        while k < self.bodies.len()
            invariant
                self.wf(),
                within(p, POS_MAX),
                k <= self.bodies@.len(),
                forall|m: int| 0 <= m < k ==> !(#[trigger] self.bodies@[m]).preview ==> !covers(self.bodies@[m], p),
            decreases self.bodies@.len() - k,
        {
            let b = self.bodies[k];
            assert(b.wf());
            let dx: i128 = p.x as i128 - b.pos.x as i128;
            let dy: i128 = p.y as i128 - b.pos.y as i128;
            assert(0 <= dx * dx <= 0x4_0000_0000_0000_0000_0000) by (nonlinear_arith)
                requires -0x200_0000_0000 <= dx <= 0x200_0000_0000;
            assert(0 <= dy * dy <= 0x4_0000_0000_0000_0000_0000) by (nonlinear_arith)
                requires -0x200_0000_0000 <= dy <= 0x200_0000_0000;
            let rad = b.radius as i128;
            assert(0 <= rad * rad <= 0x1_0000_0000_0000_0000_0000) by (nonlinear_arith)
                requires 0 <= rad <= 0x100_0000_0000;
            if !b.preview && dx * dx + dy * dy <= rad * rad {
                return Some(self.ids[k]);
            }
            k = k + 1;
        }
        None
    }
}

} // verus!

verus! {

/// Marks the preview bodies.
pub open spec fn preview_mask(bs: Seq<Body>) -> Seq<bool> {
    Seq::new(bs.len(), |k: int| bs[k].preview)
}

impl World {
    /// Removes every preview body.
    pub fn clear_previews(&mut self)
        requires
            old(self).wf(),
        ensures
            final(self).wf(),
            final(self).config == old(self).config,
            final(self).mode == old(self).mode,
            final(self).next_id == old(self).next_id,
            final(self).state() == without_previews(old(self).state()),
    {
        let mut mask: Vec<bool> = Vec::new();
        let mut k: usize = 0;
        while k < self.bodies.len()
            invariant
                k <= self.bodies@.len(),
                mask@ == preview_mask(self.bodies@).subrange(0, k as int),
            decreases self.bodies@.len() - k,
        {
            mask.push(self.bodies[k].preview);
            k = k + 1;
            assert(mask@ =~= preview_mask(self.bodies@).subrange(0, k as int));
        }
        assert(mask@ =~= preview_mask(self.bodies@));
        let ghost ids0 = self.ids@;
        let ghost b0 = self.bodies@;
        let ghost ts0 = self.trails@;
        reap(&mut self.ids, &mask);
        reap(&mut self.bodies, &mask);
        reap(&mut self.trails, &mask);
        proof {
            lemma_trail_views_reaped(ts0, mask@);
            lemma_reaped_increasing(ids0, mask@);
            lemma_reaped_len(ids0, mask@);
            lemma_reaped_all(b0, mask@, |b: Body| b.wf());
            lemma_reaped_all(ts0, mask@, |t: Vec<Vec2>| t@.len() <= TRAIL_MAX);
            lemma_reaped_all(ids0, mask@, |i: u64| i < self.next_id);
            lemma_reaped_same_len(ids0, b0, mask@);
            lemma_reaped_same_len(ids0, ts0, mask@);
            lemma_reaped_pairs(ts0, b0, mask@, |t: Vec<Vec2>, b: Body| t@.len() <= b.trail_max);
        }
    }

    /// Replaces any preview body with a fresh one for a drag in progress from
    /// `start` to the pointer at `end`, so that at most one is alive. `None`
    /// when the inputs are out of range or the world is full; the old preview
    /// is removed either way, and every other body is kept as it was.
    pub fn set_preview(&mut self, start: Vec2, end: Vec2, radius: u64) -> (r: Option<u64>)
        requires
            old(self).wf(),
        ensures
            final(self).wf(),
            final(self).config == old(self).config,
            final(self).mode == old(self).mode,
            r.is_none() <==> !(within(start, POS_MAX) && within(end, POS_MAX) && 1 <= radius <= RADIUS_MAX
                && reaped(old(self).ids@, preview_mask(old(self).bodies@)).len() < BODIES_MAX
                && old(self).next_id < u64::MAX),
            r.is_none() ==> final(self).state() == without_previews(old(self).state()),
            r.is_some() ==> {
                &&& r.unwrap() == old(self).next_id
                &&& final(self).state() == (
                    without_previews(old(self).state()).0.push(r.unwrap()),
                    without_previews(old(self).state()).1.push(preview_body(start, end, radius)),
                    without_previews(old(self).state()).2.push(Seq::empty()),
                )
            },
            forall|k: int| 0 <= k < final(self).bodies@.len() ==> ((#[trigger] final(self).bodies@[k]).preview <==>
                (r.is_some() && k == final(self).bodies@.len() - 1)),
    {
        let ghost b0 = self.bodies@;
        self.clear_previews();
        proof {
            lemma_no_previews_left(b0);
        }
        if !(-POS_MAX <= start.x && start.x <= POS_MAX && -POS_MAX <= start.y && start.y <= POS_MAX)
            || !(-POS_MAX <= end.x && end.x <= POS_MAX && -POS_MAX <= end.y && end.y <= POS_MAX)
            || radius < 1 || radius > RADIUS_MAX {
            return None;
        }
        let vel = creation_velocity(start, end);
        let body = Body::new_preview(start, vel, radius);
        assert(body == preview_body(start, end, radius));
        self.insert(body)
    }
}

/// The world with its preview bodies removed.
pub open spec fn without_previews(w: WorldView) -> WorldView {
    (reaped(w.0, preview_mask(w.1)), reaped(w.1, preview_mask(w.1)), reaped(w.2, preview_mask(w.1)))
}

/// The preview marker for a drag from `start` to `end`: mass one, so its
/// momentum is the creation velocity.
pub open spec fn preview_body(start: Vec2, end: Vec2, radius: u64) -> Body {
    Body {
        pos: start,
        momentum: Vec2 {
            x: clamp_spec(trunc_div(start.x - end.x, CREATION_VELOCITY_DIVISOR as int), MOMENTUM_MAX as int) as i64,
            y: clamp_spec(trunc_div(start.y - end.y, CREATION_VELOCITY_DIVISOR as int), MOMENTUM_MAX as int) as i64,
        },
        force: Vec2 { x: 0, y: 0 },
        mass: 1,
        radius,
        preview: true,
        trail_max: 0,
    }
}

pub proof fn lemma_no_previews_left(bs: Seq<Body>)
    ensures
        forall|j: int| 0 <= j < reaped(bs, preview_mask(bs)).len() ==> !(#[trigger] reaped(bs, preview_mask(bs))[j]).preview,
    decreases bs.len(),
{
    if bs.len() > 0 {
        let t = bs.drop_first();
        lemma_no_previews_left(t);
        assert(preview_mask(bs).drop_first() =~= preview_mask(t));
        let rest = reaped(t, preview_mask(t));
        if !bs[0].preview {
            let r = seq![bs[0]] + rest;
            assert forall|j: int| 0 <= j < r.len() implies !(#[trigger] r[j]).preview by {
                if j > 0 {
                    assert(r[j] == rest[j - 1]);
                }
            }
        }
    }
}

} // verus!
