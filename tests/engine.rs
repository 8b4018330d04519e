use gravity_sim::arith::isqrt;
use gravity_sim::body::{push_trail, Body, Vec2};
use gravity_sim::collision::{merge_bodies, resolve_collisions};
use gravity_sim::gravity::{compute_forces, pair_force_exec};
use gravity_sim::integrator::{integrate_positions, integrate_velocities};
use gravity_sim::world::{Config, RunMode, World};

fn body_at(x: i64, y: i64, vx: i64, vy: i64, mass: u64, radius: u64) -> Body {
    Body::new(Vec2::new(x, y), Vec2::new(vx, vy), mass, radius, 10)
}

fn total_momentum(bodies: &[Body]) -> (i64, i64) {
    let mut sx = 0i64;
    let mut sy = 0i64;
    for b in bodies {
        sx += b.momentum.x;
        sy += b.momentum.y;
    }
    (sx, sy)
}

fn config(gravity: u64) -> Config {
    Config { gravity, ..Config::default_config() }
}

#[test]
fn merge_conserves_mass_momentum_and_area() {
    // velocities and radii in thousandths: v1 = (1, 0), r = 1
    let a = body_at(0, 0, 1000, 0, 1, 1000);
    let b = body_at(0, 0, 0, 0, 3, 1000);
    let m = merge_bodies(&a, &b);
    assert_eq!(m.mass, 4);
    assert_eq!(m.velocity(), Vec2::new(250, 0));
    assert_eq!(m.momentum, Vec2::new(1000, 0));
    assert_eq!(m.radius, 1414);
    assert_eq!(m.pos, Vec2::new(0, 0));
}

#[test]
fn merge_keeps_lower_index_and_marks_other_gone() {
    let mut bodies = vec![body_at(0, 0, 1000, 0, 1, 1000), body_at(0, 0, 0, 0, 3, 1000)];
    let gone = resolve_collisions(&mut bodies);
    assert_eq!(gone, vec![false, true]);
    assert_eq!(bodies[0].mass, 4);
    assert_eq!(bodies[0].velocity(), Vec2::new(250, 0));
}

#[test]
fn merge_position_is_centre_of_mass() {
    let a = body_at(0, 0, 0, 0, 1, 10);
    let b = body_at(8, 4, 0, 0, 3, 10);
    let m = merge_bodies(&a, &b);
    assert_eq!(m.pos, Vec2::new(6, 3));
}

#[test]
fn gravity_pass_conserves_momentum() {
    let mut bodies = vec![
        body_at(0, 0, 3, -2, 1000, 1),
        body_at(1000, 300, -1, 4, 2000, 1),
        body_at(-500, 800, 2, 2, 3000, 1),
    ];
    let live = vec![true, true, true];
    let before = total_momentum(&bodies);
    compute_forces(&mut bodies, &live, 1000);
    assert!(bodies.iter().any(|b| b.force != Vec2::new(0, 0)));
    let fx: i64 = bodies.iter().map(|b| b.force.x).sum();
    let fy: i64 = bodies.iter().map(|b| b.force.y).sum();
    assert_eq!((fx, fy), (0, 0));
    integrate_velocities(&mut bodies, &live, 1);
    assert_eq!(total_momentum(&bodies), before);
}

#[test]
fn gravity_magnitude_along_axis() {
    let a = body_at(0, 0, 0, 0, 2, 1);
    let b = body_at(10, 0, 0, 0, 5, 1);
    // G * m1 * m2 / d^2 = 100 * 2 * 5 / 100
    let f = pair_force_exec(&a, &b, 100);
    assert_eq!(f, Vec2::new(10, 0));
    // acceleration of the first body: G * m2 / d^2 = 5, toward the second
    assert_eq!(f.x / a.mass as i64, 5);
    let back = pair_force_exec(&b, &a, 100);
    assert_eq!(back, Vec2::new(-10, 0));
}

#[test]
fn coincident_bodies_give_finite_zero_force() {
    let a = body_at(5, 5, 0, 0, 2, 1);
    let b = body_at(5, 5, 0, 0, 3, 1);
    assert_eq!(pair_force_exec(&a, &b, 67), Vec2::new(0, 0));
}

#[test]
fn preview_bodies_feel_no_gravity() {
    let mut bodies = vec![
        body_at(0, 0, 0, 0, 5, 1),
        Body::new_preview(Vec2::new(10, 0), Vec2::new(0, 0), 1),
    ];
    let live = vec![true, false];
    compute_forces(&mut bodies, &live, 100);
    assert_eq!(bodies[0].force, Vec2::new(0, 0));
    assert_eq!(bodies[1].force, Vec2::new(0, 0));
}

#[test]
fn position_half_uses_velocity_and_half_acceleration() {
    let mut b = body_at(0, 0, 3, 0, 2, 1);
    b.force = Vec2::new(4, -8);
    let mut bodies = vec![b];
    integrate_positions(&mut bodies, &vec![true], 2);
    // x += v*dt + a*dt^2/2 = 3*2 + 2*4/2 = 10; y += 0 + (-4)*4/2 = -8
    assert_eq!(bodies[0].pos, Vec2::new(10, -8));
    integrate_velocities(&mut bodies, &vec![true], 2);
    // p += f*dt
    assert_eq!(bodies[0].momentum, Vec2::new(14, -16));
}

#[test]
fn pipeline_is_deterministic() {
    let mut a = World::new(config(500));
    let mut b = World::new(config(500));
    for w in [&mut a, &mut b] {
        w.create_body(Vec2::new(0, 0), Vec2::new(0, 400), 50, 2);
        w.create_body(Vec2::new(300, 0), Vec2::new(300, -400), 5, 1);
        w.create_body(Vec2::new(-200, 100), Vec2::new(-240, 100), 9, 1);
    }
    for _ in 0..20 {
        a.tick();
        b.tick();
    }
    assert_eq!(a.ids, b.ids);
    assert_eq!(a.bodies, b.bodies);
    assert_eq!(a.trails, b.trails);
}

#[test]
fn trail_evicts_oldest_first() {
    let mut t = Vec::new();
    for i in 0..5 {
        push_trail(&mut t, Vec2::new(i, 0), 3);
        assert!(t.len() <= 3);
    }
    assert_eq!(t, vec![Vec2::new(2, 0), Vec2::new(3, 0), Vec2::new(4, 0)]);
}

#[test]
fn trail_shrinks_within_one_step() {
    let mut t = vec![Vec2::new(0, 0), Vec2::new(1, 0), Vec2::new(2, 0), Vec2::new(3, 0)];
    push_trail(&mut t, Vec2::new(4, 0), 2);
    assert_eq!(t, vec![Vec2::new(3, 0), Vec2::new(4, 0)]);
    push_trail(&mut t, Vec2::new(5, 0), 0);
    assert!(t.is_empty());
}

#[test]
fn world_trails_stay_bounded() {
    let mut w = World::new(Config { trail_max: 4, ..Config::default_config() });
    let id = w.create_body(Vec2::new(0, 0), Vec2::new(-40, 0), 1, 1).unwrap();
    for _ in 0..10 {
        w.step();
    }
    let t = w.trail(id).unwrap();
    assert_eq!(t.len(), 4);
    assert_eq!(*t.last().unwrap(), w.get(id).unwrap().pos);
    assert_eq!(w.get(id).unwrap().pos, Vec2::new(10, 0));
}

#[test]
fn preview_leaves_world_unchanged() {
    let mut w = World::new(config(200));
    w.create_body(Vec2::new(0, 0), Vec2::new(0, 0), 100, 5);
    w.create_body(Vec2::new(500, 0), Vec2::new(500, -200), 3, 2);
    w.step();
    let ids = w.ids.clone();
    let bodies = w.bodies.clone();
    let trails = w.trails.clone();
    let next = w.next_id;
    let path = w.preview_path(Vec2::new(-300, 0), Vec2::new(-300, 200), 2, 1).unwrap();
    assert_eq!(path.len(), 25);
    assert_eq!(w.ids, ids);
    assert_eq!(w.bodies, bodies);
    assert_eq!(w.trails, trails);
    assert_eq!(w.next_id, next);
}

#[test]
fn preview_matches_committed_run() {
    let mut w = World::new(Config { preview_iterations: 5, ..config(200) });
    w.create_body(Vec2::new(0, 0), Vec2::new(0, 0), 100, 5);
    let path = w.preview_path(Vec2::new(-300, 0), Vec2::new(-300, 200), 2, 1).unwrap();
    let id = w.create_body(Vec2::new(-300, 0), Vec2::new(-300, 200), 2, 1).unwrap();
    let mut seen = Vec::new();
    for _ in 0..5 {
        w.step();
        seen.push(w.get(id).unwrap().pos);
    }
    assert_eq!(path, seen);
}

#[test]
fn preview_ends_when_absorbed() {
    let mut w = World::new(config(1));
    w.create_body(Vec2::new(0, 0), Vec2::new(0, 0), 100, 50);
    let path = w.preview_path(Vec2::new(10, 0), Vec2::new(10, 0), 1, 1).unwrap();
    assert!(path.is_empty());
}

#[test]
fn absorbed_body_merges_once_per_pass() {
    let mut bodies = vec![
        body_at(0, 0, 0, 0, 1, 10),
        body_at(1, 0, 0, 0, 1, 10),
        body_at(2, 0, 0, 0, 1, 10),
    ];
    let third = bodies[2];
    let gone = resolve_collisions(&mut bodies);
    assert_eq!(gone, vec![false, true, false]);
    assert_eq!(bodies[0].mass, 2);
    assert_eq!(bodies[2], third);
    bodies.remove(1);
    let gone = resolve_collisions(&mut bodies);
    assert_eq!(gone, vec![false, true]);
    assert_eq!(bodies[0].mass, 3);
}

#[test]
fn previews_never_merge() {
    let mut bodies = vec![
        body_at(0, 0, 0, 0, 1, 10),
        Body::new_preview(Vec2::new(0, 0), Vec2::new(0, 0), 10),
    ];
    let gone = resolve_collisions(&mut bodies);
    assert_eq!(gone, vec![false, false]);
    assert_eq!(bodies[0].mass, 1);
}

#[test]
fn merge_in_world_removes_absorbed_handle() {
    let mut w = World::new(config(1));
    let a = w.create_body(Vec2::new(0, 0), Vec2::new(0, 0), 1, 10).unwrap();
    let b = w.create_body(Vec2::new(5, 0), Vec2::new(5, 0), 3, 10).unwrap();
    w.step();
    assert!(w.is_alive(a));
    assert!(!w.is_alive(b));
    assert!(w.get(b).is_none());
    assert_eq!(w.get(a).unwrap().mass, 4);
    assert_eq!(w.body_count(), 1);
}

#[test]
fn removed_handle_reads_as_absent() {
    let mut w = World::new(Config::default_config());
    let a = w.create_body(Vec2::new(0, 0), Vec2::new(0, 0), 1, 1).unwrap();
    let b = w.create_body(Vec2::new(100, 0), Vec2::new(100, 0), 1, 1).unwrap();
    assert_ne!(a, b);
    assert!(w.remove(a));
    assert!(!w.remove(a));
    assert!(w.get(a).is_none());
    assert!(w.trail(a).is_none());
    assert!(!w.is_alive(a));
    assert!(w.is_alive(b));
    let c = w.create_body(Vec2::new(0, 0), Vec2::new(0, 0), 1, 1).unwrap();
    assert!(c != a && c != b);
}

#[test]
fn creation_velocity_is_scaled_drag() {
    let mut w = World::new(Config::default_config());
    let id = w.create_body(Vec2::new(400, 0), Vec2::new(0, 80), 2, 1).unwrap();
    let b = w.get(id).unwrap();
    assert_eq!(b.velocity(), Vec2::new(10, -2));
    assert_eq!(b.momentum, Vec2::new(20, -4));
}

#[test]
fn invalid_creation_is_refused() {
    let mut w = World::new(Config::default_config());
    assert!(w.create_body(Vec2::new(0, 0), Vec2::new(0, 0), 0, 1).is_none());
    assert!(w.create_body(Vec2::new(0, 0), Vec2::new(0, 0), 1, 0).is_none());
    assert!(w.create_body(Vec2::new(i64::MAX, 0), Vec2::new(0, 0), 1, 1).is_none());
    assert_eq!(w.body_count(), 0);
}

#[test]
fn paused_tick_does_nothing() {
    let mut w = World::new(Config::default_config());
    let id = w.create_body(Vec2::new(0, 0), Vec2::new(-400, 0), 1, 1).unwrap();
    w.toggle_pause();
    assert_eq!(w.mode, RunMode::Paused);
    assert!(!w.is_running());
    w.tick();
    assert_eq!(w.get(id).unwrap().pos, Vec2::new(0, 0));
    w.toggle_pause();
    w.tick();
    assert_eq!(w.get(id).unwrap().pos, Vec2::new(10, 0));
}

#[test]
fn tick_runs_configured_iterations() {
    let mut w = World::new(Config { iterations_per_tick: 3, ..Config::default_config() });
    let id = w.create_body(Vec2::new(0, 0), Vec2::new(-400, 0), 1, 1).unwrap();
    w.tick();
    assert_eq!(w.get(id).unwrap().pos, Vec2::new(30, 0));
    assert_eq!(w.trail(id).unwrap().len(), 3);
}

#[test]
fn trail_capacity_can_change() {
    let mut w = World::new(Config::default_config());
    let id = w.create_body(Vec2::new(0, 0), Vec2::new(-400, 0), 1, 1).unwrap();
    for _ in 0..6 {
        w.step();
    }
    assert_eq!(w.trail(id).unwrap().len(), 6);
    assert!(w.set_trail_max(id, 2));
    w.step();
    assert_eq!(w.trail(id).unwrap().len(), 2);
    assert!(!w.set_trail_max(id + 100, 2));
}

#[test]
fn integer_square_root() {
    assert_eq!(isqrt(0), 0);
    assert_eq!(isqrt(1), 1);
    assert_eq!(isqrt(2_000_000), 1414);
    assert_eq!(isqrt(1 << 80), 1 << 40);
    assert_eq!(isqrt((1 << 80) - 1), (1 << 40) - 1);
}

#[test]
fn insert_refuses_when_full() {
    let mut w = World::new(Config::default_config());
    let b = body_at(0, 0, 0, 0, 1, 1);
    for _ in 0..gravity_sim::body::BODIES_MAX {
        assert!(w.insert(b).is_some());
    }
    assert!(w.insert(b).is_none());
}

#[test]
fn picking_finds_covering_body() {
    let mut w = World::new(Config::default_config());
    let a = w.create_body(Vec2::new(0, 0), Vec2::new(0, 0), 1, 10).unwrap();
    let b = w.create_body(Vec2::new(100, 0), Vec2::new(100, 0), 1, 5).unwrap();
    assert_eq!(w.body_at(Vec2::new(6, 8)), Some(a));
    assert_eq!(w.body_at(Vec2::new(103, 4)), Some(b));
    assert_eq!(w.body_at(Vec2::new(50, 0)), None);
}

#[test]
fn at_most_one_preview_body() {
    let mut w = World::new(Config::default_config());
    let a = w.create_body(Vec2::new(0, 0), Vec2::new(0, 0), 1, 1).unwrap();
    let p1 = w.set_preview(Vec2::new(100, 0), Vec2::new(60, 0), 3).unwrap();
    let p2 = w.set_preview(Vec2::new(100, 0), Vec2::new(20, 0), 3).unwrap();
    assert!(!w.is_alive(p1));
    assert!(w.is_alive(p2));
    assert_eq!(w.bodies.iter().filter(|b| b.preview).count(), 1);
    let before = w.get(p2).unwrap();
    w.step();
    assert_eq!(w.get(p2).unwrap(), before);
    w.clear_previews();
    assert!(!w.is_alive(p2));
    assert!(w.is_alive(a));
    assert_eq!(w.body_count(), 1);
}

#[test]
fn invalid_config_is_refused() {
    let mut w = World::new(Config::default_config());
    assert!(!w.set_config(Config { dt: 0, ..Config::default_config() }));
    assert!(!w.set_config(Config { gravity: 0, ..Config::default_config() }));
    assert!(!w.set_config(Config { iterations_per_tick: 0, ..Config::default_config() }));
    assert_eq!(w.config, Config::default_config());
    assert!(w.set_config(Config { dt: 2, ..Config::default_config() }));
    assert_eq!(w.config.dt, 2);
}

#[test]
fn preview_marker_carries_creation_velocity() {
    let mut w = World::new(Config::default_config());
    let a = w.create_body(Vec2::new(0, 0), Vec2::new(-400, 0), 3, 1).unwrap();
    let before = w.get(a).unwrap();
    let p = w.set_preview(Vec2::new(100, 0), Vec2::new(20, 40), 3).unwrap();
    let b = w.get(p).unwrap();
    assert!(b.preview);
    assert_eq!(b.mass, 1);
    assert_eq!(b.velocity(), Vec2::new(2, -1));
    assert_eq!(w.get(a).unwrap(), before);
    assert_eq!(w.body_count(), 2);
    assert!(w.set_preview(Vec2::new(i64::MAX, 0), Vec2::new(0, 0), 3).is_none());
    assert!(!w.is_alive(p));
    assert_eq!(w.body_count(), 1);
}

#[test]
fn trail_capacity_applies_at_once() {
    let mut w = World::new(Config::default_config());
    let id = w.create_body(Vec2::new(0, 0), Vec2::new(-400, 0), 1, 1).unwrap();
    for _ in 0..5 {
        w.step();
    }
    assert!(w.set_trail_max(id, 2));
    let t = w.trail(id).unwrap();
    assert_eq!(t, vec![Vec2::new(40, 0), Vec2::new(50, 0)]);
    assert!(!w.set_trail_max(id, gravity_sim::body::TRAIL_MAX + 1));
}

#[test]
fn resizing_keeps_velocity() {
    let mut w = World::new(Config::default_config());
    let id = w.create_body(Vec2::new(0, 0), Vec2::new(-400, 80), 2, 1).unwrap();
    assert!(w.set_mass_radius(id, 6, 7));
    let b = w.get(id).unwrap();
    assert_eq!(b.mass, 6);
    assert_eq!(b.radius, 7);
    assert_eq!(b.velocity(), Vec2::new(10, -2));
    assert_eq!(b.momentum, Vec2::new(60, -12));
    assert!(!w.set_mass_radius(id, 0, 7));
    assert!(!w.set_mass_radius(id + 1, 6, 7));
    assert_eq!(w.get(id).unwrap().mass, 6);
}

#[test]
fn strong_pair_force_keeps_direction() {
    let a = body_at(0, 0, 0, 0, 1 << 32, 1);
    let b = body_at(3, 4, 0, 0, 1 << 32, 1);
    let f = pair_force_exec(&a, &b, 1 << 16);
    let bound = gravity_sim::body::PAIR_FORCE_MAX;
    assert!(f.x.abs() <= bound && f.y.abs() <= bound);
    let raw_x: i128 = (1i128 << 80) * 3 / 125;
    let raw_y: i128 = (1i128 << 80) * 4 / 125;
    let c = raw_y / bound as i128 + 1;
    assert_eq!(f, Vec2::new((raw_x / c) as i64, (raw_y / c) as i64));
    assert!(f.y > bound - 10);
    assert!((f.x * 4 - f.y * 3).abs() <= 4);
    assert_eq!(pair_force_exec(&b, &a, 1 << 16), Vec2::new(-f.x, -f.y));
}
