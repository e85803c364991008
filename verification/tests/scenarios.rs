use particle_life::config::SimConfig;
use particle_life::fixed::ONE;
use particle_life::particle::{Mouse, MouseButton, Particle};
use particle_life::qt::{QuadTree, Rect};
use particle_life::culture::{sum_pairwise, Culture};
use particle_life::sim::World;
use particle_life::util::Color;
use particle_life::vector::Vec2;

fn units(x: i64, y: i64) -> Vec2 {
    Vec2 { x: x * ONE, y: y * ONE }
}

fn idle() -> Mouse {
    Mouse { button: MouseButton::Released, pos: Vec2 { x: 0, y: 0 } }
}

fn white() -> Color {
    Color { r: 255, g: 255, b: 255, a: 255 }
}

fn config(cultures: usize, size: usize, aoe: i64, damping: i64) -> SimConfig {
    let mut conf = SimConfig::default();
    conf.num_cultures = cultures;
    conf.culture_size = size;
    conf.aoe2 = aoe * aoe * ONE;
    conf.damping = damping;
    conf.is_interactive = false;
    conf
}

/// A small generator of numbers that look random and are the same in every run.
struct Dice(u64);

impl Dice {
    fn roll(&mut self, below: i64) -> i64 {
        self.0 = self.0.wrapping_mul(6364136223846793005).wrapping_add(1442695040888963407);
        ((self.0 >> 33) % (below as u64)) as i64
    }
}

/// Points of a world of 1000 by 800 units of which no two share a smallest
/// rectangle of the quadtree: one to each square of 40 units, anywhere in the
/// first unit of it.
fn scattered(count: usize, dice: &mut Dice) -> Vec<Particle> {
    let mut out = Vec::new();
    for i in 0..count {
        let column = (i % 25) as i64;
        let row = (i / 25) as i64;
        let pos = Vec2 {
            x: column * 40 * ONE + dice.roll(ONE),
            y: row * 40 * ONE + dice.roll(ONE),
        };
        out.push(Particle { pos, vel: Vec2 { x: 0, y: 0 } });
    }
    out
}

#[test]
fn wall_clamp() {
    let conf = config(1, 1, 100, ONE);
    let start = Particle { pos: units(0, 400), vel: units(-100, 0) };
    let mut world =
        World::with_particles(conf, vec![vec![0]], vec![white()], vec![vec![start]]).unwrap();
    world.step(ONE, &idle());
    let p = world.cultures[0].particles[0];
    assert_eq!(p.pos, units(100, 400));
    assert_eq!(p.vel, units(100, 0));
}

#[test]
fn two_particle_repel() {
    let conf = config(2, 1, 100, ONE);
    let a = Particle { pos: units(400, 400), vel: units(0, 0) };
    let b = Particle { pos: units(410, 400), vel: units(0, 0) };
    let mesh = vec![vec![0, -ONE], vec![-ONE, 0]];
    let mut world =
        World::with_particles(conf, mesh, vec![white(), white()], vec![vec![a], vec![b]]).unwrap();
    world.step(ONE, &idle());
    let left = world.cultures[0].particles[0];
    let right = world.cultures[1].particles[0];
    assert!(left.pos.x < a.pos.x);
    assert!(right.pos.x > b.pos.x);
    assert_eq!(left.vel.x + right.vel.x, 0);
    assert_eq!(left.vel.y + right.vel.y, 0);
    // a unit force, halved by the two cultures
    assert_eq!(left.vel, Vec2 { x: -ONE / 2, y: 0 });
    assert_eq!(right.vel, Vec2 { x: ONE / 2, y: 0 });
    assert_eq!(left.pos, Vec2 { x: 400 * ONE - ONE / 2, y: 400 * ONE });
    assert_eq!(right.pos, Vec2 { x: 410 * ONE + ONE / 2, y: 400 * ONE });
}

#[test]
fn mesh_round_trip() {
    let conf = config(3, 1, 100, ONE);
    let mesh = vec![
        vec![0, -ONE, ONE / 2],
        vec![ONE / 4, 12345, -54321],
        vec![-ONE / 8, 1, ONE],
    ];
    let particles = vec![
        vec![Particle::at(units(1, 1))],
        vec![Particle::at(units(2, 2))],
        vec![Particle::at(units(3, 3))],
    ];
    let world =
        World::with_particles(conf, mesh.clone(), vec![white(), white(), white()], particles)
            .unwrap();
    let text = world.export_gravity_mesh_json();
    let mut again = config(7, 2, 100, ONE);
    again.mesh_json = Some(text);
    let second = World::new(again).unwrap();
    assert_eq!(second.gravity_mesh, mesh);
    assert_eq!(second.gravity_mesh, world.gravity_mesh);
    assert_eq!(second.conf.num_cultures, 3);
    assert_eq!(second.cultures.len(), 3);
    assert_eq!(second.cultures[0].particles.len(), 2);
}

#[test]
fn barnes_hut_vs_naive() {
    let mut dice = Dice(2024);
    let bound = Rect::new(units(0, 0), units(1000, 800));
    let particles = scattered(500, &mut dice);
    let mut culture = Culture { color: white(), particles, qt: QuadTree::new(units(1000, 800)) };
    culture.quadtree(&bound);
    // wide enough to reach from any corner to any other
    let aoe2 = 2_000_000 * ONE;
    for _ in 0..20 {
        let query = Vec2 { x: dice.roll(1000 * ONE), y: dice.roll(800 * ONE) };
        let tree = culture.qt.accumulate(&query, ONE, aoe2, 0);
        let pairs = sum_pairwise(&query, &culture.particles, ONE, aoe2);
        assert_eq!(tree, pairs);
        assert!(tree.x != 0 || tree.y != 0);
    }
}

#[test]
fn grid_completeness() {
    let mut dice = Dice(7);
    let mut conf = config(2, 150, 30, ONE);
    conf.bound = Rect::new(units(0, 0), units(1000, 1000));
    let mut first = vec![Particle::at(units(500, 500))];
    let mut second = Vec::new();
    for i in 0..299 {
        let p = Particle::at(Vec2 { x: dice.roll(1000 * ONE), y: dice.roll(1000 * ONE) });
        if i < 149 {
            first.push(p);
        } else {
            second.push(p);
        }
    }
    // a few particles right around the probe
    second[0] = Particle::at(units(510, 500));
    second[1] = Particle::at(units(500, 529));
    second[2] = Particle::at(units(479, 479));
    let mesh = vec![vec![ONE / 2, -ONE], vec![ONE, ONE / 3]];
    let mut world =
        World::with_particles(conf, mesh, vec![white(), white()], vec![first, second]).unwrap();
    world.compute_force_grid();
    let by_grid = world.force_tensor.clone();
    world.compute_force_naive();
    assert_eq!(by_grid, world.force_tensor);
    assert!(by_grid[0][0] != Vec2 { x: 0, y: 0 });
}

#[test]
fn fixed_point_with_zero_mesh() {
    let mut dice = Dice(99);
    let conf = config(5, 100, 100, ONE);
    let mut particles = Vec::new();
    for _ in 0..5 {
        let mut row = Vec::new();
        for _ in 0..100 {
            row.push(Particle::at(units(dice.roll(1000), dice.roll(800))));
        }
        particles.push(row);
    }
    let mesh = vec![vec![0; 5]; 5];
    let mut world =
        World::with_particles(conf, mesh, vec![white(); 5], particles.clone()).unwrap();
    for _ in 0..100 {
        world.step(ONE, &idle());
    }
    for c in 0..5 {
        assert_eq!(world.cultures[c].particles, particles[c]);
    }
    assert_eq!(world.i, 100);
}
