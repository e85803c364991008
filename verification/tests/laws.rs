use particle_life::config::SimConfig;
use particle_life::fixed::ONE;
use particle_life::grid::Grid;
use particle_life::gpu::{grid_measures, reach_of};
use particle_life::particle::{Mouse, MouseButton, Particle};
use particle_life::qt::Rect;
use particle_life::sim::World;
use particle_life::util::Color;
use particle_life::vector::Vec2;

fn units(x: i64, y: i64) -> Vec2 {
    Vec2 { x: x * ONE, y: y * ONE }
}

fn idle() -> Mouse {
    Mouse { button: MouseButton::Released, pos: Vec2 { x: 0, y: 0 } }
}

fn white() -> Color {
    Color { r: 255, g: 255, b: 255, a: 255 }
}

struct Dice(u64);

impl Dice {
    fn roll(&mut self, below: i64) -> i64 {
        self.0 = self.0.wrapping_mul(6364136223846793005).wrapping_add(1442695040888963407);
        ((self.0 >> 33) % (below as u64)) as i64
    }

    fn between(&mut self, low: i64, high: i64) -> i64 {
        low + self.roll(high - low + 1)
    }
}

fn crowd(dice: &mut Dice, cultures: usize, size: usize, speed: i64) -> Vec<Vec<Particle>> {
    (0..cultures)
        .map(|_| {
            (0..size)
                .map(|_| Particle {
                    pos: Vec2 { x: dice.roll(1000 * ONE), y: dice.roll(800 * ONE) },
                    vel: Vec2 { x: dice.between(-speed, speed), y: dice.between(-speed, speed) },
                })
                .collect()
        })
        .collect()
}

fn mesh(dice: &mut Dice, cultures: usize) -> Vec<Vec<i64>> {
    (0..cultures).map(|_| (0..cultures).map(|_| dice.between(-ONE, ONE)).collect()).collect()
}

fn world(cultures: usize, size: usize, damping: i64, gpu: bool, dice: &mut Dice, speed: i64) -> World {
    let mut conf = SimConfig::default();
    conf.num_cultures = cultures;
    conf.culture_size = size;
    conf.damping = damping;
    conf.gpu = gpu;
    conf.is_interactive = false;
    let m = mesh(dice, cultures);
    let particles = crowd(dice, cultures, size, speed);
    World::with_particles(conf, m, vec![white(); cultures], particles).unwrap()
}

#[test]
fn slow_particles_stay_inside_the_world() {
    let mut dice = Dice(1);
    // with forces of at most twenty and a damping of one half, no speed ever
    // exceeds the twenty it starts below
    let mut w = world(3, 20, ONE / 2, false, &mut dice, 20 * ONE);
    for c in 0..3 {
        for p in w.cultures[c].particles.iter_mut() {
            p.pos.x = p.pos.x.clamp(25 * ONE, 975 * ONE);
            p.pos.y = p.pos.y.clamp(25 * ONE, 775 * ONE);
        }
    }
    for _ in 0..50 {
        w.step(ONE, &idle());
        for culture in &w.cultures {
            for p in &culture.particles {
                assert!(w.conf.bound.contains(&p.pos));
            }
        }
    }
}

#[test]
fn a_fast_particle_near_a_wall_leaves_the_world_for_a_tick() {
    let mut conf = SimConfig::default();
    conf.num_cultures = 1;
    conf.culture_size = 1;
    conf.damping = ONE;
    conf.is_interactive = false;
    let start = Particle { pos: units(990, 400), vel: units(100, 0) };
    let mut w = World::with_particles(conf, vec![vec![0]], vec![white()], vec![vec![start]]).unwrap();
    w.step(ONE, &idle());
    assert_eq!(w.cultures[0].particles[0].pos, units(1090, 400));
    // the next tick puts it onto the wall and sends it back
    w.step(ONE, &idle());
    assert_eq!(w.cultures[0].particles[0].pos, units(900, 400));
    assert_eq!(w.cultures[0].particles[0].vel, units(-100, 0));
}

#[test]
fn a_particle_on_a_wall_is_turned_inward() {
    let mut conf = SimConfig::default();
    conf.num_cultures = 1;
    conf.culture_size = 4;
    conf.damping = ONE;
    conf.is_interactive = false;
    let particles = vec![vec![
        Particle { pos: units(0, 400), vel: units(-3, 1) },
        Particle { pos: units(1000, 400), vel: units(3, 1) },
        Particle { pos: units(500, 0), vel: units(1, -3) },
        Particle { pos: units(500, 800), vel: units(1, 3) },
    ]];
    let mut w = World::with_particles(conf, vec![vec![0]], vec![white()], particles).unwrap();
    w.step(ONE, &idle());
    let p = &w.cultures[0].particles;
    assert_eq!(p[0], Particle { pos: units(3, 401), vel: units(3, 1) });
    assert_eq!(p[1], Particle { pos: units(997, 401), vel: units(-3, 1) });
    assert_eq!(p[2], Particle { pos: units(501, 3), vel: units(1, 3) });
    assert_eq!(p[3], Particle { pos: units(501, 797), vel: units(1, -3) });
}

#[test]
fn forces_are_bounded_by_the_mesh_and_the_size_of_a_culture() {
    let mut dice = Dice(2);
    for gpu in [false, true] {
        let mut w = world(4, 30, ONE, gpu, &mut dice, 0);
        // crowd everything into one spot so that everything is within reach
        for c in 0..4 {
            for p in w.cultures[c].particles.iter_mut() {
                p.pos.x = 500 * ONE + p.pos.x % (50 * ONE);
                p.pos.y = 400 * ONE + p.pos.y % (50 * ONE);
            }
        }
        if gpu {
            w.compute_force_naive();
        } else {
            w.compute_force();
        }
        let largest = w.gravity_mesh.iter().flatten().map(|g| g.abs()).max().unwrap();
        let mut total_x = 0;
        let mut total_y = 0;
        for row in &w.force_tensor {
            for f in row {
                assert!(f.x.abs() <= largest * 30);
                assert!(f.y.abs() <= largest * 30);
                total_x += f.x.abs();
                total_y += f.y.abs();
            }
        }
        assert!(total_x > 0 && total_y > 0);
        assert!(total_x <= 4 * 30 * 30 * largest);
        assert!(total_y <= 4 * 30 * 30 * largest);
    }
}

#[test]
fn many_particles_to_a_culture_exceed_one_unit_of_force_each() {
    // three particles of one culture in a row, and three of another close by
    let mut conf = SimConfig::default();
    conf.num_cultures = 2;
    conf.culture_size = 3;
    conf.is_interactive = false;
    let particles = vec![
        (100..103).map(|x| Particle::at(units(x, 100))).collect(),
        vec![Particle::at(units(110, 100)); 3],
    ];
    let m = vec![vec![ONE, ONE], vec![ONE, ONE]];
    let mut w = World::with_particles(conf, m, vec![white(); 2], particles).unwrap();
    w.compute_force_naive();
    let total: i64 = w.force_tensor.iter().flatten().map(|f| f.x.abs()).sum();
    assert_eq!(total, 9 * ONE);
    assert!(total > 2 * 3 * ONE);
    assert!(total <= 2 * 3 * 3 * ONE);
}

#[test]
fn without_forces_damping_slows_every_particle() {
    let mut dice = Dice(3);
    let mut w = world(2, 25, 3 * ONE / 4, false, &mut dice, 50 * ONE);
    w.gravity_mesh = vec![vec![0; 2]; 2];
    let mut steps_at_rest = 0;
    for _ in 0..200 {
        let before: Vec<Vec<Particle>> = w.cultures.iter().map(|c| c.particles.clone()).collect();
        w.step(ONE / 4, &idle());
        let mut moving = false;
        for c in 0..2 {
            for k in 0..25 {
                let (old, new) = (before[c][k].vel, w.cultures[c].particles[k].vel);
                assert!(new.x.abs() <= old.x.abs());
                assert!(new.y.abs() <= old.y.abs());
                assert!(old.x == 0 || new.x.abs() < old.x.abs());
                assert!(old.y == 0 || new.y.abs() < old.y.abs());
                moving = moving || new != units(0, 0);
            }
        }
        if !moving {
            steps_at_rest += 1;
        }
    }
    assert!(steps_at_rest > 100);
}

#[test]
fn the_approximation_with_threshold_zero_is_the_pairwise_sum() {
    let mut conf = SimConfig::default();
    conf.num_cultures = 2;
    conf.culture_size = 40;
    conf.theta = 0;
    conf.aoe2 = 2_000_000 * ONE;
    conf.is_interactive = false;
    let mut dice = Dice(4);
    // one particle to each square of a hundred units
    let particles: Vec<Vec<Particle>> = (0..2)
        .map(|c| {
            (0..40)
                .map(|k| {
                    let cell = c * 40 + k;
                    Particle::at(Vec2 {
                        x: (cell % 10) * 100 * ONE + dice.roll(90 * ONE),
                        y: (cell / 10) * 100 * ONE + dice.roll(90 * ONE),
                    })
                })
                .collect()
        })
        .collect();
    let m = mesh(&mut dice, 2);
    let mut w = World::with_particles(conf, m, vec![white(); 2], particles).unwrap();
    w.compute_force();
    let by_tree = w.force_tensor.clone();
    w.compute_force_naive();
    assert_eq!(by_tree, w.force_tensor);
    assert!(by_tree.iter().flatten().any(|f| *f != units(0, 0)));
}

#[test]
fn the_grid_names_every_particle_within_reach_once() {
    let mut dice = Dice(5);
    for aoe2 in [900 * ONE, 10_000 * ONE, 62_500 * ONE, 1_000_000 * ONE, 25 * ONE] {
        let reach = reach_of(aoe2);
        let (grid_w, bin) = grid_measures(1000 * ONE, reach);
        let positions: Vec<Vec2> = (0..400)
            .map(|_| {
                let x = dice.between(-10 * ONE, 1010 * ONE);
                let y = dice.between(-10 * ONE, 1010 * ONE);
                Vec2 { x, y }
            })
            .collect();
        let grid = Grid::build(&positions, bin, grid_w as usize);
        let column = |v: &Vec2| (v.x.max(0) / bin).min(grid_w as i64 - 1);
        let row = |v: &Vec2| (v.y.max(0) / bin).min(grid_w as i64 - 1);
        for p in positions.iter().take(40) {
            let near = grid.neighbors(p);
            let mut seen = vec![0; positions.len()];
            for e in &near {
                seen[*e] += 1;
                let q = &positions[*e];
                assert!((column(q) - column(p)).abs() <= 1);
                assert!((row(q) - row(p)).abs() <= 1);
            }
            for (e, q) in positions.iter().enumerate() {
                assert!(seen[e] <= 1);
                if p.distance_squared(q) <= (aoe2 as u128) * (ONE as u128) {
                    assert_eq!(seen[e], 1);
                }
            }
        }
    }
}

#[test]
fn cells_next_to_each_other_are_farther_apart_than_twice_the_reach_allows() {
    // with a reach of 250 in a world of 1000 there are two cells to a side
    let reach = reach_of(62_500 * ONE);
    assert_eq!(reach, 250 * ONE);
    let (grid_w, bin) = grid_measures(1000 * ONE, reach);
    assert_eq!((grid_w, bin), (2, 500 * ONE));
    let positions = vec![units(0, 0), units(999, 0)];
    let grid = Grid::build(&positions, bin, 2);
    assert_eq!(grid.neighbors(&positions[0]), vec![0, 1]);
    let apart = positions[0].distance_squared(&positions[1]);
    let twice_reach_squared_twice = 8 * (reach as u128) * (reach as u128);
    assert!(apart > twice_reach_squared_twice);
}

#[test]
fn a_world_at_rest_without_forces_does_not_move() {
    let mut dice = Dice(6);
    for gpu in [false, true] {
        let mut w = world(3, 15, ONE, gpu, &mut dice, 0);
        w.gravity_mesh = vec![vec![0; 3]; 3];
        w.cultures[0].particles[0].pos = units(0, 0);
        w.cultures[0].particles[1].pos = units(1000, 800);
        let before: Vec<Vec<Particle>> = w.cultures.iter().map(|c| c.particles.clone()).collect();
        for _ in 0..10 {
            w.step(ONE, &idle());
        }
        let after: Vec<Vec<Particle>> = w.cultures.iter().map(|c| c.particles.clone()).collect();
        assert_eq!(before, after);
    }
}

#[test]
fn a_particle_at_rest_outside_the_world_is_put_onto_the_wall() {
    let mut conf = SimConfig::default();
    conf.num_cultures = 1;
    conf.culture_size = 1;
    conf.damping = ONE;
    conf.is_interactive = false;
    let start = Particle::at(Vec2 { x: -5, y: 0 });
    let mut w = World::with_particles(conf, vec![vec![0]], vec![white()], vec![vec![start]]).unwrap();
    w.step(ONE, &idle());
    assert_eq!(w.cultures[0].particles[0], Particle::at(units(0, 0)));
    assert_eq!(w.conf.bound, Rect::new(units(0, 0), units(1000, 800)));
}
