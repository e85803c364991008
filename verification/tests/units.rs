use particle_life::clock::Accumulator;
use particle_life::config::{window_conf, Config, ConfigError, SimConfig};
use particle_life::culture::Culture;
use particle_life::fixed::{div_trunc, saturate, scale, sqrt_floor, LIMIT, ONE};
use particle_life::gpu::{grid_measures, reach_of, GpuParams, GpuParticle};
use particle_life::grid::{coordinate_of, index_of, Grid};
use particle_life::kernel::{kernel, within};
use particle_life::mesh::check_mesh;
use particle_life::particle::{whole_units, Mouse, MouseButton, Particle};
use particle_life::qt::{QuadTree, Rect, WeightedPoint, MAX_DEPTH};
use particle_life::query::sum_forces;
use particle_life::sim::World;
use particle_life::util::{random_color, random_gravity_mesh, random_gravity_mesh_flat, Color};
use particle_life::vector::{Force, Vec2};

fn units(x: i64, y: i64) -> Vec2 {
    Vec2 { x: x * ONE, y: y * ONE }
}

fn white() -> Color {
    Color { r: 255, g: 255, b: 255, a: 255 }
}

fn small(cultures: usize, size: usize) -> SimConfig {
    let mut conf = SimConfig::default();
    conf.num_cultures = cultures;
    conf.culture_size = size;
    conf
}

#[test]
fn fixed_point_products_round_toward_zero_and_saturate() {
    assert_eq!(scale(3 * ONE, ONE / 2), 98304);
    assert_eq!(scale(-3 * ONE, ONE / 2), -98304);
    assert_eq!(scale(1, 1), 0);
    assert_eq!(scale(-1, 1), 0);
    assert_eq!(scale(3, ONE / 2), 1);
    assert_eq!(scale(-3, ONE / 2), -1);
    assert_eq!(scale(LIMIT, LIMIT), LIMIT);
    assert_eq!(scale(LIMIT, -LIMIT), -LIMIT);
    assert_eq!(scale(i64::MAX, i64::MIN), -LIMIT);
    assert_eq!(saturate(LIMIT as i128 + 1), LIMIT);
    assert_eq!(saturate(-(LIMIT as i128) - 1), -LIMIT);
    assert_eq!(saturate(-17), -17);
    assert_eq!(div_trunc(-7, 2), -3);
    assert_eq!(div_trunc(7, 2), 3);
}

#[test]
fn integer_square_roots() {
    assert_eq!(sqrt_floor(0), 0);
    assert_eq!(sqrt_floor(1), 1);
    assert_eq!(sqrt_floor(15), 3);
    assert_eq!(sqrt_floor(16), 4);
    assert_eq!(sqrt_floor(17), 4);
    assert_eq!(sqrt_floor(u128::MAX), u64::MAX);
    assert_eq!(sqrt_floor(1u128 << 80), 1u64 << 40);
    assert_eq!(sqrt_floor((1u128 << 80) - 1), (1u64 << 40) - 1);
}

#[test]
fn squared_distance_is_exact() {
    let a = units(0, 0);
    let b = units(3, 4);
    assert_eq!(a.distance_squared(&b), 25 * (ONE as u128) * (ONE as u128));
    assert_eq!(b.distance_squared(&a), 25 * (ONE as u128) * (ONE as u128));
    let far = Vec2 { x: LIMIT, y: LIMIT };
    let near = Vec2 { x: -LIMIT, y: -LIMIT };
    assert_eq!(far.distance_squared(&near), 8 * (LIMIT as u128) * (LIMIT as u128));
    assert_eq!(Vec2::new(1, 2), Vec2 { x: 1, y: 2 });
    assert_eq!(Vec2::zero(), Vec2 { x: 0, y: 0 });
    assert_eq!(Force::zero(), Force { x: 0, y: 0 });
}

#[test]
fn kernel_has_the_length_of_coefficient_times_mass() {
    let p = units(0, 0);
    let s = units(3, 4);
    let reach2 = 100 * ONE;
    assert_eq!(kernel(&p, &s, 1, ONE, reach2), Force { x: 39321, y: 52428 });
    assert_eq!(kernel(&p, &s, 2, ONE, reach2), Force { x: 78643, y: 104857 });
    assert_eq!(kernel(&p, &s, 1, -ONE, reach2), Force { x: -39321, y: -52428 });
    assert_eq!(kernel(&s, &p, 1, ONE, reach2), Force { x: -39321, y: -52428 });
    assert_eq!(kernel(&p, &units(10, 0), 3, ONE / 2, reach2), Force { x: 3 * ONE as i128 / 2, y: 0 });
}

#[test]
fn kernel_is_cut_off_at_the_area_of_effect_and_at_distance_zero() {
    let p = units(0, 0);
    let reach2 = 100 * ONE;
    assert_eq!(kernel(&p, &p, 1, ONE, reach2), Force { x: 0, y: 0 });
    assert_eq!(kernel(&p, &units(6, 8), 1, ONE, reach2), Force { x: 39321, y: 52428 });
    assert_eq!(kernel(&p, &Vec2 { x: 6 * ONE, y: 8 * ONE + 1 }, 1, ONE, reach2), Force { x: 0, y: 0 });
    assert_eq!(kernel(&p, &units(30, 40), 1, ONE, reach2), Force { x: 0, y: 0 });
    assert_eq!(kernel(&p, &units(3, 4), 1, ONE, 0), Force { x: 0, y: 0 });
    assert_eq!(kernel(&p, &units(3, 4), 1, ONE, -5), Force { x: 0, y: 0 });
    assert_eq!(kernel(&p, &units(3, 4), 0, ONE, reach2), Force { x: 0, y: 0 });
    assert_eq!(kernel(&p, &units(3, 4), 1, 0, reach2), Force { x: 0, y: 0 });
    assert!(within(100, 1));
    assert!(within(65536, 1));
    assert!(!within(65537, 1));
    assert!(!within(0, -1));
}

#[test]
fn particle_forces() {
    let me = Particle::at(units(0, 0));
    let other = Particle::at(units(3, 4));
    assert_eq!(me._naive_force(&other, ONE, 100 * ONE), Force { x: 39321, y: 52428 });
    let heavy = WeightedPoint::new(units(3, 4), 2);
    assert_eq!(me.force(&heavy, ONE, 100 * ONE), Force { x: 78643, y: 104857 });
    assert_eq!(me.point(), units(0, 0));
}

#[test]
fn cursor_pushes_with_the_left_button_and_pulls_with_the_right() {
    let me = Particle::at(units(0, 0));
    let at = units(3, 4);
    let reach2 = 40000 * ONE;
    let strength = 400 * ONE;
    let left = Mouse { button: MouseButton::LeftDown, pos: at };
    let right = Mouse { button: MouseButton::RightDown, pos: at };
    let none = Mouse { button: MouseButton::Released, pos: at };
    assert_eq!(
        me.cursor_force(&left, reach2, strength),
        Force { x: -240 * ONE as i128, y: -320 * ONE as i128 }
    );
    assert_eq!(
        me.cursor_force(&right, reach2, strength),
        Force { x: 240 * ONE as i128, y: 320 * ONE as i128 }
    );
    assert_eq!(me.cursor_force(&none, reach2, strength), Force { x: 0, y: 0 });
    let far = Mouse { button: MouseButton::LeftDown, pos: units(300, 400) };
    assert_eq!(me.cursor_force(&far, reach2, strength), Force { x: 0, y: 0 });
}

#[test]
fn a_tick_adds_the_force_damps_turns_at_walls_and_moves() {
    let size = units(1000, 800);
    // free flight with damping one half
    let mut p = Particle { pos: units(500, 400), vel: units(10, -20) };
    p.advance(&units(2, 4), ONE / 2, ONE, &size);
    assert_eq!(p.vel, units(6, -8));
    assert_eq!(p.pos, units(506, 392));
    // beyond the high wall: put onto it and sent back, whatever the direction
    let mut q = Particle { pos: units(1010, 900), vel: units(-4, 6) };
    q.advance(&units(0, 0), ONE, ONE / 2, &size);
    assert_eq!(q.vel, units(-4, -6));
    assert_eq!(q.pos, units(998, 797));
    // a quarter tick
    let mut r = Particle { pos: units(1, 1), vel: units(1, 1) };
    r.advance(&units(0, 0), ONE, ONE / 4, &size);
    assert_eq!(r.pos, Vec2 { x: ONE + ONE / 4, y: ONE + ONE / 4 });
    // nothing leaves the storable range
    let mut s = Particle { pos: units(500, 400), vel: Vec2 { x: LIMIT, y: -LIMIT } };
    s.advance(&Vec2 { x: LIMIT, y: -LIMIT }, LIMIT, LIMIT, &size);
    assert_eq!(s.vel, Vec2 { x: LIMIT, y: -LIMIT });
    assert_eq!(s.pos, Vec2 { x: LIMIT, y: -LIMIT });
}

#[test]
fn rectangles() {
    let r = Rect::new(Vec2 { x: 0, y: 0 }, Vec2 { x: 10, y: 7 });
    assert_eq!(r.center, Vec2 { x: 5, y: 3 });
    assert_eq!(r.width(), 8);
    assert!(r.contains(&Vec2 { x: 0, y: 0 }));
    assert!(r.contains(&Vec2 { x: 10, y: 7 }));
    assert!(r.contains(&Vec2 { x: 5, y: 3 }));
    assert!(!r.contains(&Vec2 { x: 11, y: 7 }));
    assert!(!r.contains(&Vec2 { x: 10, y: -1 }));
    let s = Rect::new(Vec2 { x: -7, y: -3 }, Vec2 { x: 0, y: 0 });
    assert_eq!(s.center, Vec2 { x: -4, y: -2 });
}

#[test]
fn weighted_points() {
    assert_eq!(WeightedPoint::default(), WeightedPoint { pos: Vec2 { x: 0, y: 0 }, mass: 0 });
    assert_eq!(WeightedPoint::new(units(1, 2), 3), WeightedPoint { pos: units(1, 2), mass: 3 });
}

#[test]
fn a_tree_takes_the_points_of_its_rectangle_only() {
    let mut tree = QuadTree::new(units(100, 100));
    assert_eq!(*tree.boundary(), Rect::new(units(0, 0), units(100, 100)));
    assert_eq!(*tree.center(), units(50, 50));
    assert!(!tree.insert(&units(101, 50), 0));
    assert!(!tree.insert(&Vec2 { x: -1, y: 0 }, 0));
    assert!(matches!(tree, QuadTree::Empty { .. }));
    assert!(tree.insert(&units(100, 100), 0));
    assert!(tree.insert(&units(0, 0), 0));
    assert!(!tree.insert(&units(50, 101), 0));
    assert_eq!(tree.measure_nodes(), Some(WeightedPoint { pos: units(50, 50), mass: 2 }));
}

#[test]
fn a_second_point_divides_a_leaf() {
    let mut tree = QuadTree::new(units(100, 100));
    assert!(tree.insert(&units(10, 10), 0));
    match &tree {
        QuadTree::External { point, .. } => {
            assert_eq!(*point, WeightedPoint { pos: units(10, 10), mass: 1 })
        }
        _ => panic!("one point makes a leaf"),
    }
    assert!(tree.insert(&units(90, 10), 0));
    match &tree {
        QuadTree::Internal { boundary, first, second, third, fourth, .. } => {
            assert_eq!(*boundary, Rect::new(units(0, 0), units(100, 100)));
            assert!(matches!(**first, QuadTree::External { .. }));
            assert!(matches!(**second, QuadTree::External { .. }));
            assert!(matches!(**third, QuadTree::Empty { .. }));
            assert!(matches!(**fourth, QuadTree::Empty { .. }));
            assert_eq!(*second.boundary(), Rect::new(units(50, 0), units(100, 50)));
            assert_eq!(*third.boundary(), Rect::new(units(0, 50), units(50, 100)));
        }
        _ => panic!("two points divide the root"),
    }
    // a point on the shared edge goes to the first quadrant that holds it
    assert!(tree.insert(&units(50, 50), 0));
    match &tree {
        QuadTree::Internal { first, fourth, .. } => {
            assert!(matches!(**first, QuadTree::Internal { .. }));
            assert!(matches!(**fourth, QuadTree::Empty { .. }));
        }
        _ => panic!("the root stays divided"),
    }
    assert_eq!(tree.render().len(), 9);
    assert_eq!(tree.render()[0], Rect::new(units(0, 0), units(100, 100)));
    assert_eq!(tree.render()[1], Rect::new(units(0, 0), units(50, 50)));
}

#[test]
fn subdividing_gives_four_empty_quadrants() {
    let tree = QuadTree::new(Vec2 { x: 9, y: 7 });
    match tree.subdivide() {
        QuadTree::Internal { boundary, first, second, third, fourth, cm } => {
            assert_eq!(boundary, Rect::new(Vec2 { x: 0, y: 0 }, Vec2 { x: 9, y: 7 }));
            assert_eq!(*first.boundary(), Rect::new(Vec2 { x: 0, y: 0 }, Vec2 { x: 4, y: 3 }));
            assert_eq!(*second.boundary(), Rect::new(Vec2 { x: 4, y: 0 }, Vec2 { x: 9, y: 3 }));
            assert_eq!(*third.boundary(), Rect::new(Vec2 { x: 0, y: 3 }, Vec2 { x: 4, y: 7 }));
            assert_eq!(*fourth.boundary(), Rect::new(Vec2 { x: 4, y: 3 }, Vec2 { x: 9, y: 7 }));
            assert!(matches!(*first, QuadTree::Empty { .. }));
            assert_eq!(cm, WeightedPoint::default());
        }
        _ => panic!("a divided node has children"),
    }
}

#[test]
fn points_that_meet_at_the_depth_limit_are_merged() {
    assert_eq!(MAX_DEPTH, 8);
    let mut tree = QuadTree::new(units(256, 256));
    let spot = Vec2 { x: 10 * ONE + 3, y: 20 * ONE + 5 };
    let close = Vec2 { x: 10 * ONE + 4, y: 20 * ONE + 5 };
    assert!(tree.insert(&spot, 0));
    assert!(tree.insert(&close, 0));
    assert!(tree.insert(&spot, 0));
    // one leaf, eight levels down, of mass three at the first of the positions
    let mut node = &tree;
    let mut depth = 0;
    loop {
        match node {
            QuadTree::Internal { first, second, third, fourth, .. } => {
                let children = [first, second, third, fourth];
                let mut next = None;
                for child in children {
                    if !matches!(**child, QuadTree::Empty { .. }) {
                        assert!(next.is_none());
                        next = Some(&**child);
                    }
                }
                node = next.unwrap();
                depth += 1;
            }
            QuadTree::External { point, .. } => {
                assert_eq!(*point, WeightedPoint { pos: spot, mass: 3 });
                break;
            }
            QuadTree::Empty { .. } => panic!("the points are somewhere"),
        }
    }
    assert_eq!(depth, 8);
    assert_eq!(tree.measure_nodes(), Some(WeightedPoint { pos: spot, mass: 3 }));
}

#[test]
fn measuring_sets_centers_of_mass() {
    let mut tree = QuadTree::new(units(100, 100));
    assert_eq!(tree.measure_nodes(), None);
    tree.insert(&units(10, 10), 0);
    assert_eq!(tree.measure_nodes(), Some(WeightedPoint { pos: units(10, 10), mass: 1 }));
    tree.insert(&units(20, 40), 0);
    tree.insert(&units(90, 10), 0);
    assert_eq!(tree.measure_nodes(), Some(WeightedPoint { pos: units(40, 20), mass: 3 }));
    match &tree {
        QuadTree::Internal { first, cm, .. } => {
            assert_eq!(*cm, WeightedPoint { pos: units(40, 20), mass: 3 });
            match &**first {
                QuadTree::Internal { cm, .. } => {
                    assert_eq!(*cm, WeightedPoint { pos: units(15, 25), mass: 2 })
                }
                _ => panic!("two points share the first quadrant"),
            }
        }
        _ => panic!("three points divide the root"),
    }
    let mut empty = QuadTree::new(units(100, 100)).subdivide();
    assert_eq!(empty.measure_nodes(), None);
}

#[test]
fn the_approximation_opens_near_nodes_and_sums_up_far_ones() {
    let mut tree = QuadTree::new(units(1000, 1000));
    tree.insert(&units(900, 900), 0);
    tree.insert(&units(910, 900), 0);
    tree.insert(&units(100, 100), 0);
    tree.measure_nodes();
    let reach2 = 4_000_000 * ONE;
    let origin = units(0, 0);
    // threshold zero: every leaf by itself
    let all = tree.approximate_points(&origin, reach2, 0).unwrap();
    assert_eq!(
        all,
        vec![
            WeightedPoint { pos: units(100, 100), mass: 1 },
            WeightedPoint { pos: units(900, 900), mass: 1 },
            WeightedPoint { pos: units(910, 900), mass: 1 },
        ]
    );
    // a huge threshold: the root stands for everything
    let one = tree.approximate_points(&origin, reach2, 100 * ONE).unwrap();
    assert_eq!(one, vec![WeightedPoint { pos: Vec2 { x: 41724586, y: 41506133 }, mass: 3 }]);
    // in between: the far pair is one point
    let some = tree.approximate_points(&origin, reach2, ONE / 2).unwrap();
    assert_eq!(
        some,
        vec![
            WeightedPoint { pos: units(100, 100), mass: 1 },
            WeightedPoint { pos: units(905, 900), mass: 2 },
        ]
    );
    // out of reach of the center of mass: nothing
    assert_eq!(tree.approximate_points(&origin, 100 * ONE, 0), None);
    assert_eq!(QuadTree::new(units(10, 10)).approximate_points(&origin, reach2, 0), None);
    let total = tree.accumulate(&origin, ONE, reach2, ONE / 2);
    assert_eq!(total, sum_forces(&origin, &some, ONE, reach2));
}

#[test]
fn configurations_are_checked() {
    assert_eq!(SimConfig::default().check(), Ok(()));
    assert_eq!(small(0, 5).check(), Err(ConfigError::NoCultures));
    assert_eq!(small(5, 0).check(), Err(ConfigError::NoParticles));
    assert_eq!(small(70_000, 70_000).check(), Err(ConfigError::TooManyParticles));
    assert_eq!(small(usize::MAX, usize::MAX).check(), Err(ConfigError::TooManyParticles));
    assert_eq!(small(65_537, 65_535).check(), Ok(()));
    let mut conf = small(2, 2);
    conf.aoe2 = 0;
    assert_eq!(conf.check(), Err(ConfigError::NoReach));
    conf.aoe2 = -ONE;
    assert_eq!(conf.check(), Err(ConfigError::NoReach));
    let mut conf = small(2, 2);
    conf.bound = Rect::new(units(1, 0), units(1000, 800));
    assert_eq!(conf.check(), Err(ConfigError::BadBound));
    conf.bound = Rect::new(units(0, 0), Vec2 { x: ONE - 1, y: ONE });
    assert_eq!(conf.check(), Err(ConfigError::BadBound));
    conf.bound = Rect::new(units(0, 0), Vec2 { x: LIMIT + 1, y: ONE });
    assert_eq!(conf.check(), Err(ConfigError::BadBound));
    conf.bound = Rect { start: units(0, 0), center: units(1, 1), end: units(10, 10) };
    assert_eq!(conf.check(), Err(ConfigError::BadBound));
    conf.bound = Rect::new(units(0, 0), units(1, 1));
    assert_eq!(conf.check(), Ok(()));
    let mut conf = small(2, 2);
    conf.damping = LIMIT + 1;
    assert_eq!(conf.check(), Err(ConfigError::Unrepresentable));
    let mut conf = small(2, 2);
    conf.theta = -LIMIT - 1;
    assert_eq!(conf.check(), Err(ConfigError::Unrepresentable));
    let mut conf = small(2, 2);
    conf.cursor_force = i64::MAX;
    assert_eq!(conf.check(), Err(ConfigError::Unrepresentable));
    // the first defect is named
    let mut conf = small(0, 0);
    conf.aoe2 = 0;
    assert_eq!(conf.check(), Err(ConfigError::NoCultures));
}

#[test]
fn configurations_are_made() {
    let d = SimConfig::default();
    assert!(!d.gpu);
    assert_eq!(d.mesh_json, None);
    assert_eq!(d.bound, Rect::new(units(0, 0), units(1000, 800)));
    assert_eq!((d.num_cultures, d.culture_size), (5, 5000));
    assert_eq!(d.aoe2, 10000 * ONE);
    assert_eq!(d.theta, 58982);
    assert_eq!(d.damping, ONE / 2);
    assert_eq!(d.cursor_aoe2, 40000 * ONE);
    assert_eq!(d.cursor_force, 400 * ONE);
    assert!(d.is_interactive);
    let c = SimConfig::new(20, 2000, 100 * ONE, 58982, ONE / 2, 200 * ONE, 400 * ONE);
    assert_eq!((c.num_cultures, c.culture_size), (20, 2000));
    assert_eq!(c.aoe2, 10000 * ONE);
    assert_eq!(c.cursor_aoe2, 40000 * ONE);
    assert_eq!(c.bound, d.bound);
    assert_eq!(c.check(), Ok(()));
    let frozen = Config::default().freeze();
    assert_eq!(frozen.aoe2, d.aoe2);
    assert_eq!(frozen.cursor_aoe2, d.cursor_aoe2);
    assert_eq!(frozen.theta, d.theta);
    assert_eq!(frozen.damping, d.damping);
    assert_eq!(frozen.cursor_force, d.cursor_force);
    assert_eq!(frozen.bound, d.bound);
    assert_eq!((frozen.num_cultures, frozen.culture_size), (5, 5000));
    assert!(!frozen.gpu && frozen.is_interactive && frozen.mesh_json.is_none());
    let mut edited = Config::default();
    edited.aoe = 30 * ONE;
    edited.num_cultures = 3;
    assert_eq!(edited.freeze().aoe2, 900 * ONE);
    assert_eq!(edited.freeze().num_cultures, 3);
}

#[test]
fn the_window_is_one_and_a_half_times_the_world() {
    let w = window_conf(&SimConfig::default().bound);
    assert_eq!(w.window_title, "Particle Life");
    assert_eq!(w.window_width, 1500);
    assert_eq!(w.window_height, 1200);
    let odd = window_conf(&Rect::new(units(0, 0), units(3, 1)));
    assert_eq!((odd.window_width, odd.window_height), (4, 1));
}

#[test]
fn meshes_are_checked() {
    assert_eq!(check_mesh(&vec![vec![1, 2], vec![3, 4]], 2), Ok(()));
    assert_eq!(check_mesh(&vec![], 0), Ok(()));
    assert_eq!(check_mesh(&vec![vec![1, 2], vec![3, 4]], 3), Err(ConfigError::MeshShape));
    assert_eq!(check_mesh(&vec![vec![1, 2], vec![3]], 2), Err(ConfigError::MeshShape));
    assert_eq!(check_mesh(&vec![vec![1, 2, 3], vec![3, 4, 5]], 2), Err(ConfigError::MeshShape));
    assert_eq!(
        check_mesh(&vec![vec![1, 2], vec![3, LIMIT + 1]], 2),
        Err(ConfigError::Unrepresentable)
    );
    assert_eq!(check_mesh(&vec![vec![LIMIT, -LIMIT], vec![0, 0]], 2), Ok(()));
}

#[test]
fn worlds_of_given_parts() {
    let a = Particle { pos: units(1, 2), vel: units(3, 4) };
    let b = Particle { pos: units(5, 6), vel: units(7, 8) };
    let red = Color { r: 255, g: 0, b: 0, a: 255 };
    let blue = Color { r: 0, g: 0, b: 255, a: 255 };
    let mesh = vec![vec![1, 2], vec![3, 4]];
    let w = World::with_particles(small(2, 1), mesh.clone(), vec![red, blue], vec![vec![a], vec![b]])
        .unwrap();
    assert_eq!(w.gravity_mesh, mesh);
    assert_eq!(w.cultures[0].color, red);
    assert_eq!(w.cultures[1].color, blue);
    assert_eq!(w.cultures[0].particles, vec![a]);
    assert_eq!(w.cultures[1].particles, vec![b]);
    assert_eq!(w.force_tensor, vec![vec![units(0, 0)], vec![units(0, 0)]]);
    assert_eq!(w.cursor_force_tensor, vec![vec![units(0, 0)], vec![units(0, 0)]]);
    assert_eq!(w.i, 0);
    assert_eq!(w.render(), vec![(red, units(1, 2)), (blue, units(5, 6))]);
    assert_eq!(w.positions(), vec![units(1, 2), units(5, 6)]);

    let err = |r: Result<World, ConfigError>| r.err();
    assert_eq!(
        err(World::with_particles(small(0, 1), vec![], vec![], vec![])),
        Some(ConfigError::NoCultures)
    );
    assert_eq!(
        err(World::with_particles(small(2, 1), vec![vec![1]], vec![red, blue], vec![vec![a], vec![b]])),
        Some(ConfigError::MeshShape)
    );
    assert_eq!(
        err(World::with_particles(
            small(2, 1),
            vec![vec![1, 2], vec![3, i64::MAX]],
            vec![red, blue],
            vec![vec![a], vec![b]]
        )),
        Some(ConfigError::Unrepresentable)
    );
    assert_eq!(
        err(World::with_particles(small(2, 1), mesh.clone(), vec![red], vec![vec![a], vec![b]])),
        Some(ConfigError::BadParticles)
    );
    assert_eq!(
        err(World::with_particles(small(2, 1), mesh.clone(), vec![red, blue], vec![vec![a, b], vec![b]])),
        Some(ConfigError::BadParticles)
    );
    assert_eq!(
        err(World::with_particles(small(2, 1), mesh.clone(), vec![red, blue], vec![vec![a]])),
        Some(ConfigError::BadParticles)
    );
    let wild = Particle { pos: Vec2 { x: LIMIT + 1, y: 0 }, vel: units(0, 0) };
    assert_eq!(
        err(World::with_particles(small(2, 1), mesh, vec![red, blue], vec![vec![a], vec![wild]])),
        Some(ConfigError::BadParticles)
    );
}

#[test]
fn worlds_are_founded_at_random() {
    let w = World::new(small(3, 40)).unwrap();
    assert_eq!(w.cultures.len(), 3);
    assert_eq!(w.gravity_mesh.len(), 3);
    for row in &w.gravity_mesh {
        assert_eq!(row.len(), 3);
        for g in row {
            assert!(-ONE <= *g && *g <= ONE);
        }
    }
    for culture in &w.cultures {
        assert_eq!(culture.particles.len(), 40);
        assert_eq!(culture.color.a, 255);
        assert!(matches!(culture.qt, QuadTree::Empty { .. }));
        for p in &culture.particles {
            assert!(0 <= p.pos.x && p.pos.x < 1000 * ONE);
            assert!(0 <= p.pos.y && p.pos.y < 800 * ONE);
            assert_eq!(p.pos.x % ONE, 0);
            assert_eq!(p.pos.y % ONE, 0);
            assert_eq!(p.vel, units(0, 0));
        }
    }
    assert_eq!(w.force_tensor, vec![vec![units(0, 0); 40]; 3]);
    assert_eq!(w.cursor_force_tensor, vec![vec![units(0, 0); 40]; 3]);
    assert_eq!(w.i, 0);
    // particles are not all in one place
    let first = w.cultures[0].particles[0].pos;
    assert!(w.cultures.iter().any(|c| c.particles.iter().any(|p| p.pos != first)));
    assert_eq!(World::new(small(0, 40)).err(), Some(ConfigError::NoCultures));
    assert_eq!(World::new(small(3, 0)).err(), Some(ConfigError::NoParticles));
}

#[test]
fn a_mesh_is_read_from_json_and_written_to_it() {
    let mut conf = small(9, 2);
    conf.mesh_json = Some("[[1, -2], [65536, 0]]".to_string());
    let w = World::new(conf).unwrap();
    assert_eq!(w.gravity_mesh, vec![vec![1, -2], vec![65536, 0]]);
    assert_eq!(w.conf.num_cultures, 2);
    assert_eq!(w.cultures.len(), 2);
    assert_eq!(w.export_gravity_mesh_json(), "[[1,-2],[65536,0]]");

    let bad = |text: &str| {
        let mut conf = small(2, 2);
        conf.mesh_json = Some(text.to_string());
        World::new(conf).err()
    };
    assert_eq!(bad("not json"), Some(ConfigError::MeshJson));
    assert_eq!(bad("[[1, 2], [3, 4]"), Some(ConfigError::MeshJson));
    assert_eq!(bad("[[0.5, 2], [3, 4]]"), Some(ConfigError::MeshJson));
    assert_eq!(bad("{\"mesh\": 1}"), Some(ConfigError::MeshJson));
    assert_eq!(bad("[1, 2]"), Some(ConfigError::MeshJson));
    assert_eq!(bad("[[1, 2], [3]]"), Some(ConfigError::MeshShape));
    assert_eq!(bad("[[1, 2, 3], [4, 5, 6]]"), Some(ConfigError::MeshShape));
    assert_eq!(bad("[]"), Some(ConfigError::NoCultures));
    assert_eq!(bad("[[1, 2], [3, 9223372036854775807]]"), Some(ConfigError::Unrepresentable));
}

#[test]
fn random_colours_and_meshes() {
    for _ in 0..20 {
        assert_eq!(random_color().a, 255);
    }
    let colours: Vec<Color> = (0..20).map(|_| random_color()).collect();
    assert!(colours.iter().any(|c| *c != colours[0]));
    let mesh = random_gravity_mesh(6);
    assert_eq!(mesh.len(), 6);
    for row in &mesh {
        assert_eq!(row.len(), 6);
        assert!(row.iter().all(|g| -ONE <= *g && *g <= ONE));
    }
    assert!(mesh.iter().flatten().any(|g| *g != mesh[0][0]));
    assert!(random_gravity_mesh(0).is_empty());
    let flat = random_gravity_mesh_flat(5);
    assert_eq!(flat.len(), 25);
    assert!(flat.iter().all(|g| -ONE <= *g && *g <= ONE));
    assert!(flat.iter().any(|g| *g != flat[0]));
}

#[test]
fn random_particles() {
    let size = units(3, 2);
    let mut seen_x = [false; 3];
    for _ in 0..200 {
        let p = Particle::new(size);
        assert!(0 <= p.pos.x && p.pos.x < size.x && p.pos.x % ONE == 0);
        assert!(0 <= p.pos.y && p.pos.y < size.y && p.pos.y % ONE == 0);
        assert_eq!(p.vel, units(0, 0));
        seen_x[(p.pos.x / ONE) as usize] = true;
    }
    assert_eq!(seen_x, [true; 3]);
    let c = Culture::new(white(), 17, Rect::new(units(0, 0), units(5, 5)));
    assert_eq!(c.particles.len(), 17);
    assert_eq!(c.color, white());
    assert!(c.particles.iter().all(|p| p.pos.x < 5 * ONE && p.pos.y < 5 * ONE));
    for _ in 0..50 {
        let g = GpuParticle::new(Vec2 { x: 10, y: 1 });
        assert!(0 <= g.pos.x && g.pos.x < 10);
        assert_eq!(g.pos.y, 0);
        assert!(-ONE <= g.vel.x && g.vel.x < ONE);
        assert!(-ONE <= g.vel.y && g.vel.y < ONE);
    }
}

#[test]
fn parameters_for_a_graphics_device() {
    let p = GpuParams::new(8, 5000, 30 * ONE, ONE / 4).unwrap();
    assert_eq!(p.bound, units(1000, 1000));
    assert_eq!((p.num_cultures, p.culture_size, p.num_particles), (8, 5000, 40000));
    assert_eq!(p.aoe, 30 * ONE);
    assert_eq!(p.aoe2, 900 * ONE);
    assert_eq!(p.damping, ONE / 4);
    assert_eq!(p.grid_w, 17);
    assert_eq!(p.bin_size, 3855058);
    assert_eq!(p.theta2, 0);
    assert_eq!(p.workgroup_count(), 625);
    let q = GpuParams::new(1, 65, 500 * ONE, ONE).unwrap();
    assert_eq!((q.grid_w, q.bin_size), (1, 1000 * ONE));
    assert_eq!(q.workgroup_count(), 2);
    assert_eq!(GpuParams::new(1, 64, ONE, ONE).unwrap().workgroup_count(), 1);
    assert_eq!(GpuParams::new(1, 1, 250 * ONE, ONE).unwrap().grid_w, 2);
    assert_eq!(GpuParams::new(0, 1, ONE, ONE), Err(ConfigError::NoCultures));
    assert_eq!(GpuParams::new(1, 0, ONE, ONE), Err(ConfigError::NoParticles));
    assert_eq!(GpuParams::new(65536, 65536, ONE, ONE), Err(ConfigError::TooManyParticles));
    assert_eq!(GpuParams::new(1, 1, 0, ONE), Err(ConfigError::NoReach));
    assert_eq!(GpuParams::new(1, 1, LIMIT + 1, ONE), Err(ConfigError::Unrepresentable));
    assert_eq!(GpuParams::new(1, 1, ONE, -LIMIT - 1), Err(ConfigError::Unrepresentable));

    let d = SimConfig::default().gpu_params();
    assert_eq!(d.bound, units(1000, 800));
    assert_eq!((d.num_cultures, d.culture_size, d.num_particles), (5, 5000, 25000));
    assert_eq!(d.aoe, 100 * ONE);
    assert_eq!(d.aoe2, 10000 * ONE);
    assert_eq!(d.theta2, 53083);
    assert_eq!(d.damping, ONE / 2);
    assert_eq!((d.grid_w, d.bin_size), (5, 200 * ONE));
    assert_eq!(reach_of(1), 256);
    assert_eq!(reach_of(900 * ONE), 30 * ONE);
    assert_eq!(grid_measures(1000, 30), (17, 58));
    assert_eq!(grid_measures(1000, 500), (1, 1000));
    assert_eq!(grid_measures(1, 1), (1, 1));
}

#[test]
fn particles_are_binned_in_three_passes() {
    let positions = vec![
        Vec2 { x: 25, y: 5 },
        Vec2 { x: 5, y: 5 },
        Vec2 { x: 26, y: 7 },
        Vec2 { x: 5, y: 25 },
        Vec2 { x: 0, y: 0 },
        Vec2 { x: 29, y: 29 },
        Vec2 { x: -4, y: 100 },
    ];
    let grid = Grid::build(&positions, 10, 3);
    assert_eq!(grid.grid_w, 3);
    assert_eq!(grid.bin_size, 10);
    assert_eq!(grid.cells, vec![2, 0, 2, 6, 0, 8, 6]);
    assert_eq!(grid.counts, vec![2, 0, 2, 0, 0, 0, 2, 0, 1]);
    assert_eq!(grid.offsets, vec![0, 2, 2, 4, 4, 4, 4, 6, 6, 7]);
    assert_eq!(grid.bins, vec![1, 4, 0, 2, 3, 6, 5]);
    assert_eq!(coordinate_of(-1, 10, 3), 0);
    assert_eq!(coordinate_of(9, 10, 3), 0);
    assert_eq!(coordinate_of(10, 10, 3), 1);
    assert_eq!(coordinate_of(1000, 10, 3), 2);
    assert_eq!(index_of(&Vec2 { x: 15, y: 25 }, 10, 3), 7);
    // the corner cell sees its own cell and the three next to it
    assert_eq!(grid.neighbors(&Vec2 { x: 1, y: 1 }), vec![1, 4]);
    // the middle cell sees everything
    assert_eq!(grid.neighbors(&Vec2 { x: 15, y: 15 }), vec![1, 4, 0, 2, 3, 6, 5]);
    assert_eq!(grid.neighbors(&Vec2 { x: 25, y: 15 }), vec![0, 2, 5]);
    let empty = Grid::build(&vec![], 10, 2);
    assert_eq!(empty.offsets, vec![0, 0, 0, 0, 0]);
    assert!(empty.neighbors(&Vec2 { x: 1, y: 1 }).is_empty());
}

#[test]
fn forces_are_computed_in_three_ways() {
    let mut conf = small(2, 2);
    conf.aoe2 = 100 * ONE;
    conf.theta = 0;
    let mesh = vec![vec![ONE, -ONE], vec![ONE / 2, 0]];
    let particles = vec![
        vec![Particle::at(units(100, 100)), Particle::at(units(103, 104))],
        vec![Particle::at(units(100, 105)), Particle::at(units(500, 500))],
    ];
    let mut w =
        World::with_particles(conf, mesh, vec![white(), white()], particles).unwrap();
    w.compute_force_naive();
    // Along (3, 4) the unit vector is (0.6, 0.8), which is (39321, 52428).
    // Along (3, -1) the distance is the root of ten, 207243 raw, and the
    // unit vector times one is (62172, -20724), times one half (31086, -10362).
    // The sums over both cultures are halved.
    let expected = vec![
        vec![
            Vec2 { x: 39321 / 2, y: (52428 - 65536) / 2 },
            Vec2 { x: (-39321 + 62172) / 2, y: (-52428 - 20724) / 2 },
        ],
        vec![Vec2 { x: 31086 / 2, y: (-32768 - 10362) / 2 }, Vec2 { x: 0, y: 0 }],
    ];
    assert_eq!(expected[0][1], Vec2 { x: 11425, y: -36576 });
    assert_eq!(expected[1][0], Vec2 { x: 15543, y: -21565 });
    assert_eq!(w.force_tensor, expected);
    w.force_tensor = vec![vec![units(9, 9); 2]; 2];
    w.compute_force_grid();
    assert_eq!(w.force_tensor, expected);
    // The quadtree of the second culture has its center of mass far from the
    // first two particles and is left out as a whole for them; that of the
    // first culture is near the third particle and is opened.
    let by_tree = vec![
        vec![Vec2 { x: 39321 / 2, y: 52428 / 2 }, Vec2 { x: -39321 / 2, y: -52428 / 2 }],
        expected[1].clone(),
    ];
    w.force_tensor = vec![vec![units(9, 9); 2]; 2];
    w.compute_force();
    assert_eq!(w.force_tensor, by_tree);
    assert!(!matches!(w.cultures[0].qt, QuadTree::Empty { .. }));
    // one row alone
    w.force_tensor = vec![vec![units(9, 9); 2]; 2];
    w.compute_force_tensor_slice(1);
    assert_eq!(w.force_tensor, vec![vec![units(9, 9); 2], expected[1].clone()]);
    assert_eq!(w.net_force(0, 0), by_tree[0][0]);
    assert_eq!(w.net_force_naive(0, 1), expected[0][1]);
    // what a device computed is taken as it is
    let wild = Vec2 { x: i64::MAX, y: i64::MIN };
    w.compute_force_naive_gpu(&vec![units(1, 2), units(3, 4), units(5, 6), wild]);
    assert_eq!(
        w.force_tensor,
        vec![vec![units(1, 2), units(3, 4)], vec![units(5, 6), Vec2 { x: LIMIT, y: -LIMIT }]]
    );
}

#[test]
fn a_step_takes_up_both_forces() {
    let mut conf = small(1, 2);
    conf.aoe2 = 100 * ONE;
    conf.damping = ONE;
    conf.cursor_aoe2 = 100 * ONE;
    conf.cursor_force = 2 * ONE;
    conf.is_interactive = true;
    let particles = vec![vec![Particle::at(units(100, 100)), Particle::at(units(104, 100))]];
    let mut w = World::with_particles(conf, vec![vec![ONE]], vec![white()], particles).unwrap();
    let mouse = Mouse { button: MouseButton::RightDown, pos: units(100, 103) };
    w.step(ONE / 2, &mouse);
    assert_eq!(w.force_tensor, vec![vec![units(1, 0), units(-1, 0)]]);
    assert_eq!(
        w.cursor_force_tensor,
        vec![vec![units(0, 2), Vec2 { x: -8 * ONE / 5, y: 6 * ONE / 5 }]]
    );
    let p = w.cultures[0].particles[0];
    assert_eq!(p.vel, units(1, 2));
    assert_eq!(p.pos, Vec2 { x: 100 * ONE + ONE / 2, y: 101 * ONE });
    assert_eq!(w.i, 1);
    // a world that is not interactive leaves the pointer alone
    let mut conf = small(1, 1);
    conf.is_interactive = false;
    let alone = vec![vec![Particle::at(units(100, 100))]];
    let mut still = World::with_particles(conf, vec![vec![ONE]], vec![white()], alone).unwrap();
    still.step(ONE, &mouse);
    assert_eq!(still.cultures[0].particles[0], Particle::at(units(100, 100)));
    // with the pairwise way of computing, the same forces
    let mut conf = small(1, 2);
    conf.aoe2 = 100 * ONE;
    conf.damping = ONE;
    conf.gpu = true;
    conf.is_interactive = false;
    let particles = vec![vec![Particle::at(units(100, 100)), Particle::at(units(104, 100))]];
    let mut g = World::with_particles(conf, vec![vec![ONE]], vec![white()], particles).unwrap();
    g.step(i64::MAX, &mouse);
    assert_eq!(g.force_tensor, vec![vec![units(1, 0), units(-1, 0)]]);
    assert_eq!(g.cultures[0].particles[0].vel, units(1, 0));
    assert_eq!(g.cultures[0].particles[0].pos, Vec2 { x: LIMIT, y: 100 * ONE });
}

#[test]
fn ticks_are_owed_by_the_frame() {
    assert_eq!(Accumulator::new(0, 10), None);
    let mut a = Accumulator::new(10, 35).unwrap();
    assert_eq!(a.advance(4), 0);
    assert_eq!(a.owed, 4);
    assert_eq!(a.advance(7), 1);
    assert_eq!(a.owed, 1);
    assert_eq!(a.advance(29), 3);
    assert_eq!(a.owed, 0);
    // what passes beyond the cap is forgotten
    assert_eq!(a.advance(u64::MAX), 3);
    assert_eq!(a.owed, 5);
    assert_eq!(a.advance(0), 0);
    assert_eq!(a.owed, 5);
}

#[test]
fn forces_are_computed_anew_for_one_culture_in_each_rolling_tick() {
    let mut conf = small(2, 1);
    conf.aoe2 = 100 * ONE;
    conf.damping = ONE;
    conf.is_interactive = false;
    let particles = vec![vec![Particle::at(units(100, 100))], vec![Particle::at(units(104, 100))]];
    let mesh = vec![vec![0, 2 * ONE], vec![-2 * ONE, 0]];
    let mut w = World::with_particles(conf, mesh, vec![white(); 2], particles).unwrap();
    let idle = Mouse { button: MouseButton::Released, pos: units(0, 0) };
    // first the forces on the first culture only
    w.step_rolling(ONE / 2, &idle);
    assert_eq!(w.force_tensor, vec![vec![units(1, 0)], vec![units(0, 0)]]);
    let moved = Vec2 { x: 100 * ONE + ONE / 2, y: 100 * ONE };
    assert_eq!(w.cultures[0].particles[0], Particle { pos: moved, vel: units(1, 0) });
    assert_eq!(w.cultures[1].particles[0], Particle::at(units(104, 100)));
    assert_eq!(w.i, 1);
    // then those on the second, while the first keeps its old force
    w.step_rolling(ONE / 2, &idle);
    assert_eq!(w.force_tensor, vec![vec![units(1, 0)], vec![units(1, 0)]]);
    assert_eq!(w.cultures[0].particles[0].vel, units(2, 0));
    assert_eq!(w.cultures[1].particles[0].vel, units(1, 0));
    assert_eq!(w.i, 2);
}

#[test]
fn a_world_knows_whether_it_is_well_formed() {
    let mut w = World::new(small(2, 3)).unwrap();
    assert!(w.is_well_formed());
    w.step(ONE, &Mouse { button: MouseButton::LeftDown, pos: units(10, 10) });
    assert!(w.is_well_formed());
    w.gravity_mesh[1].push(0);
    assert!(!w.is_well_formed());
    w.gravity_mesh[1].pop();
    assert!(w.is_well_formed());
    w.gravity_mesh[0][1] = LIMIT + 1;
    assert!(!w.is_well_formed());
    w.gravity_mesh[0][1] = LIMIT;
    w.cultures[0].particles.pop();
    assert!(!w.is_well_formed());
    w.cultures[0].particles.push(Particle::at(Vec2 { x: 0, y: -LIMIT - 1 }));
    assert!(!w.is_well_formed());
    w.cultures[0].particles[2] = Particle::at(Vec2 { x: 0, y: -LIMIT });
    assert!(w.is_well_formed());
    w.force_tensor[1][2].x = i64::MIN;
    assert!(!w.is_well_formed());
    w.force_tensor[1][2].x = 0;
    w.cursor_force_tensor.pop();
    assert!(!w.is_well_formed());
    w.cursor_force_tensor.push(vec![units(0, 0); 3]);
    assert!(w.is_well_formed());
    w.conf.culture_size = 0;
    assert!(!w.is_well_formed());
    w.conf.culture_size = 3;
    w.cultures.pop();
    assert!(!w.is_well_formed());
}

#[test]
fn particles_are_made_of_what_was_drawn() {
    assert_eq!(whole_units(0), 0);
    assert_eq!(whole_units(3), 3 * ONE);
    assert_eq!(whole_units(u32::MAX), (u32::MAX as i64) * ONE);
    assert_eq!(
        Particle::at(units(7, 9)),
        Particle { pos: units(7, 9), vel: Vec2 { x: 0, y: 0 } }
    );
    let g = GpuParticle::moving(Vec2 { x: 5, y: 6 }, Vec2 { x: -7, y: 8 });
    assert_eq!(g, GpuParticle { pos: Vec2 { x: 5, y: 6 }, vel: Vec2 { x: -7, y: 8 } });
}
