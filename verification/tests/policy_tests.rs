use particle_life::force::{colour_attraction_factor_matrix, red_to_red};
use particle_life::geom::{Boundary, Position, Velocity};
use particle_life::kinematics::{gravity_bounce_axis, step_gravity};
use particle_life::particle::{ColorTag, Particle};
use particle_life::quadtree::QuadTree;
use particle_life::sim::{run_frame, step_frame, step_frame_simultaneous, UpdateOrder};
use particle_life::units::SCALE;

#[test]
fn free_fall_gains_half_g_t_squared() {
    // one second of gravity 10 from rest: position gains 5, velocity 10
    let (pos, vel) = gravity_bounce_axis(0, 0, SCALE, 10 * SCALE, 100 * SCALE, 0, SCALE / 2, 0);
    assert_eq!(pos, 5 * SCALE);
    assert_eq!(vel, 10 * SCALE);
}

#[test]
fn floor_bounce_reflects_and_dampens() {
    // a body one unit above the floor moving down fast enough to cross it
    let floor = 100 * SCALE;
    let radius = 2 * SCALE;
    let (pos, vel) = gravity_bounce_axis(
        99 * SCALE,
        10 * SCALE,
        SCALE / 10,
        0,
        floor,
        radius,
        SCALE / 2,
        0,
    );
    assert_eq!(pos, floor - radius);
    assert_eq!(vel, -5 * SCALE);
}

#[test]
fn slow_bounce_comes_to_rest() {
    // the reflected speed falls below the minimum and is zeroed
    let floor = 100 * SCALE;
    let (pos, vel) = gravity_bounce_axis(
        100 * SCALE,
        10_000,
        SCALE / 10,
        0,
        floor,
        0,
        SCALE / 2,
        10_000,
    );
    assert_eq!(pos, floor);
    assert_eq!(vel, 0);
}

#[test]
fn gravity_step_leaves_the_horizontal_axis_plain() {
    let mut p = Particle::new(
        Position { x: 10 * SCALE, y: 0 },
        ColorTag::Blue,
        Velocity { x: 2 * SCALE, y: 0 },
    );
    step_gravity(&mut p, SCALE, 10 * SCALE, 100 * SCALE, 0, SCALE / 2, 0);
    assert_eq!(p.position, Position { x: 12 * SCALE, y: 5 * SCALE });
    assert_eq!(p.velocity, Velocity { x: 2 * SCALE, y: 10 * SCALE });
}

fn attracting_pair() -> (Vec<Particle>, QuadTree, particle_life::force::AttractionMatrix) {
    let width = 1000 * SCALE;
    let tree = QuadTree::new(Boundary { x: 0, y: 0, width, height: width }, 8);
    let mut matrix = colour_attraction_factor_matrix();
    red_to_red(&mut matrix);
    let a = Particle::new(
        Position { x: 100 * SCALE, y: 500 * SCALE },
        ColorTag::Red,
        Velocity { x: 0, y: 0 },
    );
    let b = Particle::new(
        Position { x: 150 * SCALE, y: 500 * SCALE },
        ColorTag::Red,
        Velocity { x: 0, y: 0 },
    );
    (vec![a, b], tree, matrix)
}

#[test]
fn simultaneous_update_moves_both_of_a_pair() {
    // under the simultaneous order both particles see the same starting
    // snapshot, so an attracting pair moves symmetrically
    let (mut particles, mut tree, matrix) = attracting_pair();
    let (a, b) = (particles[0], particles[1]);
    let width = tree.boundary.width;
    step_frame_simultaneous(
        &mut particles, &matrix, &mut tree, 16_000, 100 * SCALE, 2 * SCALE, width, width,
    );
    assert!(particles[0].velocity.x > 0);
    assert!(particles[1].velocity.x < 0);
    assert_eq!(particles[0].velocity.x, -particles[1].velocity.x);
    assert_eq!(
        particles[0].position.x - a.position.x,
        b.position.x - particles[1].position.x,
    );
}

#[test]
fn sequential_update_moves_only_the_later_particle() {
    let (mut particles, mut tree, matrix) = attracting_pair();
    let a = particles[0];
    let width = tree.boundary.width;
    step_frame(&mut particles, &matrix, &mut tree, 16_000, 100 * SCALE, 2 * SCALE, width, width);
    assert_eq!(particles[0], a);
    assert!(particles[1].velocity.x < 0);
}

#[test]
fn simultaneous_update_has_no_self_force() {
    // the particle finds itself in the snapshot at distance zero, and the
    // degenerate-distance guard keeps it still
    let width = 100 * SCALE;
    let mut tree = QuadTree::new(Boundary { x: 0, y: 0, width, height: width }, 8);
    let matrix = colour_attraction_factor_matrix();
    let center = Particle::new(
        Position { x: width / 2, y: width / 2 },
        ColorTag::Red,
        Velocity { x: 0, y: 0 },
    );
    let mut particles = vec![center];
    step_frame_simultaneous(
        &mut particles, &matrix, &mut tree, 16_000, 100 * SCALE, 2 * SCALE, width, width,
    );
    assert_eq!(particles[0], center);
}

#[test]
fn run_frame_dispatches_on_the_update_order() {
    let (mut seq_direct, mut tree1, matrix) = attracting_pair();
    let width = tree1.boundary.width;
    step_frame(&mut seq_direct, &matrix, &mut tree1, 16_000, 100 * SCALE, 2 * SCALE, width, width);

    let (mut seq_via, mut tree2, _) = attracting_pair();
    run_frame(
        UpdateOrder::Sequential,
        &mut seq_via, &matrix, &mut tree2, 16_000, 100 * SCALE, 2 * SCALE, width, width,
    );
    assert_eq!(seq_direct, seq_via);

    let (mut sim_direct, mut tree3, _) = attracting_pair();
    step_frame_simultaneous(
        &mut sim_direct, &matrix, &mut tree3, 16_000, 100 * SCALE, 2 * SCALE, width, width,
    );
    let (mut sim_via, mut tree4, _) = attracting_pair();
    run_frame(
        UpdateOrder::Simultaneous,
        &mut sim_via, &matrix, &mut tree4, 16_000, 100 * SCALE, 2 * SCALE, width, width,
    );
    assert_eq!(sim_direct, sim_via);
    assert_ne!(seq_direct, sim_direct);
}
