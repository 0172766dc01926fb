use particle_life::force::{colour_attraction_factor_matrix, red_to_red};
use particle_life::geom::{Boundary, Position, Velocity};
use particle_life::particle::{ColorTag, Particle};
use particle_life::quadtree::QuadTree;
use particle_life::sim::{accumulate_force, rebuild_index, step_frame};
use particle_life::units::SCALE;

fn still_particle(x: i64, y: i64, color: ColorTag) -> Particle {
    Particle::new(Position { x, y }, color, Velocity { x: 0, y: 0 })
}

#[test]
fn single_centered_particle_does_not_drift() {
    // a 100 x 100 world-unit domain, one particle at its exact center,
    // zero velocity, all attraction factors zero
    let width = 100 * SCALE;
    let height = 100 * SCALE;
    let mut tree = QuadTree::new(Boundary { x: 0, y: 0, width, height }, 8);
    let matrix = colour_attraction_factor_matrix();
    let center = still_particle(width / 2, height / 2, ColorTag::Red);
    let mut particles = vec![center];
    step_frame(&mut particles, &matrix, &mut tree, 16_000, 100 * SCALE, 2 * SCALE, width, height);
    assert_eq!(particles.len(), 1);
    assert_eq!(particles[0], center);
}

#[test]
fn attracting_pair_at_half_threshold_feels_the_kernel_force() {
    // two red particles 50 world units apart with threshold 100 and
    // red-to-red attraction 1.0: normalized distance 0.5
    let mut matrix = colour_attraction_factor_matrix();
    red_to_red(&mut matrix);
    let threshold = 100 * SCALE;
    let p = still_particle(0, 0, ColorTag::Red);
    let q = still_particle(50 * SCALE, 0, ColorTag::Red);
    let neighbors = vec![q];
    let (fx, fy) = accumulate_force(&p, &neighbors, &matrix, threshold);
    // closed form: 1 - |2 * 0.5 - 0.3 - 1| / 0.7 = 1 - 0.3 / 0.7, in
    // fixed point 1_000_000 - 300_000 * 1_000_000 / 700_000 = 571_429
    assert!(fx > 0);
    assert_eq!(fx, 571_429);
    assert_eq!(fy, 0);
    // the same pair seen from the other side pulls the other way
    let (gx, gy) = accumulate_force(&q, &vec![p], &matrix, threshold);
    assert_eq!(gx, -571_429);
    assert_eq!(gy, 0);
}

#[test]
fn sequential_update_lets_later_particles_see_earlier_moves() {
    // the first particle of the frame sees an empty index and stays
    // still; the second sees the first and is pulled toward it
    let width = 1000 * SCALE;
    let mut tree = QuadTree::new(Boundary { x: 0, y: 0, width, height: width }, 8);
    let mut matrix = colour_attraction_factor_matrix();
    red_to_red(&mut matrix);
    let a = still_particle(100 * SCALE, 500 * SCALE, ColorTag::Red);
    let b = still_particle(150 * SCALE, 500 * SCALE, ColorTag::Red);
    let mut particles = vec![a, b];
    step_frame(&mut particles, &matrix, &mut tree, 16_000, 100 * SCALE, 2 * SCALE, width, width);
    assert_eq!(particles[0], a);
    assert!(particles[1].velocity.x < 0);
    assert_eq!(particles[1].velocity.y, 0);
    assert!(particles[1].position.x < b.position.x);
}

#[test]
fn coincident_particles_contribute_no_force() {
    // the degenerate-distance guard: a neighbour at the same position
    // contributes nothing instead of dividing by a near-zero norm
    let mut matrix = colour_attraction_factor_matrix();
    red_to_red(&mut matrix);
    let p = still_particle(10 * SCALE, 10 * SCALE, ColorTag::Red);
    let q = still_particle(10 * SCALE, 10 * SCALE, ColorTag::Red);
    let (fx, fy) = accumulate_force(&p, &vec![q], &matrix, 100 * SCALE);
    assert_eq!((fx, fy), (0, 0));
}

#[test]
fn repelling_close_pair_pushes_apart() {
    // 10 world units apart with threshold 100: normalized distance 0.1,
    // inside the universal repulsion core
    let matrix = colour_attraction_factor_matrix();
    let p = still_particle(0, 0, ColorTag::Red);
    let q = still_particle(10 * SCALE, 0, ColorTag::Red);
    let (fx, fy) = accumulate_force(&p, &vec![q], &matrix, 100 * SCALE);
    // r / BETA - 1 = 0.1 / 0.3 - 1, in fixed point 333_333 - 1_000_000
    assert_eq!(fx, -666_667);
    assert_eq!(fy, 0);
}

#[test]
fn frame_keeps_the_particle_count() {
    let width = 500 * SCALE;
    let mut tree = QuadTree::new(Boundary { x: 0, y: 0, width, height: width }, 4);
    let mut matrix = colour_attraction_factor_matrix();
    red_to_red(&mut matrix);
    let mut particles = Vec::new();
    for i in 0..20i64 {
        particles.push(Particle::new(
            Position { x: (i * 23 % 500) * SCALE, y: (i * 41 % 500) * SCALE },
            if i % 2 == 0 { ColorTag::Red } else { ColorTag::Green },
            Velocity { x: (i % 7 - 3) * SCALE, y: (i % 5 - 2) * SCALE },
        ));
    }
    step_frame(&mut particles, &matrix, &mut tree, 16_000, 100 * SCALE, 2 * SCALE, width, width);
    assert_eq!(particles.len(), 20);
}

#[test]
fn rebuild_indexes_exactly_the_in_boundary_particles() {
    let width = 100 * SCALE;
    let boundary = Boundary { x: 0, y: 0, width, height: width };
    let mut tree = QuadTree::new(boundary, 4);
    let inside = still_particle(10 * SCALE, 10 * SCALE, ColorTag::Red);
    let outside = still_particle(200 * SCALE, 10 * SCALE, ColorTag::Green);
    let particles = vec![inside, outside, inside];
    rebuild_index(&mut tree, &particles);
    let found = tree.query(&boundary);
    assert_eq!(found.len(), 2);
    assert!(found.iter().all(|p| *p == inside));
    // a later rebuild replaces the previous contents entirely
    rebuild_index(&mut tree, &vec![outside]);
    assert_eq!(tree.query(&boundary).len(), 0);
}
