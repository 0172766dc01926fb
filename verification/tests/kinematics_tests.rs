use particle_life::geom::{Position, Velocity};
use particle_life::kinematics::{decay_factor, move_particle, update_velocity};
use particle_life::math::{isqrt, mul_div, mul_div_ss};
use particle_life::particle::{ColorTag, Particle};
use particle_life::units::{HALF_LIFE, SCALE};

#[test]
fn decay_is_one_for_a_zero_frame_time() {
    assert_eq!(decay_factor(0), SCALE);
}

#[test]
fn decay_is_half_after_one_half_life() {
    assert_eq!(decay_factor(HALF_LIFE), SCALE / 2);
}

#[test]
fn decay_is_a_quarter_after_two_half_lives() {
    assert_eq!(decay_factor(2 * HALF_LIFE), SCALE / 4);
}

#[test]
fn decay_interpolates_within_a_half_life() {
    // half a half-life: the fractional factor is 1 - 0.5 / 2 = 0.75
    assert_eq!(decay_factor(HALF_LIFE / 2), 750_000);
}

#[test]
fn decay_never_grows_a_velocity() {
    let mut t = 0;
    let mut last = SCALE;
    while t < 10 * HALF_LIFE {
        let d = decay_factor(t);
        assert!(0 <= d && d <= SCALE);
        assert!(d <= last);
        last = d;
        t += 1_000;
    }
}

#[test]
fn velocity_update_is_exact() {
    let mut v = Velocity { x: 1_000_000, y: -2_000_000 };
    // one half-life with no acceleration halves both components
    update_velocity(&mut v, 0, 0, HALF_LIFE);
    assert_eq!(v, Velocity { x: 500_000, y: -1_000_000 });
    // zero frame time with acceleration changes nothing
    update_velocity(&mut v, 7 * SCALE, -7 * SCALE, 0);
    assert_eq!(v, Velocity { x: 500_000, y: -1_000_000 });
    // acceleration integrates as accel * t / SCALE on top of the decay
    update_velocity(&mut v, SCALE, 2 * SCALE, HALF_LIFE);
    assert_eq!(v, Velocity { x: 250_000 + HALF_LIFE, y: -500_000 + 2 * HALF_LIFE });
}

#[test]
fn plain_move_adds_velocity_times_time() {
    let mut p = Particle::new(
        Position { x: 10 * SCALE, y: 20 * SCALE },
        ColorTag::Red,
        Velocity { x: 3 * SCALE, y: -2 * SCALE },
    );
    // a quarter of a second at (3, -2) world units per second
    move_particle(&mut p, SCALE / 4, 100 * SCALE, 100 * SCALE, 2 * SCALE);
    assert_eq!(p.position, Position { x: 10 * SCALE + 3 * SCALE / 4, y: 20 * SCALE - SCALE / 2 });
    assert_eq!(p.velocity, Velocity { x: 3 * SCALE, y: -2 * SCALE });
}

#[test]
fn crossing_the_right_edge_wraps_to_the_left_on_the_same_step() {
    let width = 100 * SCALE;
    let radius = 2 * SCALE;
    let mut p = Particle::new(
        Position { x: width + radius + 1, y: 50 * SCALE },
        ColorTag::Red,
        Velocity { x: SCALE, y: 0 },
    );
    move_particle(&mut p, SCALE / 10, width, 100 * SCALE, radius);
    // the wrap teleports to -radius first, then the velocity applies
    assert_eq!(p.position.x, -radius + SCALE / 10);
    assert_eq!(p.position.y, 50 * SCALE);
}

#[test]
fn crossing_the_left_edge_wraps_to_the_right() {
    let width = 100 * SCALE;
    let radius = 2 * SCALE;
    let mut p = Particle::new(
        Position { x: -radius - 1, y: 0 },
        ColorTag::Red,
        Velocity { x: 0, y: 0 },
    );
    move_particle(&mut p, SCALE, width, 100 * SCALE, radius);
    assert_eq!(p.position.x, width + radius);
}

#[test]
fn vertical_wrap_mirrors_both_edges() {
    let height = 80 * SCALE;
    let radius = SCALE;
    let mut below = Particle::new(
        Position { x: 0, y: height + radius + 5 },
        ColorTag::Green,
        Velocity { x: 0, y: 0 },
    );
    move_particle(&mut below, 0, 100 * SCALE, height, radius);
    assert_eq!(below.position.y, -radius);
    let mut above = Particle::new(
        Position { x: 0, y: -radius - 5 },
        ColorTag::Green,
        Velocity { x: 0, y: 0 },
    );
    move_particle(&mut above, 0, 100 * SCALE, height, radius);
    assert_eq!(above.position.y, height + radius);
}

#[test]
fn particle_on_the_edge_does_not_wrap() {
    let width = 100 * SCALE;
    let radius = 2 * SCALE;
    let mut p = Particle::new(
        Position { x: width + radius, y: 0 },
        ColorTag::Blue,
        Velocity { x: 0, y: 0 },
    );
    move_particle(&mut p, SCALE, width, width, radius);
    assert_eq!(p.position.x, width + radius);
}

#[test]
fn integer_square_root_brackets_its_argument() {
    assert_eq!(isqrt(0), 0);
    assert_eq!(isqrt(1), 1);
    assert_eq!(isqrt(2), 1);
    assert_eq!(isqrt(3), 1);
    assert_eq!(isqrt(4), 2);
    assert_eq!(isqrt(15), 3);
    assert_eq!(isqrt(16), 4);
    assert_eq!(isqrt(1_000_000_000_000), 1_000_000);
    assert_eq!(isqrt(999_999_999_999), 999_999);
    assert_eq!(isqrt(u64::MAX as u128), 4_294_967_295);
}

#[test]
fn scaled_products_truncate_toward_zero() {
    assert_eq!(mul_div(7, 3, 2), 10);
    assert_eq!(mul_div(-7, 3, 2), -10);
    assert_eq!(mul_div_ss(7, -3, 2), -10);
    assert_eq!(mul_div_ss(-7, -3, 2), 10);
    assert_eq!(mul_div(5 * SCALE, SCALE / 2, SCALE), 5 * SCALE / 2);
}
