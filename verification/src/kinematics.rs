//! The integrator: frame-rate-independent exponential velocity decay, the
//! velocity update from an accumulated acceleration, and the wrap-around
//! position step that teleports a particle leaving the domain to the
//! opposite edge before its velocity is applied.

use vstd::prelude::*;
use vstd::arithmetic::power2::pow2;
use crate::geom::Velocity;
use crate::particle::Particle;
use crate::math::{spec_abs, spec_mul_div, mul_div, lemma_mul_div_range, lemma_div_twice};
use crate::units::{SCALE, HALF_LIFE, TIME_LIMIT, VEL_LIMIT, VEL_WORK_LIMIT, ACCEL_LIMIT,
    COORD_LIMIT, SIZE_LIMIT, RADIUS_LIMIT, POS_WORK_LIMIT};

verus! {

/// The decay factor `0.5 ^ (t / HALF_LIFE)` in fixed point: the exponent
/// `x = t / HALF_LIFE` is split into its integer part `k` and fractional
/// part `f`, the fractional factor is interpolated linearly between 1 and
/// one half, and the result is halved `k` more times.
pub open spec fn spec_decay(t: int) -> int
    recommends
        0 <= t,
{
    let x = t * SCALE / (HALF_LIFE as int);
    let k = x / (SCALE as int);
    let f = x % (SCALE as int);
    (SCALE - f / 2) / (pow2(k as nat) as int)
}

/// The decay factor always lies in `[0, SCALE]`: velocity magnitude never
/// grows through decay.
pub proof fn lemma_decay_bounds(t: int)
    requires
        0 <= t,
    ensures
        0 <= spec_decay(t) <= SCALE,
{
    let x = t * SCALE / (HALF_LIFE as int);
    vstd::arithmetic::mul::lemma_mul_nonnegative(t, SCALE as int);
    vstd::arithmetic::div_mod::lemma_div_pos_is_pos(t * SCALE, HALF_LIFE as int);
    let k = x / (SCALE as int);
    let f = x % (SCALE as int);
    vstd::arithmetic::div_mod::lemma_div_pos_is_pos(x, SCALE as int);
    let base = SCALE - f / 2;
    vstd::arithmetic::power2::lemma_pow2_pos(k as nat);
    vstd::arithmetic::div_mod::lemma_div_pos_is_pos(base, pow2(k as nat) as int);
    vstd::arithmetic::div_mod::lemma_div_is_ordered_by_denominator(base, 1, pow2(k as nat) as int);
    vstd::arithmetic::div_mod::lemma_div_basics(base);
}

/// Computes the decay factor for a frame time.
pub fn decay_factor(t: i64) -> (r: i64)
    requires
        0 <= t <= TIME_LIMIT,
    ensures
        r as int == spec_decay(t as int),
        0 <= r <= SCALE,
{
    let x = t * SCALE / HALF_LIFE;
    let k = x / SCALE;
    let f = x % SCALE;
    let base = SCALE - f / 2;
    proof {
        lemma_decay_bounds(t as int);
        vstd::arithmetic::power2::lemma2_to64();
        vstd::arithmetic::div_mod::lemma_div_basics_2(base as int);
    }
    let mut result = base;
    let mut i: i64 = 0;
    while i < k
        invariant
            0 <= i <= k,
            0 < base <= SCALE,
            result as int == base as int / (pow2(i as nat) as int),
            0 <= result <= base,
        decreases k - i,
    {
        proof {
            vstd::arithmetic::power2::lemma_pow2_pos(i as nat);
            vstd::arithmetic::power2::lemma_pow2_pos((i + 1) as nat);
            vstd::arithmetic::power2::lemma_pow2_unfold((i + 1) as nat);
            lemma_div_twice(base as int, pow2(i as nat) as int, 2);
            vstd::arithmetic::mul::lemma_mul_is_commutative(pow2(i as nat) as int, 2);
            vstd::arithmetic::div_mod::lemma_div_is_ordered_by_denominator(
                base as int,
                pow2(i as nat) as int,
                pow2((i + 1) as nat) as int,
            );
            vstd::arithmetic::div_mod::lemma_div_pos_is_pos(base as int, pow2((i + 1) as nat) as int);
        }
        result = result / 2;
        i = i + 1;
    }
    result
}

/// Velocity decay stability: a zero frame time decays nothing — the
/// factor is exactly one — and a frame time of one half-life decays the
/// velocity to exactly one half.
pub proof fn lemma_decay_boundary_values()
    ensures
        spec_decay(0) == SCALE,
        spec_decay(HALF_LIFE as int) == SCALE / 2,
{
    vstd::arithmetic::power2::lemma2_to64();
    vstd::arithmetic::div_mod::lemma_div_basics_2(SCALE as int);
    assert(0 * SCALE / (HALF_LIFE as int) == 0);
    assert(HALF_LIFE * SCALE == 20_000_000_000);
    assert(20_000_000_000int / (HALF_LIFE as int) == SCALE);
}

/// The new velocity of one axis: the old velocity scaled by the decay
/// factor, plus the acceleration integrated over the frame time.
pub open spec fn spec_new_velocity(v: int, accel: int, t: int) -> int {
    spec_mul_div(v, spec_decay(t), SCALE as int) + spec_mul_div(accel, t, SCALE as int)
}

/// Applies exponential decay and an accumulated acceleration to a
/// velocity over one frame.
pub fn update_velocity(velocity: &mut Velocity, accel_x: i64, accel_y: i64, t: i64)
    requires
        0 <= t <= TIME_LIMIT,
        -VEL_LIMIT <= old(velocity).x <= VEL_LIMIT,
        -VEL_LIMIT <= old(velocity).y <= VEL_LIMIT,
        -ACCEL_LIMIT <= accel_x <= ACCEL_LIMIT,
        -ACCEL_LIMIT <= accel_y <= ACCEL_LIMIT,
    ensures
        final(velocity).x as int == spec_new_velocity(old(velocity).x as int, accel_x as int, t as int),
        final(velocity).y as int == spec_new_velocity(old(velocity).y as int, accel_y as int, t as int),
        -VEL_WORK_LIMIT <= final(velocity).x <= VEL_WORK_LIMIT,
        -VEL_WORK_LIMIT <= final(velocity).y <= VEL_WORK_LIMIT,
{
    let decay = decay_factor(t);
    proof {
        lemma_mul_div_range(old(velocity).x as int, decay as int, SCALE as int, VEL_LIMIT as int, SCALE as int);
        lemma_mul_div_range(old(velocity).y as int, decay as int, SCALE as int, VEL_LIMIT as int, SCALE as int);
        lemma_mul_div_range(accel_x as int, t as int, SCALE as int, ACCEL_LIMIT as int, TIME_LIMIT as int);
        lemma_mul_div_range(accel_y as int, t as int, SCALE as int, ACCEL_LIMIT as int, TIME_LIMIT as int);
    }
    let dvx = mul_div(velocity.x, decay, SCALE);
    let dvy = mul_div(velocity.y, decay, SCALE);
    let ax = mul_div(accel_x, t, SCALE);
    let ay = mul_div(accel_y, t, SCALE);
    velocity.x = dvx + ax;
    velocity.y = dvy + ay;
}

/// The wrap-around rule of one axis, evaluated against the current
/// position: a particle wholly past the far edge reappears just outside
/// the near edge, and vice versa.
pub open spec fn spec_wrap(pos: int, radius: int, limit: int) -> int {
    if pos - radius > limit {
        0 - radius
    } else if pos + radius < 0 {
        limit + radius
    } else {
        pos
    }
}

/// One position axis after a frame: wrap first, then advance by the
/// velocity integrated over the frame time.
pub open spec fn spec_move_axis(pos: int, vel: int, t: int, radius: int, limit: int) -> int {
    spec_wrap(pos, radius, limit) + spec_mul_div(vel, t, SCALE as int)
}

/// Advances a particle's position by one frame under wrap-around
/// kinematics: the wrap is evaluated against the current position, not
/// the post-update one, so a crossing particle reappears at the mirrored
/// edge on the same step. Velocity and colour are untouched.
pub fn move_particle(particle: &mut Particle, t: i64, width: i64, height: i64, radius: i64)
    requires
        0 <= t <= TIME_LIMIT,
        0 <= width <= SIZE_LIMIT,
        0 <= height <= SIZE_LIMIT,
        0 <= radius <= RADIUS_LIMIT,
        -COORD_LIMIT <= old(particle).position.x <= COORD_LIMIT,
        -COORD_LIMIT <= old(particle).position.y <= COORD_LIMIT,
        -VEL_WORK_LIMIT <= old(particle).velocity.x <= VEL_WORK_LIMIT,
        -VEL_WORK_LIMIT <= old(particle).velocity.y <= VEL_WORK_LIMIT,
    ensures
        final(particle).position.x as int == spec_move_axis(
            old(particle).position.x as int,
            old(particle).velocity.x as int,
            t as int,
            radius as int,
            width as int,
        ),
        final(particle).position.y as int == spec_move_axis(
            old(particle).position.y as int,
            old(particle).velocity.y as int,
            t as int,
            radius as int,
            height as int,
        ),
        final(particle).velocity == old(particle).velocity,
        final(particle).color == old(particle).color,
        -POS_WORK_LIMIT <= final(particle).position.x <= POS_WORK_LIMIT,
        -POS_WORK_LIMIT <= final(particle).position.y <= POS_WORK_LIMIT,
{
    if particle.position.x - radius > width {
        particle.position.x = 0 - radius;
    }
    if particle.position.x + radius < 0 {
        particle.position.x = width + radius;
    }
    if particle.position.y - radius > height {
        particle.position.y = 0 - radius;
    }
    if particle.position.y + radius < 0 {
        particle.position.y = height + radius;
    }
    proof {
        lemma_mul_div_range(
            old(particle).velocity.x as int,
            t as int,
            SCALE as int,
            VEL_WORK_LIMIT as int,
            TIME_LIMIT as int,
        );
        lemma_mul_div_range(
            old(particle).velocity.y as int,
            t as int,
            SCALE as int,
            VEL_WORK_LIMIT as int,
            TIME_LIMIT as int,
        );
    }
    let dx = mul_div(particle.velocity.x, t, SCALE);
    let dy = mul_div(particle.velocity.y, t, SCALE);
    particle.position.x = particle.position.x + dx;
    particle.position.y = particle.position.y + dy;
}

/// One axis under the alternate gravity policy, before any bounce: the
/// position advances by `v t + g t^2 / 2` and the velocity by `g t`.
pub open spec fn spec_gravity_free(pos: int, vel: int, t: int, gravity: int) -> (int, int) {
    let gt = spec_mul_div(gravity, t, SCALE as int);
    let pos2 = pos + spec_mul_div(vel, t, SCALE as int) + spec_mul_div(gt, t, 2 * SCALE as int);
    (pos2, vel + gt)
}

/// One axis under the alternate gravity policy with its floor bounce: if
/// the free step would carry the body past the floor (accounting for its
/// radius), the position is clamped onto the floor, the velocity is
/// reflected and scaled by the restitution factor, and a reflected speed
/// below the given threshold is zeroed to stop infinite micro-bouncing.
pub open spec fn spec_gravity_bounce(
    pos: int,
    vel: int,
    t: int,
    gravity: int,
    floor: int,
    radius: int,
    restitution: int,
    min_speed: int,
) -> (int, int) {
    let free = spec_gravity_free(pos, vel, t, gravity);
    if free.0 + radius > floor {
        let reflected = -spec_mul_div(free.1, restitution, SCALE as int);
        let vel2 = if -min_speed < reflected < min_speed {
            0
        } else {
            reflected
        };
        (floor - radius, vel2)
    } else {
        free
    }
}

/// Advances one axis of a body under direct gravity integration with a
/// floor bounce — the alternate kinematics policy to the wrap-around
/// rule. Returns the new position and velocity of the axis.
pub fn gravity_bounce_axis(
    pos: i64,
    vel: i64,
    t: i64,
    gravity: i64,
    floor: i64,
    radius: i64,
    restitution: i64,
    min_speed: i64,
) -> (r: (i64, i64))
    requires
        0 <= t <= TIME_LIMIT,
        -COORD_LIMIT <= pos <= COORD_LIMIT,
        -VEL_LIMIT <= vel <= VEL_LIMIT,
        -ACCEL_LIMIT <= gravity <= ACCEL_LIMIT,
        0 <= floor <= SIZE_LIMIT,
        0 <= radius <= RADIUS_LIMIT,
        0 <= restitution <= SCALE,
        0 <= min_speed,
    ensures
        r.0 as int == spec_gravity_bounce(pos as int, vel as int, t as int, gravity as int,
            floor as int, radius as int, restitution as int, min_speed as int).0,
        r.1 as int == spec_gravity_bounce(pos as int, vel as int, t as int, gravity as int,
            floor as int, radius as int, restitution as int, min_speed as int).1,
        -POS_WORK_LIMIT <= r.0 <= POS_WORK_LIMIT,
        -VEL_WORK_LIMIT <= r.1 <= VEL_WORK_LIMIT,
{
    proof {
        lemma_mul_div_range(vel as int, t as int, SCALE as int, VEL_LIMIT as int, TIME_LIMIT as int);
        lemma_mul_div_range(gravity as int, t as int, SCALE as int, ACCEL_LIMIT as int,
            TIME_LIMIT as int);
    }
    let vt = mul_div(vel, t, SCALE);
    let gt = mul_div(gravity, t, SCALE);
    proof {
        lemma_mul_div_range(gt as int, t as int, 2 * SCALE as int,
            ACCEL_LIMIT * TIME_LIMIT / (SCALE as int), TIME_LIMIT as int);
    }
    let half_gtt = mul_div(gt, t, 2 * SCALE);
    let pos2 = pos + vt + half_gtt;
    let vel2 = vel + gt;
    if pos2 + radius > floor {
        proof {
            lemma_mul_div_range(vel2 as int, restitution as int, SCALE as int,
                VEL_LIMIT + ACCEL_LIMIT * TIME_LIMIT / (SCALE as int), SCALE as int);
        }
        let reflected = -mul_div(vel2, restitution, SCALE);
        let vel3 = if -min_speed < reflected && reflected < min_speed {
            0
        } else {
            reflected
        };
        (floor - radius, vel3)
    } else {
        (pos2, vel2)
    }
}

/// Advances a particle under the gravity policy: plain integration on the
/// horizontal axis, gravity and the floor bounce on the vertical one.
pub fn step_gravity(
    particle: &mut Particle,
    t: i64,
    gravity: i64,
    floor: i64,
    radius: i64,
    restitution: i64,
    min_speed: i64,
)
    requires
        0 <= t <= TIME_LIMIT,
        -COORD_LIMIT <= old(particle).position.x <= COORD_LIMIT,
        -COORD_LIMIT <= old(particle).position.y <= COORD_LIMIT,
        -VEL_LIMIT <= old(particle).velocity.x <= VEL_LIMIT,
        -VEL_LIMIT <= old(particle).velocity.y <= VEL_LIMIT,
        -ACCEL_LIMIT <= gravity <= ACCEL_LIMIT,
        0 <= floor <= SIZE_LIMIT,
        0 <= radius <= RADIUS_LIMIT,
        0 <= restitution <= SCALE,
        0 <= min_speed,
    ensures
        final(particle).position.x as int == old(particle).position.x + spec_mul_div(
            old(particle).velocity.x as int,
            t as int,
            SCALE as int,
        ),
        final(particle).velocity.x == old(particle).velocity.x,
        final(particle).position.y as int == spec_gravity_bounce(
            old(particle).position.y as int,
            old(particle).velocity.y as int,
            t as int,
            gravity as int,
            floor as int,
            radius as int,
            restitution as int,
            min_speed as int,
        ).0,
        final(particle).velocity.y as int == spec_gravity_bounce(
            old(particle).position.y as int,
            old(particle).velocity.y as int,
            t as int,
            gravity as int,
            floor as int,
            radius as int,
            restitution as int,
            min_speed as int,
        ).1,
        final(particle).color == old(particle).color,
{
    proof {
        lemma_mul_div_range(old(particle).velocity.x as int, t as int, SCALE as int,
            VEL_LIMIT as int, TIME_LIMIT as int);
    }
    let dx = mul_div(particle.velocity.x, t, SCALE);
    particle.position.x = particle.position.x + dx;
    let (ny, nvy) = gravity_bounce_axis(
        particle.position.y,
        particle.velocity.y,
        t,
        gravity,
        floor,
        radius,
        restitution,
        min_speed,
    );
    particle.position.y = ny;
    particle.velocity.y = nvy;
}

} // verus!
