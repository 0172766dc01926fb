//! The simulation driver: per-neighbour force contributions, their
//! accumulation over a neighbourhood, the attraction schedule, and the
//! per-frame step that rebuilds the spatial index and updates every
//! particle in store order.
//!
//! A frame updates particles sequentially: the index starts empty and each
//! updated particle is re-inserted at once, so a later particle's
//! neighbourhood already sees the earlier particles' updated positions
//! (an intentional sequential-update rule, not an artifact). A query's
//! ordering is implementation-defined, so the accumulated force is
//! specified over the *multiset* of indexed particles, which the order of
//! summation cannot affect.

use vstd::prelude::*;
use vstd::multiset::{Multiset, group_multiset_axioms};
use vstd::seq_lib::group_to_multiset_ensures;
use crate::geom::{Boundary, Position, Velocity};
use crate::particle::{Particle, ColorTag};
use crate::force::{AttractionMatrix, spec_get_force, get_force, red_to_red, green_to_red};
use crate::math::{spec_abs, spec_mul_div, spec_mul_div_ss, spec_isqrt, mul_div, mul_div_ss, isqrt,
    lemma_mul_div_range, lemma_mul_div_ss_range, lemma_isqrt_bounds};
use crate::kinematics::{spec_new_velocity, spec_move_axis, update_velocity, move_particle};
use crate::units::{SCALE, ATTRACTION_LIMIT, THRESHOLD_LIMIT, TIME_LIMIT, RADIUS_LIMIT, SIZE_LIMIT,
    COUNT_LIMIT, POS_WORK_LIMIT, VEL_LIMIT};
use crate::quadtree::{QuadTree, in_range, lemma_filter_contains_iff};

verus! {

/// The force contribution one indexed neighbour `q` makes on a particle
/// `p`: the direction unit vector from `p` to `q` in fixed point, scaled
/// by the force law at their normalized distance. Two particles closer
/// than one sub-unit (the degenerate-distance guard) contribute nothing
/// rather than a division by a near-zero norm.
pub open spec fn spec_contribution(
    p: Particle,
    q: Particle,
    m: AttractionMatrix,
    threshold: int,
) -> (int, int) {
    let dx = q.position.x - p.position.x;
    let dy = q.position.y - p.position.y;
    let dist = spec_isqrt(dx * dx + dy * dy);
    if dist == 0 {
        (0, 0)
    } else {
        let rn = dist * SCALE / threshold;
        let f = spec_get_force(rn, m.factor(p.color, q.color));
        let dir_x = spec_mul_div(dx, SCALE as int, dist);
        let dir_y = spec_mul_div(dy, SCALE as int, dist);
        (spec_mul_div_ss(f, dir_x, SCALE as int), spec_mul_div_ss(f, dir_y, SCALE as int))
    }
}

/// Each contribution component is bounded by the attraction limit: the
/// force is, and the direction factor has magnitude at most one.
pub proof fn lemma_contribution_bounded(p: Particle, q: Particle, m: AttractionMatrix, threshold: int)
    requires
        m.wf(),
        1 <= threshold,
    ensures
        spec_abs(spec_contribution(p, q, m, threshold).0) <= ATTRACTION_LIMIT,
        spec_abs(spec_contribution(p, q, m, threshold).1) <= ATTRACTION_LIMIT,
{
    let dx = q.position.x - p.position.x;
    let dy = q.position.y - p.position.y;
    let dsq = dx * dx + dy * dy;
    assert(0 <= dx * dx && 0 <= dy * dy) by (nonlinear_arith);
    let dist = spec_isqrt(dsq);
    if dist != 0 {
        lemma_isqrt_bounds(dsq);
        lemma_direction_bounds(dx as int, dy as int);
        let rn = dist * SCALE / threshold;
        vstd::arithmetic::mul::lemma_mul_nonnegative(dist, SCALE as int);
        vstd::arithmetic::div_mod::lemma_div_pos_is_pos(dist * SCALE, threshold);
        let f = spec_get_force(rn, m.factor(p.color, q.color));
        crate::force::lemma_force_bounded(rn, m.factor(p.color, q.color));
        let dir_x = spec_mul_div(dx as int, SCALE as int, dist);
        let dir_y = spec_mul_div(dy as int, SCALE as int, dist);
        lemma_mul_div_ss_range(f, dir_x, SCALE as int, ATTRACTION_LIMIT as int, SCALE as int);
        lemma_mul_div_ss_range(f, dir_y, SCALE as int, ATTRACTION_LIMIT as int, SCALE as int);
    }
}

/// The direction factors have magnitude at most `SCALE`: each coordinate
/// difference is bounded by the distance norm.
proof fn lemma_direction_bounds(dx: int, dy: int)
    requires
        spec_isqrt(dx * dx + dy * dy) >= 1,
    ensures
        spec_abs(spec_mul_div(dx, SCALE as int, spec_isqrt(dx * dx + dy * dy))) <= SCALE,
        spec_abs(spec_mul_div(dy, SCALE as int, spec_isqrt(dx * dx + dy * dy))) <= SCALE,
        spec_abs(dx) <= spec_isqrt(dx * dx + dy * dy),
        spec_abs(dy) <= spec_isqrt(dx * dx + dy * dy),
{
    let dsq = dx * dx + dy * dy;
    assert(0 <= dx * dx && 0 <= dy * dy) by (nonlinear_arith);
    lemma_isqrt_bounds(dsq);
    let dist = spec_isqrt(dsq);
    assert(spec_abs(dx) <= dist) by {
        if spec_abs(dx) > dist {
            assert((dist + 1) * (dist + 1) <= spec_abs(dx) * spec_abs(dx)) by (nonlinear_arith)
                requires 0 <= dist, dist + 1 <= spec_abs(dx);
            assert(spec_abs(dx) * spec_abs(dx) == dx * dx) by (nonlinear_arith);
            assert(dx * dx <= dsq) by (nonlinear_arith)
                requires 0 <= dy * dy, dsq == dx * dx + dy * dy;
        }
    }
    assert(spec_abs(dy) <= dist) by {
        if spec_abs(dy) > dist {
            assert((dist + 1) * (dist + 1) <= spec_abs(dy) * spec_abs(dy)) by (nonlinear_arith)
                requires 0 <= dist, dist + 1 <= spec_abs(dy);
            assert(spec_abs(dy) * spec_abs(dy) == dy * dy) by (nonlinear_arith);
            assert(dy * dy <= dsq) by (nonlinear_arith)
                requires 0 <= dx * dx, dsq == dx * dx + dy * dy;
        }
    }
    lemma_mul_div_range(dx, SCALE as int, dist, dist, SCALE as int);
    lemma_mul_div_range(dy, SCALE as int, dist, dist, SCALE as int);
    vstd::arithmetic::mul::lemma_mul_is_commutative(dist, SCALE as int);
    vstd::arithmetic::div_mod::lemma_div_multiples_vanish(SCALE as int, dist);
}

/// Computes one neighbour's force contribution.
fn contribution(p: &Particle, q: &Particle, color_matrix: &AttractionMatrix, threshold: i64) -> (c: (
    i64,
    i64,
))
    requires
        color_matrix.wf(),
        1 <= threshold <= THRESHOLD_LIMIT,
        p.in_working_limits(),
        q.in_working_limits(),
    ensures
        c.0 as int == spec_contribution(*p, *q, *color_matrix, threshold as int).0,
        c.1 as int == spec_contribution(*p, *q, *color_matrix, threshold as int).1,
        -ATTRACTION_LIMIT <= c.0 <= ATTRACTION_LIMIT,
        -ATTRACTION_LIMIT <= c.1 <= ATTRACTION_LIMIT,
{
    proof {
        lemma_contribution_bounded(*p, *q, *color_matrix, threshold as int);
    }
    let dx = q.position.x - p.position.x;
    let dy = q.position.y - p.position.y;
    proof {
        assert(spec_abs(dx as int) <= 2 * POS_WORK_LIMIT);
        assert(spec_abs(dy as int) <= 2 * POS_WORK_LIMIT);
        assert((dx as int) * (dx as int) <= (2 * POS_WORK_LIMIT as int) * (2 * POS_WORK_LIMIT as int)
            && 0 <= (dx as int) * (dx as int)) by (nonlinear_arith)
            requires spec_abs(dx as int) <= 2 * POS_WORK_LIMIT;
        assert((dy as int) * (dy as int) <= (2 * POS_WORK_LIMIT as int) * (2 * POS_WORK_LIMIT as int)
            && 0 <= (dy as int) * (dy as int)) by (nonlinear_arith)
            requires spec_abs(dy as int) <= 2 * POS_WORK_LIMIT;
    }
    let dsq: i128 = (dx as i128) * (dx as i128) + (dy as i128) * (dy as i128);
    let dist_w = isqrt(dsq as u128);
    proof {
        lemma_isqrt_bounds(dsq as int);
        let s = spec_isqrt(dsq as int);
        assert(s * s <= dsq as int);
        if s >= 0x7fff_ffff_ffff_ffff {
            assert(s * s >= 0x7fff_ffff_ffff_ffff * 0x7fff_ffff_ffff_ffffi128) by (nonlinear_arith)
                requires s >= 0x7fff_ffff_ffff_ffff;
        }
        assert(s < 0x7fff_ffff_ffff_ffff);
    }
    if dist_w == 0 {
        return (0, 0);
    }
    let dist = dist_w as i64;
    proof {
        lemma_direction_bounds(dx as int, dy as int);
        vstd::arithmetic::mul::lemma_mul_nonnegative(dist as int, SCALE as int);
        vstd::arithmetic::div_mod::lemma_div_pos_is_pos((dist as int) * (SCALE as int), threshold as int);
    }
    let rn_wide: i128 = (dist as i128) * (SCALE as i128) / (threshold as i128);
    let f = if rn_wide >= SCALE as i128 {
        proof {
            assert(spec_get_force(rn_wide as int, color_matrix.factor(p.color, q.color)) == 0);
        }
        0
    } else {
        get_force(rn_wide as i64, p.color, q.color, color_matrix)
    };
    proof {
        crate::force::lemma_force_bounded(
            (dist as int) * (SCALE as int) / (threshold as int),
            color_matrix.factor(p.color, q.color),
        );
        vstd::arithmetic::mul::lemma_mul_is_commutative(dist as int, SCALE as int);
        vstd::arithmetic::div_mod::lemma_div_multiples_vanish(SCALE as int, dist as int);
        lemma_mul_div_ss_range(
            f as int,
            spec_mul_div(dx as int, SCALE as int, dist as int),
            SCALE as int,
            ATTRACTION_LIMIT as int,
            SCALE as int,
        );
        lemma_mul_div_ss_range(
            f as int,
            spec_mul_div(dy as int, SCALE as int, dist as int),
            SCALE as int,
            ATTRACTION_LIMIT as int,
            SCALE as int,
        );
    }
    let dir_x = mul_div(dx, SCALE, dist);
    let dir_y = mul_div(dy, SCALE, dist);
    let cx = mul_div_ss(f, dir_x, SCALE);
    let cy = mul_div_ss(f, dir_y, SCALE);
    (cx, cy)
}

/// The force a sequence of neighbours exerts on a particle, summed in
/// order.
pub open spec fn spec_force_sum(
    p: Particle,
    qs: Seq<Particle>,
    m: AttractionMatrix,
    threshold: int,
) -> (int, int)
    decreases qs.len(),
{
    if qs.len() == 0 {
        (0, 0)
    } else {
        let rest = spec_force_sum(p, qs.drop_last(), m, threshold);
        let c = spec_contribution(p, qs.last(), m, threshold);
        (rest.0 + c.0, rest.1 + c.1)
    }
}

/// Accumulates the force contributions of every neighbour returned by a
/// range query, in the order given.
pub fn accumulate_force(
    p: &Particle,
    neighbors: &Vec<Particle>,
    color_matrix: &AttractionMatrix,
    threshold: i64,
) -> (f: (i64, i64))
    requires
        color_matrix.wf(),
        1 <= threshold <= THRESHOLD_LIMIT,
        p.in_working_limits(),
        forall|j: int| 0 <= j < neighbors@.len() ==> (#[trigger] neighbors@[j]).in_working_limits(),
        neighbors@.len() <= COUNT_LIMIT,
    ensures
        f.0 as int == spec_force_sum(*p, neighbors@, *color_matrix, threshold as int).0,
        f.1 as int == spec_force_sum(*p, neighbors@, *color_matrix, threshold as int).1,
        spec_abs(f.0 as int) <= neighbors@.len() * ATTRACTION_LIMIT,
        spec_abs(f.1 as int) <= neighbors@.len() * ATTRACTION_LIMIT,
{
    let mut fx: i64 = 0;
    let mut fy: i64 = 0;
    let mut i: usize = 0;
    while i < neighbors.len()
        invariant
            color_matrix.wf(),
            1 <= threshold <= THRESHOLD_LIMIT,
            p.in_working_limits(),
            forall|j: int|
                0 <= j < neighbors@.len() ==> (#[trigger] neighbors@[j]).in_working_limits(),
            neighbors@.len() <= COUNT_LIMIT,
            0 <= i <= neighbors@.len(),
            fx as int == spec_force_sum(*p, neighbors@.take(i as int), *color_matrix, threshold as int).0,
            fy as int == spec_force_sum(*p, neighbors@.take(i as int), *color_matrix, threshold as int).1,
            spec_abs(fx as int) <= i * ATTRACTION_LIMIT,
            spec_abs(fy as int) <= i * ATTRACTION_LIMIT,
        decreases neighbors@.len() - i,
    {
        let c = contribution(p, &neighbors[i], color_matrix, threshold);
        proof {
            assert(neighbors@.take(i as int + 1).drop_last() =~= neighbors@.take(i as int));
            assert(neighbors@.take(i as int + 1).last() == neighbors@[i as int]);
        }
        fx = fx + c.0;
        fy = fy + c.1;
        i = i + 1;
    }
    proof {
        assert(neighbors@.take(neighbors@.len() as int) =~= neighbors@);
    }
    (fx, fy)
}

/// The force the indexed particles exert on `p`, folded over the multiset
/// of index contents, counting only those inside the query window. The
/// fold visits the contents in an arbitrary but deterministic order; the
/// exchange lemmas below show the result is the same for every order, so
/// callers cannot depend on the order a query returns its particles in.
pub open spec fn spec_force_from(
    p: Particle,
    contents: Multiset<Particle>,
    window: Boundary,
    m: AttractionMatrix,
    threshold: int,
) -> (int, int)
    decreases contents.len(),
    via spec_force_from_decreases
{
    if contents.len() == 0 {
        (0, 0)
    } else {
        let q = contents.choose();
        let rest = spec_force_from(p, contents.remove(q), window, m, threshold);
        if window.contains_spec(q.position) {
            let c = spec_contribution(p, q, m, threshold);
            (rest.0 + c.0, rest.1 + c.1)
        } else {
            rest
        }
    }
}

#[via_fn]
proof fn spec_force_from_decreases(
    p: Particle,
    contents: Multiset<Particle>,
    window: Boundary,
    m: AttractionMatrix,
    threshold: int,
) {
    broadcast use group_multiset_axioms;

    if contents.len() != 0 {
        let q = contents.choose();
        assert(Multiset::singleton(q).subset_of(contents));
    }
}

/// Removing any present element from the fold takes out exactly its
/// guarded contribution, no matter which element the fold's own order
/// picks first.
proof fn lemma_force_from_remove(
    p: Particle,
    contents: Multiset<Particle>,
    q: Particle,
    window: Boundary,
    m: AttractionMatrix,
    threshold: int,
)
    requires
        contents.count(q) > 0,
    ensures
        spec_force_from(p, contents, window, m, threshold).0 == spec_force_from(
            p,
            contents.remove(q),
            window,
            m,
            threshold,
        ).0 + if window.contains_spec(q.position) {
            spec_contribution(p, q, m, threshold).0
        } else {
            0
        },
        spec_force_from(p, contents, window, m, threshold).1 == spec_force_from(
            p,
            contents.remove(q),
            window,
            m,
            threshold,
        ).1 + if window.contains_spec(q.position) {
            spec_contribution(p, q, m, threshold).1
        } else {
            0
        },
    decreases contents.len(),
{
    broadcast use group_multiset_axioms;

    let z = contents.choose();
    if z == q {
    } else {
        assert(Multiset::singleton(z).subset_of(contents));
        assert(contents.remove(z).count(q) > 0);
        lemma_force_from_remove(p, contents.remove(z), q, window, m, threshold);
        assert(contents.remove(z).remove(q) =~= contents.remove(q).remove(z));
        assert(contents.remove(q).count(z) > 0);
        lemma_force_from_remove(p, contents.remove(q), z, window, m, threshold);
        assert(contents.remove(q).len() != 0);
    }
}

/// Inserting an element into the fold adds exactly its guarded
/// contribution.
proof fn lemma_force_from_insert(
    p: Particle,
    contents: Multiset<Particle>,
    q: Particle,
    window: Boundary,
    m: AttractionMatrix,
    threshold: int,
)
    ensures
        spec_force_from(p, contents.insert(q), window, m, threshold).0 == spec_force_from(
            p,
            contents,
            window,
            m,
            threshold,
        ).0 + if window.contains_spec(q.position) {
            spec_contribution(p, q, m, threshold).0
        } else {
            0
        },
        spec_force_from(p, contents.insert(q), window, m, threshold).1 == spec_force_from(
            p,
            contents,
            window,
            m,
            threshold,
        ).1 + if window.contains_spec(q.position) {
            spec_contribution(p, q, m, threshold).1
        } else {
            0
        },
{
    broadcast use group_multiset_axioms;

    lemma_force_from_remove(p, contents.insert(q), q, window, m, threshold);
    assert(contents.insert(q).remove(q) =~= contents);
}

/// The ordered sum over a query's filtered results equals the multiset
/// fold over the whole index contents with the window as the guard: the
/// accumulated force depends only on which particles are indexed, not on
/// the order the query returns them in.
pub proof fn lemma_sum_matches_msum(
    p: Particle,
    stored: Seq<Particle>,
    window: Boundary,
    m: AttractionMatrix,
    threshold: int,
)
    ensures
        spec_force_sum(p, stored.filter(in_range(window)), m, threshold) == spec_force_from(
            p,
            stored.to_multiset(),
            window,
            m,
            threshold,
        ),
    decreases stored.len(),
{
    broadcast use group_multiset_axioms;
    broadcast use group_to_multiset_ensures;

    reveal(Seq::filter);
    if stored.len() == 0 {
        assert(stored.to_multiset() =~= Multiset::<Particle>::empty());
        assert(stored.filter(in_range(window)).len() == 0);
    } else {
        let d = stored.drop_last();
        let l = stored.last();
        lemma_sum_matches_msum(p, d, window, m, threshold);
        assert(d.push(l) =~= stored);
        assert(stored.to_multiset() == d.to_multiset().insert(l));
        lemma_force_from_insert(p, d.to_multiset(), l, window, m, threshold);
        if in_range(window)(l) {
            assert(stored.filter(in_range(window)) == d.filter(in_range(window)).push(l));
            assert(stored.filter(in_range(window)).drop_last() =~= d.filter(in_range(window)));
        }
    }
}

/// Advances the attraction schedule for one frame, as a pure function of
/// the frame index: every 300 frames red-to-red attraction switches to
/// full, every 600 frames green-to-red switches to 0.3.
pub fn schedule_update(color_matrix: &mut AttractionMatrix, frame_index: u64)
    requires
        old(color_matrix).wf(),
    ensures
        final(color_matrix).wf(),
        frame_index % 300 == 0 ==> final(color_matrix).factor(ColorTag::Red, ColorTag::Red)
            == SCALE,
        frame_index % 300 != 0 ==> final(color_matrix).factor(ColorTag::Red, ColorTag::Red) == old(
            color_matrix,
        ).factor(ColorTag::Red, ColorTag::Red),
        frame_index % 600 == 0 ==> final(color_matrix).factor(ColorTag::Green, ColorTag::Red)
            == 300_000,
        frame_index % 600 != 0 ==> final(color_matrix).factor(ColorTag::Green, ColorTag::Red)
            == old(color_matrix).factor(ColorTag::Green, ColorTag::Red),
        forall|p: ColorTag, q: ColorTag|
            !(p == ColorTag::Red && q == ColorTag::Red) && !(p == ColorTag::Green && q
                == ColorTag::Red) ==> #[trigger] final(color_matrix).factor(p, q) == old(
                color_matrix,
            ).factor(p, q),
{
    if frame_index % 300 == 0 {
        red_to_red(color_matrix);
    }
    if frame_index % 600 == 0 {
        green_to_red(color_matrix);
    }
}

/// The query window of one particle: a square of half-extent `threshold`
/// around the position the particle would drift to under its current
/// velocity, shifted by its radius.
pub open spec fn spec_query_window(p: Particle, t: int, radius: int, threshold: int) -> Boundary {
    let nx = p.position.x + spec_mul_div(p.velocity.x as int, t, SCALE as int);
    let ny = p.position.y + spec_mul_div(p.velocity.y as int, t, SCALE as int);
    Boundary {
        x: (nx - radius - threshold) as i64,
        y: (ny - radius - threshold) as i64,
        width: (2 * threshold) as i64,
        height: (2 * threshold) as i64,
    }
}

/// One particle's update within a frame, given the multiset of particles
/// currently indexed: query window, accumulated force, acceleration scaled
/// by twice the threshold, velocity decay-and-accelerate, then the
/// wrap-around position step under the updated velocity.
pub open spec fn spec_step_particle(
    p: Particle,
    contents: Multiset<Particle>,
    m: AttractionMatrix,
    t: int,
    threshold: int,
    radius: int,
    width: int,
    height: int,
) -> Particle {
    let window = spec_query_window(p, t, radius, threshold);
    let f = spec_force_from(p, contents, window, m, threshold);
    let ax = spec_mul_div(f.0, 2 * threshold, SCALE as int);
    let ay = spec_mul_div(f.1, 2 * threshold, SCALE as int);
    let vx = spec_new_velocity(p.velocity.x as int, ax, t);
    let vy = spec_new_velocity(p.velocity.y as int, ay, t);
    let px = spec_move_axis(p.position.x as int, vx, t, radius, width);
    let py = spec_move_axis(p.position.y as int, vy, t, radius, height);
    Particle {
        position: Position { x: px as i64, y: py as i64 },
        velocity: Velocity { x: vx as i64, y: vy as i64 },
        color: p.color,
    }
}

/// The sequential frame update from index `i` on: each particle is
/// updated against the current index contents, and, when its new position
/// lies in the index boundary, joins the contents seen by the particles
/// after it.
pub open spec fn spec_step_seq(
    ps: Seq<Particle>,
    i: int,
    contents: Multiset<Particle>,
    boundary: Boundary,
    m: AttractionMatrix,
    t: int,
    threshold: int,
    radius: int,
    width: int,
    height: int,
) -> Seq<Particle>
    decreases ps.len() - i,
{
    if i < 0 || i >= ps.len() {
        Seq::empty()
    } else {
        let p2 = spec_step_particle(ps[i], contents, m, t, threshold, radius, width, height);
        let c2 = if boundary.contains_spec(p2.position) {
            contents.insert(p2)
        } else {
            contents
        };
        seq![p2] + spec_step_seq(ps, i + 1, c2, boundary, m, t, threshold, radius, width, height)
    }
}

/// Updates one particle against the index as it currently stands: the
/// step both update orders share. The result is pinned by
/// `spec_step_particle` over the multiset of indexed particles.
fn update_one(
    p: Particle,
    tree: &QuadTree,
    color_matrix: &AttractionMatrix,
    t: i64,
    threshold: i64,
    radius: i64,
    width: i64,
    height: i64,
) -> (p2: Particle)
    requires
        tree.wf(),
        color_matrix.wf(),
        0 <= t <= TIME_LIMIT,
        1 <= threshold <= THRESHOLD_LIMIT,
        0 <= radius <= RADIUS_LIMIT,
        0 <= width <= SIZE_LIMIT,
        0 <= height <= SIZE_LIMIT,
        p.in_input_limits(),
        tree.all_points().len() <= COUNT_LIMIT,
        forall|q: Particle|
            tree.all_points().to_multiset().count(q) > 0 ==> (#[trigger] q.in_working_limits()),
    ensures
        p2 == spec_step_particle(p, tree.all_points().to_multiset(), *color_matrix, t as int,
            threshold as int, radius as int, width as int, height as int),
        p2.in_working_limits(),
{
    let ghost contents = tree.all_points().to_multiset();
    let ghost m = *color_matrix;
    proof {
        broadcast use group_to_multiset_ensures;
        broadcast use group_multiset_axioms;

        lemma_mul_div_range(p.velocity.x as int, t as int, SCALE as int, VEL_LIMIT as int,
            TIME_LIMIT as int);
        lemma_mul_div_range(p.velocity.y as int, t as int, SCALE as int, VEL_LIMIT as int,
            TIME_LIMIT as int);
    }
    let nvx = mul_div(p.velocity.x, t, SCALE);
    let nvy = mul_div(p.velocity.y, t, SCALE);
    let window = Boundary {
        x: p.position.x + nvx - radius - threshold,
        y: p.position.y + nvy - radius - threshold,
        width: 2 * threshold,
        height: 2 * threshold,
    };
    proof {
        assert(window == spec_query_window(p, t as int, radius as int, threshold as int));
        assert(window.wf());
    }
    let near = tree.query(&window);
    proof {
        broadcast use group_to_multiset_ensures;
        broadcast use group_multiset_axioms;
        broadcast use vstd::prelude::Seq::lemma_filter_len;

        assert(near@.len() <= tree.all_points().len());
        assert forall|j: int|
            0 <= j < near@.len() implies (#[trigger] near@[j]).in_working_limits() by {
            assert(near@.contains(near@[j]));
            lemma_filter_contains_iff(tree.all_points(), in_range(window), near@[j]);
            assert(tree.all_points().contains(near@[j]));
            assert(contents.count(near@[j]) > 0);
        }
    }
    let forces = accumulate_force(&p, &near, color_matrix, threshold);
    let ghost f_spec = spec_force_from(p, contents, window, m, threshold as int);
    proof {
        lemma_sum_matches_msum(p, tree.all_points(), window, m, threshold as int);
        assert(forces.0 as int == f_spec.0);
        assert(forces.1 as int == f_spec.1);
        assert(spec_abs(forces.0 as int) <= (COUNT_LIMIT as int) * (ATTRACTION_LIMIT as int))
            by (nonlinear_arith)
            requires
                spec_abs(forces.0 as int) <= near@.len() * (ATTRACTION_LIMIT as int),
                near@.len() <= COUNT_LIMIT as int,
                0 < ATTRACTION_LIMIT,
        ;
        assert(spec_abs(forces.1 as int) <= (COUNT_LIMIT as int) * (ATTRACTION_LIMIT as int))
            by (nonlinear_arith)
            requires
                spec_abs(forces.1 as int) <= near@.len() * (ATTRACTION_LIMIT as int),
                near@.len() <= COUNT_LIMIT as int,
                0 < ATTRACTION_LIMIT,
        ;
        lemma_mul_div_range(forces.0 as int, 2 * threshold as int, SCALE as int,
            (COUNT_LIMIT as int) * (ATTRACTION_LIMIT as int), 2 * THRESHOLD_LIMIT as int);
        lemma_mul_div_range(forces.1 as int, 2 * threshold as int, SCALE as int,
            (COUNT_LIMIT as int) * (ATTRACTION_LIMIT as int), 2 * THRESHOLD_LIMIT as int);
    }
    let ax = mul_div(forces.0, 2 * threshold, SCALE);
    let ay = mul_div(forces.1, 2 * threshold, SCALE);
    let mut p2 = p;
    update_velocity(&mut p2.velocity, ax, ay, t);
    move_particle(&mut p2, t, width, height, radius);
    p2
}

/// The index contents a sequential frame leaves behind: the updated
/// particles from index `i` on, folded into `contents`, skipping those
/// whose new position leaves the index boundary.
pub open spec fn spec_step_contents(
    ps: Seq<Particle>,
    i: int,
    contents: Multiset<Particle>,
    boundary: Boundary,
    m: AttractionMatrix,
    t: int,
    threshold: int,
    radius: int,
    width: int,
    height: int,
) -> Multiset<Particle>
    decreases ps.len() - i,
{
    if i < 0 || i >= ps.len() {
        contents
    } else {
        let p2 = spec_step_particle(ps[i], contents, m, t, threshold, radius, width, height);
        let c2 = if boundary.contains_spec(p2.position) {
            contents.insert(p2)
        } else {
            contents
        };
        spec_step_contents(ps, i + 1, c2, boundary, m, t, threshold, radius, width, height)
    }
}

/// Runs one frame: clears and rebuilds the spatial index while updating
/// every particle in store order. Each particle's neighbourhood is taken
/// from the index as it stands when its turn comes — the sequential
/// same-frame visibility rule — and the updated particle is re-inserted
/// at once; one whose new position falls outside the index boundary is
/// dropped from the index for the rest of the frame (and the caller must
/// bring it back within the input limits before the next frame).
#[verifier::rlimit(100)]
pub fn step_frame(
    particles: &mut Vec<Particle>,
    color_matrix: &AttractionMatrix,
    tree: &mut QuadTree,
    t: i64,
    threshold: i64,
    radius: i64,
    width: i64,
    height: i64,
)
    requires
        old(tree).wf(),
        color_matrix.wf(),
        0 <= t <= TIME_LIMIT,
        1 <= threshold <= THRESHOLD_LIMIT,
        0 <= radius <= RADIUS_LIMIT,
        0 <= width <= SIZE_LIMIT,
        0 <= height <= SIZE_LIMIT,
        old(particles)@.len() <= COUNT_LIMIT,
        forall|j: int|
            0 <= j < old(particles)@.len() ==> (#[trigger] old(particles)@[j]).in_input_limits(),
    ensures
        final(particles)@ == spec_step_seq(
            old(particles)@,
            0,
            Multiset::empty(),
            old(tree).boundary,
            *color_matrix,
            t as int,
            threshold as int,
            radius as int,
            width as int,
            height as int,
        ),
        final(particles)@.len() == old(particles)@.len(),
        final(tree).wf(),
        final(tree).boundary == old(tree).boundary,
        final(tree).capacity == old(tree).capacity,
        final(tree).all_points().to_multiset() == spec_step_contents(
            old(particles)@,
            0,
            Multiset::empty(),
            old(tree).boundary,
            *color_matrix,
            t as int,
            threshold as int,
            radius as int,
            width as int,
            height as int,
        ),
{
    let ghost ps0 = old(particles)@;
    let ghost bnd = old(tree).boundary;
    let ghost m = *color_matrix;
    tree.clear_quadtree();
    let ghost mut contents: Multiset<Particle> = Multiset::empty();
    proof {
        broadcast use group_to_multiset_ensures;
        broadcast use group_multiset_axioms;

        assert(tree.all_points().to_multiset() =~= Multiset::<Particle>::empty());
        assert(ps0.subrange(0, 0) =~= Seq::<Particle>::empty());
        assert(spec_step_seq(ps0, 0, Multiset::empty(), bnd, m, t as int, threshold as int,
            radius as int, width as int, height as int) =~= ps0.subrange(0, 0) + spec_step_seq(
            ps0,
            0,
            contents,
            bnd,
            m,
            t as int,
            threshold as int,
            radius as int,
            width as int,
            height as int,
        ));
    }
    let mut i: usize = 0;
    while i < particles.len()
        invariant
            color_matrix.wf(),
            m == *color_matrix,
            0 <= t <= TIME_LIMIT,
            1 <= threshold <= THRESHOLD_LIMIT,
            0 <= radius <= RADIUS_LIMIT,
            0 <= width <= SIZE_LIMIT,
            0 <= height <= SIZE_LIMIT,
            0 <= i <= particles@.len(),
            particles@.len() == ps0.len(),
            ps0.len() <= COUNT_LIMIT,
            forall|j: int| i <= j < ps0.len() ==> #[trigger] particles@[j] == ps0[j],
            forall|j: int| 0 <= j < ps0.len() ==> (#[trigger] ps0[j]).in_input_limits(),
            tree.wf(),
            tree.boundary == bnd,
            tree.capacity == old(tree).capacity,
            tree.all_points().to_multiset() == contents,
            contents.len() <= i,
            forall|q: Particle| contents.count(q) > 0 ==> (#[trigger] q.in_working_limits()),
            spec_step_seq(ps0, 0, Multiset::empty(), bnd, m, t as int, threshold as int,
                radius as int, width as int, height as int) == particles@.subrange(0, i as int)
                + spec_step_seq(ps0, i as int, contents, bnd, m, t as int, threshold as int,
                radius as int, width as int, height as int),
            spec_step_contents(ps0, 0, Multiset::empty(), bnd, m, t as int, threshold as int,
                radius as int, width as int, height as int) == spec_step_contents(ps0, i as int,
                contents, bnd, m, t as int, threshold as int, radius as int, width as int,
                height as int),
        decreases particles@.len() - i,
    {
        let ghost pre = contents;
        let p = particles[i];
        proof {
            broadcast use group_to_multiset_ensures;

            assert(tree.all_points().len() == contents.len());
        }
        let p2 = update_one(p, tree, color_matrix, t, threshold, radius, width, height);
        let ghost p2_spec = spec_step_particle(p, pre, m, t as int, threshold as int, radius as int,
            width as int, height as int);
        proof {
            assert(p2 == p2_spec);
        }
        let ghost before_ps = particles@;
        particles[i] = p2;
        let _leftover = tree.insert(p2);
        proof {
            broadcast use group_to_multiset_ensures;
            broadcast use group_multiset_axioms;

            contents = if bnd.contains_spec(p2.position) {
                pre.insert(p2)
            } else {
                pre
            };
            assert(tree.all_points().to_multiset() == contents);
            assert forall|q: Particle|
                contents.count(q) > 0 implies (#[trigger] q.in_working_limits()) by {
                if q != p2 {
                    assert(pre.count(q) > 0);
                }
            }
            let ghost c2 = contents;
            assert(spec_step_seq(ps0, i as int, pre, bnd, m, t as int, threshold as int,
                radius as int, width as int, height as int) == seq![p2_spec] + spec_step_seq(
                ps0,
                i as int + 1,
                c2,
                bnd,
                m,
                t as int,
                threshold as int,
                radius as int,
                width as int,
                height as int,
            ));
            assert(spec_step_contents(ps0, i as int, pre, bnd, m, t as int, threshold as int,
                radius as int, width as int, height as int) == spec_step_contents(ps0,
                i as int + 1, c2, bnd, m, t as int, threshold as int, radius as int, width as int,
                height as int));
            assert(particles@.subrange(0, i as int) =~= before_ps.subrange(0, i as int));
            assert(particles@.subrange(0, i as int + 1) =~= particles@.subrange(0, i as int).push(
                p2,
            ));
            assert(particles@.subrange(0, i as int + 1) + spec_step_seq(ps0, i as int + 1, c2, bnd,
                m, t as int, threshold as int, radius as int, width as int, height as int)
                =~= particles@.subrange(0, i as int) + (seq![p2_spec] + spec_step_seq(ps0,
                i as int + 1, c2, bnd, m, t as int, threshold as int, radius as int, width as int,
                height as int)));
        }
        i = i + 1;
    }
    proof {
        assert(particles@.subrange(0, particles@.len() as int) =~= particles@);
    }
}

/// The multiset of particles a full rebuild of the index holds: every
/// particle of the store whose position lies in the index boundary;
/// out-of-boundary particles are silently dropped from the index.
pub open spec fn spec_index_contents(ps: Seq<Particle>, boundary: Boundary) -> Multiset<Particle>
    decreases ps.len(),
{
    if ps.len() == 0 {
        Multiset::empty()
    } else {
        let rest = spec_index_contents(ps.drop_last(), boundary);
        if boundary.contains_spec(ps.last().position) {
            rest.insert(ps.last())
        } else {
            rest
        }
    }
}

/// Clears the index and rebuilds it from the store's current snapshot:
/// afterwards it holds exactly the particles whose positions lie in its
/// boundary, each exactly once per occurrence in the store.
pub fn rebuild_index(tree: &mut QuadTree, particles: &Vec<Particle>)
    requires
        old(tree).wf(),
    ensures
        final(tree).wf(),
        final(tree).boundary == old(tree).boundary,
        final(tree).capacity == old(tree).capacity,
        final(tree).all_points().to_multiset() == spec_index_contents(
            particles@,
            old(tree).boundary,
        ),
        final(tree).all_points().len() <= particles@.len(),
{
    let ghost ps = particles@;
    let ghost bnd = old(tree).boundary;
    tree.clear_quadtree();
    proof {
        broadcast use group_to_multiset_ensures;
        broadcast use group_multiset_axioms;

        assert(tree.all_points().to_multiset() =~= Multiset::<Particle>::empty());
        assert(ps.take(0) =~= Seq::<Particle>::empty());
    }
    let mut i: usize = 0;
    while i < particles.len()
        invariant
            0 <= i <= ps.len(),
            particles@ == ps,
            tree.wf(),
            tree.boundary == bnd,
            tree.capacity == old(tree).capacity,
            tree.all_points().to_multiset() == spec_index_contents(ps.take(i as int), bnd),
            tree.all_points().to_multiset().len() <= i,
        decreases ps.len() - i,
    {
        let _outside = tree.insert(particles[i]);
        proof {
            broadcast use group_to_multiset_ensures;
            broadcast use group_multiset_axioms;

            assert(ps.take(i as int + 1).drop_last() =~= ps.take(i as int));
            assert(ps.take(i as int + 1).last() == ps[i as int]);
        }
        i = i + 1;
    }
    proof {
        broadcast use group_to_multiset_ensures;

        assert(ps.take(ps.len() as int) =~= ps);
        assert(tree.all_points().len() == tree.all_points().to_multiset().len());
    }
}

/// Runs one frame under the simultaneous update order: the index is
/// rebuilt once from the frame's starting snapshot, and every particle is
/// updated against that same snapshot — no particle sees another's
/// same-frame move. A particle finds itself among its own neighbours, at
/// distance zero, where the degenerate-distance guard makes its
/// self-contribution zero.
#[verifier::rlimit(100)]
pub fn step_frame_simultaneous(
    particles: &mut Vec<Particle>,
    color_matrix: &AttractionMatrix,
    tree: &mut QuadTree,
    t: i64,
    threshold: i64,
    radius: i64,
    width: i64,
    height: i64,
)
    requires
        old(tree).wf(),
        color_matrix.wf(),
        0 <= t <= TIME_LIMIT,
        1 <= threshold <= THRESHOLD_LIMIT,
        0 <= radius <= RADIUS_LIMIT,
        0 <= width <= SIZE_LIMIT,
        0 <= height <= SIZE_LIMIT,
        old(particles)@.len() <= COUNT_LIMIT,
        forall|j: int|
            0 <= j < old(particles)@.len() ==> (#[trigger] old(particles)@[j]).in_input_limits(),
    ensures
        final(particles)@.len() == old(particles)@.len(),
        forall|j: int|
            0 <= j < old(particles)@.len() ==> #[trigger] final(particles)@[j]
                == spec_step_particle(
                old(particles)@[j],
                spec_index_contents(old(particles)@, old(tree).boundary),
                *color_matrix,
                t as int,
                threshold as int,
                radius as int,
                width as int,
                height as int,
            ),
        final(tree).wf(),
        final(tree).boundary == old(tree).boundary,
        final(tree).capacity == old(tree).capacity,
        final(tree).all_points().to_multiset() == spec_index_contents(
            old(particles)@,
            old(tree).boundary,
        ),
{
    let ghost ps0 = old(particles)@;
    let ghost bnd = old(tree).boundary;
    let ghost m = *color_matrix;
    rebuild_index(tree, particles);
    let ghost contents0 = spec_index_contents(ps0, bnd);
    proof {
        broadcast use group_to_multiset_ensures;
        broadcast use group_multiset_axioms;

        assert(tree.all_points().to_multiset() == contents0);
        assert forall|q: Particle|
            contents0.count(q) > 0 implies (#[trigger] q.in_working_limits()) by {
            lemma_index_contents_limits(ps0, bnd, q);
        }
    }
    let mut i: usize = 0;
    while i < particles.len()
        invariant
            color_matrix.wf(),
            m == *color_matrix,
            0 <= t <= TIME_LIMIT,
            1 <= threshold <= THRESHOLD_LIMIT,
            0 <= radius <= RADIUS_LIMIT,
            0 <= width <= SIZE_LIMIT,
            0 <= height <= SIZE_LIMIT,
            0 <= i <= particles@.len(),
            particles@.len() == ps0.len(),
            ps0.len() <= COUNT_LIMIT,
            forall|j: int| i <= j < ps0.len() ==> #[trigger] particles@[j] == ps0[j],
            forall|j: int| 0 <= j < ps0.len() ==> (#[trigger] ps0[j]).in_input_limits(),
            tree.wf(),
            tree.boundary == bnd,
            tree.capacity == old(tree).capacity,
            tree.all_points().to_multiset() == contents0,
            contents0 == spec_index_contents(ps0, bnd),
            forall|q: Particle| contents0.count(q) > 0 ==> (#[trigger] q.in_working_limits()),
            forall|j: int|
                0 <= j < i ==> #[trigger] particles@[j] == spec_step_particle(ps0[j], contents0, m,
                    t as int, threshold as int, radius as int, width as int, height as int),
        decreases particles@.len() - i,
    {
        let p = particles[i];
        proof {
            broadcast use group_to_multiset_ensures;
            broadcast use group_multiset_axioms;

            assert(tree.all_points().len() == contents0.len());
            assert(contents0.len() <= ps0.len()) by {
                lemma_index_contents_len(ps0, bnd);
            }
        }
        let p2 = update_one(p, tree, color_matrix, t, threshold, radius, width, height);
        particles[i] = p2;
        i = i + 1;
    }
}

/// Every particle a rebuild puts into the index came from the store, so
/// it satisfies the store's input limits, which lie within the working
/// limits.
proof fn lemma_index_contents_limits(ps: Seq<Particle>, boundary: Boundary, q: Particle)
    requires
        forall|j: int| 0 <= j < ps.len() ==> (#[trigger] ps[j]).in_input_limits(),
        spec_index_contents(ps, boundary).count(q) > 0,
    ensures
        q.in_working_limits(),
    decreases ps.len(),
{
    broadcast use group_multiset_axioms;

    if ps.len() > 0 {
        if q == ps.last() && boundary.contains_spec(ps.last().position) {
        } else {
            assert(spec_index_contents(ps.drop_last(), boundary).count(q) > 0);
            lemma_index_contents_limits(ps.drop_last(), boundary, q);
        }
    }
}

/// A rebuild indexes at most one entry per particle of the store.
proof fn lemma_index_contents_len(ps: Seq<Particle>, boundary: Boundary)
    ensures
        spec_index_contents(ps, boundary).len() <= ps.len(),
    decreases ps.len(),
{
    broadcast use group_multiset_axioms;

    if ps.len() > 0 {
        lemma_index_contents_len(ps.drop_last(), boundary);
    }
}

/// Which update order a frame runs under: the sequential order the
/// reference behaviour uses, where each particle's neighbourhood already
/// reflects the earlier particles' same-frame moves, or the simultaneous
/// order, where every particle is updated against the frame's starting
/// snapshot.
#[derive(Clone, Copy, PartialEq, Eq, Structural, Debug)]
pub enum UpdateOrder {
    Sequential,
    Simultaneous,
}

/// Runs one frame under the chosen update order.
pub fn run_frame(
    order: UpdateOrder,
    particles: &mut Vec<Particle>,
    color_matrix: &AttractionMatrix,
    tree: &mut QuadTree,
    t: i64,
    threshold: i64,
    radius: i64,
    width: i64,
    height: i64,
)
    requires
        old(tree).wf(),
        color_matrix.wf(),
        0 <= t <= TIME_LIMIT,
        1 <= threshold <= THRESHOLD_LIMIT,
        0 <= radius <= RADIUS_LIMIT,
        0 <= width <= SIZE_LIMIT,
        0 <= height <= SIZE_LIMIT,
        old(particles)@.len() <= COUNT_LIMIT,
        forall|j: int|
            0 <= j < old(particles)@.len() ==> (#[trigger] old(particles)@[j]).in_input_limits(),
    ensures
        final(particles)@.len() == old(particles)@.len(),
        final(tree).wf(),
        final(tree).boundary == old(tree).boundary,
        final(tree).capacity == old(tree).capacity,
        order == UpdateOrder::Sequential ==> final(particles)@ == spec_step_seq(
            old(particles)@,
            0,
            Multiset::empty(),
            old(tree).boundary,
            *color_matrix,
            t as int,
            threshold as int,
            radius as int,
            width as int,
            height as int,
        ),
        order == UpdateOrder::Simultaneous ==> forall|j: int|
            0 <= j < old(particles)@.len() ==> #[trigger] final(particles)@[j]
                == spec_step_particle(
                old(particles)@[j],
                spec_index_contents(old(particles)@, old(tree).boundary),
                *color_matrix,
                t as int,
                threshold as int,
                radius as int,
                width as int,
                height as int,
            ),
        order == UpdateOrder::Sequential ==> final(tree).all_points().to_multiset()
            == spec_step_contents(
            old(particles)@,
            0,
            Multiset::empty(),
            old(tree).boundary,
            *color_matrix,
            t as int,
            threshold as int,
            radius as int,
            width as int,
            height as int,
        ),
        order == UpdateOrder::Simultaneous ==> final(tree).all_points().to_multiset()
            == spec_index_contents(old(particles)@, old(tree).boundary),
{
    match order {
        UpdateOrder::Sequential => step_frame(
            particles,
            color_matrix,
            tree,
            t,
            threshold,
            radius,
            width,
            height,
        ),
        UpdateOrder::Simultaneous => step_frame_simultaneous(
            particles,
            color_matrix,
            tree,
            t,
            threshold,
            radius,
            width,
            height,
        ),
    }
}

} // verus!

