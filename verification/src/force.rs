//! The colour-pair force law: a 4 x 4 signed attraction matrix indexed by
//! ordered colour pairs, and the piecewise force kernel over the
//! normalized distance — a universal short-range repulsion below `BETA`, a
//! triangular attraction kernel between `BETA` and `SCALE`, and no force
//! beyond the normalized range.

use vstd::prelude::*;
use crate::particle::ColorTag;
use crate::math::{spec_abs, spec_mul_div, mul_div};
use crate::units::{SCALE, BETA, ATTRACTION_LIMIT};

verus! {

/// The signed attraction factors by ordered colour pair, stored row-major:
/// the factor applied when a particle of row colour is pulled toward a
/// neighbour of column colour.
pub struct AttractionMatrix {
    pub factors: Vec<i64>,
}

/// The index of a colour in the attraction matrix.
pub open spec fn spec_color_index(c: ColorTag) -> int {
    match c {
        ColorTag::Red => 0,
        ColorTag::Green => 1,
        ColorTag::Blue => 2,
        ColorTag::Other => 3,
    }
}

impl AttractionMatrix {
    /// Sixteen entries, each within the accepted factor magnitude.
    pub open spec fn wf(self) -> bool {
        &&& self.factors@.len() == 16
        &&& forall|k: int|
            0 <= k < 16 ==> -ATTRACTION_LIMIT <= #[trigger] self.factors@[k] <= ATTRACTION_LIMIT
    }

    /// The factor for the ordered colour pair `(a, b)`.
    pub open spec fn factor(self, a: ColorTag, b: ColorTag) -> int {
        self.factors@[spec_color_index(a) * 4 + spec_color_index(b)] as int
    }

    /// Reads the factor for an ordered colour pair.
    pub fn get(&self, a: ColorTag, b: ColorTag) -> (f: i64)
        requires
            self.wf(),
        ensures
            f == self.factor(a, b),
            -ATTRACTION_LIMIT <= f <= ATTRACTION_LIMIT,
    {
        let idx = color_to_index(a) * 4 + color_to_index(b);
        self.factors[idx]
    }

    /// Writes the factor for an ordered colour pair, leaving every other
    /// entry unchanged.
    pub fn set(&mut self, a: ColorTag, b: ColorTag, f: i64)
        requires
            old(self).wf(),
            -ATTRACTION_LIMIT <= f <= ATTRACTION_LIMIT,
        ensures
            final(self).wf(),
            final(self).factor(a, b) == f,
            forall|p: ColorTag, q: ColorTag|
                spec_color_index(p) * 4 + spec_color_index(q) != spec_color_index(a) * 4
                    + spec_color_index(b) ==> #[trigger] final(self).factor(p, q) == old(
                    self,
                ).factor(p, q),
    {
        let idx = color_to_index(a) * 4 + color_to_index(b);
        self.factors[idx] = f;
    }
}

/// Maps a colour to its matrix index: red, green and blue take the first
/// three rows and columns; any other colour shares the last.
pub fn color_to_index(color: ColorTag) -> (i: usize)
    ensures
        i == spec_color_index(color),
{
    if color == ColorTag::Red {
        0
    } else if color == ColorTag::Green {
        1
    } else if color == ColorTag::Blue {
        2
    } else {
        3
    }
}

/// Builds the all-zero attraction matrix: no long-range force between any
/// colour pair until the schedule switches entries on.
pub fn colour_attraction_factor_matrix() -> (m: AttractionMatrix)
    ensures
        m.wf(),
        forall|a: ColorTag, b: ColorTag| #[trigger] m.factor(a, b) == 0,
{
    let m = AttractionMatrix { factors: vec![0i64; 16] };
    proof {
        assert forall|a: ColorTag, b: ColorTag| #[trigger] m.factor(a, b) == 0 by {
            assert(0 <= spec_color_index(a) * 4 + spec_color_index(b) < 16);
        }
    }
    m
}

/// Switches on full attraction of red towards red.
pub fn red_to_red(matrix: &mut AttractionMatrix)
    requires
        old(matrix).wf(),
    ensures
        final(matrix).wf(),
        final(matrix).factor(ColorTag::Red, ColorTag::Red) == SCALE,
        forall|p: ColorTag, q: ColorTag|
            !(p == ColorTag::Red && q == ColorTag::Red) ==> #[trigger] final(matrix).factor(p, q)
                == old(matrix).factor(p, q),
{
    matrix.set(ColorTag::Red, ColorTag::Red, SCALE);
}

/// Switches on a mild attraction of green towards red (0.3 in world
/// units).
pub fn green_to_red(matrix: &mut AttractionMatrix)
    requires
        old(matrix).wf(),
    ensures
        final(matrix).wf(),
        final(matrix).factor(ColorTag::Green, ColorTag::Red) == 300_000,
        forall|p: ColorTag, q: ColorTag|
            !(p == ColorTag::Green && q == ColorTag::Red) ==> #[trigger] final(matrix).factor(p, q)
                == old(matrix).factor(p, q),
{
    matrix.set(ColorTag::Green, ColorTag::Red, 300_000);
}

/// The piecewise force law over the normalized distance `r` (in fixed
/// point, `SCALE` standing for 1) and the signed attraction factor of the
/// ordered colour pair.
pub open spec fn spec_get_force(r: int, factor: int) -> int {
    if r < BETA {
        r * SCALE / (BETA as int) - SCALE
    } else if BETA < r < SCALE {
        spec_mul_div(factor, kernel(r), SCALE as int)
    } else {
        0
    }
}

/// The triangular kernel: zero at `BETA` and at `SCALE`, peaking halfway
/// between them.
pub open spec fn kernel(r: int) -> int {
    SCALE - spec_abs(2 * r - BETA - SCALE) * SCALE / (SCALE - BETA)
}

/// The kernel stays within `[0, SCALE]` on the open attraction band.
pub proof fn lemma_kernel_bounds(r: int)
    requires
        BETA < r < SCALE,
    ensures
        0 <= kernel(r) <= SCALE,
{
    let a2 = spec_abs(2 * r - BETA - SCALE);
    assert(a2 < SCALE - BETA);
    assert(a2 * SCALE <= (SCALE - BETA) * SCALE) by (nonlinear_arith)
        requires 0 <= a2 <= SCALE - BETA;
    vstd::arithmetic::div_mod::lemma_div_is_ordered(a2 * SCALE, (SCALE - BETA) * SCALE, SCALE - BETA);
    vstd::arithmetic::div_mod::lemma_div_multiples_vanish(SCALE as int, SCALE - BETA);
    vstd::arithmetic::div_mod::lemma_div_pos_is_pos(a2 * SCALE, SCALE - BETA);
    vstd::arithmetic::mul::lemma_mul_nonnegative(a2, SCALE as int);
}

/// The force value is bounded by the larger of the repulsion unit and the
/// attraction factor's magnitude.
pub proof fn lemma_force_bounded(r: int, factor: int)
    requires
        0 <= r,
        -ATTRACTION_LIMIT <= factor <= ATTRACTION_LIMIT,
    ensures
        -ATTRACTION_LIMIT <= spec_get_force(r, factor) <= ATTRACTION_LIMIT,
{
    if r < BETA {
        assert(r * SCALE < BETA * SCALE) by (nonlinear_arith)
            requires 0 <= r < BETA, 0 < SCALE;
        vstd::arithmetic::div_mod::lemma_div_is_ordered(r * SCALE, BETA * SCALE, BETA as int);
        vstd::arithmetic::div_mod::lemma_div_multiples_vanish(SCALE as int, BETA as int);
        vstd::arithmetic::div_mod::lemma_div_pos_is_pos(r * SCALE, BETA as int);
        vstd::arithmetic::mul::lemma_mul_nonnegative(r, SCALE as int);
    } else if BETA < r < SCALE {
        lemma_kernel_bounds(r);
        assert(spec_abs(factor) * kernel(r) <= ATTRACTION_LIMIT * SCALE) by (nonlinear_arith)
            requires 0 <= spec_abs(factor) <= ATTRACTION_LIMIT, 0 <= kernel(r) <= SCALE;
        crate::math::lemma_mul_div_bound(factor, kernel(r), SCALE as int, ATTRACTION_LIMIT * SCALE);
        vstd::arithmetic::div_mod::lemma_div_multiples_vanish(ATTRACTION_LIMIT as int, SCALE as int);
    }
}

/// Computes the force between a particle of colour `p1_color` and a
/// neighbour of colour `p2_color` at normalized distance `r`.
pub fn get_force(r: i64, p1_color: ColorTag, p2_color: ColorTag, color_matrix: &AttractionMatrix) -> (force: i64)
    requires
        color_matrix.wf(),
        0 <= r,
    ensures
        force == spec_get_force(r as int, color_matrix.factor(p1_color, p2_color)),
        -ATTRACTION_LIMIT <= force <= ATTRACTION_LIMIT,
{
    let attraction_factor = color_matrix.get(p1_color, p2_color);
    proof {
        lemma_force_bounded(r as int, attraction_factor as int);
    }
    if r < BETA {
        proof {
            assert(r * SCALE < BETA * SCALE) by (nonlinear_arith)
                requires 0 <= r < BETA, 0 < SCALE;
            vstd::arithmetic::mul::lemma_mul_nonnegative(r as int, SCALE as int);
            vstd::arithmetic::div_mod::lemma_div_is_ordered(
                (r * SCALE) as int,
                (BETA * SCALE) as int,
                BETA as int,
            );
            vstd::arithmetic::div_mod::lemma_div_multiples_vanish(SCALE as int, BETA as int);
            vstd::arithmetic::div_mod::lemma_div_pos_is_pos((r * SCALE) as int, BETA as int);
        }
        r * SCALE / BETA - SCALE
    } else if BETA < r && r < SCALE {
        proof {
            lemma_kernel_bounds(r as int);
            assert(spec_abs(2 * r - BETA - SCALE) < SCALE - BETA);
            assert(spec_abs(2 * r as int - BETA - SCALE) * SCALE <= (SCALE - BETA) * SCALE)
                by (nonlinear_arith)
                requires 0 <= spec_abs(2 * r as int - BETA - SCALE) <= SCALE - BETA;
            vstd::arithmetic::mul::lemma_mul_nonnegative(spec_abs(2 * r as int - BETA - SCALE), SCALE as int);
            vstd::arithmetic::div_mod::lemma_div_is_ordered(
                spec_abs(2 * r as int - BETA - SCALE) * SCALE,
                (SCALE - BETA) * SCALE,
                SCALE - BETA,
            );
            vstd::arithmetic::div_mod::lemma_div_multiples_vanish(SCALE as int, SCALE - BETA);
            vstd::arithmetic::div_mod::lemma_div_pos_is_pos(
                spec_abs(2 * r as int - BETA - SCALE) * SCALE,
                SCALE - BETA,
            );
        }
        let t2 = 2 * r - BETA - SCALE;
        let a2 = if t2 >= 0 {
            t2
        } else {
            -t2
        };
        let k = SCALE - a2 * SCALE / (SCALE - BETA);
        proof {
            assert(spec_abs(attraction_factor as int) * (k as int) <= ATTRACTION_LIMIT * SCALE)
                by (nonlinear_arith)
                requires
                    0 <= spec_abs(attraction_factor as int) <= ATTRACTION_LIMIT,
                    0 <= k as int <= SCALE,
            ;
            crate::math::lemma_mul_div_bound(
                attraction_factor as int,
                k as int,
                SCALE as int,
                ATTRACTION_LIMIT * SCALE,
            );
            vstd::arithmetic::div_mod::lemma_div_multiples_vanish(ATTRACTION_LIMIT as int, SCALE as int);
        }
        mul_div(attraction_factor, k, SCALE)
    } else {
        0
    }
}

/// Force-law boundary values: at zero distance the repulsion is exactly
/// minus one world unit; at the repulsion edge `BETA` and at the end of
/// the normalized range the force vanishes — independent of the
/// attraction factor, hence of the matrix and the colour pair.
pub proof fn lemma_force_boundary_values(factor: int)
    ensures
        spec_get_force(0, factor) == -SCALE,
        spec_get_force(BETA as int, factor) == 0,
        spec_get_force(SCALE as int, factor) == 0,
{
    assert(0 * SCALE == 0) by (nonlinear_arith);
    assert(spec_get_force(0, factor) == 0int / (BETA as int) - SCALE);
}

} // verus!
