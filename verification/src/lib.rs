//! A discretized complex scalar field simulator on a 2D grid: static walls,
//! absorbing sink regions, a tunable potential landscape, and a
//! finite-difference time-domain update advancing the field one tick at a
//! time.
//!
//! All cell values are Q47.16 fixed-point scalars (see [`fixed`]), so every
//! arithmetic step has an exact mathematical meaning that the contracts
//! state.

pub mod absorb;
pub mod bool_field;
pub mod cell;
pub mod color;
pub mod complex;
pub mod complex_field;
pub mod coord;
pub mod fixed;
pub mod fixmath;
pub mod float_field;
pub mod grid;
pub mod pixel;
pub mod queue;

use crate::absorb::{
    free_mask, graph_dist, lemma_graph_dist_free, lemma_mult_at_zero, mult_of_dist,
    mult_of_dist_spec, solve_distances,
};
use crate::complex::Complex;
use crate::complex_field::{evolve_half, evolve_spec, laplacian, lemma_evolve_dt_zero};
use crate::coord::Coord;
use crate::fixed::{
    fx_abs, fx_abs_spec, fx_add, fx_add_spec, fx_div, fx_div_spec, fx_mul, fx_mul_spec, fx_neg,
    fx_neg_spec, fx_sub, fx_sub_spec, lemma_fx_mul_zero, Fx, FX_FOUR, FX_MIN, FX_ONE, FX_TWO_PI,
};
use crate::fixed::{lemma_fx_mul_monotone, lemma_fx_mul_nonneg, lemma_fx_mul_one};
use crate::fixmath::{
    cos_fx, cos_spec, exp_neg, exp_neg_spec, isqrt_spec, isqrt_u128, lemma_exp_neg_antitone,
    lemma_exp_neg_range, lemma_trig_at_zero, sin_fx, sin_spec,
};
use crate::grid::{lemma_seq_max_props, seq_max, Grid};
use vstd::prelude::*;

verus! {

/// The tilt magnitude used by `setup`: the scalar 2.5.
pub const DEFAULT_MAX_TILT: i64 = 163840;

/// The timestep used by `new` and `setup`: the scalar closest to 0.1.
pub const DEFAULT_DT: i64 = 6554;

/// The potential field after normalization: every cell shifted down by the
/// field's maximum.
pub open spec fn normalized(s: Seq<i64>) -> Seq<i64> {
    Seq::new(s.len(), |i: int| fx_add_spec(s[i] as int, fx_neg_spec(seq_max(s))) as i64)
}

/// The grayscale byte for a potential value: full white at 0, darkening as
/// the value rises toward 1.
pub open spec fn gray_of(v: int) -> int {
    let g = 255 * 65536 - v * 255;
    if g < 0 {
        0
    } else if g / 65536 > 255 {
        255
    } else {
        g / 65536
    }
}

/// Saturating accumulation: `base` plus `k` copies of `step`, added one at
/// a time.
pub open spec fn fx_acc(base: int, step: int, k: nat) -> int
    decreases k,
{
    if k == 0 {
        base
    } else {
        fx_add_spec(fx_acc(base, step, (k - 1) as nat), step)
    }
}

/// The effective tilt magnitude: the full bound when the combined slope is
/// at most 1, proportionally reduced otherwise so a diagonal tilt never
/// exceeds the bound.
pub open spec fn tilt_of(max_tilt: int, xs: int, ys: int) -> int {
    let total = fx_add_spec(fx_abs_spec(xs), fx_abs_spec(ys));
    if total <= FX_ONE {
        max_tilt
    } else {
        fx_div_spec(max_tilt, total)
    }
}

/// The potential change across the grid's width.
pub open spec fn right_change_of(w: int, h: int, mt: int, xs: int, ys: int) -> int {
    let ld = if w >= h {
        w
    } else {
        h
    };
    fx_mul_spec(fx_mul_spec(fx_neg_spec(xs), tilt_of(mt, xs, ys)), (w / ld) * 65536)
}

/// The potential change across the grid's height.
pub open spec fn down_change_of(w: int, h: int, mt: int, xs: int, ys: int) -> int {
    let ld = if w >= h {
        w
    } else {
        h
    };
    fx_mul_spec(fx_mul_spec(fx_neg_spec(ys), tilt_of(mt, xs, ys)), (h / ld) * 65536)
}

/// The top-left corner potential after shifting all four corners so their
/// maximum is 0.
pub open spec fn ntl_of(w: int, h: int, mt: int, xs: int, ys: int) -> int {
    let rc = right_change_of(w, h, mt, xs, ys);
    let dc = down_change_of(w, h, mt, xs, ys);
    let tl = fx_sub_spec(fx_neg_spec(rc), dc);
    let tr = fx_sub_spec(rc, dc);
    let dl = fx_add_spec(fx_neg_spec(rc), dc);
    let dr = fx_add_spec(rc, dc);
    let m1 = if tr > tl {
        tr
    } else {
        tl
    };
    let m2 = if dl > m1 {
        dl
    } else {
        m1
    };
    let m3 = if dr > m2 {
        dr
    } else {
        m2
    };
    fx_sub_spec(tl, m3)
}

/// The per-column potential increment.
pub open spec fn x_step_of(w: int, h: int, mt: int, xs: int, ys: int) -> int {
    fx_div_spec(right_change_of(w, h, mt, xs, ys), w * 65536)
}

/// The per-row potential increment.
pub open spec fn y_step_of(w: int, h: int, mt: int, xs: int, ys: int) -> int {
    fx_div_spec(down_change_of(w, h, mt, xs, ys), h * 65536)
}

/// The interpolated tilt value at a cell: the shifted top-left corner
/// advanced one row increment per row and one column increment per column.
pub open spec fn tilt_at(w: int, h: int, mt: int, xs: int, ys: int, x: int, y: int) -> int {
    fx_acc(
        fx_acc(ntl_of(w, h, mt, xs, ys), y_step_of(w, h, mt, xs, ys), (y + 1) as nat),
        x_step_of(w, h, mt, xs, ys),
        (x + 1) as nat,
    )
}

/// One cell of the recomputed potential cache: the static level potential,
/// plus the interpolated tilt on interior cells. Edge-ring cells carry no
/// tilt.
pub open spec fn cache_cell(
    level: Seq<i64>,
    w: int,
    h: int,
    mt: int,
    xs: int,
    ys: int,
    i: int,
) -> int {
    let x = i % w;
    let y = i / w;
    if 1 <= x && x < w - 1 && 1 <= y && y < h - 1 {
        fx_add_spec(tilt_at(w, h, mt, xs, ys, x, y), level[i] as int)
    } else {
        level[i] as int
    }
}

/// Accumulating a zero step onto a zero base goes nowhere.
pub proof fn lemma_fx_acc_zero(k: nat)
    ensures
        fx_acc(0, 0, k) == 0,
    decreases k,
{
    if k > 0 {
        lemma_fx_acc_zero((k - 1) as nat);
    }
}

/// With both slopes zero the tilt contribution vanishes: the potential
/// cache equals the level potential exactly, at every cell.
pub proof fn lemma_cache_cell_zero_slope(level: Seq<i64>, w: int, h: int, mt: int, i: int)
    requires
        0 < w,
        0 < h,
        0 <= i < level.len(),
        level[i] >= FX_MIN,
    ensures
        cache_cell(level, w, h, mt, 0, 0, i) == level[i],
{
    lemma_fx_mul_zero(tilt_of(mt, 0, 0));
    let ld = if w >= h {
        w
    } else {
        h
    };
    lemma_fx_mul_zero((w / ld) * 65536);
    lemma_fx_mul_zero((h / ld) * 65536);
    assert(right_change_of(w, h, mt, 0, 0) == 0);
    assert(down_change_of(w, h, mt, 0, 0) == 0);
    assert(ntl_of(w, h, mt, 0, 0) == 0);
    let zero: int = 0;
    let mw: int = crate::fixed::mag(w * 65536);
    let mh: int = crate::fixed::mag(h * 65536);
    assert(mw > 0 && mh > 0) by (nonlinear_arith)
        requires
            0 < w,
            0 < h,
            mw == crate::fixed::mag(w * 65536),
            mh == crate::fixed::mag(h * 65536);
    assert(zero / mw == 0) by (nonlinear_arith)
        requires
            zero == 0,
            mw > 0;
    assert(zero / mh == 0) by (nonlinear_arith)
        requires
            zero == 0,
            mh > 0;
    assert(x_step_of(w, h, mt, 0, 0) == 0);
    assert(y_step_of(w, h, mt, 0, 0) == 0);
    lemma_fx_acc_zero((i / w + 1) as nat);
    lemma_fx_acc_zero((i % w + 1) as nat);
}

/// Whether the flat cell `i` lies strictly inside the outer ring.
pub open spec fn interior_cell(w: int, h: int, i: int) -> bool {
    1 <= i % w && i % w < w - 1 && 1 <= i / w && i / w < h - 1
}

/// One cell of the in-place field update: an interior non-wall cell
/// evolves by the finite-difference rule, reading its four neighbors from
/// the buffer as it currently stands; every other cell is left alone.
pub open spec fn step_cell(
    q: Seq<Complex>,
    walls: Seq<bool>,
    mult: Seq<i64>,
    pot: Seq<i64>,
    dt: int,
    w: int,
    h: int,
    i: int,
) -> Seq<Complex> {
    if interior_cell(w, h, i) && !walls[i] {
        q.update(
            i,
            evolve_spec(
                q[i],
                q[i - w],
                q[i + w],
                q[i - 1],
                q[i + 1],
                mult[i] as int,
                dt,
                pot[i] as int,
            ),
        )
    } else {
        q
    }
}

/// The whole in-place sweep: the cells applied one after another in
/// row-major order. Because the update is in place, a cell's top and left
/// neighbors have already evolved when it is read; this order is part of
/// the update's meaning.
pub open spec fn step_fold(
    q0: Seq<Complex>,
    walls: Seq<bool>,
    mult: Seq<i64>,
    pot: Seq<i64>,
    dt: int,
    w: int,
    h: int,
    k: nat,
) -> Seq<Complex>
    decreases k,
{
    if k == 0 {
        q0
    } else {
        step_cell(
            step_fold(q0, walls, mult, pot, dt, w, h, (k - 1) as nat),
            walls,
            mult,
            pot,
            dt,
            w,
            h,
            k - 1,
        )
    }
}

/// The sweep never touches a wall cell or a cell on the outer ring, and
/// never changes the field's length.
pub proof fn lemma_step_fold_frame(
    q0: Seq<Complex>,
    walls: Seq<bool>,
    mult: Seq<i64>,
    pot: Seq<i64>,
    dt: int,
    w: int,
    h: int,
    k: nat,
)
    requires
        0 < w,
        0 < h,
        q0.len() == w * h,
        k <= q0.len(),
    ensures
        step_fold(q0, walls, mult, pot, dt, w, h, k).len() == q0.len(),
        forall|i: int|
            0 <= i < q0.len() && (!interior_cell(w, h, i) || walls[i]) ==> #[trigger] step_fold(
                q0,
                walls,
                mult,
                pot,
                dt,
                w,
                h,
                k,
            )[i] == q0[i],
        forall|i: int|
            k <= i < q0.len() ==> #[trigger] step_fold(q0, walls, mult, pot, dt, w, h, k)[i]
                == q0[i],
    decreases k,
{
    if k > 0 {
        lemma_step_fold_frame(q0, walls, mult, pot, dt, w, h, (k - 1) as nat);
        crate::absorb::lemma_index_rowcol(w, h, k - 1);
    }
}

/// The fixed-point Euclidean distance from cell (x, y) to the center
/// (xc, yc), in cell units: the integer square root of the squared
/// distance, scaled into the fixed-point format.
pub open spec fn radial_spec(x: int, y: int, xc: int, yc: int) -> int {
    isqrt_spec(((x - xc) * (x - xc) + (y - yc) * (y - yc)) * 0x1_0000_0000)
}

/// A potential cell after a cone contribution at distance `r` from the
/// cone's center: `r / radius * depth` is added inside the radius; a cell
/// outside is untouched.
pub open spec fn cone_cell_spec(level: int, radius: int, depth: int, r: int) -> int {
    if r < radius {
        fx_add_spec(level, fx_mul_spec(fx_div_spec(r, radius), depth))
    } else {
        level
    }
}

/// The well's inner coefficient `-core_pot / 3 / radius / radius`.
pub open spec fn well_b_spec(radius: int, core_pot: int) -> int {
    fx_div_spec(fx_div_spec(fx_div_spec(fx_neg_spec(core_pot), 196608), radius), radius)
}

/// The well's tail coefficient `2 * b * radius * radius`.
pub open spec fn well_a_spec(radius: int, core_pot: int) -> int {
    fx_mul_spec(
        fx_mul_spec(fx_mul_spec(131072, well_b_spec(radius, core_pot)), radius),
        radius,
    )
}

/// The well's additive contribution at distance `r` from its center: the
/// parabolic bowl `b * (r^2 - 3 * radius^2)` inside the radius, the
/// decaying tail `-a / r` outside.
pub open spec fn well_term_spec(radius: int, core_pot: int, r: int) -> int {
    if r < radius {
        fx_mul_spec(
            well_b_spec(radius, core_pot),
            fx_sub_spec(
                fx_mul_spec(r, r),
                fx_mul_spec(fx_mul_spec(196608, radius), radius),
            ),
        )
    } else {
        fx_div_spec(fx_neg_spec(well_a_spec(radius, core_pot)), r)
    }
}

/// The Gaussian envelope denominator `4 * sigma^2`.
pub open spec fn gauss_denom_spec(sigma: int) -> int {
    fx_mul_spec(fx_mul_spec(FX_FOUR as int, sigma), sigma)
}

/// The Gaussian envelope `exp(-r2 / d)` at squared cell distance `r2`.
pub open spec fn gauss_env_spec(r2: int, d: int) -> int {
    exp_neg_spec(r2 * 0x1_0000_0000 / d)
}

/// The plane-wave phase `2*pi*f*p / extent` for a frequency `f` at grid
/// position `p` along an axis of the given extent.
pub open spec fn gauss_angle_spec(f: int, p: int, extent: int) -> int {
    fx_div_spec(fx_mul_spec(fx_mul_spec(FX_TWO_PI as int, f), p * 65536), extent * 65536)
}

/// The packet's additive contribution at cell (x, y): a Gaussian envelope
/// around the center, modulated by cosines in the real part and sines in
/// the imaginary part.
pub open spec fn gauss_term_spec(
    c: Coord,
    sigma: int,
    fxf: int,
    fyf: int,
    a_scale: int,
    w: int,
    h: int,
    x: int,
    y: int,
) -> Complex {
    let amp = fx_mul_spec(a_scale, FX_TWO_PI as int);
    let r2 = (x - c.x) * (x - c.x) + (y - c.y) * (y - c.y);
    let env = gauss_env_spec(r2, gauss_denom_spec(sigma));
    let tx = gauss_angle_spec(fxf, x, w);
    let ty = gauss_angle_spec(fyf, y, h);
    Complex {
        re: fx_mul_spec(fx_mul_spec(fx_mul_spec(amp, env), cos_spec(tx)), cos_spec(ty)) as i64,
        im: fx_mul_spec(fx_mul_spec(fx_mul_spec(amp, env), sin_spec(tx)), sin_spec(ty)) as i64,
    }
}

/// With a zero timestep the whole sweep is a pure swap scaled by the
/// damping multiplier: each interior non-wall cell goes from `(re, im)` to
/// `(mult * im, mult * re)`, so its magnitude is unchanged wherever the
/// multiplier is 1; every other cell is untouched. The requirement only
/// excludes the single unrepresentable scalar bit pattern.
pub proof fn lemma_step_fold_dt_zero(
    q0: Seq<Complex>,
    walls: Seq<bool>,
    mult: Seq<i64>,
    pot: Seq<i64>,
    w: int,
    h: int,
    k: nat,
)
    requires
        0 < w,
        0 < h,
        q0.len() == w * h,
        k <= q0.len(),
        forall|i: int|
            0 <= i < q0.len() ==> (#[trigger] q0[i]).re >= FX_MIN && q0[i].im >= FX_MIN,
    ensures
        forall|i: int|
            0 <= i < k && interior_cell(w, h, i) && !walls[i] ==> #[trigger] step_fold(
                q0,
                walls,
                mult,
                pot,
                0,
                w,
                h,
                k,
            )[i] == (Complex {
                re: fx_mul_spec(mult[i] as int, q0[i].im as int) as i64,
                im: fx_mul_spec(mult[i] as int, q0[i].re as int) as i64,
            }),
    decreases k,
{
    lemma_step_fold_frame(q0, walls, mult, pot, 0, w, h, k);
    if k > 0 {
        lemma_step_fold_dt_zero(q0, walls, mult, pot, w, h, (k - 1) as nat);
        lemma_step_fold_frame(q0, walls, mult, pot, 0, w, h, (k - 1) as nat);
        crate::absorb::lemma_index_rowcol(w, h, k - 1);
        let prev = step_fold(q0, walls, mult, pot, 0, w, h, (k - 1) as nat);
        if interior_cell(w, h, k - 1) && !walls[k - 1] {
            lemma_evolve_dt_zero(
                prev[k - 1],
                prev[k - 1 - w],
                prev[k - 1 + w],
                prev[k - 2],
                prev[k as int],
                mult[k - 1] as int,
                pot[k - 1] as int,
            );
        }
    }
}

/// With no plane-wave modulation (both frequencies zero) and a nonnegative
/// amplitude, the injected packet is purely real, radially symmetric
/// around its center, and monotonically decreasing outward: a cell at
/// least as far from the center receives at most as large a (nonnegative)
/// real contribution, and cells at equal squared distance receive exactly
/// the same contribution.
pub proof fn lemma_gauss_radial(
    c: Coord,
    sigma: int,
    a_scale: int,
    w: int,
    h: int,
    x1: int,
    y1: int,
    x2: int,
    y2: int,
)
    requires
        0 < w,
        0 < h,
        sigma >= 256,
        a_scale >= 0,
        (x1 - c.x) * (x1 - c.x) + (y1 - c.y) * (y1 - c.y) <= (x2 - c.x) * (x2 - c.x) + (y2 - c.y)
            * (y2 - c.y),
    ensures
        gauss_term_spec(c, sigma, 0, 0, a_scale, w, h, x1, y1).im == 0,
        gauss_term_spec(c, sigma, 0, 0, a_scale, w, h, x2, y2).im == 0,
        0 <= gauss_term_spec(c, sigma, 0, 0, a_scale, w, h, x2, y2).re,
        gauss_term_spec(c, sigma, 0, 0, a_scale, w, h, x2, y2).re <= gauss_term_spec(
            c,
            sigma,
            0,
            0,
            a_scale,
            w,
            h,
            x1,
            y1,
        ).re,
        (x1 - c.x) * (x1 - c.x) + (y1 - c.y) * (y1 - c.y) == (x2 - c.x) * (x2 - c.x) + (y2 - c.y)
            * (y2 - c.y) ==> gauss_term_spec(c, sigma, 0, 0, a_scale, w, h, x1, y1)
            == gauss_term_spec(c, sigma, 0, 0, a_scale, w, h, x2, y2),
{
    let d = gauss_denom_spec(sigma);
    lemma_gauss_denom_pos(sigma);
    let r2a = (x1 - c.x) * (x1 - c.x) + (y1 - c.y) * (y1 - c.y);
    let r2b = (x2 - c.x) * (x2 - c.x) + (y2 - c.y) * (y2 - c.y);
    assert(r2a >= 0 && r2b >= 0) by (nonlinear_arith)
        requires
            r2a == (x1 - c.x) * (x1 - c.x) + (y1 - c.y) * (y1 - c.y),
            r2b == (x2 - c.x) * (x2 - c.x) + (y2 - c.y) * (y2 - c.y);
    // Zero frequencies give zero phase angles on both axes.
    lemma_fx_mul_zero(FX_TWO_PI as int);
    lemma_fx_mul_zero(x1 * 65536);
    lemma_fx_mul_zero(y1 * 65536);
    lemma_fx_mul_zero(x2 * 65536);
    lemma_fx_mul_zero(y2 * 65536);
    let zero: int = 0;
    let mw: int = crate::fixed::mag(w * 65536);
    let mh: int = crate::fixed::mag(h * 65536);
    assert(mw > 0 && mh > 0) by (nonlinear_arith)
        requires
            0 < w,
            0 < h,
            mw == crate::fixed::mag(w * 65536),
            mh == crate::fixed::mag(h * 65536);
    assert(zero / mw == 0) by (nonlinear_arith)
        requires
            zero == 0,
            mw > 0;
    assert(zero / mh == 0) by (nonlinear_arith)
        requires
            zero == 0,
            mh > 0;
    assert(gauss_angle_spec(0, x1, w) == 0);
    assert(gauss_angle_spec(0, x2, w) == 0);
    assert(gauss_angle_spec(0, y1, h) == 0);
    assert(gauss_angle_spec(0, y2, h) == 0);
    lemma_trig_at_zero();
    // The amplitude is nonnegative, and the envelope shrinks with distance.
    let amp = fx_mul_spec(a_scale, FX_TWO_PI as int);
    lemma_fx_mul_nonneg(a_scale, FX_TWO_PI as int);
    let arga = r2a * 0x1_0000_0000 / d;
    let argb = r2b * 0x1_0000_0000 / d;
    assert(r2a * 0x1_0000_0000 <= r2b * 0x1_0000_0000) by (nonlinear_arith)
        requires
            r2a <= r2b;
    assert(r2a * 0x1_0000_0000 >= 0) by (nonlinear_arith)
        requires
            r2a >= 0;
    vstd::arithmetic::div_mod::lemma_div_pos_is_pos(r2a * 0x1_0000_0000, d);
    vstd::arithmetic::div_mod::lemma_div_is_ordered(r2a * 0x1_0000_0000, r2b * 0x1_0000_0000, d);
    lemma_exp_neg_range(arga);
    lemma_exp_neg_range(argb);
    lemma_exp_neg_antitone(arga, argb);
    let enva = exp_neg_spec(arga);
    let envb = exp_neg_spec(argb);
    // The real contribution is the amplitude times the envelope, exactly.
    lemma_fx_mul_nonneg(amp, enva);
    lemma_fx_mul_nonneg(amp, envb);
    lemma_fx_mul_monotone(amp, envb, enva);
    lemma_fx_mul_one(fx_mul_spec(amp, enva));
    lemma_fx_mul_one(fx_mul_spec(amp, envb));
    lemma_fx_mul_one(fx_mul_spec(fx_mul_spec(amp, enva), FX_ONE as int));
    lemma_fx_mul_one(fx_mul_spec(fx_mul_spec(amp, envb), FX_ONE as int));
    lemma_fx_mul_zero(fx_mul_spec(amp, enva));
    lemma_fx_mul_zero(fx_mul_spec(amp, envb));
    lemma_fx_mul_zero(fx_mul_spec(fx_mul_spec(amp, enva), 0));
    lemma_fx_mul_zero(fx_mul_spec(fx_mul_spec(amp, envb), 0));
}

/// The simulation state: the complex field, the static masks, the derived
/// damping multipliers, the potential landscape and its per-step cache, and
/// the two scalar parameters.
///
/// All grids share the same width and height, enforced by [`Universe::wf`].
pub struct Universe {
    pub width: usize,
    pub height: usize,
    pub quantum: Grid<Complex>,
    pub walls: Grid<bool>,
    pub sinks: Grid<bool>,
    pub sink_mult: Grid<Fx>,
    pub potential_level: Grid<Fx>,
    pub potential_cache: Grid<Fx>,
    pub max_tilt: Fx,
    pub dt: Fx,
}

impl Universe {
    /// One grid agrees with the universe's dimensions.
    pub open spec fn grid_wf<T>(&self, g: &Grid<T>) -> bool {
        g.wf() && g.width == self.width && g.spec_height() == self.height && g.data@.len()
            == self.width * self.height
    }

    /// Well-formed: all six grids share the universe's dimensions, which
    /// are positive and small enough for index arithmetic never to
    /// overflow.
    pub open spec fn wf(&self) -> bool {
        &&& 1 <= self.width <= 0x8000
        &&& 1 <= self.height <= 0x8000
        &&& self.grid_wf(&self.quantum)
        &&& self.grid_wf(&self.walls)
        &&& self.grid_wf(&self.sinks)
        &&& self.grid_wf(&self.sink_mult)
        &&& self.grid_wf(&self.potential_level)
        &&& self.grid_wf(&self.potential_cache)
    }

    /// The cell count.
    pub open spec fn n(&self) -> int {
        self.width * self.height
    }

    /// Create a universe of the given size with every field zeroed, a
    /// timestep of 0.1 and no tilt.
    pub fn new(width: usize, height: usize) -> (u: Universe)
        requires
            1 <= width <= 0x8000,
            1 <= height <= 0x8000,
        ensures
            u.wf(),
            u.width == width,
            u.height == height,
            u.max_tilt == 0,
            u.dt == DEFAULT_DT,
            forall|i: int|
                0 <= i < u.n() ==> u.quantum.data@[i] == (Complex { re: 0i64, im: 0i64 }),
            forall|i: int| 0 <= i < u.n() ==> u.walls.data@[i] == false,
            forall|i: int| 0 <= i < u.n() ==> u.sinks.data@[i] == false,
            forall|i: int| 0 <= i < u.n() ==> u.sink_mult.data@[i] == 0i64,
            forall|i: int| 0 <= i < u.n() ==> u.potential_level.data@[i] == 0i64,
            forall|i: int| 0 <= i < u.n() ==> u.potential_cache.data@[i] == 0i64,
    {
        proof {
            assert(width * height <= 0x4000_0000) by (nonlinear_arith)
                requires
                    0 < width <= 0x8000,
                    0 < height <= 0x8000;
        }
        let max_tilt: Fx = 0;
        let dt: Fx = DEFAULT_DT;
        let quantum = Grid::<Complex>::new(width, height);
        let walls = Grid::<bool>::new(width, height);
        let sinks = Grid::<bool>::new(width, height);
        let sink_mult = Grid::<Fx>::new(width, height);
        let potential_level = Grid::<Fx>::new(width, height);
        let potential_cache = Grid::<Fx>::new(width, height);
        Universe {
            width,
            height,
            quantum,
            walls,
            sinks,
            sink_mult,
            potential_level,
            potential_cache,
            max_tilt,
            dt,
        }
    }

    /// Check if there is a wall at coord.
    pub fn is_wall(&self, coord: Coord) -> (r: bool)
        requires
            self.wf(),
            self.walls.valid(coord),
        ensures
            r == self.walls.at(coord),
    {
        match self.walls.get(coord) {
            Some(v) => *v,
            None => false,
        }
    }

    /// Check if there is a sink at coord.
    pub fn is_sink(&self, coord: Coord) -> (r: bool)
        requires
            self.wf(),
            self.sinks.valid(coord),
        ensures
            r == self.sinks.at(coord),
    {
        match self.sinks.get(coord) {
            Some(v) => *v,
            None => false,
        }
    }

    /// Place or clear a wall at coord.
    pub fn set_wall(&mut self, coord: Coord, value: bool)
        requires
            old(self).wf(),
            old(self).walls.valid(coord),
        ensures
            final(self).wf(),
            *final(self) == (Universe { walls: final(self).walls, ..*old(self) }),
            final(self).walls.data@ == old(self).walls.data@.update(
                old(self).walls.idx(coord),
                value,
            ),
    {
        proof {
            self.walls.lemma_idx_in_range(coord);
        }
        self.walls.set(coord, value);
    }

    /// Place or clear a sink at coord.
    pub fn set_sink(&mut self, coord: Coord, value: bool)
        requires
            old(self).wf(),
            old(self).sinks.valid(coord),
        ensures
            final(self).wf(),
            *final(self) == (Universe { sinks: final(self).sinks, ..*old(self) }),
            final(self).sinks.data@ == old(self).sinks.data@.update(
                old(self).sinks.idx(coord),
                value,
            ),
    {
        proof {
            self.sinks.lemma_idx_in_range(coord);
        }
        self.sinks.set(coord, value);
    }

    /// Zero the complex field at every wall cell.
    pub fn setup_walls(&mut self)
        requires
            old(self).wf(),
        ensures
            final(self).wf(),
            *final(self) == (Universe { quantum: final(self).quantum, ..*old(self) }),
            final(self).quantum.data@.len() == old(self).quantum.data@.len(),
            forall|i: int|
                0 <= i < final(self).n() ==> final(self).quantum.data@[i] == (if old(
                    self,
                ).walls.data@[i] {
                    Complex { re: 0i64, im: 0i64 }
                } else {
                    old(self).quantum.data@[i]
                }),
    {
        let n: usize = self.quantum.data.len();
        let mut k: usize = 0;
        while k < n
            invariant
                k <= n,
                self.wf(),
                n == self.n(),
                *self == (Universe { quantum: self.quantum, ..*old(self) }),
                self.quantum.data@.len() == n,
                forall|i: int|
                    0 <= i < k ==> self.quantum.data@[i] == (if old(self).walls.data@[i] {
                        Complex { re: 0i64, im: 0i64 }
                    } else {
                        old(self).quantum.data@[i]
                    }),
                forall|i: int| k <= i < n ==> self.quantum.data@[i] == old(self).quantum.data@[i],
            decreases n - k,
        {
            if self.walls.data[k] {
                self.quantum.data.set(k, Complex { re: 0, im: 0 });
            }
            k = k + 1;
        }
    }

    /// Normalize the potential landscape: subtract the global maximum from
    /// every cell, so no potential is positive while all relative
    /// differences are kept.
    pub fn ensure_no_positive_potential(&mut self)
        requires
            old(self).wf(),
        ensures
            final(self).wf(),
            *final(self) == (Universe {
                potential_level: final(self).potential_level,
                ..*old(self)
            }),
            final(self).potential_level.data@ == normalized(old(self).potential_level.data@),
    {
        let max_pot: Fx = self.potential_level.max();
        let neg: Fx = fx_neg(max_pot);
        let n: usize = self.potential_level.data.len();
        let mut k: usize = 0;
        while k < n
            invariant
                k <= n,
                self.wf(),
                n == self.n(),
                *self == (Universe { potential_level: self.potential_level, ..*old(self) }),
                self.potential_level.data@.len() == n,
                old(self).potential_level.data@.len() == n,
                max_pot == seq_max(old(self).potential_level.data@),
                neg as int == fx_neg_spec(max_pot as int),
                forall|i: int|
                    0 <= i < k ==> self.potential_level.data@[i] == normalized(
                        old(self).potential_level.data@,
                    )[i],
                forall|i: int|
                    k <= i < n ==> self.potential_level.data@[i] == old(
                        self,
                    ).potential_level.data@[i],
            decreases n - k,
        {
            let v = self.potential_level.data[k];
            self.potential_level.data.set(k, fx_add(v, neg));
            proof {
                let s = old(self).potential_level.data@;
                assert(normalized(s)[k as int] == fx_add_spec(
                    s[k as int] as int,
                    fx_neg_spec(seq_max(s)),
                ) as i64);
            }
            k = k + 1;
        }
        proof {
            assert(self.potential_level.data@ =~= normalized(old(self).potential_level.data@));
        }
    }

    /// Recompute the damping multipliers from the wall and sink masks: a
    /// multi-source flood fill yields each cell's distance to the free
    /// region, and the decaying exponential turns distance into a damping
    /// coefficient. Free cells get exactly 1 (no damping); cells no free
    /// cell can reach get exactly 0 (total absorption).
    #[verifier::loop_isolation(false)]
    pub fn setup_sink_mult(&mut self)
        requires
            old(self).wf(),
        ensures
            final(self).wf(),
            *final(self) == (Universe { sink_mult: final(self).sink_mult, ..*old(self) }),
            forall|i: int|
                0 <= i < final(self).n() ==> final(self).sink_mult.data@[i] as int
                    == mult_of_dist_spec(
                    graph_dist(
                        free_mask(old(self).walls.data@, old(self).sinks.data@),
                        old(self).width as int,
                        old(self).n(),
                        i,
                    ),
                    old(self).n(),
                ),
            forall|i: int|
                0 <= i < final(self).n() && !old(self).walls.data@[i] && !old(
                    self,
                ).sinks.data@[i] ==> final(self).sink_mult.data@[i] == crate::fixed::FX_ONE,
    {
        let dist: Grid<i32> = solve_distances(&self.walls, &self.sinks);
        let n: usize = self.sink_mult.data.len();
        proof {
            assert(n <= 0x4000_0000) by (nonlinear_arith)
                requires
                    n == self.width * self.height,
                    0 < self.width <= 0x8000,
                    0 < self.height <= 0x8000;
        }
        let nd: i32 = n as i32;
        let ghost freeg: Seq<bool> = free_mask(self.walls.data@, self.sinks.data@);
        let mut k: usize = 0;
        while k < n
            invariant
                k <= n,
                self.wf(),
                *self == (Universe { sink_mult: self.sink_mult, ..*old(self) }),
                self.sink_mult.data@.len() == n,
                forall|i: int|
                    0 <= i < k ==> #[trigger] self.sink_mult.data@[i] as int == mult_of_dist_spec(
                        graph_dist(freeg, self.width as int, n as int, i),
                        n as int,
                    ),
            decreases n - k,
        {
            let d: i32 = dist.data[k];
            let m: Fx = mult_of_dist(d, nd);
            self.sink_mult.data.set(k, m);
            k = k + 1;
        }
        proof {
            assert forall|i: int|
                0 <= i < self.n() && !old(self).walls.data@[i] && !old(self).sinks.data@[i]
                implies self.sink_mult.data@[i] == crate::fixed::FX_ONE by {
                assert(freeg[i]);
                lemma_graph_dist_free(freeg, self.width as int, n as int, i);
                lemma_mult_at_zero(n as int);
            }
        }
    }

    /// Recompute the per-step potential cache: the static level potential
    /// plus a directional tilt, interpolated across the grid with constant
    /// per-row and per-column increments. Edge-ring cells carry no tilt.
    #[verifier::loop_isolation(false)]
    pub fn reset_potential_cache(&mut self, x_slope: Fx, y_slope: Fx)
        requires
            old(self).wf(),
        ensures
            final(self).wf(),
            *final(self) == (Universe {
                potential_cache: final(self).potential_cache,
                ..*old(self)
            }),
            forall|i: int|
                0 <= i < final(self).n() ==> #[trigger] final(self).potential_cache.data@[i] as int
                    == cache_cell(
                    old(self).potential_level.data@,
                    old(self).width as int,
                    old(self).height as int,
                    old(self).max_tilt as int,
                    x_slope as int,
                    y_slope as int,
                    i,
                ),
    {
        let ghost wi: int = self.width as int;
        let ghost hi: int = self.height as int;
        let ghost mt: int = self.max_tilt as int;
        let ghost xsg: int = x_slope as int;
        let ghost ysg: int = y_slope as int;
        let total_slope: Fx = fx_add(fx_abs(x_slope), fx_abs(y_slope));
        let tilt: Fx = if total_slope <= FX_ONE {
            self.max_tilt
        } else {
            fx_div(self.max_tilt, total_slope)
        };
        let ld: usize = if self.width >= self.height {
            self.width
        } else {
            self.height
        };
        let facw: i64 = ((self.width / ld) as i64) * 65536;
        let fach: i64 = ((self.height / ld) as i64) * 65536;
        let rc: Fx = fx_mul(fx_mul(fx_neg(x_slope), tilt), facw);
        let dc: Fx = fx_mul(fx_mul(fx_neg(y_slope), tilt), fach);
        proof {
            assert(rc as int == right_change_of(wi, hi, mt, xsg, ysg));
            assert(dc as int == down_change_of(wi, hi, mt, xsg, ysg));
        }
        let tl: Fx = fx_sub(fx_neg(rc), dc);
        let tr: Fx = fx_sub(rc, dc);
        let dl: Fx = fx_add(fx_neg(rc), dc);
        let dr: Fx = fx_add(rc, dc);
        let m1: Fx = if tr > tl {
            tr
        } else {
            tl
        };
        let m2: Fx = if dl > m1 {
            dl
        } else {
            m1
        };
        let m3: Fx = if dr > m2 {
            dr
        } else {
            m2
        };
        let ntl: Fx = fx_sub(tl, m3);
        let wfx: i64 = (self.width as i64) * 65536;
        let hfx: i64 = (self.height as i64) * 65536;
        let x_step: Fx = fx_div(rc, wfx);
        let y_step: Fx = fx_div(dc, hfx);
        proof {
            assert(ntl as int == ntl_of(wi, hi, mt, xsg, ysg));
            assert(x_step as int == x_step_of(wi, hi, mt, xsg, ysg));
            assert(y_step as int == y_step_of(wi, hi, mt, xsg, ysg));
        }
        let w: usize = self.width;
        let h: usize = self.height;
        let mut left_edge: Fx = ntl;
        let mut y: usize = 0;
        while y < h
            invariant
                y <= h,
                self.wf(),
                *self == (Universe { potential_cache: self.potential_cache, ..*old(self) }),
                self.potential_cache.data@.len() == self.n(),
                left_edge as int == fx_acc(
                    ntl_of(wi, hi, mt, xsg, ysg),
                    y_step_of(wi, hi, mt, xsg, ysg),
                    y as nat,
                ),
                forall|i: int|
                    0 <= i < y * w ==> #[trigger] self.potential_cache.data@[i] as int
                        == cache_cell(
                        old(self).potential_level.data@,
                        wi,
                        hi,
                        mt,
                        xsg,
                        ysg,
                        i,
                    ),
            decreases h - y,
        {
            left_edge = fx_add(left_edge, y_step);
            let mut current: Fx = left_edge;
            let ghost row_edge: int = left_edge as int;
            let mut x: usize = 0;
            proof {
                assert(y * w + w <= h * w) by (nonlinear_arith)
                    requires
                        y < h,
                        0 < w;
                assert(h * w == w * h) by (nonlinear_arith);
            }
            while x < w
                invariant
                    x <= w,
                    self.wf(),
                    *self == (Universe { potential_cache: self.potential_cache, ..*old(self) }),
                    self.potential_cache.data@.len() == self.n(),
                    row_edge == fx_acc(
                        ntl_of(wi, hi, mt, xsg, ysg),
                        y_step_of(wi, hi, mt, xsg, ysg),
                        (y + 1) as nat,
                    ),
                    current as int == fx_acc(row_edge, x_step_of(wi, hi, mt, xsg, ysg), x as nat),
                    forall|i: int|
                        0 <= i < y * w + x ==> #[trigger] self.potential_cache.data@[i] as int
                            == cache_cell(
                            old(self).potential_level.data@,
                            wi,
                            hi,
                            mt,
                            xsg,
                            ysg,
                            i,
                        ),
                decreases w - x,
            {
                current = fx_add(current, x_step);
                proof {
                    crate::absorb::lemma_flat_index(wi, x as int, y as int);
                    assert(x + w * y < w * h) by (nonlinear_arith)
                        requires
                            0 <= x < w,
                            0 <= y < h;
                }
                let i: usize = x + w * y;
                let lv: Fx = self.potential_level.data[i];
                if 1 <= x && x < w - 1 && 1 <= y && y < h - 1 {
                    self.potential_cache.data.set(i, fx_add(current, lv));
                } else {
                    self.potential_cache.data.set(i, lv);
                }
                proof {
                    assert(self.potential_cache.data@[i as int] as int == cache_cell(
                        old(self).potential_level.data@,
                        wi,
                        hi,
                        mt,
                        xsg,
                        ysg,
                        i as int,
                    ));
                    assert(y * w + (x + 1) == i + 1) by (nonlinear_arith)
                        requires
                            i == x + w * y;
                }
                x = x + 1;
            }
            proof {
                assert(y * w + w == (y + 1) * w) by (nonlinear_arith);
            }
            y = y + 1;
        }
        proof {
            assert forall|i: int| 0 <= i < self.n() implies #[trigger] self.potential_cache.data@[i] as int
                == cache_cell(
                old(self).potential_level.data@,
                wi,
                hi,
                mt,
                xsg,
                ysg,
                i,
            ) by {
                assert(i < h * w) by (nonlinear_arith)
                    requires
                        i < w * h;
            }
        }
    }

    /// Advance the field one timestep: recompute the potential cache with
    /// level slopes, then apply the finite-difference update to every
    /// interior non-wall cell in row-major order, in place.
    ///
    /// Wall cells and the outer ring never change: they act as a fixed
    /// boundary.
    #[verifier::loop_isolation(false)]
    pub fn step(&mut self)
        requires
            old(self).wf(),
        ensures
            final(self).wf(),
            *final(self) == (Universe {
                quantum: final(self).quantum,
                potential_cache: final(self).potential_cache,
                ..*old(self)
            }),
            forall|i: int|
                0 <= i < final(self).n() ==> #[trigger] final(self).potential_cache.data@[i] as int
                    == cache_cell(
                    old(self).potential_level.data@,
                    old(self).width as int,
                    old(self).height as int,
                    old(self).max_tilt as int,
                    0,
                    0,
                    i,
                ),
            final(self).quantum.data@ == step_fold(
                old(self).quantum.data@,
                old(self).walls.data@,
                old(self).sink_mult.data@,
                final(self).potential_cache.data@,
                old(self).dt as int,
                old(self).width as int,
                old(self).height as int,
                old(self).n() as nat,
            ),
            forall|i: int|
                0 <= i < final(self).n() && (old(self).walls.data@[i] || !interior_cell(
                    old(self).width as int,
                    old(self).height as int,
                    i,
                )) ==> #[trigger] final(self).quantum.data@[i] == old(self).quantum.data@[i],
    {
        let x_slope: Fx = 0;
        let y_slope: Fx = 0;
        self.reset_potential_cache(x_slope, y_slope);
        let ghost q0: Seq<Complex> = self.quantum.data@;
        let ghost wallsg: Seq<bool> = self.walls.data@;
        let ghost multg: Seq<i64> = self.sink_mult.data@;
        let ghost potg: Seq<i64> = self.potential_cache.data@;
        let ghost dtg: int = self.dt as int;
        let ghost wi: int = self.width as int;
        let ghost hi: int = self.height as int;
        let w: usize = self.width;
        let h: usize = self.height;
        let n: usize = self.quantum.data.len();
        let dt: Fx = self.dt;
        let mut k: usize = 0;
        while k < n
            invariant
                k <= n,
                self.wf(),
                *self == (Universe {
                    quantum: self.quantum,
                    potential_cache: self.potential_cache,
                    ..*old(self)
                }),
                self.potential_cache.data@ == potg,
                self.quantum.data@ == step_fold(q0, wallsg, multg, potg, dtg, wi, hi, k as nat),
            decreases n - k,
        {
            proof {
                lemma_step_fold_frame(q0, wallsg, multg, potg, dtg, wi, hi, k as nat);
                crate::absorb::lemma_index_rowcol(wi, hi, k as int);
            }
            let x: usize = k % w;
            let y: usize = k / w;
            if 1 <= x && x < w - 1 && 1 <= y && y < h - 1 && !self.walls.data[k] {
                proof {
                    assert(wi <= k as int && k as int + wi < n as int) by (nonlinear_arith)
                        requires
                            1 <= k as int % wi,
                            k as int % wi + 1 < wi,
                            1 <= k as int / wi,
                            k as int / wi + 1 < hi,
                            k as int == k as int % wi + wi * (k as int / wi),
                            n as int == wi * hi,
                            0 < wi;
                }
                let mult: Fx = self.sink_mult.data[k];
                let pot: Fx = self.potential_cache.data[k];
                let cx: Complex = self.quantum.data[k];
                let top: Complex = self.quantum.data[k - w];
                let bottom: Complex = self.quantum.data[k + w];
                let left: Complex = self.quantum.data[k - 1];
                let right: Complex = self.quantum.data[k + 1];
                let lap_re: Fx = laplacian(top.re, bottom.re, left.re, right.re, cx.re);
                let lap_im: Fx = laplacian(top.im, bottom.im, left.im, right.im, cx.im);
                let re: Fx = evolve_half(cx.im, cx.re, lap_re, mult, dt, pot);
                let im: Fx = evolve_half(cx.re, cx.im, lap_im, mult, dt, pot);
                self.quantum.data.set(k, Complex { re, im });
            }
            proof {
                assert(self.quantum.data@ == step_fold(
                    q0,
                    wallsg,
                    multg,
                    potg,
                    dtg,
                    wi,
                    hi,
                    (k + 1) as nat,
                ));
            }
            k = k + 1;
        }
        proof {
            lemma_step_fold_frame(q0, wallsg, multg, potg, dtg, wi, hi, n as nat);
        }
    }

    /// Add a potential cone: inside the given radius around the center,
    /// the potential rises linearly from 0 at the center to `depth` at the
    /// rim; cells outside the radius are untouched.
    #[verifier::loop_isolation(false)]
    pub fn add_potential_cone(&mut self, xc: i32, yc: i32, radius: Fx, depth: Fx)
        requires
            old(self).wf(),
        ensures
            final(self).wf(),
            *final(self) == (Universe {
                potential_level: final(self).potential_level,
                ..*old(self)
            }),
            forall|i: int|
                0 <= i < final(self).n() ==> #[trigger] final(self).potential_level.data@[i] as int
                    == cone_cell_spec(
                    old(self).potential_level.data@[i] as int,
                    radius as int,
                    depth as int,
                    radial_spec(
                        i % (old(self).width as int),
                        i / (old(self).width as int),
                        xc as int,
                        yc as int,
                    ),
                ),
    {
        let w: usize = self.width;
        let h: usize = self.height;
        let n: usize = self.potential_level.data.len();
        let ghost wi: int = w as int;
        let mut k: usize = 0;
        while k < n
            invariant
                k <= n,
                self.wf(),
                *self == (Universe { potential_level: self.potential_level, ..*old(self) }),
                self.potential_level.data@.len() == n,
                forall|i: int|
                    0 <= i < k ==> #[trigger] self.potential_level.data@[i] as int
                        == cone_cell_spec(
                        old(self).potential_level.data@[i] as int,
                        radius as int,
                        depth as int,
                        radial_spec(i % wi, i / wi, xc as int, yc as int),
                    ),
                forall|i: int|
                    k <= i < n ==> self.potential_level.data@[i] == old(
                        self,
                    ).potential_level.data@[i],
            decreases n - k,
        {
            proof {
                crate::absorb::lemma_index_rowcol(wi, h as int, k as int);
            }
            let x: usize = k % w;
            let y: usize = k / w;
            let r: Fx = radial(x, y, xc, yc);
            if r < radius {
                let lv: Fx = self.potential_level.data[k];
                self.potential_level.data.set(k, fx_add(lv, fx_mul(fx_div(r, radius), depth)));
            }
            k = k + 1;
        }
    }

    /// Add a potential well: inside the given radius a parabolic bowl of
    /// the given core depth, outside a decaying tail proportional to the
    /// inverse distance. The radius must be positive.
    #[verifier::loop_isolation(false)]
    pub fn add_potential_well(&mut self, xc: i32, yc: i32, radius: Fx, core_pot: Fx)
        requires
            old(self).wf(),
            radius > 0,
        ensures
            final(self).wf(),
            *final(self) == (Universe {
                potential_level: final(self).potential_level,
                ..*old(self)
            }),
            forall|i: int|
                0 <= i < final(self).n() ==> #[trigger] final(self).potential_level.data@[i] as int
                    == fx_add_spec(
                    old(self).potential_level.data@[i] as int,
                    well_term_spec(
                        radius as int,
                        core_pot as int,
                        radial_spec(
                            i % (old(self).width as int),
                            i / (old(self).width as int),
                            xc as int,
                            yc as int,
                        ),
                    ),
                ),
    {
        let b: Fx = fx_div(fx_div(fx_div(fx_neg(core_pot), 196608), radius), radius);
        let a: Fx = fx_mul(fx_mul(fx_mul(131072, b), radius), radius);
        let neg_a: Fx = fx_neg(a);
        let rim: Fx = fx_mul(fx_mul(196608, radius), radius);
        let w: usize = self.width;
        let h: usize = self.height;
        let n: usize = self.potential_level.data.len();
        let ghost wi: int = w as int;
        let mut k: usize = 0;
        while k < n
            invariant
                k <= n,
                self.wf(),
                *self == (Universe { potential_level: self.potential_level, ..*old(self) }),
                self.potential_level.data@.len() == n,
                b as int == well_b_spec(radius as int, core_pot as int),
                neg_a as int == fx_neg_spec(well_a_spec(radius as int, core_pot as int)),
                rim as int == fx_mul_spec(fx_mul_spec(196608, radius as int), radius as int),
                forall|i: int|
                    0 <= i < k ==> #[trigger] self.potential_level.data@[i] as int == fx_add_spec(
                        old(self).potential_level.data@[i] as int,
                        well_term_spec(
                            radius as int,
                            core_pot as int,
                            radial_spec(i % wi, i / wi, xc as int, yc as int),
                        ),
                    ),
                forall|i: int|
                    k <= i < n ==> self.potential_level.data@[i] == old(
                        self,
                    ).potential_level.data@[i],
            decreases n - k,
        {
            proof {
                crate::absorb::lemma_index_rowcol(wi, h as int, k as int);
            }
            let x: usize = k % w;
            let y: usize = k / w;
            let r: Fx = radial(x, y, xc, yc);
            let lv: Fx = self.potential_level.data[k];
            if r < radius {
                self.potential_level.data.set(
                    k,
                    fx_add(lv, fx_mul(b, fx_sub(fx_mul(r, r), rim))),
                );
            } else {
                self.potential_level.data.set(k, fx_add(lv, fx_div(neg_a, r)));
            }
            k = k + 1;
        }
    }

    /// Superpose a Gaussian wave packet onto the complex field at every
    /// interior cell; border-ring cells are excluded. `sigma` must be at
    /// least 1/256 of a cell, so the envelope's denominator stays
    /// positive.
    #[verifier::loop_isolation(false)]
    pub fn add_gaussian(&mut self, c: Coord, sigma: Fx, fx_freq: Fx, fy_freq: Fx, a_scale: Fx)
        requires
            old(self).wf(),
            sigma >= 256,
        ensures
            final(self).wf(),
            *final(self) == (Universe { quantum: final(self).quantum, ..*old(self) }),
            forall|i: int|
                0 <= i < final(self).n() ==> #[trigger] final(self).quantum.data@[i] == (if
                interior_cell(old(self).width as int, old(self).height as int, i) {
                    crate::complex::complex_add_spec(
                        old(self).quantum.data@[i],
                        gauss_term_spec(
                            c,
                            sigma as int,
                            fx_freq as int,
                            fy_freq as int,
                            a_scale as int,
                            old(self).width as int,
                            old(self).height as int,
                            i % (old(self).width as int),
                            i / (old(self).width as int),
                        ),
                    )
                } else {
                    old(self).quantum.data@[i]
                }),
    {
        let amp: Fx = fx_mul(a_scale, FX_TWO_PI);
        let denom: Fx = fx_mul(fx_mul(FX_FOUR, sigma), sigma);
        proof {
            lemma_gauss_denom_pos(sigma as int);
        }
        let omega_x: Fx = fx_mul(FX_TWO_PI, fx_freq);
        let omega_y: Fx = fx_mul(FX_TWO_PI, fy_freq);
        let w: usize = self.width;
        let h: usize = self.height;
        let wfx: i64 = (w as i64) * 65536;
        let hfx: i64 = (h as i64) * 65536;
        let n: usize = self.quantum.data.len();
        let ghost wi: int = w as int;
        let ghost hi: int = h as int;
        let mut k: usize = 0;
        while k < n
            invariant
                k <= n,
                self.wf(),
                *self == (Universe { quantum: self.quantum, ..*old(self) }),
                self.quantum.data@.len() == n,
                denom as int == gauss_denom_spec(sigma as int),
                denom > 0,
                forall|i: int|
                    0 <= i < k ==> #[trigger] self.quantum.data@[i] == (if interior_cell(
                        wi,
                        hi,
                        i,
                    ) {
                        crate::complex::complex_add_spec(
                            old(self).quantum.data@[i],
                            gauss_term_spec(
                                c,
                                sigma as int,
                                fx_freq as int,
                                fy_freq as int,
                                a_scale as int,
                                wi,
                                hi,
                                i % wi,
                                i / wi,
                            ),
                        )
                    } else {
                        old(self).quantum.data@[i]
                    }),
                forall|i: int| k <= i < n ==> self.quantum.data@[i] == old(self).quantum.data@[i],
            decreases n - k,
        {
            proof {
                crate::absorb::lemma_index_rowcol(wi, hi, k as int);
            }
            let x: usize = k % w;
            let y: usize = k / w;
            if 1 <= x && x < w - 1 && 1 <= y && y < h - 1 {
                let env: Fx = gauss_env(x, y, c.x, c.y, denom);
                let tx: Fx = fx_div(fx_mul(omega_x, (x as i64) * 65536), wfx);
                let ty: Fx = fx_div(fx_mul(omega_y, (y as i64) * 65536), hfx);
                let cosx: Fx = cos_fx(tx);
                let cosy: Fx = cos_fx(ty);
                let sinx: Fx = sin_fx(tx);
                let siny: Fx = sin_fx(ty);
                let re: Fx = fx_mul(fx_mul(fx_mul(amp, env), cosx), cosy);
                let im: Fx = fx_mul(fx_mul(fx_mul(amp, env), sinx), siny);
                let cx: Complex = self.quantum.data[k];
                self.quantum.data.set(k, cx.add(&Complex { re, im }));
            }
            k = k + 1;
        }
    }

    /// Inject a standard interactive perturbation at the given cell: a
    /// Gaussian packet of width 2 with no plane-wave modulation.
    pub fn toggle_cell(&mut self, row: i32, column: i32)
        requires
            old(self).wf(),
        ensures
            final(self).wf(),
            *final(self) == (Universe { quantum: final(self).quantum, ..*old(self) }),
            forall|i: int|
                0 <= i < final(self).n() ==> #[trigger] final(self).quantum.data@[i] == (if
                interior_cell(old(self).width as int, old(self).height as int, i) {
                    crate::complex::complex_add_spec(
                        old(self).quantum.data@[i],
                        gauss_term_spec(
                            Coord { x: column, y: row },
                            131072,
                            0,
                            0,
                            65536,
                            old(self).width as int,
                            old(self).height as int,
                            i % (old(self).width as int),
                            i / (old(self).width as int),
                        ),
                    )
                } else {
                    old(self).quantum.data@[i]
                }),
    {
        self.add_gaussian(Coord::new(column, row), 131072, 0, 0, 65536);
    }

    /// One-time initialization: fix the timestep and tilt bound, derive
    /// the damping multipliers from the masks, zero the field at walls,
    /// and normalize the potential landscape.
    pub fn setup(&mut self)
        requires
            old(self).wf(),
        ensures
            final(self).wf(),
            final(self).width == old(self).width,
            final(self).height == old(self).height,
            final(self).walls == old(self).walls,
            final(self).sinks == old(self).sinks,
            final(self).potential_cache == old(self).potential_cache,
            final(self).dt == DEFAULT_DT,
            final(self).max_tilt == DEFAULT_MAX_TILT,
            forall|i: int|
                0 <= i < final(self).n() ==> #[trigger] final(self).sink_mult.data@[i] as int
                    == mult_of_dist_spec(
                    graph_dist(
                        free_mask(old(self).walls.data@, old(self).sinks.data@),
                        old(self).width as int,
                        old(self).n(),
                        i,
                    ),
                    old(self).n(),
                ),
            forall|i: int|
                0 <= i < final(self).n() && !old(self).walls.data@[i] && !old(
                    self,
                ).sinks.data@[i] ==> final(self).sink_mult.data@[i] == FX_ONE,
            forall|i: int|
                0 <= i < final(self).n() ==> final(self).quantum.data@[i] == (if old(
                    self,
                ).walls.data@[i] {
                    Complex { re: 0i64, im: 0i64 }
                } else {
                    old(self).quantum.data@[i]
                }),
            final(self).potential_level.data@ == normalized(old(self).potential_level.data@),
    {
        self.dt = DEFAULT_DT;
        self.max_tilt = DEFAULT_MAX_TILT;
        self.setup_sink_mult();
        self.setup_walls();
        self.ensure_no_positive_potential();
    }

    /// Grayscale bytes for the potential landscape, three per cell.
    pub fn potential_level(&self) -> (r: Vec<u8>)
        requires
            self.wf(),
        ensures
            r@.len() == 3 * self.n(),
            gray_ok_upto(r@, self.potential_level.data@, self.n()),
    {
        gray_bytes(&self.potential_level)
    }

    /// Grayscale bytes for the potential cache, three per cell.
    pub fn potential_cache(&self) -> (r: Vec<u8>)
        requires
            self.wf(),
        ensures
            r@.len() == 3 * self.n(),
            gray_ok_upto(r@, self.potential_cache.data@, self.n()),
    {
        gray_bytes(&self.potential_cache)
    }
}

/// The first `k` cells are rendered: three equal grayscale bytes each.
pub open spec fn gray_ok_upto(r: Seq<u8>, s: Seq<i64>, k: int) -> bool {
    forall|i: int|
        0 <= i < k ==> r[3 * i] as int == gray_of((#[trigger] s[i]) as int) && r[3 * i + 1] == r[3
            * i] && r[3 * i + 2] == r[3 * i]
}

/// A positive width keeps the Gaussian denominator positive.
proof fn lemma_gauss_denom_pos(sigma: int)
    requires
        sigma >= 256,
    ensures
        gauss_denom_spec(sigma) > 0,
{
    let four_sigma = fx_mul_spec(FX_FOUR as int, sigma);
    assert(four_sigma > 0) by (nonlinear_arith)
        requires
            sigma >= 256,
            four_sigma == crate::fixed::clip(crate::fixed::tdiv(262144 * sigma, 65536));
    assert(fx_mul_spec(four_sigma, sigma) > 0) by (nonlinear_arith)
        requires
            sigma >= 256,
            four_sigma >= 1024 || four_sigma == 0x7fff_ffff_ffff_ffff;
}

/// The fixed-point distance from cell (x, y) to the center (xc, yc).
fn radial(x: usize, y: usize, xc: i32, yc: i32) -> (r: Fx)
    requires
        x <= 0x8000,
        y <= 0x8000,
    ensures
        r as int == radial_spec(x as int, y as int, xc as int, yc as int),
        r >= 0,
{
    let dx: i64 = x as i64 - xc as i64;
    let dy: i64 = y as i64 - yc as i64;
    proof {
        assert(dx as int * dx as int <= 0x1_0000_0000_0000_0000 && dy as int * dy as int
            <= 0x1_0000_0000_0000_0000 && dx as int * dx as int >= 0 && dy as int * dy as int
            >= 0) by (nonlinear_arith)
            requires
                -0x1_0000_0000 <= dx as int <= 0x1_0000_0000,
                -0x1_0000_0000 <= dy as int <= 0x1_0000_0000;
    }
    let d2: i128 = (dx as i128) * (dx as i128) + (dy as i128) * (dy as i128);
    let v: u128 = (d2 as u128) * 0x1_0000_0000;
    let r64: u64 = isqrt_u128(v);
    proof {
        crate::fixmath::lemma_isqrt_unique(v as int, r64 as int);
        assert(r64 as int * r64 as int <= v as int);
        assert(r64 as int <= 0x2_0000_0000_0000) by (nonlinear_arith)
            requires
                r64 as int * r64 as int <= v as int,
                v as int <= 0x2_0000_0000_0000_0000_0000_0000,
                r64 as int >= 0;
    }
    r64 as i64
}

/// The Gaussian envelope at cell (x, y) for the given denominator.
fn gauss_env(x: usize, y: usize, xc: i32, yc: i32, d: Fx) -> (r: Fx)
    requires
        x <= 0x8000,
        y <= 0x8000,
        d > 0,
    ensures
        r as int == gauss_env_spec(
            (x - xc) * (x - xc) + (y - yc) * (y - yc),
            d as int,
        ),
{
    let dx: i64 = x as i64 - xc as i64;
    let dy: i64 = y as i64 - yc as i64;
    proof {
        assert(dx as int * dx as int <= 0x1_0000_0000_0000_0000 && dy as int * dy as int
            <= 0x1_0000_0000_0000_0000 && dx as int * dx as int >= 0 && dy as int * dy as int
            >= 0) by (nonlinear_arith)
            requires
                -0x1_0000_0000 <= dx as int <= 0x1_0000_0000,
                -0x1_0000_0000 <= dy as int <= 0x1_0000_0000;
    }
    let d2: i128 = (dx as i128) * (dx as i128) + (dy as i128) * (dy as i128);
    let arg: u128 = (d2 as u128) * 0x1_0000_0000 / (d as u128);
    if arg >= 0x100_0000 {
        0
    } else {
        exp_neg(arg as i64)
    }
}

/// Convert one scalar to its grayscale byte.
fn gray_byte(v: Fx) -> (r: u8)
    ensures
        r as int == gray_of(v as int),
{
    let g: i128 = 255 * 65536 - (v as i128) * 255;
    if g < 0 {
        0
    } else {
        let b: i128 = g / 65536;
        if b > 255 {
            255
        } else {
            b as u8
        }
    }
}

/// Render a scalar grid as a flat RGB byte buffer, three equal channel
/// bytes per cell.
fn gray_bytes(g: &Grid<Fx>) -> (r: Vec<u8>)
    ensures
        r@.len() == 3 * g.data@.len(),
        gray_ok_upto(r@, g.data@, g.data@.len() as int),
{
    let n: usize = g.data.len();
    let mut r: Vec<u8> = Vec::new();
    let mut k: usize = 0;
    while k < n
        invariant
            k <= n,
            n == g.data@.len(),
            r@.len() == 3 * k,
            gray_ok_upto(r@, g.data@, k as int),
        decreases n - k,
    {
        let b = gray_byte(g.data[k]);
        r.push(b);
        r.push(b);
        r.push(b);
        k = k + 1;
    }
    r
}

/// Normalization leaves the maximum at exactly 0 and keeps every pairwise
/// difference, whenever the field's values are moderate enough that the
/// saturating subtraction is exact (any magnitude up to 2^61 qualifies).
pub proof fn lemma_normalize(s: Seq<i64>)
    requires
        s.len() > 0,
        forall|i: int|
            0 <= i < s.len() ==> -0x2000_0000_0000_0000 <= #[trigger] s[i]
                <= 0x2000_0000_0000_0000,
    ensures
        seq_max(normalized(s)) == 0,
        forall|i: int, j: int|
            0 <= i < s.len() && 0 <= j < s.len() ==> normalized(s)[i] - normalized(s)[j] == s[i]
                - s[j],
{
    lemma_seq_max_props(s);
    let m = seq_max(s);
    let ns = normalized(s);
    assert(forall|i: int| 0 <= i < s.len() ==> #[trigger] ns[i] == s[i] - m);
    let wit = choose|i: int| 0 <= i < s.len() && #[trigger] s[i] == m;
    assert(ns[wit] == 0);
    lemma_seq_max_props(ns);
    let mwit = choose|i: int| 0 <= i < ns.len() && #[trigger] ns[i] == seq_max(ns);
    assert(seq_max(ns) <= 0 && seq_max(ns) >= ns[wit]);
}

} // verus!
