//! The line and curve generator and the shape renderers.
//!
//! A straight segment becomes one cubic curve whose endpoints are jittered
//! (unless vertices are preserved or roughness is zero) and whose control
//! points bow perpendicular to the segment; by default every segment is
//! drawn twice with independent jitter. An ordered point sequence becomes a
//! smooth cubic spline. All randomness comes from the caller's
//! [`RandomSource`], so every contract here relates the result to the
//! source's state exactly or by explicit envelope bounds.

use crate::fixed::{
    abs_v, cos_fx_v, fx_mul, fx_mul_v, idiv, isqrt_u128, lemma_fx_mul_bound, lemma_fx_scale,
    lemma_tdiv_abs, lemma_tdiv_le, lemma_tdiv_mono, max_abs_v, sin_fx_v, tdiv, FX_ONE, HALF_PI_FX,
    TWO_PI_FX,
};
use crate::geometry::{point_within, points_within, Point};
use crate::model::{FillError, FillStyle, Op, OpSet, OpSetType, OpType, Options};
use crate::rng::{
    lemma_nth_state_add, lemma_reaches_nth, lemma_reaches_refl, lemma_reaches_trans, next_state_v,
    nth_state_v, reaches_v, unit_v, RandomSource,
};
use vstd::arithmetic::div_mod::{lemma_div_by_multiple, lemma_div_of0, lemma_div_pos_is_pos};
use vstd::prelude::*;

verus! {

/// Coordinates accepted by the segment renderers.
pub const LINE_LIMIT: i64 = 200_000_000_000_000;

/// Coordinates accepted by the point-list renderers.
pub const PATH_LIMIT: i64 = 20_000_000_000_000;

/// The largest magnitude a sampled jitter added to a vertex can have:
/// twenty times the largest allowed randomness offset.
pub const JITTER_LIMIT: i64 = 20_000_000_000;

/// The largest base magnitude the offset sampler accepts.
const OFFSET_ARG_LIMIT: i64 = 200_000_000_000_000_000;

/// The value `min + u * (max - min)`, for a fixed-point sample `u` in
/// `[0, FX_ONE)`: a point of the interval chosen by the sample.
pub open spec fn offset_inner_v(min: int, max: int, u: int) -> int {
    min + fx_mul_v(u, max - min)
}

/// The sampled offset: `roughness * gain * (min + u * (max - min))`.
pub open spec fn offset_v(min: int, max: int, roughness: int, gain: int, u: int) -> int {
    fx_mul_v(fx_mul_v(roughness, gain), offset_inner_v(min, max, u))
}

/// The number of operations one perturbed segment emits: a move and a curve
/// per pass, with two passes unless multi-stroke is disabled.
pub open spec fn stroke_op_count(o: Options) -> int {
    if o.disable_multi_stroke {
        2
    } else {
        4
    }
}

/// The options-scaled cap on one endpoint jitter sample: roughness times
/// the randomness offset, halved for the overlay pass.
pub open spec fn scaled_jitter_v(o: Options, overlay: bool) -> int {
    fx_mul_v(
        o.roughness as int,
        if overlay {
            tdiv(o.max_randomness_offset as int, 2)
        } else {
            o.max_randomness_offset as int
        },
    )
}

/// One stroke pass over the segment `(x1, y1)-(x2, y2)`: a well-formed move
/// followed by a well-formed cubic curve, whose start and end stay within
/// the options-scaled jitter envelope of the segment's endpoints (half of
/// it for the overlay pass), exactly the endpoints when vertices are
/// preserved or roughness is zero, and whose control points at zero
/// roughness sit on the segment at the sampled divergence and twice it.
pub open spec fn move_curve_pair_ok(
    m: Op,
    c: Op,
    x1: int,
    y1: int,
    x2: int,
    y2: int,
    o: Options,
    overlay: bool,
) -> bool {
    &&& m.op == OpType::Move
    &&& m.wf()
    &&& c.op == OpType::BcurveTo
    &&& c.wf()
    &&& abs_v(m.data@[0] - x1) <= JITTER_LIMIT as int
    &&& abs_v(m.data@[1] - y1) <= JITTER_LIMIT as int
    &&& abs_v(c.data@[4] - x2) <= JITTER_LIMIT as int
    &&& abs_v(c.data@[5] - y2) <= JITTER_LIMIT as int
    &&& abs_v(m.data@[0] - x1) <= scaled_jitter_v(o, overlay)
    &&& abs_v(m.data@[1] - y1) <= scaled_jitter_v(o, overlay)
    &&& abs_v(c.data@[4] - x2) <= scaled_jitter_v(o, overlay)
    &&& abs_v(c.data@[5] - y2) <= scaled_jitter_v(o, overlay)
    &&& ((o.preserve_vertices || o.roughness == 0) ==> (m.data@[0] == x1 && m.data@[1] == y1
        && c.data@[4] == x2 && c.data@[5] == y2))
    &&& (o.roughness == 0 ==> (exists|dp: int|
        200_000 <= dp <= 400_000 && c.data@[0] == x1 + #[trigger] fx_mul_v(x2 - x1, dp)
            && c.data@[1] == y1 + fx_mul_v(y2 - y1, dp) && c.data@[2] == x1 + fx_mul_v(
            x2 - x1,
            2 * dp,
        ) && c.data@[3] == y1 + fx_mul_v(y2 - y1, 2 * dp)))
}

/// The full operation list of one perturbed (possibly double) segment: a
/// full-jitter pass, then a half-jitter overlay pass unless multi-stroke
/// is disabled.
#[verifier::opaque]
pub open spec fn double_line_ops_ok(
    ops: Seq<Op>,
    x1: int,
    y1: int,
    x2: int,
    y2: int,
    o: Options,
) -> bool {
    &&& ops.len() == stroke_op_count(o)
    &&& move_curve_pair_ok(ops[0], ops[1], x1, y1, x2, y2, o, false)
    &&& (!o.disable_multi_stroke ==> move_curve_pair_ok(ops[2], ops[3], x1, y1, x2, y2, o, true))
    &&& forall|i: int| 0 <= i < ops.len() ==> (#[trigger] ops[i]).wf()
}

/// The sampled interval point stays inside the interval.
proof fn lemma_offset_inner(min: int, max: int, u: int)
    requires
        0 <= u < 1_000_000,
    ensures
        abs_v(offset_inner_v(min, max, u)) <= max_abs_v(min, max),
        min <= max ==> min <= offset_inner_v(min, max, u) <= max,
{
    let d = max - min;
    lemma_div_of0(FX_ONE as int);
    if d >= 0 {
        assert(0 <= u * d <= 1_000_000 * d) by (nonlinear_arith)
            requires
                0 <= u < 1_000_000,
                d >= 0,
        ;
        lemma_tdiv_mono(0, u * d, FX_ONE as int);
        lemma_tdiv_mono(u * d, 1_000_000 * d, FX_ONE as int);
        lemma_div_by_multiple(d, FX_ONE as int);
        assert(1_000_000 * d == d * 1_000_000);
        assert(tdiv(1_000_000 * d, FX_ONE as int) == d);
    } else {
        assert(1_000_000 * d <= u * d && u * d <= 0) by (nonlinear_arith)
            requires
                0 <= u < 1_000_000,
                d < 0,
        ;
        lemma_tdiv_mono(1_000_000 * d, u * d, FX_ONE as int);
        lemma_tdiv_mono(u * d, 0, FX_ONE as int);
        lemma_div_by_multiple(-d, FX_ONE as int);
        assert(-(1_000_000 * d) == (-d) * 1_000_000);
        assert(tdiv(1_000_000 * d, FX_ONE as int) == d);
    }
}

/// The sampled offset is at most twenty times the base magnitude, and is
/// exactly zero when roughness is zero.
proof fn lemma_offset_envelope(min: int, max: int, roughness: int, gain: int, u: int)
    requires
        0 <= roughness <= 10_000_000,
        0 <= gain <= 2_000_000,
        0 <= u < 1_000_000,
    ensures
        abs_v(offset_v(min, max, roughness, gain, u)) <= 20 * max_abs_v(min, max),
        roughness == 0 ==> offset_v(min, max, roughness, gain, u) == 0,
{
    lemma_offset_inner(min, max, u);
    let inner = offset_inner_v(min, max, u);
    let m = max_abs_v(min, max);
    let rg = fx_mul_v(roughness, gain);
    lemma_fx_mul_bound(roughness, gain, 10_000_000, 2_000_000);
    lemma_div_by_multiple(20_000_000, FX_ONE as int);
    assert(tdiv(10_000_000int * 2_000_000int, FX_ONE as int) == 20_000_000);
    assert(abs_v(rg) <= 20_000_000);
    lemma_fx_mul_bound(rg, inner, 20_000_000, m);
    lemma_div_by_multiple(20 * m, FX_ONE as int);
    assert(20_000_000 * m == (20 * m) * 1_000_000) by (nonlinear_arith);
    assert(tdiv(20_000_000 * m, FX_ONE as int) == 20 * m);
    if roughness == 0 {
        assert(roughness * gain == 0) by (nonlinear_arith)
            requires
                roughness == 0,
        ;
        assert(tdiv(0, FX_ONE as int) == 0);
        assert(rg == 0);
        assert(rg * inner == 0) by (nonlinear_arith)
            requires
                rg == 0,
        ;
        assert(offset_v(min, max, roughness, gain, u) == 0);
    }
}

/// The determinism floor: with zero roughness, every sampled offset is
/// exactly zero, whatever the interval, the gain and the drawn sample, so
/// all perturbation-derived displacement vanishes.
pub proof fn lemma_zero_roughness_offset_is_zero(min: int, max: int, gain: int, u: int)
    requires
        0 <= gain <= 2_000_000,
        0 <= u < 1_000_000,
    ensures
        offset_v(min, max, 0, gain, u) == 0,
{
    lemma_offset_envelope(min, max, 0, gain, u);
}

/// Draws one sample and scales it into `[min, max)`-proportioned jitter,
/// multiplied by roughness and the segment's gain.
fn _offset(min: i64, max: i64, o: &Options, roughness_gain: i64, rs: &mut RandomSource) -> (r: i64)
    requires
        o.valid(),
        0 <= roughness_gain <= 2_000_000,
        abs_v(min as int) <= OFFSET_ARG_LIMIT as int,
        abs_v(max as int) <= OFFSET_ARG_LIMIT as int,
    ensures
        final(rs).state == next_state_v(old(rs).state),
        r as int == offset_v(
            min as int,
            max as int,
            o.roughness as int,
            roughness_gain as int,
            unit_v(final(rs).state),
        ),
        abs_v(r as int) <= 20 * max_abs_v(min as int, max as int),
        abs_v(r as int) <= fx_mul_v(
            fx_mul_v(o.roughness as int, roughness_gain as int),
            max_abs_v(min as int, max as int),
        ),
        o.roughness == 0 ==> r == 0,
{
    let u: i64 = rs.next_unit();
    let d: i64 = max - min;
    proof {
        lemma_fx_mul_bound(u as int, d as int, 1_000_000, 2 * (OFFSET_ARG_LIMIT as int));
        lemma_offset_inner(min as int, max as int, u as int);
        lemma_offset_envelope(
            min as int,
            max as int,
            o.roughness as int,
            roughness_gain as int,
            u as int,
        );
        lemma_fx_mul_bound(o.roughness as int, roughness_gain as int, 10_000_000, 2_000_000);
    }
    let scaled: i64 = fx_mul(u, d);
    let inner: i64 = min + scaled;
    let rg: i64 = fx_mul(o.roughness, roughness_gain);
    proof {
        lemma_fx_mul_bound(
            rg as int,
            inner as int,
            20_000_000,
            max_abs_v(min as int, max as int),
        );
        assert((o.roughness as int) * (roughness_gain as int) >= 0) by (nonlinear_arith)
            requires
                o.roughness as int >= 0,
                roughness_gain as int >= 0,
        ;
        lemma_tdiv_le(
            0,
            (o.roughness as int) * (roughness_gain as int),
            FX_ONE as int,
        );
        lemma_fx_mul_bound(rg as int, inner as int, rg as int, max_abs_v(min as int, max as int));
        assert(20_000_000 * max_abs_v(min as int, max as int) <= 20_000_000 * (
        OFFSET_ARG_LIMIT as int)) by (nonlinear_arith)
            requires
                max_abs_v(min as int, max as int) <= OFFSET_ARG_LIMIT as int,
        ;
        lemma_tdiv_le(0, 20_000_000 * (OFFSET_ARG_LIMIT as int), FX_ONE as int);
        lemma_tdiv_mono(
            20_000_000 * max_abs_v(min as int, max as int),
            20_000_000 * (OFFSET_ARG_LIMIT as int),
            FX_ONE as int,
        );
    }
    fx_mul(rg, inner)
}

/// Draws one symmetric jitter sample in `[-x, x)` scale.
fn _offset_opt(x: i64, o: &Options, roughness_gain: i64, rs: &mut RandomSource) -> (r: i64)
    requires
        o.valid(),
        0 <= roughness_gain <= 2_000_000,
        abs_v(x as int) <= OFFSET_ARG_LIMIT as int,
    ensures
        final(rs).state == next_state_v(old(rs).state),
        r as int == offset_v(
            -(x as int),
            x as int,
            o.roughness as int,
            roughness_gain as int,
            unit_v(final(rs).state),
        ),
        abs_v(r as int) <= 20 * abs_v(x as int),
        abs_v(r as int) <= fx_mul_v(
            fx_mul_v(o.roughness as int, roughness_gain as int),
            abs_v(x as int),
        ),
        o.roughness == 0 ==> r == 0,
{
    let r: i64 = _offset(-x, x, o, roughness_gain, rs);
    proof {
        assert(max_abs_v(-(x as int), x as int) == abs_v(x as int));
    }
    r
}

/// The perturbation parameters of one segment: the roughness gain (full
/// for short segments, reduced for long ones) and the jitter magnitude,
/// clamped so that it never exceeds a hundredth of the segment's length
/// scale, with its half for overlay passes.
fn _segment_params(x1: i64, y1: i64, x2: i64, y2: i64, o: &Options) -> (p: (i64, i64, i64))
    requires
        o.valid(),
        abs_v(x1 as int) <= LINE_LIMIT as int,
        abs_v(y1 as int) <= LINE_LIMIT as int,
        abs_v(x2 as int) <= LINE_LIMIT as int,
        abs_v(y2 as int) <= LINE_LIMIT as int,
    ensures
        0 <= p.0 <= 1_000_000,
        0 <= p.1 <= o.max_randomness_offset,
        0 <= p.2 <= p.1,
        p.2 as int <= tdiv(o.max_randomness_offset as int, 2),
{
    let dx: i64 = x2 - x1;
    let dy: i64 = y2 - y1;
    let ax: u64 = if dx < 0 {
        (-dx) as u64
    } else {
        dx as u64
    };
    let ay: u64 = if dy < 0 {
        (-dy) as u64
    } else {
        dy as u64
    };
    proof {
        assert((ax as int) * (ax as int) <= 160_000_000_000_000_000_000_000_000_000int)
            by (nonlinear_arith)
            requires
                0 <= (ax as int) && (ax as int) <= 400_000_000_000_000int,
        ;
        assert((ay as int) * (ay as int) <= 160_000_000_000_000_000_000_000_000_000int)
            by (nonlinear_arith)
            requires
                0 <= (ay as int) && (ay as int) <= 400_000_000_000_000int,
        ;
    }
    let sq: u128 = (ax as u128) * (ax as u128) + (ay as u128) * (ay as u128);
    let length_u: u64 = isqrt_u128(sq);
    let roughness_gain: i64 = if length_u < 200_000_000 {
        1_000_000
    } else if length_u > 500_000_000 {
        400_000
    } else {
        let scaled: u64 = (length_u * 16_668) / 10_000_000;
        proof {
            vstd::arithmetic::div_mod::lemma_div_is_ordered(
                200_000_000int * 16_668,
                (length_u as int) * 16_668,
                10_000_000int,
            );
            vstd::arithmetic::div_mod::lemma_div_is_ordered(
                (length_u as int) * 16_668,
                500_000_000int * 16_668,
                10_000_000int,
            );
        }
        1_233_334 - (scaled as i64)
    };
    let mut offset: i64 = o.max_randomness_offset;
    proof {
        assert((offset as int) * (offset as int) * 100 <= 100_000_000_000_000_000_000int)
            by (nonlinear_arith)
            requires
                0 <= (offset as int) && (offset as int) <= 1_000_000_000int,
        ;
    }
    let off100: u128 = (offset as u128) * (offset as u128) * 100;
    if off100 > sq {
        proof {
            assert(length_u as int <= 10 * (offset as int)) by (nonlinear_arith)
                requires
                    (length_u as int) * (length_u as int) <= sq as int,
                    (sq as int) < (offset as int) * (offset as int) * 100,
                    length_u as int >= 0,
                    offset as int >= 0,
            ;
            vstd::arithmetic::div_mod::lemma_div_is_ordered(
                length_u as int,
                100 * (offset as int),
                100int,
            );
            lemma_div_by_multiple(offset as int, 100int);
            assert(100 * (offset as int) == (offset as int) * 100);
        }
        offset = (length_u / 100) as i64;
    }
    let half_offset: i64 = ((offset as u64) / 2) as i64;
    proof {
        vstd::arithmetic::div_mod::lemma_div_is_ordered(offset as int, 2 * (offset as int), 2int);
        lemma_div_by_multiple(offset as int, 2int);
        lemma_tdiv_mono(offset as int, o.max_randomness_offset as int, 2);
    }
    (roughness_gain, offset, half_offset)
}

/// The base magnitude of the bow displacement perpendicular to a segment:
/// `bowing * max_randomness_offset * delta / 200`.
fn _bow_base(delta: i64, o: &Options) -> (r: i64)
    requires
        o.valid(),
        abs_v(delta as int) <= 2 * (LINE_LIMIT as int),
    ensures
        abs_v(r as int) <= OFFSET_ARG_LIMIT as int,
{
    proof {
        lemma_fx_mul_bound(o.bowing as int, o.max_randomness_offset as int, 100_000_000,
        1_000_000_000);
        lemma_tdiv_abs(delta as int, 200);
        lemma_tdiv_mono(abs_v(delta as int), 400_000_000_000_000int, 200);
        lemma_div_by_multiple(2_000_000_000_000int, 200int);
    }
    let bm: i64 = fx_mul(o.bowing, o.max_randomness_offset);
    proof {
        lemma_fx_mul_bound(bm as int, tdiv(delta as int, 200), 100_000_000_000, 2_000_000_000_000);
    }
    fx_mul(bm, idiv(delta, 200))
}

/// One control-point coordinate of the bowed curve: the vertex displaced by
/// the bow, moved along the segment by the divergence fraction, and
/// jittered.
fn _ctrl_coord(md: i64, v: i64, delta: i64, dp: i64, f: i64) -> (r: i64)
    requires
        abs_v(md as int) <= 4_000_000_000_000_000_000,
        abs_v(v as int) <= LINE_LIMIT as int,
        abs_v(delta as int) <= 2 * (LINE_LIMIT as int),
        0 <= dp <= 800_000,
        abs_v(f as int) <= JITTER_LIMIT as int,
    ensures
        r as int == (md as int) + (v as int) + fx_mul_v(delta as int, dp as int) + (f as int),
{
    proof {
        lemma_fx_mul_bound(delta as int, dp as int, 400_000_000_000_000, 800_000);
    }
    md + v + fx_mul(delta, dp) + f
}

/// One perturbed stroke pass over a segment: a move to the (possibly
/// jittered) start, then a cubic curve bowing perpendicular to the segment
/// and ending at the (possibly jittered) end. `overlay` selects the
/// half-magnitude jitter of the second pass.
#[verifier::rlimit(100)]
fn _line(
    x1: i64,
    y1: i64,
    x2: i64,
    y2: i64,
    o: &Options,
    ismove: bool,
    overlay: bool,
    rs: &mut RandomSource,
) -> (ops: Vec<Op>)
    requires
        o.valid(),
        abs_v(x1 as int) <= LINE_LIMIT as int,
        abs_v(y1 as int) <= LINE_LIMIT as int,
        abs_v(x2 as int) <= LINE_LIMIT as int,
        abs_v(y2 as int) <= LINE_LIMIT as int,
    ensures
        final(rs).state == nth_state_v(old(rs).state, 11),
        ops@.len() == (if ismove {
            2int
        } else {
            1int
        }),
        forall|i: int| 0 <= i < ops@.len() ==> (#[trigger] ops@[i]).wf(),
        ismove ==> move_curve_pair_ok(
            ops@[0],
            ops@[1],
            x1 as int,
            y1 as int,
            x2 as int,
            y2 as int,
            *o,
            overlay,
        ),
        !ismove ==> ops@[0].op == OpType::BcurveTo && abs_v(ops@[0].data@[4] - x2 as int)
            <= JITTER_LIMIT as int && abs_v(ops@[0].data@[5] - y2 as int) <= JITTER_LIMIT as int
            && ((o.preserve_vertices || o.roughness == 0) ==> (ops@[0].data@[4] == x2 as int
            && ops@[0].data@[5] == y2 as int)),
{
    let ghost s0: u64 = rs.state;
    let dx: i64 = x2 - x1;
    let dy: i64 = y2 - y1;
    let params: (i64, i64, i64) = _segment_params(x1, y1, x2, y2, o);
    let roughness_gain: i64 = params.0;
    let offset: i64 = params.1;
    let half_offset: i64 = params.2;
    let u_dp: i64 = rs.next_unit();
    proof {
        crate::rng::lemma_nth_state_succ(s0, 0);
        assert(rs.state == nth_state_v(s0, 1));
        lemma_fx_mul_bound(u_dp as int, 200_000, 1_000_000, 200_000);
        lemma_tdiv_le(0, (u_dp as int) * 200_000, FX_ONE as int);
        assert(0 <= (u_dp as int) * 200_000) by (nonlinear_arith)
            requires
                0 <= u_dp as int,
        ;
        lemma_tdiv_abs((u_dp as int) * 200_000, FX_ONE as int);
    }
    let diverge_point: i64 = 200_000 + fx_mul(u_dp, 200_000);
    let base_x: i64 = _bow_base(dy, o);
    let mid_disp_x: i64 = _offset_opt(base_x, o, roughness_gain, rs);
    proof {
        crate::rng::lemma_nth_state_succ(s0, 1);
    }
    let base_y: i64 = _bow_base(x1 - x2, o);
    let mid_disp_y: i64 = _offset_opt(base_y, o, roughness_gain, rs);
    proof {
        crate::rng::lemma_nth_state_succ(s0, 2);
    }
    let jitter_base: i64 = if overlay {
        half_offset
    } else {
        offset
    };
    let j1: i64 = _offset_opt(jitter_base, o, roughness_gain, rs);
    proof {
        crate::rng::lemma_nth_state_succ(s0, 3);
    }
    let j2: i64 = _offset_opt(jitter_base, o, roughness_gain, rs);
    proof {
        crate::rng::lemma_nth_state_succ(s0, 4);
    }
    let f1: i64 = _offset_opt(jitter_base, o, roughness_gain, rs);
    proof {
        crate::rng::lemma_nth_state_succ(s0, 5);
    }
    let f2: i64 = _offset_opt(jitter_base, o, roughness_gain, rs);
    proof {
        crate::rng::lemma_nth_state_succ(s0, 6);
    }
    let f3: i64 = _offset_opt(jitter_base, o, roughness_gain, rs);
    proof {
        crate::rng::lemma_nth_state_succ(s0, 7);
    }
    let f4: i64 = _offset_opt(jitter_base, o, roughness_gain, rs);
    proof {
        crate::rng::lemma_nth_state_succ(s0, 8);
    }
    let e1: i64 = _offset_opt(jitter_base, o, roughness_gain, rs);
    proof {
        crate::rng::lemma_nth_state_succ(s0, 9);
    }
    let e2: i64 = _offset_opt(jitter_base, o, roughness_gain, rs);
    proof {
        crate::rng::lemma_nth_state_succ(s0, 10);
        assert(rs.state == nth_state_v(s0, 11));
    }
    let pv: bool = o.preserve_vertices;
    let mut ops: Vec<Op> = Vec::new();
    if ismove {
        let mx: i64 = x1 + (if pv {
            0
        } else {
            j1
        });
        let my: i64 = y1 + (if pv {
            0
        } else {
            j2
        });
        let mut mdata: Vec<i64> = Vec::new();
        mdata.push(mx);
        mdata.push(my);
        ops.push(Op { op: OpType::Move, data: mdata });
    }
    let c1x: i64 = _ctrl_coord(mid_disp_x, x1, dx, diverge_point, f1);
    let c1y: i64 = _ctrl_coord(mid_disp_y, y1, dy, diverge_point, f2);
    let c2x: i64 = _ctrl_coord(mid_disp_x, x1, dx, 2 * diverge_point, f3);
    let c2y: i64 = _ctrl_coord(mid_disp_y, y1, dy, 2 * diverge_point, f4);
    let ex: i64 = x2 + (if pv {
        0
    } else {
        e1
    });
    let ey: i64 = y2 + (if pv {
        0
    } else {
        e2
    });
    proof {
        let rough = o.roughness as int;
        let cap = if overlay {
            tdiv(o.max_randomness_offset as int, 2)
        } else {
            o.max_randomness_offset as int
        };
        crate::fixed::lemma_fx_mul_mono(rough, rough, roughness_gain as int, 1_000_000);
        lemma_div_by_multiple(rough, FX_ONE as int);
        assert(fx_mul_v(rough, 1_000_000) == rough);
        crate::fixed::lemma_fx_mul_mono(
            fx_mul_v(rough, roughness_gain as int),
            rough,
            abs_v(jitter_base as int),
            cap,
        );
        assert(abs_v(j1 as int) <= scaled_jitter_v(*o, overlay));
        assert(abs_v(j2 as int) <= scaled_jitter_v(*o, overlay));
        assert(abs_v(e1 as int) <= scaled_jitter_v(*o, overlay));
        assert(abs_v(e2 as int) <= scaled_jitter_v(*o, overlay));
        if o.roughness == 0 {
            assert(200_000 <= diverge_point as int <= 400_000);
            assert(c1x as int == x1 as int + fx_mul_v(
                x2 as int - x1 as int,
                diverge_point as int,
            ));
            assert(c1y as int == y1 as int + fx_mul_v(
                y2 as int - y1 as int,
                diverge_point as int,
            ));
            assert(c2x as int == x1 as int + fx_mul_v(
                x2 as int - x1 as int,
                2 * (diverge_point as int),
            ));
            assert(c2y as int == y1 as int + fx_mul_v(
                y2 as int - y1 as int,
                2 * (diverge_point as int),
            ));
        }
    }
    let mut cdata: Vec<i64> = Vec::new();
    cdata.push(c1x);
    cdata.push(c1y);
    cdata.push(c2x);
    cdata.push(c2y);
    cdata.push(ex);
    cdata.push(ey);
    ops.push(Op { op: OpType::BcurveTo, data: cdata });
    ops
}

/// The perturbed rendering of one segment: one stroke pass, or two with
/// independent jitter when multi-stroke is enabled. Exactly two operations
/// per pass.
pub fn _double_line(x1: i64, y1: i64, x2: i64, y2: i64, o: &Options, rs: &mut RandomSource) -> (ops:
    Vec<Op>)
    requires
        o.valid(),
        abs_v(x1 as int) <= LINE_LIMIT as int,
        abs_v(y1 as int) <= LINE_LIMIT as int,
        abs_v(x2 as int) <= LINE_LIMIT as int,
        abs_v(y2 as int) <= LINE_LIMIT as int,
    ensures
        final(rs).state == nth_state_v(
            old(rs).state,
            if o.disable_multi_stroke {
                11nat
            } else {
                22nat
            },
        ),
        double_line_ops_ok(ops@, x1 as int, y1 as int, x2 as int, y2 as int, *o),
        ops@.len() == stroke_op_count(*o),
        forall|i: int| 0 <= i < ops@.len() ==> (#[trigger] ops@[i]).wf(),
{
    proof {
        reveal(double_line_ops_ok);
    }
    let ghost s0: u64 = rs.state;
    let mut o1: Vec<Op> = _line(x1, y1, x2, y2, o, true, false, rs);
    if o.disable_multi_stroke {
        return o1;
    }
    let mut o2: Vec<Op> = _line(x1, y1, x2, y2, o, true, true, rs);
    proof {
        lemma_nth_state_add(s0, 11, 11);
    }
    o1.append(&mut o2);
    o1
}

/// A perturbed straight line: a single outline-path operation set holding
/// one perturbed double line.
pub fn line(x1: i64, y1: i64, x2: i64, y2: i64, o: &Options, rs: &mut RandomSource) -> (r: OpSet)
    requires
        o.valid(),
        abs_v(x1 as int) <= LINE_LIMIT as int,
        abs_v(y1 as int) <= LINE_LIMIT as int,
        abs_v(x2 as int) <= LINE_LIMIT as int,
        abs_v(y2 as int) <= LINE_LIMIT as int,
    ensures
        r.ops_type == OpSetType::Path,
        r.wf(),
        r.ops@.len() == stroke_op_count(*o),
        double_line_ops_ok(r.ops@, x1 as int, y1 as int, x2 as int, y2 as int, *o),
        reaches_v(old(rs).state, final(rs).state),
{
    let ghost s0: u64 = rs.state;
    let ops: Vec<Op> = _double_line(x1, y1, x2, y2, o, rs);
    proof {
        lemma_reaches_nth(
            s0,
            if o.disable_multi_stroke {
                11nat
            } else {
                22nat
            },
        );
    }
    OpSet { ops_type: OpSetType::Path, ops }
}

/// One control-point coordinate of the cubic fit:
/// `cur + (s * next - s * prev) / 6`.
pub open spec fn curve_ctrl_v(s: int, prev: int, cur: int, next: int) -> int {
    cur + tdiv(fx_mul_v(s, next) - fx_mul_v(s, prev), 6)
}

/// The cubic-fit operation for interior point `k`: control points derived
/// from the neighbours by the tightness-scaled difference formula, ending
/// exactly at point `k + 1`.
pub open spec fn curve_op_ok(c: Op, pts: Seq<Point>, k: int, s: int) -> bool {
    &&& c.op == OpType::BcurveTo
    &&& c.wf()
    &&& c.data@[0] == curve_ctrl_v(s, pts[k - 1].x as int, pts[k].x as int, pts[k + 1].x as int)
    &&& c.data@[1] == curve_ctrl_v(s, pts[k - 1].y as int, pts[k].y as int, pts[k + 1].y as int)
    &&& c.data@[2] == curve_ctrl_v(s, pts[k + 2].x as int, pts[k + 1].x as int, pts[k].x as int)
    &&& c.data@[3] == curve_ctrl_v(s, pts[k + 2].y as int, pts[k + 1].y as int, pts[k].y as int)
    &&& c.data@[4] == pts[k + 1].x as int
    &&& c.data@[5] == pts[k + 1].y as int
}

/// Computes one cubic-fit control coordinate; exact per [`curve_ctrl_v`].
fn _curve_ctrl(st: i64, prev: i64, cur: i64, next: i64) -> (r: i64)
    requires
        0 <= st <= FX_ONE,
        abs_v(prev as int) <= PATH_LIMIT as int,
        abs_v(cur as int) <= PATH_LIMIT as int,
        abs_v(next as int) <= PATH_LIMIT as int,
    ensures
        r as int == curve_ctrl_v(st as int, prev as int, cur as int, next as int),
{
    proof {
        lemma_fx_scale(next as int, st as int, PATH_LIMIT as int);
        lemma_fx_scale(prev as int, st as int, PATH_LIMIT as int);
    }
    let a: i64 = fx_mul(st, next);
    let b: i64 = fx_mul(st, prev);
    proof {
        lemma_tdiv_abs((a - b) as int, 6);
        lemma_tdiv_le(abs_v((a - b) as int), abs_v((a - b) as int), 6);
    }
    let d: i64 = idiv(a - b, 6);
    cur + d
}

/// Fits a smooth path through an ordered point sequence: nothing for fewer
/// than two points, a perturbed double line for exactly two, a single exact
/// cubic for three, and a tightness-tunable cubic spline through every
/// interior point for four or more, optionally closed by a perturbed
/// line-to.
pub fn _curve(
    points: Vec<Point>,
    close_point: Option<Point>,
    o: &Options,
    rs: &mut RandomSource,
) -> (ops: Vec<Op>)
    requires
        o.valid(),
        points_within(points@, PATH_LIMIT as int),
        close_point is Some ==> point_within(close_point.unwrap(), PATH_LIMIT as int),
    ensures
        reaches_v(old(rs).state, final(rs).state),
        (points@.len() <= 1 || points@.len() == 3 || (points@.len() > 3
            && close_point is None)) ==> final(rs).state == old(rs).state,
        points@.len() == 2 ==> final(rs).state == nth_state_v(
            old(rs).state,
            if o.disable_multi_stroke {
                11nat
            } else {
                22nat
            },
        ),
        points@.len() > 3 && close_point is Some ==> final(rs).state == nth_state_v(
            old(rs).state,
            2,
        ),
        forall|i: int| 0 <= i < ops@.len() ==> (#[trigger] ops@[i]).wf(),
        points@.len() <= 1 ==> ops@.len() == 0,
        points@.len() == 2 ==> ops@.len() == stroke_op_count(*o),
        points@.len() == 2 ==> double_line_ops_ok(
            ops@,
            points@[0].x as int,
            points@[0].y as int,
            points@[1].x as int,
            points@[1].y as int,
            *o,
        ),
        points@.len() == 3 ==> (ops@.len() == 2 && ops@[0].op == OpType::Move && ops@[0].data@
            =~= seq![points@[1].x, points@[1].y] && ops@[1].op == OpType::BcurveTo
            && ops@[1].data@ =~= seq![
            points@[1].x,
            points@[1].y,
            points@[2].x,
            points@[2].y,
            points@[2].x,
            points@[2].y,
        ]),
        points@.len() > 3 ==> ({
            let n = points@.len() as int;
            &&& ops@.len() == n - 2 + (if close_point is Some {
                1int
            } else {
                0int
            })
            &&& ops@[0].op == OpType::Move
            &&& ops@[0].data@ =~= seq![points@[1].x, points@[1].y]
            &&& forall|k: int|
                1 <= k <= n - 3 ==> #[trigger] curve_op_ok(
                    ops@[k],
                    points@,
                    k,
                    FX_ONE as int - o.curve_tightness as int,
                )
            &&& (close_point is Some ==> ops@[n - 2].op == OpType::LineTo && ops@[n - 2].wf()
                && abs_v(ops@[n - 2].data@[0] - close_point.unwrap().x as int)
                <= JITTER_LIMIT as int && abs_v(
                ops@[n - 2].data@[1] - close_point.unwrap().y as int,
            ) <= JITTER_LIMIT as int && abs_v(
                ops@[n - 2].data@[0] - close_point.unwrap().x as int,
            ) <= fx_mul_v(o.roughness as int, o.max_randomness_offset as int) && abs_v(
                ops@[n - 2].data@[1] - close_point.unwrap().y as int,
            ) <= fx_mul_v(o.roughness as int, o.max_randomness_offset as int) && (o.roughness == 0
                ==> ops@[n - 2].data@[0] == close_point.unwrap().x as int && ops@[n - 2].data@[1]
                == close_point.unwrap().y as int))
        }),
{
    let ghost s0: u64 = rs.state;
    let len: usize = points.len();
    let mut ops: Vec<Op> = Vec::new();
    if len > 3 {
        let st: i64 = FX_ONE - o.curve_tightness;
        let p1: Point = points[1];
        let mut mdata: Vec<i64> = Vec::new();
        mdata.push(p1.x);
        mdata.push(p1.y);
        ops.push(Op { op: OpType::Move, data: mdata });
        let mut i: usize = 1;
        while i + 2 < len
            invariant
                1 <= i,
                i + 2 <= len,
                len == points@.len(),
                len > 3,
                0 <= st <= FX_ONE,
                st as int == FX_ONE as int - o.curve_tightness as int,
                o.valid(),
                points_within(points@, PATH_LIMIT as int),
                ops@.len() == i,
                ops@[0].op == OpType::Move && ops@[0].wf() && ops@[0].data@ =~= seq![
                    points@[1].x,
                    points@[1].y,
                ],
                forall|k: int|
                    1 <= k < i ==> #[trigger] curve_op_ok(ops@[k], points@, k, st as int),
                forall|j: int| 0 <= j < ops@.len() ==> (#[trigger] ops@[j]).wf(),
            decreases len - i,
        {
            let c1x: i64 = _curve_ctrl(st, points[i - 1].x, points[i].x, points[i + 1].x);
            let c1y: i64 = _curve_ctrl(st, points[i - 1].y, points[i].y, points[i + 1].y);
            let c2x: i64 = _curve_ctrl(st, points[i + 2].x, points[i + 1].x, points[i].x);
            let c2y: i64 = _curve_ctrl(st, points[i + 2].y, points[i + 1].y, points[i].y);
            let mut cdata: Vec<i64> = Vec::new();
            cdata.push(c1x);
            cdata.push(c1y);
            cdata.push(c2x);
            cdata.push(c2y);
            cdata.push(points[i + 1].x);
            cdata.push(points[i + 1].y);
            ops.push(Op { op: OpType::BcurveTo, data: cdata });
            i = i + 1;
        }
        match close_point {
            Some(clp) => {
                let ro: i64 = o.max_randomness_offset;
                let jx: i64 = _offset_opt(ro, o, 1_000_000, rs);
                proof {
                    crate::rng::lemma_nth_state_succ(s0, 0);
                }
                let jy: i64 = _offset_opt(ro, o, 1_000_000, rs);
                proof {
                    crate::rng::lemma_nth_state_succ(s0, 1);
                    lemma_reaches_nth(s0, 2);
                    assert(rs.state == nth_state_v(s0, 2));
                    lemma_div_by_multiple(o.roughness as int, FX_ONE as int);
                    assert(fx_mul_v(o.roughness as int, 1_000_000) == o.roughness as int);
                }
                let mut ldata: Vec<i64> = Vec::new();
                ldata.push(clp.x + jx);
                ldata.push(clp.y + jy);
                ops.push(Op { op: OpType::LineTo, data: ldata });
            },
            None => {
                proof {
                    lemma_reaches_refl(s0);
                }
            },
        }
    } else if len == 3 {
        let p1: Point = points[1];
        let p2: Point = points[2];
        let mut mdata: Vec<i64> = Vec::new();
        mdata.push(p1.x);
        mdata.push(p1.y);
        ops.push(Op { op: OpType::Move, data: mdata });
        let mut cdata: Vec<i64> = Vec::new();
        cdata.push(p1.x);
        cdata.push(p1.y);
        cdata.push(p2.x);
        cdata.push(p2.y);
        cdata.push(p2.x);
        cdata.push(p2.y);
        ops.push(Op { op: OpType::BcurveTo, data: cdata });
        proof {
            lemma_reaches_refl(s0);
        }
    } else if len == 2 {
        let p0: Point = points[0];
        let p1: Point = points[1];
        let dl: Vec<Op> = _double_line(p0.x, p0.y, p1.x, p1.y, o, rs);
        proof {
            lemma_reaches_nth(
                s0,
                if o.disable_multi_stroke {
                    11nat
                } else {
                    22nat
                },
            );
        }
        return dl;
    } else {
        proof {
            lemma_reaches_refl(s0);
        }
    }
    ops
}

/// Segment `s` of a path's operation list is the perturbed double-line
/// chunk joining point `s` to point `s + 1` — or, for the closing segment
/// (index one past the last pair), the last point back to the first.
pub open spec fn path_chunk_ok(ops: Seq<Op>, pts: Seq<Point>, s: int, o: Options) -> bool {
    let c = stroke_op_count(o);
    let a = if s < pts.len() - 1 {
        pts[s]
    } else {
        pts[pts.len() - 1]
    };
    let b = if s < pts.len() - 1 {
        pts[s + 1]
    } else {
        pts[0]
    };
    double_line_ops_ok(
        ops.subrange(s * c, (s + 1) * c),
        a.x as int,
        a.y as int,
        b.x as int,
        b.y as int,
        o,
    )
}

/// A perturbed path through an ordered point list: each consecutive pair
/// becomes a perturbed double line, closed back to the first point on
/// request. Fewer than two points give an empty outline; exactly two give a
/// single perturbed line.
#[verifier::rlimit(100)]
pub fn linear_path(points: Vec<Point>, close: bool, o: &Options, rs: &mut RandomSource) -> (r:
    OpSet)
    requires
        o.valid(),
        points_within(points@, PATH_LIMIT as int),
    ensures
        r.ops_type == OpSetType::Path,
        r.wf(),
        reaches_v(old(rs).state, final(rs).state),
        points@.len() < 2 ==> r.ops@.len() == 0,
        points@.len() == 2 ==> r.ops@.len() == stroke_op_count(*o),
        points@.len() == 2 ==> double_line_ops_ok(
            r.ops@,
            points@[0].x as int,
            points@[0].y as int,
            points@[1].x as int,
            points@[1].y as int,
            *o,
        ),
        points@.len() > 2 ==> r.ops@.len() == (points@.len() - 1 + (if close {
            1int
        } else {
            0int
        })) * stroke_op_count(*o),
        points@.len() > 2 ==> (forall|s: int|
            0 <= s < points@.len() - 1 + (if close {
                1int
            } else {
                0int
            }) ==> #[trigger] path_chunk_ok(r.ops@, points@, s, *o)),
{
    let ghost s0: u64 = rs.state;
    let len: usize = points.len();
    if len > 2 {
        let c: usize = if o.disable_multi_stroke {
            2
        } else {
            4
        };
        let mut ops: Vec<Op> = Vec::new();
        let mut i: usize = 0;
        proof {
            lemma_reaches_refl(s0);
        }
        while i < len - 1
            invariant
                0 <= i <= len - 1,
                len == points@.len(),
                len > 2,
                c as int == stroke_op_count(*o),
                o.valid(),
                points_within(points@, PATH_LIMIT as int),
                ops@.len() == i * (c as int),
                reaches_v(s0, rs.state),
                forall|j: int| 0 <= j < ops@.len() ==> (#[trigger] ops@[j]).wf(),
                forall|s: int| 0 <= s < i ==> #[trigger] path_chunk_ok(ops@, points@, s, *o),
            decreases len - 1 - i,
        {
            let ghost before: u64 = rs.state;
            let ghost old_ops: Seq<Op> = ops@;
            let mut dl: Vec<Op> = _double_line(
                points[i].x,
                points[i].y,
                points[i + 1].x,
                points[i + 1].y,
                o,
                rs,
            );
            let ghost dl0: Seq<Op> = dl@;
            ops.append(&mut dl);
            proof {
                lemma_reaches_nth(
                    before,
                    if o.disable_multi_stroke {
                        11nat
                    } else {
                        22nat
                    },
                );
                lemma_reaches_trans(s0, before, rs.state);
                assert((i + 1) * (c as int) == i * (c as int) + (c as int)) by (nonlinear_arith);
                assert(ops@.subrange(i as int * (c as int), (i + 1) * (c as int)) =~= dl0);
                assert(path_chunk_ok(ops@, points@, i as int, *o));
                assert forall|s: int| 0 <= s < i implies #[trigger] path_chunk_ok(
                    ops@,
                    points@,
                    s,
                    *o,
                ) by {
                    assert(path_chunk_ok(old_ops, points@, s, *o));
                    assert((s + 1) * (c as int) <= i * (c as int) && 0 <= s * (c as int))
                        by (nonlinear_arith)
                        requires
                            0 <= s < i,
                            0 < c as int,
                    ;
                    assert(ops@.subrange(s * (c as int), (s + 1) * (c as int)) =~= old_ops.subrange(
                        s * (c as int),
                        (s + 1) * (c as int),
                    ));
                }
            }
            i = i + 1;
        }
        if close {
            let ghost before: u64 = rs.state;
            let ghost old_ops: Seq<Op> = ops@;
            let mut dl: Vec<Op> = _double_line(
                points[len - 1].x,
                points[len - 1].y,
                points[0].x,
                points[0].y,
                o,
                rs,
            );
            let ghost dl0: Seq<Op> = dl@;
            ops.append(&mut dl);
            proof {
                lemma_reaches_nth(
                    before,
                    if o.disable_multi_stroke {
                        11nat
                    } else {
                        22nat
                    },
                );
                lemma_reaches_trans(s0, before, rs.state);
                let n = points@.len() as int;
                assert(n * (c as int) == (n - 1) * (c as int) + (c as int)) by (nonlinear_arith);
                assert(ops@.subrange((n - 1) * (c as int), n * (c as int)) =~= dl0);
                assert(path_chunk_ok(ops@, points@, n - 1, *o));
                assert forall|s: int| 0 <= s < n - 1 implies #[trigger] path_chunk_ok(
                    ops@,
                    points@,
                    s,
                    *o,
                ) by {
                    assert(path_chunk_ok(old_ops, points@, s, *o));
                    assert((s + 1) * (c as int) <= (n - 1) * (c as int) && 0 <= s * (c as int))
                        by (nonlinear_arith)
                        requires
                            0 <= s < n - 1,
                            0 < c as int,
                    ;
                    assert(ops@.subrange(s * (c as int), (s + 1) * (c as int)) =~= old_ops.subrange(
                        s * (c as int),
                        (s + 1) * (c as int),
                    ));
                }
            }
        }
        return OpSet { ops_type: OpSetType::Path, ops };
    }
    if len == 2 {
        let r: OpSet = line(points[0].x, points[0].y, points[1].x, points[1].y, o, rs);
        return r;
    }
    proof {
        lemma_reaches_refl(s0);
    }
    OpSet { ops_type: OpSetType::Path, ops: Vec::new() }
}

/// A perturbed polygon: the point list closed back onto itself.
fn polygon(points: Vec<Point>, o: &Options, rs: &mut RandomSource) -> (r: OpSet)
    requires
        o.valid(),
        points_within(points@, PATH_LIMIT as int),
    ensures
        r.ops_type == OpSetType::Path,
        r.wf(),
        reaches_v(old(rs).state, final(rs).state),
        points@.len() > 2 ==> r.ops@.len() == points@.len() * stroke_op_count(*o),
        points@.len() > 2 ==> (forall|s: int|
            0 <= s < points@.len() ==> #[trigger] path_chunk_ok(r.ops@, points@, s, *o)),
{
    let r: OpSet = linear_path(points, true, o, rs);
    proof {
        if points@.len() > 2 {
            let n = points@.len() as int;
            let c = stroke_op_count(*o);
            assert((n - 1 + 1) * c == n * c);
        }
    }
    r
}

/// The corners of the axis-aligned rectangle at `(x, y)` with the given
/// width and height, in drawing order.
pub open spec fn rect_points_v(x: int, y: int, width: int, height: int) -> Seq<Point> {
    seq![
        Point { x: x as i64, y: y as i64 },
        Point { x: (x + width) as i64, y: y as i64 },
        Point { x: (x + width) as i64, y: (y + height) as i64 },
        Point { x: x as i64, y: (y + height) as i64 },
    ]
}

/// The perturbed outline of an axis-aligned rectangle: its four corners as
/// a closed polygon, four perturbed double lines joining them in order.
pub fn rectangle(x: i64, y: i64, width: i64, height: i64, o: &Options, rs: &mut RandomSource) -> (r:
    OpSet)
    requires
        o.valid(),
        abs_v(x as int) <= 5_000_000_000_000,
        abs_v(y as int) <= 5_000_000_000_000,
        abs_v(width as int) <= 5_000_000_000_000,
        abs_v(height as int) <= 5_000_000_000_000,
    ensures
        r.ops_type == OpSetType::Path,
        r.wf(),
        reaches_v(old(rs).state, final(rs).state),
        r.ops@.len() == 4 * stroke_op_count(*o),
        forall|s: int|
            0 <= s < 4 ==> #[trigger] path_chunk_ok(
                r.ops@,
                rect_points_v(x as int, y as int, width as int, height as int),
                s,
                *o,
            ),
{
    let mut points: Vec<Point> = Vec::new();
    points.push(Point { x, y });
    points.push(Point { x: x + width, y });
    points.push(Point { x: x + width, y: y + height });
    points.push(Point { x, y: y + height });
    proof {
        assert(points@ =~= rect_points_v(x as int, y as int, width as int, height as int));
    }
    polygon(points, o, rs)
}

/// The total number of operations a solid fill of the given polygons emits:
/// one move plus one line-to per remaining vertex, for every polygon with
/// more than two vertices.
pub open spec fn solid_ops_count(polys: Seq<Vec<Point>>) -> int
    decreases polys.len(),
{
    if polys.len() == 0 {
        0
    } else {
        solid_ops_count(polys.drop_last()) + (if polys.last()@.len() > 2 {
            polys.last()@.len() as int
        } else {
            0int
        })
    }
}

/// The first `k` operations of a solid fill trace the polygon's first `k`
/// vertices: a move, then line-tos, every coordinate within the jitter
/// envelope of its vertex and exactly the vertex when roughness is zero.
pub open spec fn solid_vertex_ops_ok(ops: Seq<Op>, poly: Seq<Point>, k: int, o: Options) -> bool {
    &&& ops.len() == k
    &&& (k >= 1 ==> ops[0].op == OpType::Move)
    &&& (forall|j: int| 1 <= j < k ==> (#[trigger] ops[j]).op == OpType::LineTo)
    &&& (forall|j: int|
        0 <= j < k ==> abs_v((#[trigger] ops[j]).data@[0] - poly[j].x as int)
            <= JITTER_LIMIT as int && abs_v(ops[j].data@[1] - poly[j].y as int)
            <= JITTER_LIMIT as int)
    &&& (forall|j: int|
        0 <= j < k ==> abs_v((#[trigger] ops[j]).data@[0] - poly[j].x as int) <= fx_mul_v(
            o.roughness as int,
            o.max_randomness_offset as int,
        ) && abs_v(ops[j].data@[1] - poly[j].y as int) <= fx_mul_v(
            o.roughness as int,
            o.max_randomness_offset as int,
        ))
    &&& (o.roughness == 0 ==> (forall|j: int|
        0 <= j < k ==> (#[trigger] ops[j]).data@[0] == poly[j].x as int && ops[j].data@[1]
            == poly[j].y as int))
}

/// A solid fill: every polygon's vertices traced once with jitter, as a
/// fill-path operation set of moves and line-tos only.
#[verifier::rlimit(100)]
pub fn solid_fill_polygon(polygon_list: Vec<Vec<Point>>, o: &Options, rs: &mut RandomSource) -> (r:
    OpSet)
    requires
        o.valid(),
        forall|i: int|
            0 <= i < polygon_list@.len() ==> points_within(
                (#[trigger] polygon_list@[i])@,
                PATH_LIMIT as int,
            ),
    ensures
        r.ops_type == OpSetType::FillPath,
        r.wf(),
        reaches_v(old(rs).state, final(rs).state),
        r.ops@.len() == solid_ops_count(polygon_list@),
        forall|j: int| 0 <= j < r.ops@.len() ==> (#[trigger] r.ops@[j]).op != OpType::BcurveTo,
        polygon_list@.len() == 1 && polygon_list@[0]@.len() > 2 ==> solid_vertex_ops_ok(
            r.ops@,
            polygon_list@[0]@,
            polygon_list@[0]@.len() as int,
            *o,
        ),
{
    let ghost s0: u64 = rs.state;
    let ghost single: bool = polygon_list@.len() == 1 && polygon_list@[0]@.len() > 2;
    let mut ops: Vec<Op> = Vec::new();
    let mut pi: usize = 0;
    proof {
        lemma_reaches_refl(s0);
        assert(polygon_list@.subrange(0, 0) =~= Seq::<Vec<Point>>::empty());
    }
    while pi < polygon_list.len()
        invariant
            0 <= pi <= polygon_list@.len(),
            o.valid(),
            forall|i: int|
                0 <= i < polygon_list@.len() ==> points_within(
                    (#[trigger] polygon_list@[i])@,
                    PATH_LIMIT as int,
                ),
            ops@.len() == solid_ops_count(polygon_list@.subrange(0, pi as int)),
            reaches_v(s0, rs.state),
            forall|j: int| 0 <= j < ops@.len() ==> (#[trigger] ops@[j]).wf(),
            forall|j: int| 0 <= j < ops@.len() ==> (#[trigger] ops@[j]).op != OpType::BcurveTo,
            single == (polygon_list@.len() == 1 && polygon_list@[0]@.len() > 2),
            single && pi == 0 ==> ops@.len() == 0,
            single && pi > 0 ==> solid_vertex_ops_ok(
                ops@,
                polygon_list@[0]@,
                polygon_list@[0]@.len() as int,
                *o,
            ),
        decreases polygon_list@.len() - pi,
    {
        let points: &Vec<Point> = &polygon_list[pi];
        let ghost base: int = ops@.len() as int;
        if points.len() > 2 {
            let offset: i64 = o.max_randomness_offset;
            let ghost before: u64 = rs.state;
            let jx: i64 = _offset_opt(offset, o, 1_000_000, rs);
            let jy: i64 = _offset_opt(offset, o, 1_000_000, rs);
            proof {
                crate::rng::lemma_nth_state_succ(before, 0);
                crate::rng::lemma_nth_state_succ(before, 1);
                lemma_reaches_nth(before, 2);
                lemma_reaches_trans(s0, before, rs.state);
                lemma_div_by_multiple(o.roughness as int, FX_ONE as int);
                assert(fx_mul_v(o.roughness as int, 1_000_000) == o.roughness as int);
            }
            let mut mdata: Vec<i64> = Vec::new();
            mdata.push(points[0].x + jx);
            mdata.push(points[0].y + jy);
            ops.push(Op { op: OpType::Move, data: mdata });
            let mut i: usize = 1;
            while i < points.len()
                invariant
                    1 <= i <= points@.len(),
                    points@.len() > 2,
                    0 <= offset <= 1_000_000_000,
                    offset == o.max_randomness_offset,
                    o.valid(),
                    points_within(points@, PATH_LIMIT as int),
                    ops@.len() == base + i,
                    base >= 0,
                    reaches_v(s0, rs.state),
                    forall|j: int| 0 <= j < ops@.len() ==> (#[trigger] ops@[j]).wf(),
                    forall|j: int|
                        0 <= j < ops@.len() ==> (#[trigger] ops@[j]).op != OpType::BcurveTo,
                    single == (polygon_list@.len() == 1 && polygon_list@[0]@.len() > 2),
                    single ==> base == 0 && points@ =~= polygon_list@[0]@
                        && solid_vertex_ops_ok(ops@, polygon_list@[0]@, i as int, *o),
                decreases points@.len() - i,
            {
                let ghost before2: u64 = rs.state;
                let lx: i64 = _offset_opt(offset, o, 1_000_000, rs);
                let ly: i64 = _offset_opt(offset, o, 1_000_000, rs);
                proof {
                    crate::rng::lemma_nth_state_succ(before2, 0);
                    crate::rng::lemma_nth_state_succ(before2, 1);
                    lemma_reaches_nth(before2, 2);
                    lemma_reaches_trans(s0, before2, rs.state);
                    lemma_div_by_multiple(o.roughness as int, FX_ONE as int);
                    assert(fx_mul_v(o.roughness as int, 1_000_000) == o.roughness as int);
                }
                let mut ldata: Vec<i64> = Vec::new();
                ldata.push(points[i].x + lx);
                ldata.push(points[i].y + ly);
                ops.push(Op { op: OpType::LineTo, data: ldata });
                i = i + 1;
            }
        }
        proof {
            assert(polygon_list@.subrange(0, pi as int + 1).drop_last() =~= polygon_list@.subrange(
                0,
                pi as int,
            ));
            assert(polygon_list@.subrange(0, pi as int + 1).last() == polygon_list@[pi as int]);
        }
        pi = pi + 1;
    }
    proof {
        assert(polygon_list@.subrange(0, polygon_list@.len() as int) =~= polygon_list@);
    }
    OpSet { ops_type: OpSetType::FillPath, ops }
}

/// Coordinates and radii accepted by the shape facade.
pub const SHAPE_LIMIT: i64 = 1_000_000_000_000;

/// Delegates a pattern fill to the filler the configuration selects:
/// hachure and zigzag succeed, a solid fill does not belong here, and the
/// remaining styles are not implemented.
pub fn pattern_fill_polygon(
    polygon_list: Vec<Vec<Point>>,
    o: &Options,
    rs: &mut RandomSource,
) -> (r: Result<OpSet, FillError>)
    requires
        o.valid(),
        forall|i: int|
            0 <= i < polygon_list@.len() ==> points_within(
                (#[trigger] polygon_list@[i])@,
                crate::filler::FILL_LIMIT as int,
            ),
    ensures
        reaches_v(old(rs).state, final(rs).state),
        (r is Ok) <==> (o.fill_style == FillStyle::Hachure || o.fill_style == FillStyle::Zigzag),
        r is Ok ==> (r->Ok_0).ops_type == OpSetType::FillSketch && (r->Ok_0).wf(),
        o.fill_style == FillStyle::Hachure ==> crate::filler::sketch_of_lines(
            (r->Ok_0).ops@,
            crate::filler::hachure_lines_v(crate::filler::views_of(polygon_list@), *o),
            *o,
        ),
        o.fill_style == FillStyle::Zigzag ==> crate::filler::sketch_of_lines(
            (r->Ok_0).ops@,
            crate::filler::zigzag_of_v(
                crate::filler::hachure_lines_v(crate::filler::views_of(polygon_list@), *o),
                *o,
            ),
            *o,
        ),
        o.fill_style == FillStyle::Hachure ==> (exists|lines: Seq<crate::geometry::Line>|
            #[trigger] crate::filler::sketch_of_lines((r->Ok_0).ops@, lines, *o)
                && crate::filler::is_hachure_line_set(lines, *o)),
        o.fill_style == FillStyle::Zigzag ==> (exists|zl: Seq<crate::geometry::Line>|
            #[trigger] crate::filler::sketch_of_lines((r->Ok_0).ops@, zl, *o)
                && crate::filler::is_zigzag_line_set(zl, *o)),
        o.fill_style == FillStyle::Solid ==> r == Result::<OpSet, FillError>::Err(
            FillError::Unsupported,
        ),
        (o.fill_style == FillStyle::Dashed || o.fill_style == FillStyle::CrossHatch
            || o.fill_style == FillStyle::Dots || o.fill_style == FillStyle::ZigzagLine) ==> r
            == Result::<OpSet, FillError>::Err(FillError::NotImplemented),
{
    match crate::filler::get_filler(o) {
        Ok(f) => f.fill_polygons(polygon_list, o, rs),
        Err(e) => {
            proof {
                lemma_reaches_refl(rs.state);
            }
            Err(e)
        },
    }
}

/// The angular span the arc renderer draws after normalization: the
/// requested span, clamped to one full turn.
pub open spec fn arc_span_v(start: int, stop: int) -> int {
    if stop - start > TWO_PI_FX as int {
        TWO_PI_FX as int
    } else {
        stop - start
    }
}

/// The normalized start angle: a negative start is wrapped forward by the
/// least number of whole turns that makes it non-negative; a span beyond
/// one full turn restarts at zero.
pub open spec fn norm_start_v(start: int, stop: int) -> int {
    if stop - start > TWO_PI_FX as int {
        0
    } else if start >= 0 {
        start
    } else {
        start + crate::filler::ceil_div(-start, TWO_PI_FX as int) * (TWO_PI_FX as int)
    }
}

/// The normalized stop angle: the normalized start plus the clamped span.
pub open spec fn norm_stop_v(start: int, stop: int) -> int {
    norm_start_v(start, stop) + arc_span_v(start, stop)
}

/// Normalizes an arc's angular range: a negative start is wrapped forward
/// by whole turns (carrying the stop along), and a span beyond a full turn
/// is clamped to exactly one full turn starting at zero.
pub fn normalize_arc_angles(start: i64, stop: i64) -> (res: (i64, i64))
    requires
        abs_v(start as int) <= 1_000_000_000,
        abs_v(stop as int) <= 1_000_000_000,
    ensures
        res.0 as int == norm_start_v(start as int, stop as int),
        res.1 as int == norm_stop_v(start as int, stop as int),
        0 <= res.0 <= 2_000_000_000,
        res.0 <= i64::MAX - 2_100_000_000 && res.1 <= 2_100_000_000 && res.1 >= -(
        2_100_000_000i64),
        stop - start > TWO_PI_FX ==> (res.0 == 0 && res.1 == TWO_PI_FX),
        stop - start <= TWO_PI_FX ==> ((res.1 as int) - (res.0 as int) == stop - start && (start
            >= 0 ==> (res.0 == start && res.1 == stop)) && (start < 0 ==> res.0 < TWO_PI_FX)),
{
    let mut s: i64 = start;
    let mut e: i64 = stop;
    let ghost mut k: int = 0;
    while s < 0
        invariant
            (e as int) - (s as int) == (stop as int) - (start as int),
            s as int == (start as int) + k * (TWO_PI_FX as int),
            k >= 0,
            k == 0 || (s as int) - (TWO_PI_FX as int) < 0,
            s as int >= start as int,
            s as int <= (if (start as int) >= 0 {
                start as int
            } else {
                (TWO_PI_FX as int) - 1
            }),
            abs_v(stop as int) <= 1_000_000_000,
            abs_v(start as int) <= 1_000_000_000,
        decreases
                (if s < 0 {
                    0 - (s as int)
                } else {
                    0int
                }),
    {
        s = s + TWO_PI_FX;
        e = e + TWO_PI_FX;
        proof {
            k = k + 1;
            assert(s as int == (start as int) + k * (TWO_PI_FX as int)) by (nonlinear_arith)
                requires
                    (s as int) - (TWO_PI_FX as int) == (start as int) + (k - 1) * (
                    TWO_PI_FX as int),
            ;
        }
    }
    proof {
        if start < 0 {
            assert(k >= 1);
            assert((k - 1) * (TWO_PI_FX as int) < -(start as int) <= k * (TWO_PI_FX as int))
                by (nonlinear_arith)
                requires
                    (start as int) + k * (TWO_PI_FX as int) >= 0,
                    (start as int) + k * (TWO_PI_FX as int) - (TWO_PI_FX as int) < 0,
            ;
            crate::filler::lemma_ceil_count(-(start as int), TWO_PI_FX as int, k);
        }
    }
    if e - s > TWO_PI_FX {
        (0, TWO_PI_FX)
    } else {
        (s, e)
    }
}

/// Samples a perturbed arc and fits a curve through the samples. The first
/// sample leads in at nine tenths of the radius; the last two repeat the
/// exact endpoint so the spline ends there.
#[verifier::rlimit(100)]
fn _arc(
    increment: i64,
    cx: i64,
    cy: i64,
    rx: i64,
    ry: i64,
    start: i64,
    stop: i64,
    offset: i64,
    o: &Options,
    rs: &mut RandomSource,
) -> (ops: Vec<Op>)
    requires
        o.valid(),
        0 < increment <= TWO_PI_FX,
        abs_v(cx as int) <= SHAPE_LIMIT as int,
        abs_v(cy as int) <= SHAPE_LIMIT as int,
        abs_v(rx as int) <= 2_000_000_000_000,
        abs_v(ry as int) <= 2_000_000_000_000,
        0 <= start <= stop,
        stop <= 2_100_000_000,
        0 < offset <= 2_000_000,
    ensures
        forall|i: int| 0 <= i < ops@.len() ==> (#[trigger] ops@[i]).wf(),
        ops@.len() >= 2,
        reaches_v(old(rs).state, final(rs).state),
        ops@[ops@.len() - 1].op == OpType::BcurveTo,
        ops@[ops@.len() - 1].data@[4] == cx as int + fx_mul_v(rx as int, cos_fx_v(stop as int)),
        ops@[ops@.len() - 1].data@[5] == cy as int + fx_mul_v(ry as int, sin_fx_v(stop as int)),
        abs_v(ops@[ops@.len() - 1].data@[4] - cx as int) <= abs_v(rx as int),
        abs_v(ops@[ops@.len() - 1].data@[5] - cy as int) <= abs_v(ry as int),
{
    let ghost s0: u64 = rs.state;
    let ghost b0: u64 = rs.state;
    let ro: i64 = _offset_opt(100_000, o, 1_000_000, rs);
    proof {
        crate::rng::lemma_reaches_step(b0);
    }
    let rad_offset: i64 = start + ro;
    let mut points: Vec<Point> = Vec::new();
    let ghost b1: u64 = rs.state;
    let j1: i64 = _offset_opt(offset, o, 1_000_000, rs);
    let j2: i64 = _offset_opt(offset, o, 1_000_000, rs);
    proof {
        crate::rng::lemma_reaches_step(b1);
        crate::rng::lemma_reaches_step(crate::rng::next_state_v(b1));
        lemma_reaches_trans(b1, crate::rng::next_state_v(b1), rs.state);
        lemma_reaches_trans(s0, b1, rs.state);
    }
    let a0: i64 = rad_offset - increment;
    let c0: i64 = crate::fixed::cos_fx(a0);
    let s0v: i64 = crate::fixed::sin_fx(a0);
    proof {
        lemma_fx_scale(rx as int, 900_000, 2_000_000_000_000);
        lemma_fx_scale(ry as int, 900_000, 2_000_000_000_000);
    }
    let rx9: i64 = fx_mul(rx, 900_000);
    let ry9: i64 = fx_mul(ry, 900_000);
    proof {
        lemma_fx_scale(rx9 as int, c0 as int, 2_000_000_000_000);
        lemma_fx_scale(ry9 as int, s0v as int, 2_000_000_000_000);
    }
    points.push(Point { x: j1 + cx + fx_mul(rx9, c0), y: j2 + cy + fx_mul(ry9, s0v) });
    let mut angle: i64 = rad_offset;
    while angle <= stop
        invariant
            o.valid(),
            0 < increment <= TWO_PI_FX,
            abs_v(cx as int) <= SHAPE_LIMIT as int,
            abs_v(cy as int) <= SHAPE_LIMIT as int,
            abs_v(rx as int) <= 2_000_000_000_000,
            abs_v(ry as int) <= 2_000_000_000_000,
            stop <= 2_100_000_000,
            0 < offset <= 2_000_000,
            angle as int >= rad_offset as int,
            abs_v(rad_offset as int) <= 2_200_000_000,
            angle as int <= 2_200_000_000 + (TWO_PI_FX as int),
            points@.len() >= 1,
            points_within(points@, 4_000_000_000_000),
            reaches_v(s0, rs.state),
        decreases (stop as int) + (increment as int) - (angle as int),
    {
        let ghost before: u64 = rs.state;
        let jx: i64 = _offset_opt(offset, o, 1_000_000, rs);
        let jy: i64 = _offset_opt(offset, o, 1_000_000, rs);
        proof {
            crate::rng::lemma_reaches_step(before);
            crate::rng::lemma_reaches_step(crate::rng::next_state_v(before));
            lemma_reaches_trans(before, crate::rng::next_state_v(before), rs.state);
            lemma_reaches_trans(s0, before, rs.state);
        }
        let ca: i64 = crate::fixed::cos_fx(angle);
        let sa: i64 = crate::fixed::sin_fx(angle);
        proof {
            lemma_fx_scale(rx as int, ca as int, 2_000_000_000_000);
            lemma_fx_scale(ry as int, sa as int, 2_000_000_000_000);
        }
        points.push(Point { x: jx + cx + fx_mul(rx, ca), y: jy + cy + fx_mul(ry, sa) });
        angle = angle + increment;
    }
    let cs: i64 = crate::fixed::cos_fx(stop);
    let ss: i64 = crate::fixed::sin_fx(stop);
    proof {
        lemma_fx_scale(rx as int, cs as int, 2_000_000_000_000);
        lemma_fx_scale(ry as int, ss as int, 2_000_000_000_000);
        lemma_fx_scale(rx as int, cs as int, abs_v(rx as int));
        lemma_fx_scale(ry as int, ss as int, abs_v(ry as int));
    }
    let ex: i64 = cx + fx_mul(rx, cs);
    let ey: i64 = cy + fx_mul(ry, ss);
    points.push(Point { x: ex, y: ey });
    points.push(Point { x: ex, y: ey });
    let ghost pts: Seq<Point> = points@;
    let ghost b2: u64 = rs.state;
    let ops: Vec<Op> = _curve(points, None, o, rs);
    proof {
        lemma_reaches_trans(s0, b2, rs.state);
        let n = pts.len() as int;
        assert(pts[n - 2] == (Point { x: ex, y: ey }));
        if n == 3 {
            assert(ops@[1].data@[4] == ex as int);
        } else {
            assert(curve_op_ok(ops@[n - 3], pts, n - 3, FX_ONE as int - o.curve_tightness as int));
            assert(ops@[ops@.len() - 1] == ops@[n - 3]);
        }
    }
    ops
}

/// The perturbed outline of an elliptic arc: the angular range is
/// normalized, sampled at half the full-turn step (capped by half the
/// span), drawn twice unless multi-stroke is disabled, and optionally
/// closed through the center, either with perturbed double lines or with
/// two exact line-tos.
#[verifier::rlimit(100)]
#[verifier::spinoff_prover]
pub fn arc(
    x: i64,
    y: i64,
    width: i64,
    height: i64,
    start: i64,
    stop: i64,
    closed: bool,
    rough_closure: bool,
    o: &Options,
    rs: &mut RandomSource,
) -> (r: OpSet)
    requires
        o.valid(),
        abs_v(x as int) <= SHAPE_LIMIT as int,
        abs_v(y as int) <= SHAPE_LIMIT as int,
        abs_v(width as int) <= SHAPE_LIMIT as int,
        abs_v(height as int) <= SHAPE_LIMIT as int,
        abs_v(start as int) <= 1_000_000_000,
        abs_v(stop as int) <= 1_000_000_000,
        arc_span_v(start as int, stop as int) >= 2,
    ensures
        r.ops_type == OpSetType::Path,
        r.wf(),
        r.ops@.len() >= 2,
        reaches_v(old(rs).state, final(rs).state),
        !o.disable_multi_stroke && !closed ==> r.ops@.len() >= 4,
        !closed ==> ({
            let last = r.ops@[r.ops@.len() - 1];
            &&& last.op == OpType::BcurveTo
            &&& abs_v(last.data@[4] - x as int) <= abs_v(width as int)
            &&& abs_v(last.data@[5] - y as int) <= abs_v(height as int)
            &&& (o.roughness == 0 ==> last.data@[4] == x as int + fx_mul_v(
                tdiv(abs_v(width as int), 2),
                cos_fx_v(norm_stop_v(start as int, stop as int)),
            ) && last.data@[5] == y as int + fx_mul_v(
                tdiv(abs_v(height as int), 2),
                sin_fx_v(norm_stop_v(start as int, stop as int)),
            ))
        }),
        closed && !rough_closure ==> ({
            let m = r.ops@.len();
            &&& r.ops@[m - 2].op == OpType::LineTo
            &&& r.ops@[m - 2].data@ =~= seq![x, y]
            &&& r.ops@[m - 1].op == OpType::LineTo
            &&& (o.roughness == 0 ==> r.ops@[m - 1].data@[0] == x as int + fx_mul_v(
                tdiv(abs_v(width as int), 2),
                cos_fx_v(norm_start_v(start as int, stop as int)),
            ) && r.ops@[m - 1].data@[1] == y as int + fx_mul_v(
                tdiv(abs_v(height as int), 2),
                sin_fx_v(norm_start_v(start as int, stop as int)),
            ))
        }),
        closed && rough_closure ==> ({
            let c = stroke_op_count(*o);
            let m = r.ops@.len() as int;
            &&& m >= 2 * c
            &&& (exists|ex1: int, ey1: int|
                #[trigger] double_line_ops_ok(
                    r.ops@.subrange(m - 2 * c, m - c),
                    x as int,
                    y as int,
                    ex1,
                    ey1,
                    *o,
                ) && abs_v(ex1 - x as int) <= abs_v(width as int) && abs_v(ey1 - y as int)
                    <= abs_v(height as int) && (o.roughness == 0 ==> ex1 == x as int + fx_mul_v(
                    tdiv(abs_v(width as int), 2),
                    cos_fx_v(norm_start_v(start as int, stop as int)),
                ) && ey1 == y as int + fx_mul_v(
                    tdiv(abs_v(height as int), 2),
                    sin_fx_v(norm_start_v(start as int, stop as int)),
                )))
            &&& (exists|ex2: int, ey2: int|
                #[trigger] double_line_ops_ok(
                    r.ops@.subrange(m - c, m),
                    x as int,
                    y as int,
                    ex2,
                    ey2,
                    *o,
                ) && abs_v(ex2 - x as int) <= abs_v(width as int) && abs_v(ey2 - y as int)
                    <= abs_v(height as int) && (o.roughness == 0 ==> ex2 == x as int + fx_mul_v(
                    tdiv(abs_v(width as int), 2),
                    cos_fx_v(norm_stop_v(start as int, stop as int)),
                ) && ey2 == y as int + fx_mul_v(
                    tdiv(abs_v(height as int), 2),
                    sin_fx_v(norm_stop_v(start as int, stop as int)),
                )))
        }),
{
    let ghost sst: u64 = rs.state;
    let cx: i64 = x;
    let cy: i64 = y;
    let hw: i64 = (((if width < 0 {
        -width
    } else {
        width
    }) as u64) / 2) as i64;
    let hh: i64 = (((if height < 0 {
        -height
    } else {
        height
    }) as u64) / 2) as i64;
    let ghost b0: u64 = rs.state;
    let jrx: i64 = _offset_opt(idiv(hw, 100), o, 1_000_000, rs);
    let jry: i64 = _offset_opt(idiv(hh, 100), o, 1_000_000, rs);
    proof {
        lemma_reaches_refl(sst);
        crate::rng::lemma_reaches_step(b0);
        crate::rng::lemma_reaches_step(crate::rng::next_state_v(b0));
        lemma_reaches_trans(b0, crate::rng::next_state_v(b0), rs.state);
        lemma_reaches_trans(sst, b0, rs.state);
    }
    proof {
        vstd::arithmetic::div_mod::lemma_fundamental_div_mod(hw as int, 100);
        vstd::arithmetic::div_mod::lemma_fundamental_div_mod(hh as int, 100);
        assert(abs_v(jrx as int) <= hw as int);
        assert(abs_v(jry as int) <= hh as int);
    }
    let rx: i64 = hw + jrx;
    let ry: i64 = hh + jry;
    let norm: (i64, i64) = normalize_arc_angles(start, stop);
    let nstart: i64 = norm.0;
    let nstop: i64 = norm.1;
    let ellipse_inc: i64 = ((TWO_PI_FX as u64) / (o.curve_step_count as u64)) as i64;
    let half_inc: i64 = ((ellipse_inc as u64) / 2) as i64;
    let half_span: i64 = (((nstop - nstart) as u64) / 2) as i64;
    let arc_inc: i64 = if half_inc < half_span {
        half_inc
    } else {
        half_span
    };
    proof {
        vstd::arithmetic::div_mod::lemma_div_is_ordered_by_denominator(
            TWO_PI_FX as int,
            o.curve_step_count as int,
            1000,
        );
        vstd::arithmetic::div_mod::lemma_div_is_ordered(
            2int,
            (nstop as int) - (nstart as int),
            2,
        );
    }
    let ghost b1: u64 = rs.state;
    let mut ops: Vec<Op> = _arc(arc_inc, cx, cy, rx, ry, nstart, nstop, 1_000_000, o, rs);
    proof {
        lemma_reaches_trans(sst, b1, rs.state);
    }
    if !o.disable_multi_stroke {
        let ghost b2: u64 = rs.state;
        let mut ops2: Vec<Op> = _arc(arc_inc, cx, cy, rx, ry, nstart, nstop, 1_500_000, o, rs);
        let ghost n2: int = ops2@.len() as int;
        let ghost last2: Op = ops2@[n2 - 1];
        ops.append(&mut ops2);
        proof {
            lemma_reaches_trans(sst, b2, rs.state);
            assert(ops@[ops@.len() - 1] == last2);
        }
    }
    if closed {
        let cs: i64 = crate::fixed::cos_fx(nstart);
        let ss: i64 = crate::fixed::sin_fx(nstart);
        let ce: i64 = crate::fixed::cos_fx(nstop);
        let se: i64 = crate::fixed::sin_fx(nstop);
        proof {
            lemma_fx_scale(rx as int, cs as int, 2_000_000_000_000);
            lemma_fx_scale(ry as int, ss as int, 2_000_000_000_000);
            lemma_fx_scale(rx as int, ce as int, 2_000_000_000_000);
            lemma_fx_scale(ry as int, se as int, 2_000_000_000_000);
        }
        if rough_closure {
            proof {
                lemma_fx_scale(rx as int, cs as int, abs_v(rx as int));
                lemma_fx_scale(ry as int, ss as int, abs_v(ry as int));
                lemma_fx_scale(rx as int, ce as int, abs_v(rx as int));
                lemma_fx_scale(ry as int, se as int, abs_v(ry as int));
            }
            let ex1: i64 = cx + fx_mul(rx, cs);
            let ey1: i64 = cy + fx_mul(ry, ss);
            let ex2: i64 = cx + fx_mul(rx, ce);
            let ey2: i64 = cy + fx_mul(ry, se);
            let ghost b3: u64 = rs.state;
            let mut dl1: Vec<Op> = _double_line(cx, cy, ex1, ey1, o, rs);
            let ghost dl1v: Seq<Op> = dl1@;
            ops.append(&mut dl1);
            proof {
                crate::rng::lemma_reaches_nth(
                    b3,
                    if o.disable_multi_stroke {
                        11nat
                    } else {
                        22nat
                    },
                );
                lemma_reaches_trans(sst, b3, rs.state);
            }
            let ghost b4: u64 = rs.state;
            let mut dl2: Vec<Op> = _double_line(cx, cy, ex2, ey2, o, rs);
            let ghost dl2v: Seq<Op> = dl2@;
            ops.append(&mut dl2);
            proof {
                crate::rng::lemma_reaches_nth(
                    b4,
                    if o.disable_multi_stroke {
                        11nat
                    } else {
                        22nat
                    },
                );
                lemma_reaches_trans(sst, b4, rs.state);
                let c = stroke_op_count(*o);
                let m = ops@.len() as int;
                assert(ops@.subrange(m - 2 * c, m - c) =~= dl1v);
                assert(ops@.subrange(m - c, m) =~= dl2v);
                assert(double_line_ops_ok(
                    ops@.subrange(m - 2 * c, m - c),
                    cx as int,
                    cy as int,
                    ex1 as int,
                    ey1 as int,
                    *o,
                ));
                assert(double_line_ops_ok(
                    ops@.subrange(m - c, m),
                    cx as int,
                    cy as int,
                    ex2 as int,
                    ey2 as int,
                    *o,
                ));
            }
        } else {
            let mut d1: Vec<i64> = Vec::new();
            d1.push(cx);
            d1.push(cy);
            ops.push(Op { op: OpType::LineTo, data: d1 });
            let mut d2: Vec<i64> = Vec::new();
            d2.push(cx + fx_mul(rx, cs));
            d2.push(cy + fx_mul(ry, ss));
            ops.push(Op { op: OpType::LineTo, data: d2 });
        }
    }
    OpSet { ops_type: OpSetType::Path, ops }
}

/// The first `k` parametric arc samples from `start`, one per angular
/// step.
pub open spec fn arc_samples_v(
    cx: int,
    cy: int,
    rx: int,
    ry: int,
    start: int,
    inc: int,
    k: int,
) -> Seq<Point>
    decreases k,
{
    if k <= 0 {
        Seq::empty()
    } else {
        arc_samples_v(cx, cy, rx, ry, start, inc, k - 1) + seq![
            Point {
                x: (cx + fx_mul_v(rx, cos_fx_v(start + (k - 1) * inc))) as i64,
                y: (cy + fx_mul_v(ry, sin_fx_v(start + (k - 1) * inc))) as i64,
            },
        ]
    }
}

/// The sector wedge an arc fill sweeps: the arc samples from the
/// normalized start up to the stop, then the exact stop point, then the
/// center.
pub open spec fn arc_wedge_v(
    cx: int,
    cy: int,
    rx: int,
    ry: int,
    start: int,
    stop: int,
    inc: int,
) -> Seq<Point> {
    arc_samples_v(cx, cy, rx, ry, start, inc, (stop - start) / inc + 1) + seq![
        Point {
            x: (cx + fx_mul_v(rx, cos_fx_v(stop))) as i64,
            y: (cy + fx_mul_v(ry, sin_fx_v(stop))) as i64,
        },
        Point { x: cx as i64, y: cy as i64 },
    ]
}

/// The angular step of the arc fill: the normalized span divided by the
/// configured step count.
pub open spec fn fill_inc_v(start: int, stop: int, o: Options) -> int {
    tdiv(arc_span_v(start, stop), o.curve_step_count as int)
}

/// Fills a closed elliptic arc with the configured pattern: the angular
/// range is normalized to at most one full turn, the arc is sampled
/// without jitter, closed through the center, and handed to the pattern
/// filler.
#[verifier::rlimit(100)]
#[verifier::spinoff_prover]
pub fn pattern_fill_arc(
    x: i64,
    y: i64,
    width: i64,
    height: i64,
    start: i64,
    stop: i64,
    o: &Options,
    rs: &mut RandomSource,
) -> (r: Result<OpSet, FillError>)
    requires
        o.valid(),
        abs_v(x as int) <= SHAPE_LIMIT as int,
        abs_v(y as int) <= SHAPE_LIMIT as int,
        abs_v(width as int) <= SHAPE_LIMIT as int,
        abs_v(height as int) <= SHAPE_LIMIT as int,
        abs_v(start as int) <= 1_000_000_000,
        abs_v(stop as int) <= 1_000_000_000,
        arc_span_v(start as int, stop as int) >= o.curve_step_count,
    ensures
        reaches_v(old(rs).state, final(rs).state),
        (r is Ok) <==> (o.fill_style == FillStyle::Hachure || o.fill_style == FillStyle::Zigzag),
        r is Ok ==> (r->Ok_0).ops_type == OpSetType::FillSketch && (r->Ok_0).wf(),
        o.fill_style == FillStyle::Hachure ==> (exists|rxv: int, ryv: int|
            {
                &&& #[trigger] crate::filler::sketch_of_lines(
                    (r->Ok_0).ops@,
                    crate::filler::hachure_lines_v(
                        seq![
                            arc_wedge_v(
                                x as int,
                                y as int,
                                rxv,
                                ryv,
                                norm_start_v(start as int, stop as int),
                                norm_stop_v(start as int, stop as int),
                                fill_inc_v(start as int, stop as int, *o),
                            ),
                        ],
                        *o,
                    ),
                    *o,
                )
                &&& abs_v(rxv - tdiv(abs_v(width as int), 2)) <= tdiv(abs_v(width as int), 2)
                &&& abs_v(ryv - tdiv(abs_v(height as int), 2)) <= tdiv(abs_v(height as int), 2)
                &&& (o.roughness == 0 ==> rxv == tdiv(abs_v(width as int), 2) && ryv == tdiv(
                    abs_v(height as int),
                    2,
                ))
            }),
        o.fill_style == FillStyle::Zigzag ==> (exists|rxv: int, ryv: int|
            {
                &&& #[trigger] crate::filler::sketch_of_lines(
                    (r->Ok_0).ops@,
                    crate::filler::zigzag_of_v(
                        crate::filler::hachure_lines_v(
                            seq![
                                arc_wedge_v(
                                    x as int,
                                    y as int,
                                    rxv,
                                    ryv,
                                    norm_start_v(start as int, stop as int),
                                    norm_stop_v(start as int, stop as int),
                                    fill_inc_v(start as int, stop as int, *o),
                                ),
                            ],
                            *o,
                        ),
                        *o,
                    ),
                    *o,
                )
                &&& abs_v(rxv - tdiv(abs_v(width as int), 2)) <= tdiv(abs_v(width as int), 2)
                &&& abs_v(ryv - tdiv(abs_v(height as int), 2)) <= tdiv(abs_v(height as int), 2)
                &&& (o.roughness == 0 ==> rxv == tdiv(abs_v(width as int), 2) && ryv == tdiv(
                    abs_v(height as int),
                    2,
                ))
            }),
        o.fill_style == FillStyle::Hachure ==> (exists|lines: Seq<crate::geometry::Line>|
            #[trigger] crate::filler::sketch_of_lines((r->Ok_0).ops@, lines, *o)
                && crate::filler::is_hachure_line_set(lines, *o)),
        o.fill_style == FillStyle::Zigzag ==> (exists|zl: Seq<crate::geometry::Line>|
            #[trigger] crate::filler::sketch_of_lines((r->Ok_0).ops@, zl, *o)
                && crate::filler::is_zigzag_line_set(zl, *o)),
{
    let ghost sst: u64 = rs.state;
    let cx: i64 = x;
    let cy: i64 = y;
    let hw: i64 = (((if width < 0 {
        -width
    } else {
        width
    }) as u64) / 2) as i64;
    let hh: i64 = (((if height < 0 {
        -height
    } else {
        height
    }) as u64) / 2) as i64;
    let ghost b0: u64 = rs.state;
    let jrx: i64 = _offset_opt(idiv(hw, 100), o, 1_000_000, rs);
    let jry: i64 = _offset_opt(idiv(hh, 100), o, 1_000_000, rs);
    proof {
        lemma_reaches_refl(sst);
        crate::rng::lemma_reaches_step(b0);
        crate::rng::lemma_reaches_step(crate::rng::next_state_v(b0));
        lemma_reaches_trans(b0, crate::rng::next_state_v(b0), rs.state);
        lemma_reaches_trans(sst, b0, rs.state);
        vstd::arithmetic::div_mod::lemma_fundamental_div_mod(hw as int, 100);
        vstd::arithmetic::div_mod::lemma_fundamental_div_mod(hh as int, 100);
        assert(abs_v(jrx as int) <= hw as int);
        assert(abs_v(jry as int) <= hh as int);
    }
    let rx: i64 = hw + jrx;
    let ry: i64 = hh + jry;
    let span: (i64, i64) = normalize_arc_angles(start, stop);
    let nstart: i64 = span.0;
    let nstop: i64 = span.1;
    let increment: i64 = ((((nstop - nstart) as u64)) / (o.curve_step_count as u64)) as i64;
    proof {
        vstd::arithmetic::div_mod::lemma_div_is_ordered(
            o.curve_step_count as int,
            (nstop as int) - (nstart as int),
            o.curve_step_count as int,
        );
        vstd::arithmetic::div_mod::lemma_div_by_self(o.curve_step_count as int);
    }
    let mut points: Vec<Point> = Vec::new();
    let mut angle: i64 = nstart;
    let ghost mut j: int = 0;
    while angle <= nstop
        invariant
            o.valid(),
            0 < increment <= TWO_PI_FX,
            increment as int == fill_inc_v(start as int, stop as int, *o),
            nstart as int == norm_start_v(start as int, stop as int),
            nstop as int == norm_stop_v(start as int, stop as int),
            abs_v(cx as int) <= SHAPE_LIMIT as int,
            abs_v(cy as int) <= SHAPE_LIMIT as int,
            abs_v(rx as int) <= 2_000_000_000_000,
            abs_v(ry as int) <= 2_000_000_000_000,
            0 <= nstart,
            nstop <= 2_100_000_000,
            angle as int >= nstart as int,
            angle as int <= 2_100_000_000 + (TWO_PI_FX as int),
            points_within(points@, 4_000_000_000_000),
            j >= 0,
            nstart <= nstop,
            angle as int == nstart as int + j * (increment as int),
            j >= 1 ==> nstart as int + (j - 1) * (increment as int) <= nstop as int,
            points@ =~= arc_samples_v(
                cx as int,
                cy as int,
                rx as int,
                ry as int,
                nstart as int,
                increment as int,
                j,
            ),
        decreases (nstop as int) + (increment as int) - (angle as int),
    {
        let ca: i64 = crate::fixed::cos_fx(angle);
        let sa: i64 = crate::fixed::sin_fx(angle);
        proof {
            lemma_fx_scale(rx as int, ca as int, 2_000_000_000_000);
            lemma_fx_scale(ry as int, sa as int, 2_000_000_000_000);
        }
        points.push(Point { x: cx + fx_mul(rx, ca), y: cy + fx_mul(ry, sa) });
        angle = angle + increment;
        proof {
            j = j + 1;
            assert(j * (increment as int) == (j - 1) * (increment as int) + (increment as int))
                by (nonlinear_arith);
            assert(points@ =~= arc_samples_v(
                cx as int,
                cy as int,
                rx as int,
                ry as int,
                nstart as int,
                increment as int,
                j,
            ));
        }
    }
    proof {
        let spanv = (nstop as int) - (nstart as int);
        let inc = increment as int;
        if j == 0 {
            assert(j * inc == 0) by (nonlinear_arith)
                requires
                    j == 0,
            ;
            assert(false);
        }
        assert((j - 1) * inc <= spanv < j * inc) by (nonlinear_arith)
            requires
                (nstart as int) + j * inc > nstop as int,
                (nstart as int) + (j - 1) * inc <= nstop as int,
                spanv == (nstop as int) - (nstart as int),
        ;
        assert(j * inc == (j - 1) * inc + inc) by (nonlinear_arith);
        vstd::arithmetic::div_mod::lemma_fundamental_div_mod_converse_div(
            spanv,
            inc,
            j - 1,
            spanv - (j - 1) * inc,
        );
        assert(j == spanv / inc + 1);
    }
    let cs: i64 = crate::fixed::cos_fx(nstop);
    let ss: i64 = crate::fixed::sin_fx(nstop);
    proof {
        lemma_fx_scale(rx as int, cs as int, 2_000_000_000_000);
        lemma_fx_scale(ry as int, ss as int, 2_000_000_000_000);
    }
    points.push(Point { x: cx + fx_mul(rx, cs), y: cy + fx_mul(ry, ss) });
    points.push(Point { x: cx, y: cy });
    proof {
        assert(points@ =~= arc_wedge_v(
            cx as int,
            cy as int,
            rx as int,
            ry as int,
            nstart as int,
            nstop as int,
            increment as int,
        ));
    }
    let mut polys: Vec<Vec<Point>> = Vec::new();
    polys.push(points);
    proof {
        assert(crate::filler::views_of(polys@) =~~= seq![
            arc_wedge_v(
                cx as int,
                cy as int,
                rx as int,
                ry as int,
                nstart as int,
                nstop as int,
                increment as int,
            ),
        ]);
    }
    let ghost b1: u64 = rs.state;
    let r: Result<OpSet, FillError> = pattern_fill_polygon(polys, o, rs);
    proof {
        lemma_reaches_trans(sst, b1, rs.state);
    }
    r
}

/// The jitter-free sample geometry of one ellipse pass: its two radii and
/// the angular step between samples.
#[derive(Clone, Copy, Debug)]
pub struct EllipseParams {
    pub(crate) rx: i64,
    pub(crate) ry: i64,
    pub(crate) increment: i64,
}

impl EllipseParams {
    /// The angular step between samples.
    pub closed spec fn increment_v(self) -> int {
        self.increment as int
    }

    /// The horizontal radius of the pass, after its one-time jitter.
    pub closed spec fn rx_v(self) -> int {
        self.rx as int
    }

    /// The vertical radius of the pass, after its one-time jitter.
    pub closed spec fn ry_v(self) -> int {
        self.ry as int
    }

    /// The ranges the sampling loops rely on.
    pub closed spec fn wf(self) -> bool {
        &&& 4 <= self.increment <= TWO_PI_FX
        &&& abs_v(self.rx as int) <= 11_000_000_000_000
        &&& abs_v(self.ry as int) <= 11_000_000_000_000
    }
}

/// One generated ellipse pass: its operation set and the unjittered sample
/// points, kept for a later fill.
#[derive(Clone, Debug)]
pub struct EllipseResult {
    pub opset: OpSet,
    pub estimated_points: Vec<Point>,
}

/// Derives the ellipse sampling parameters: the step count follows the
/// perimeter estimate but never drops below the configured count, and the
/// radii are jittered once by the curve-fitting randomness.
#[verifier::rlimit(100)]
#[verifier::spinoff_prover]
pub fn generate_ellipse_params(width: i64, height: i64, o: &Options, rs: &mut RandomSource) -> (p:
    EllipseParams)
    requires
        o.valid(),
        abs_v(width as int) <= SHAPE_LIMIT as int,
        abs_v(height as int) <= SHAPE_LIMIT as int,
    ensures
        p.wf(),
        reaches_v(old(rs).state, final(rs).state),
        o.roughness == 0 ==> p.rx_v() == tdiv(abs_v(width as int), 2) && p.ry_v() == tdiv(
            abs_v(height as int),
            2,
        ),
        abs_v(p.rx_v() - tdiv(abs_v(width as int), 2)) <= 20 * tdiv(abs_v(width as int), 2),
        abs_v(p.ry_v() - tdiv(abs_v(height as int), 2)) <= 20 * tdiv(abs_v(height as int), 2),
{
    let ghost sst: u64 = rs.state;
    let hw: i64 = (((if width < 0 {
        -width
    } else {
        width
    }) as u64) / 2) as i64;
    let hh: i64 = (((if height < 0 {
        -height
    } else {
        height
    }) as u64) / 2) as i64;
    proof {
        lemma_fx_mul_bound(hw as int, hw as int, 500_000_000_000, 500_000_000_000);
        lemma_fx_mul_bound(hh as int, hh as int, 500_000_000_000, 500_000_000_000);
        assert((hw as int) * (hw as int) >= 0) by (nonlinear_arith)
            requires
                hw as int >= 0,
        ;
        assert((hh as int) * (hh as int) >= 0) by (nonlinear_arith)
            requires
                hh as int >= 0,
        ;
        lemma_tdiv_abs((hw as int) * (hw as int), FX_ONE as int);
        lemma_tdiv_abs((hh as int) * (hh as int), FX_ONE as int);
    }
    let a: i64 = fx_mul(hw, hw);
    let b: i64 = fx_mul(hh, hh);
    proof {
        lemma_tdiv_mono(0, a as int, FX_ONE as int);
        lemma_tdiv_mono(0, b as int, FX_ONE as int);
        vstd::arithmetic::div_mod::lemma_div_of0(FX_ONE as int);
    }
    let inner: i64 = (((a + b) as u64) / 2) as i64;
    let s1: u64 = isqrt_u128((inner as u128) * 1_000_000);
    proof {
        assert(s1 as int <= 510_000_000_000int) by (nonlinear_arith)
            requires
                (s1 as int) * (s1 as int) <= 250_000_000_000_000_000_000_000int,
                s1 as int >= 0,
        ;
        lemma_fx_mul_bound(TWO_PI_FX as int, s1 as int, TWO_PI_FX as int, 510_000_000_000);
    }
    let p2: i64 = fx_mul(TWO_PI_FX, s1 as i64);
    proof {
        lemma_tdiv_abs((TWO_PI_FX as int) * (s1 as int), FX_ONE as int);
        assert((TWO_PI_FX as int) * (s1 as int) >= 0) by (nonlinear_arith)
            requires
                s1 as int >= 0,
        ;
        lemma_tdiv_mono(0, (TWO_PI_FX as int) * (s1 as int), FX_ONE as int);
        vstd::arithmetic::div_mod::lemma_div_of0(FX_ONE as int);
    }
    let psq: u64 = isqrt_u128((p2 as u128) * 1_000_000);
    proof {
        assert(psq as int <= 1_900_000_000int) by (nonlinear_arith)
            requires
                (psq as int) * (psq as int) <= 3_300_000_000_000_000_000int,
                psq as int >= 0,
        ;
    }
    let cscf: i64 = (o.curve_step_count as i64) * FX_ONE;
    proof {
        lemma_fx_mul_bound(psq as int, cscf as int, 1_900_000_000, 1_000_000_000);
        lemma_tdiv_abs((psq as int) * (cscf as int), FX_ONE as int);
        assert((psq as int) * (cscf as int) >= 0) by (nonlinear_arith)
            requires
                psq as int >= 0,
                cscf as int >= 0,
        ;
        lemma_tdiv_mono(0, (psq as int) * (cscf as int), FX_ONE as int);
        vstd::arithmetic::div_mod::lemma_div_of0(FX_ONE as int);
    }
    let prod: i64 = fx_mul(psq as i64, cscf);
    proof {
        let n: int = (prod as int) * (FX_ONE as int);
        assert(0 <= n && n <= 1_900_000_000_000_000_000int) by (nonlinear_arith)
            requires
                0 <= (prod as int) && (prod as int) <= 1_900_000_000_000int,
                n == (prod as int) * (FX_ONE as int),
        ;
        lemma_tdiv_le(0, n, crate::fixed::SQRT_200_FX as int);
        vstd::arithmetic::div_mod::lemma_div_is_ordered_by_denominator(
            n,
            10_000_000,
            crate::fixed::SQRT_200_FX as int,
        );
        lemma_tdiv_le(0, n, 10_000_000);
    }
    let stepf: i64 = crate::fixed::fx_div(prod, crate::fixed::SQRT_200_FX);
    let ceilu: u64 = ((stepf as u64) + 999_999) / 1_000_000;
    let csc: u64 = o.curve_step_count as u64;
    let sc: u64 = if csc > ceilu {
        csc
    } else {
        ceilu
    };
    proof {
        vstd::arithmetic::div_mod::lemma_div_is_ordered(
            (stepf as int) + 999_999,
            200_000_000_000int,
            1_000_000,
        );
        vstd::arithmetic::div_mod::lemma_div_is_ordered_by_denominator(
            TWO_PI_FX as int,
            sc as int,
            200_001,
        );
        vstd::arithmetic::div_mod::lemma_div_is_ordered_by_denominator(
            TWO_PI_FX as int,
            1,
            sc as int,
        );
        vstd::arithmetic::div_mod::lemma_div_by_multiple(TWO_PI_FX as int, 1);
    }
    let increment: i64 = ((TWO_PI_FX as u64) / sc) as i64;
    let cf_rand: i64 = FX_ONE - o.curve_fitting;
    proof {
        lemma_fx_scale(hw as int, cf_rand as int, 500_000_000_000);
        lemma_fx_scale(hh as int, cf_rand as int, 500_000_000_000);
        lemma_fx_scale(hw as int, cf_rand as int, hw as int);
        lemma_fx_scale(hh as int, cf_rand as int, hh as int);
    }
    let bx: i64 = fx_mul(hw, cf_rand);
    let by: i64 = fx_mul(hh, cf_rand);
    let ghost b0: u64 = rs.state;
    let jx: i64 = _offset_opt(bx, o, 1_000_000, rs);
    let jy: i64 = _offset_opt(by, o, 1_000_000, rs);
    proof {
        lemma_reaches_refl(sst);
        crate::rng::lemma_reaches_step(b0);
        crate::rng::lemma_reaches_step(crate::rng::next_state_v(b0));
        lemma_reaches_trans(b0, crate::rng::next_state_v(b0), rs.state);
        lemma_reaches_trans(sst, b0, rs.state);
    }
    EllipseParams { rx: hw + jx, ry: hh + jy, increment }
}

/// Every point is the parametric ellipse sample at `a0 + k * inc`, within
/// the per-point jitter envelope.
pub open spec fn ellipse_samples_near(
    pts: Seq<Point>,
    cx: int,
    cy: int,
    rx: int,
    ry: int,
    a0: int,
    inc: int,
) -> bool {
    forall|k: int|
        0 <= k < pts.len() ==> (abs_v(
            (#[trigger] pts[k]).x as int - (cx + fx_mul_v(rx, cos_fx_v(a0 + k * inc))),
        ) <= 40_000_000 && abs_v(pts[k].y as int - (cy + fx_mul_v(ry, sin_fx_v(a0 + k * inc))))
            <= 40_000_000)
}

/// Every point is exactly the parametric ellipse sample at `k * inc`.
pub open spec fn ellipse_samples_exact(
    pts: Seq<Point>,
    cx: int,
    cy: int,
    rx: int,
    ry: int,
    inc: int,
) -> bool {
    forall|k: int|
        0 <= k < pts.len() ==> ((#[trigger] pts[k]).x as int == cx + fx_mul_v(
            rx,
            cos_fx_v(k * inc),
        ) && pts[k].y as int == cy + fx_mul_v(ry, sin_fx_v(k * inc)))
}

/// Samples one full ellipse pass: the jittered samples that the curve is
/// fitted through, and the unjittered core samples kept for fills. With
/// zero roughness the samples are exact and the pass starts at angle zero;
/// otherwise the start angle is jittered a quarter turn back and the pass
/// closes over itself by the given overlap.
#[verifier::rlimit(100)]
#[verifier::spinoff_prover]
fn _compute_ellipse_points(
    increment: i64,
    cx: i64,
    cy: i64,
    rx: i64,
    ry: i64,
    offset: i64,
    overlap: i64,
    o: &Options,
    rs: &mut RandomSource,
) -> (r: (Vec<Point>, Vec<Point>))
    requires
        o.valid(),
        4 <= increment <= TWO_PI_FX,
        abs_v(cx as int) <= SHAPE_LIMIT as int,
        abs_v(cy as int) <= SHAPE_LIMIT as int,
        abs_v(rx as int) <= 11_000_000_000_000,
        abs_v(ry as int) <= 11_000_000_000_000,
        0 < offset <= 2_000_000,
        abs_v(overlap as int) <= 10_000_000_000,
    ensures
        r.0@.len() == r.1@.len() + (if o.roughness == 0 {
            3int
        } else {
            4int
        }),
        r.1@.len() >= 1,
        points_within(r.0@, 15_000_000_000_000),
        points_within(r.1@, 15_000_000_000_000),
        reaches_v(old(rs).state, final(rs).state),
        o.roughness == 0 ==> ellipse_samples_exact(
            r.1@,
            cx as int,
            cy as int,
            rx as int,
            ry as int,
            tdiv(increment as int, 4),
        ),
        o.roughness == 0 ==> r.0@ =~= seq![
            Point {
                x: (cx as int + fx_mul_v(rx as int, cos_fx_v(-tdiv(increment as int, 4)))) as i64,
                y: (cy as int + fx_mul_v(ry as int, sin_fx_v(-tdiv(increment as int, 4)))) as i64,
            },
        ] + r.1@ + seq![
            Point { x: (cx as int + rx as int) as i64, y: cy },
            Point {
                x: (cx as int + fx_mul_v(rx as int, cos_fx_v(tdiv(increment as int, 4)))) as i64,
                y: (cy as int + fx_mul_v(ry as int, sin_fx_v(tdiv(increment as int, 4)))) as i64,
            },
        ],
        o.roughness != 0 ==> (exists|a0: int|
            #[trigger] ellipse_samples_near(
                r.1@,
                cx as int,
                cy as int,
                rx as int,
                ry as int,
                a0,
                increment as int,
            )),
{
    let ghost sst: u64 = rs.state;
    let mut core_points: Vec<Point> = Vec::new();
    let mut all_points: Vec<Point> = Vec::new();
    if o.roughness == 0 {
        let inc4: i64 = ((increment as u64) / 4) as i64;
        proof {
            vstd::arithmetic::div_mod::lemma_div_is_ordered(4, increment as int, 4);
            lemma_reaches_refl(sst);
        }
        let cm: i64 = crate::fixed::cos_fx(0 - inc4);
        let sm: i64 = crate::fixed::sin_fx(0 - inc4);
        proof {
            lemma_fx_scale(rx as int, cm as int, 11_000_000_000_000);
            lemma_fx_scale(ry as int, sm as int, 11_000_000_000_000);
        }
        let leadp: Point = Point { x: cx + fx_mul(rx, cm), y: cy + fx_mul(ry, sm) };
        all_points.push(leadp);
        let mut angle: i64 = 0;
        while angle <= TWO_PI_FX
            invariant
                o.valid(),
                1 <= inc4 <= TWO_PI_FX,
                abs_v(cx as int) <= SHAPE_LIMIT as int,
                abs_v(cy as int) <= SHAPE_LIMIT as int,
                abs_v(rx as int) <= 11_000_000_000_000,
                abs_v(ry as int) <= 11_000_000_000_000,
                0 <= angle as int <= 2 * (TWO_PI_FX as int),
                all_points@.len() == core_points@.len() + 1,
                all_points@ =~= seq![leadp] + core_points@,
                angle as int > 0 ==> core_points@.len() >= 1,
                points_within(all_points@, 15_000_000_000_000),
                points_within(core_points@, 15_000_000_000_000),
                inc4 as int == tdiv(increment as int, 4),
                angle as int == core_points@.len() * (inc4 as int),
                ellipse_samples_exact(
                    core_points@,
                    cx as int,
                    cy as int,
                    rx as int,
                    ry as int,
                    inc4 as int,
                ),
            decreases (TWO_PI_FX as int) + (inc4 as int) - (angle as int),
        {
            let ca: i64 = crate::fixed::cos_fx(angle);
            let sa: i64 = crate::fixed::sin_fx(angle);
            proof {
                lemma_fx_scale(rx as int, ca as int, 11_000_000_000_000);
                lemma_fx_scale(ry as int, sa as int, 11_000_000_000_000);
            }
            let p: Point = Point { x: cx + fx_mul(rx, ca), y: cy + fx_mul(ry, sa) };
            let ghost old_core: Seq<Point> = core_points@;
            core_points.push(p);
            all_points.push(p);
            proof {
                assert((old_core.len() + 1) * (inc4 as int) == old_core.len() * (inc4 as int) + (
                inc4 as int)) by (nonlinear_arith);
                assert forall|k: int| 0 <= k < core_points@.len() implies ((
                #[trigger] core_points@[k]).x as int == cx as int + fx_mul_v(
                    rx as int,
                    cos_fx_v(k * (inc4 as int)),
                ) && core_points@[k].y as int == cy as int + fx_mul_v(
                    ry as int,
                    sin_fx_v(k * (inc4 as int)),
                )) by {
                    if k < old_core.len() {
                        assert(core_points@[k] == old_core[k]);
                    } else {
                        assert(core_points@[k] == p);
                        assert(k * (inc4 as int) == angle as int);
                    }
                }
            }
            angle = angle + inc4;
        }
        let cp: i64 = crate::fixed::cos_fx(inc4);
        let sp: i64 = crate::fixed::sin_fx(inc4);
        proof {
            lemma_fx_scale(rx as int, cp as int, 11_000_000_000_000);
            lemma_fx_scale(ry as int, sp as int, 11_000_000_000_000);
        }
        all_points.push(Point { x: cx + rx, y: cy });
        all_points.push(Point { x: cx + fx_mul(rx, cp), y: cy + fx_mul(ry, sp) });
    } else {
        let ghost b0: u64 = rs.state;
        let ro: i64 = _offset_opt(500_000, o, 1_000_000, rs);
        proof {
            lemma_reaches_refl(sst);
            crate::rng::lemma_reaches_step(b0);
            lemma_reaches_trans(sst, b0, rs.state);
        }
        let rad_offset: i64 = ro - HALF_PI_FX;
        let ghost b1: u64 = rs.state;
        let j1: i64 = _offset_opt(offset, o, 1_000_000, rs);
        let j2: i64 = _offset_opt(offset, o, 1_000_000, rs);
        proof {
            crate::rng::lemma_reaches_step(b1);
            crate::rng::lemma_reaches_step(crate::rng::next_state_v(b1));
            lemma_reaches_trans(b1, crate::rng::next_state_v(b1), rs.state);
            lemma_reaches_trans(sst, b1, rs.state);
            lemma_fx_scale(rx as int, 900_000, 11_000_000_000_000);
            lemma_fx_scale(ry as int, 900_000, 11_000_000_000_000);
        }
        let rx9: i64 = fx_mul(rx, 900_000);
        let ry9: i64 = fx_mul(ry, 900_000);
        let cl: i64 = crate::fixed::cos_fx(rad_offset - increment);
        let sl: i64 = crate::fixed::sin_fx(rad_offset - increment);
        proof {
            lemma_fx_scale(rx9 as int, cl as int, 11_000_000_000_000);
            lemma_fx_scale(ry9 as int, sl as int, 11_000_000_000_000);
        }
        all_points.push(Point { x: j1 + cx + fx_mul(rx9, cl), y: j2 + cy + fx_mul(ry9, sl) });
        let end_angle: i64 = TWO_PI_FX + rad_offset - 10_000;
        let mut angle: i64 = rad_offset;
        while angle < end_angle
            invariant
                o.valid(),
                4 <= increment <= TWO_PI_FX,
                abs_v(cx as int) <= SHAPE_LIMIT as int,
                abs_v(cy as int) <= SHAPE_LIMIT as int,
                abs_v(rx as int) <= 11_000_000_000_000,
                abs_v(ry as int) <= 11_000_000_000_000,
                0 < offset <= 2_000_000,
                abs_v(rad_offset as int) <= 12_000_000,
                end_angle as int == (TWO_PI_FX as int) + (rad_offset as int) - 10_000,
                angle as int >= rad_offset as int,
                angle as int <= (end_angle as int) + (TWO_PI_FX as int),
                all_points@.len() == core_points@.len() + 1,
                angle as int > rad_offset as int ==> core_points@.len() >= 1,
                points_within(all_points@, 15_000_000_000_000),
                points_within(core_points@, 15_000_000_000_000),
                reaches_v(sst, rs.state),
                angle as int == rad_offset as int + core_points@.len() * (increment as int),
                ellipse_samples_near(
                    core_points@,
                    cx as int,
                    cy as int,
                    rx as int,
                    ry as int,
                    rad_offset as int,
                    increment as int,
                ),
            decreases (end_angle as int) + (increment as int) - (angle as int),
        {
            let ghost before: u64 = rs.state;
            let jx: i64 = _offset_opt(offset, o, 1_000_000, rs);
            let jy: i64 = _offset_opt(offset, o, 1_000_000, rs);
            proof {
                crate::rng::lemma_reaches_step(before);
                crate::rng::lemma_reaches_step(crate::rng::next_state_v(before));
                lemma_reaches_trans(before, crate::rng::next_state_v(before), rs.state);
                lemma_reaches_trans(sst, before, rs.state);
            }
            let ca: i64 = crate::fixed::cos_fx(angle);
            let sa: i64 = crate::fixed::sin_fx(angle);
            proof {
                lemma_fx_scale(rx as int, ca as int, 11_000_000_000_000);
                lemma_fx_scale(ry as int, sa as int, 11_000_000_000_000);
            }
            let p: Point = Point { x: jx + cx + fx_mul(rx, ca), y: jy + cy + fx_mul(ry, sa) };
            let ghost old_core: Seq<Point> = core_points@;
            core_points.push(p);
            all_points.push(p);
            proof {
                assert((old_core.len() + 1) * (increment as int) == old_core.len() * (
                increment as int) + (increment as int)) by (nonlinear_arith);
                assert forall|k: int| 0 <= k < core_points@.len() implies (abs_v(
                    (#[trigger] core_points@[k]).x as int - (cx as int + fx_mul_v(
                        rx as int,
                        cos_fx_v(rad_offset as int + k * (increment as int)),
                    )),
                ) <= 40_000_000 && abs_v(
                    core_points@[k].y as int - (cy as int + fx_mul_v(
                        ry as int,
                        sin_fx_v(rad_offset as int + k * (increment as int)),
                    )),
                ) <= 40_000_000) by {
                    if k < old_core.len() {
                        assert(core_points@[k] == old_core[k]);
                        assert(ellipse_samples_near(
                            old_core,
                            cx as int,
                            cy as int,
                            rx as int,
                            ry as int,
                            rad_offset as int,
                            increment as int,
                        ));
                        assert(abs_v(
                            old_core[k].x as int - (cx as int + fx_mul_v(
                                rx as int,
                                cos_fx_v(rad_offset as int + k * (increment as int)),
                            )),
                        ) <= 40_000_000);
                    } else {
                        assert(core_points@[k] == p);
                        assert(rad_offset as int + k * (increment as int) == angle as int);
                    }
                }
            }
            angle = angle + increment;
        }
        let half_over: i64 = idiv(overlap, 2);
        let ghost b2: u64 = rs.state;
        let k1: i64 = _offset_opt(offset, o, 1_000_000, rs);
        let k2: i64 = _offset_opt(offset, o, 1_000_000, rs);
        let k3: i64 = _offset_opt(offset, o, 1_000_000, rs);
        let k4: i64 = _offset_opt(offset, o, 1_000_000, rs);
        let k5: i64 = _offset_opt(offset, o, 1_000_000, rs);
        let k6: i64 = _offset_opt(offset, o, 1_000_000, rs);
        proof {
            crate::rng::lemma_nth_state_succ(b2, 0);
            crate::rng::lemma_nth_state_succ(b2, 1);
            crate::rng::lemma_nth_state_succ(b2, 2);
            crate::rng::lemma_nth_state_succ(b2, 3);
            crate::rng::lemma_nth_state_succ(b2, 4);
            crate::rng::lemma_nth_state_succ(b2, 5);
            crate::rng::lemma_reaches_nth(b2, 6);
            lemma_reaches_trans(sst, b2, rs.state);
        }
        let ch: i64 = crate::fixed::cos_fx(rad_offset + half_over);
        let sh: i64 = crate::fixed::sin_fx(rad_offset + half_over);
        let co: i64 = crate::fixed::cos_fx(rad_offset + overlap);
        let so: i64 = crate::fixed::sin_fx(rad_offset + overlap);
        proof {
            lemma_fx_scale(rx as int, ch as int, 11_000_000_000_000);
            lemma_fx_scale(ry as int, sh as int, 11_000_000_000_000);
            lemma_fx_scale(rx as int, 980_000, 11_000_000_000_000);
            lemma_fx_scale(ry as int, 980_000, 11_000_000_000_000);
        }
        let rx98: i64 = fx_mul(rx, 980_000);
        let ry98: i64 = fx_mul(ry, 980_000);
        let rx9b: i64 = fx_mul(rx, 900_000);
        let ry9b: i64 = fx_mul(ry, 900_000);
        proof {
            lemma_fx_scale(rx98 as int, co as int, 11_000_000_000_000);
            lemma_fx_scale(ry98 as int, so as int, 11_000_000_000_000);
            lemma_fx_scale(rx9b as int, ch as int, 11_000_000_000_000);
            lemma_fx_scale(ry9b as int, sh as int, 11_000_000_000_000);
        }
        all_points.push(Point { x: k1 + cx + fx_mul(rx, ch), y: k2 + cy + fx_mul(ry, sh) });
        all_points.push(Point { x: k3 + cx + fx_mul(rx98, co), y: k4 + cy + fx_mul(ry98, so) });
        all_points.push(Point { x: k5 + cx + fx_mul(rx9b, ch), y: k6 + cy + fx_mul(ry9b, sh) });
    }
    (all_points, core_points)
}

/// One full perturbed ellipse: a fitted curve through the jittered
/// samples, overlaid with a second independent pass unless multi-stroke is
/// disabled or roughness is zero, tagged as a fill path only for a solid
/// fill.
#[verifier::rlimit(100)]
#[verifier::spinoff_prover]
pub fn ellipse_with_params(
    x: i64,
    y: i64,
    o: &Options,
    ellipse_params: EllipseParams,
    rs: &mut RandomSource,
) -> (r: EllipseResult)
    requires
        o.valid(),
        abs_v(x as int) <= SHAPE_LIMIT as int,
        abs_v(y as int) <= SHAPE_LIMIT as int,
        ellipse_params.wf(),
    ensures
        r.opset.ops_type == (if o.fill_style == FillStyle::Solid {
            OpSetType::FillPath
        } else {
            OpSetType::Path
        }),
        r.opset.wf(),
        r.opset.ops@.len() >= 2,
        r.estimated_points@.len() >= 1,
        points_within(r.estimated_points@, 15_000_000_000_000),
        reaches_v(old(rs).state, final(rs).state),
        o.roughness == 0 ==> ellipse_samples_exact(
            r.estimated_points@,
            x as int,
            y as int,
            ellipse_params.rx_v(),
            ellipse_params.ry_v(),
            tdiv(ellipse_params.increment_v(), 4),
        ),
        o.roughness != 0 ==> (exists|a0: int|
            #[trigger] ellipse_samples_near(
                r.estimated_points@,
                x as int,
                y as int,
                ellipse_params.rx_v(),
                ellipse_params.ry_v(),
                a0,
                ellipse_params.increment_v(),
            )),
        o.roughness == 0 ==> r.opset.ops@.len() == r.estimated_points@.len() + 1,
        o.disable_multi_stroke && o.roughness != 0 ==> r.opset.ops@.len()
            == r.estimated_points@.len() + 2,
        !o.disable_multi_stroke && o.roughness != 0 ==> r.opset.ops@.len()
            >= r.estimated_points@.len() + 5,
{
    let ghost sst: u64 = rs.state;
    let ghost b0: u64 = rs.state;
    let vo: i64 = _offset(400_000, 1_000_000, o, 1_000_000, rs);
    let ov: i64 = _offset(100_000, vo, o, 1_000_000, rs);
    proof {
        lemma_reaches_refl(sst);
        crate::rng::lemma_reaches_step(b0);
        crate::rng::lemma_reaches_step(crate::rng::next_state_v(b0));
        lemma_reaches_trans(b0, crate::rng::next_state_v(b0), rs.state);
        lemma_reaches_trans(sst, b0, rs.state);
        lemma_fx_mul_bound(ellipse_params.increment as int, ov as int, TWO_PI_FX as int,
        400_000_000);
    }
    let overlap: i64 = fx_mul(ellipse_params.increment, ov);
    let ghost b1: u64 = rs.state;
    let pts: (Vec<Point>, Vec<Point>) = _compute_ellipse_points(
        ellipse_params.increment,
        x,
        y,
        ellipse_params.rx,
        ellipse_params.ry,
        1_000_000,
        overlap,
        o,
        rs,
    );
    let ap1: Vec<Point> = pts.0;
    let cp1: Vec<Point> = pts.1;
    let ghost b2: u64 = rs.state;
    let mut o1: Vec<Op> = _curve(ap1, None, o, rs);
    proof {
        lemma_reaches_trans(sst, b1, b2);
        lemma_reaches_trans(sst, b2, rs.state);
    }
    if !o.disable_multi_stroke && o.roughness != 0 {
        let ghost b3: u64 = rs.state;
        let pts2: (Vec<Point>, Vec<Point>) = _compute_ellipse_points(
            ellipse_params.increment,
            x,
            y,
            ellipse_params.rx,
            ellipse_params.ry,
            1_500_000,
            0,
            o,
            rs,
        );
        let ghost b4: u64 = rs.state;
        let mut o2: Vec<Op> = _curve(pts2.0, None, o, rs);
        o1.append(&mut o2);
        proof {
            lemma_reaches_trans(sst, b3, b4);
            lemma_reaches_trans(sst, b4, rs.state);
        }
    }
    let ops_type: OpSetType = if matches!(o.fill_style, FillStyle::Solid) {
        OpSetType::FillPath
    } else {
        OpSetType::Path
    };
    proof {
        if o.roughness != 0 {
            let a0w: int = choose|a0: int|
                #[trigger] ellipse_samples_near(
                    cp1@,
                    x as int,
                    y as int,
                    ellipse_params.rx as int,
                    ellipse_params.ry as int,
                    a0,
                    ellipse_params.increment as int,
                );
            assert(ellipse_samples_near(
                cp1@,
                x as int,
                y as int,
                ellipse_params.rx_v(),
                ellipse_params.ry_v(),
                a0w,
                ellipse_params.increment_v(),
            ));
        }
    }
    EllipseResult { estimated_points: cp1, opset: OpSet { ops_type, ops: o1 } }
}

} // verus!
