//! The pattern fillers: hachure and zigzag scanline fills.
//!
//! A polygon is rotated so that the requested fill direction becomes
//! horizontal, decomposed into an edge table, swept by a classic scanline
//! with an active-edge set, and the resulting horizontal segments are
//! rotated back and rendered as perturbed double lines.
//!
//! The sweep carries an exact law for the simplest input: an axis-aligned
//! rectangle yields one fill line per `gap` step, spanning exactly its left
//! and right sides (see [`straight_hachure_lines`]).

use crate::fixed::{abs_v, cos_fx_v, deg_rad_v, fx_div_v, fx_mul_v, lemma_tdiv_abs, sin_fx_v, tdiv, FX_ONE};
use crate::geometry::{
    point_within, points_within, rotate_line_v, rotate_lines, rotate_point_v, rotate_points, Line,
    Point,
};
use crate::model::{FillError, OpSet, OpSetType, Options};
use crate::renderer::{double_line_ops_ok, stroke_op_count, _double_line};
use crate::rng::{lemma_reaches_refl, lemma_reaches_trans, reaches_v, RandomSource};
use core::cmp::Ordering;
use vstd::arithmetic::div_mod::{
    lemma_fundamental_div_mod_converse_div, lemma_mod_add_multiples_vanish, lemma_small_mod,
    lemma_sub_mod_noop,
};
use vstd::prelude::*;

verus! {

/// Coordinates accepted by the fillers' public entry points.
pub const FILL_LIMIT: i64 = 20_000_000_000_000;

/// Coordinates of the rotated polygons handed to the scanline sweep.
pub const EDGE_LIMIT: i64 = 40_000_000_000_000;

/// The sweep clamps an advancing crossing abscissa to this magnitude, so a
/// nearly horizontal edge cannot push it out of range.
pub const X_CLAMP: i64 = 80_000_000_000_000;

/// The largest inverse-slope magnitude an edge records.
pub const SLOPE_CLAMP: i64 = 4_000_000_000_000_000_000;

/// An entry of the scanline edge table: the vertical extent of one polygon
/// edge, its crossing abscissa at the lower end, and its inverse slope.
#[derive(Clone, Copy, Debug, PartialEq, Eq, Structural)]
pub struct EdgeEntry {
    pub ymin: i64,
    pub ymax: i64,
    pub x: i64,
    pub islope: i64,
}

/// A well-formed edge-table entry within the sweep's coordinate range.
pub open spec fn edge_ok(e: EdgeEntry) -> bool {
    &&& e.ymin < e.ymax
    &&& abs_v(e.ymin as int) <= EDGE_LIMIT as int
    &&& abs_v(e.ymax as int) <= EDGE_LIMIT as int
    &&& abs_v(e.x as int) <= X_CLAMP as int
    &&& abs_v(e.islope as int) <= SLOPE_CLAMP as int
}

/// The edge-table order: by lower end, then crossing abscissa, then upper
/// end.
pub open spec fn edge_key_le(a: EdgeEntry, b: EdgeEntry) -> bool {
    ||| a.ymin < b.ymin
    ||| (a.ymin == b.ymin && a.x < b.x)
    ||| (a.ymin == b.ymin && a.x == b.x && a.ymax <= b.ymax)
}

/// The active-set order: by crossing abscissa.
pub open spec fn edge_x_le(a: EdgeEntry, b: EdgeEntry) -> bool {
    a.x <= b.x
}

/// Compares two edge-table entries in the sweep's admission order.
pub fn cmp_edge(e1: &EdgeEntry, e2: &EdgeEntry) -> (r: Ordering)
    ensures
        (r == Ordering::Less || r == Ordering::Equal) == edge_key_le(*e1, *e2),
        (r == Ordering::Equal) <==> (e1.ymin == e2.ymin && e1.x == e2.x && e1.ymax == e2.ymax),
{
    if e1.ymin < e2.ymin {
        return Ordering::Less;
    }
    if e1.ymin > e2.ymin {
        return Ordering::Greater;
    }
    if e1.x < e2.x {
        return Ordering::Less;
    }
    if e1.x > e2.x {
        return Ordering::Greater;
    }
    if e1.ymax < e2.ymax {
        return Ordering::Less;
    }
    if e1.ymax > e2.ymax {
        return Ordering::Greater;
    }
    Ordering::Equal
}

fn edge_le_exec(a: &EdgeEntry, b: &EdgeEntry) -> (r: bool)
    ensures
        r == edge_key_le(*a, *b),
{
    matches!(cmp_edge(a, b), Ordering::Less | Ordering::Equal)
}

/// The inverse slope of the segment `(x1, y1)-(x2, y2)` with `y1 != y2`:
/// `(x2 - x1) / (y2 - y1)` in fixed-point, clamped to [`SLOPE_CLAMP`].
pub open spec fn islope_v(dx: int, dy: int) -> int {
    let q = fx_div_v(dx, dy);
    if q > SLOPE_CLAMP as int {
        SLOPE_CLAMP as int
    } else if q < -(SLOPE_CLAMP as int) {
        -(SLOPE_CLAMP as int)
    } else {
        q
    }
}

fn islope_sat(dx: i64, dy: i64) -> (r: i64)
    requires
        abs_v(dx as int) <= 2 * (EDGE_LIMIT as int),
        dy != 0,
        abs_v(dy as int) <= 2 * (EDGE_LIMIT as int),
    ensures
        r as int == islope_v(dx as int, dy as int),
        abs_v(r as int) <= SLOPE_CLAMP as int,
        dx == 0 ==> r == 0,
{
    let neg: bool = (dx < 0) != (dy < 0);
    let ua: u64 = if dx < 0 {
        (-dx) as u64
    } else {
        dx as u64
    };
    let ub: u64 = if dy < 0 {
        (-dy) as u64
    } else {
        dy as u64
    };
    let p: u128 = (ua as u128) * (FX_ONE as u128);
    let q: u128 = p / (ub as u128);
    proof {
        let n: int = (dx as int) * (FX_ONE as int);
        assert(abs_v(n) == (ua as int) * (FX_ONE as int)) by (nonlinear_arith)
            requires
                ua as int == abs_v(dx as int),
                n == (dx as int) * (FX_ONE as int),
        ;
        lemma_tdiv_abs(n, ub as int);
        lemma_tdiv_abs(-n, ub as int);
        if dx >= 0 {
            assert(n >= 0) by (nonlinear_arith)
                requires
                    dx as int >= 0,
                    n == (dx as int) * (FX_ONE as int),
            ;
        } else {
            assert(n < 0) by (nonlinear_arith)
                requires
                    (dx as int) < 0,
                    n == (dx as int) * (FX_ONE as int),
            ;
        }
        if dx == 0 {
            assert(n == 0) by (nonlinear_arith)
                requires
                    dx as int == 0,
                    n == (dx as int) * (FX_ONE as int),
            ;
            vstd::arithmetic::div_mod::lemma_div_of0(ub as int);
        }
    }
    if q > (SLOPE_CLAMP as u128) {
        if neg {
            -SLOPE_CLAMP
        } else {
            SLOPE_CLAMP
        }
    } else {
        if neg {
            -(q as i64)
        } else {
            q as i64
        }
    }
}

/// The crossing abscissa after one sweep step: advanced by
/// `gap * islope` and clamped to the sweep's range.
pub open spec fn advance_x_v(x: int, gap: int, islope: int) -> int {
    let nx = x + crate::fixed::fx_mul_v(gap, islope);
    if nx > X_CLAMP as int {
        X_CLAMP as int
    } else if nx < -(X_CLAMP as int) {
        -(X_CLAMP as int)
    } else {
        nx
    }
}

fn advance_x(x: i64, gap: i64, islope: i64) -> (r: i64)
    requires
        abs_v(x as int) <= X_CLAMP as int,
        100_000 <= gap <= 4_000_000_000,
        abs_v(islope as int) <= SLOPE_CLAMP as int,
    ensures
        r as int == advance_x_v(x as int, gap as int, islope as int),
        abs_v(r as int) <= X_CLAMP as int,
        islope == 0 ==> r == x,
{
    let ui: u64 = if islope < 0 {
        (-islope) as u64
    } else {
        islope as u64
    };
    proof {
        assert((gap as int) * (ui as int) <= 0x1_0000_0000_0000_0000_0000_0000_0000int)
            by (nonlinear_arith)
            requires
                0 <= (gap as int) && (gap as int) <= 4_000_000_000int,
                0 <= (ui as int) && (ui as int) <= SLOPE_CLAMP as int,
        ;
        let m: int = (gap as int) * (islope as int);
        assert(abs_v(m) == (gap as int) * (ui as int)) by (nonlinear_arith)
            requires
                ui as int == abs_v(islope as int),
                0 <= gap as int,
                m == (gap as int) * (islope as int),
        ;
        lemma_tdiv_abs(m, FX_ONE as int);
        if islope >= 0 {
            assert(m >= 0) by (nonlinear_arith)
                requires
                    0 <= gap as int,
                    islope as int >= 0,
                    m == (gap as int) * (islope as int),
            ;
        } else {
            assert(m <= 0) by (nonlinear_arith)
                requires
                    0 <= gap as int,
                    (islope as int) < 0,
                    m == (gap as int) * (islope as int),
            ;
        }
        if islope == 0 {
            assert(m == 0) by (nonlinear_arith)
                requires
                    islope as int == 0,
                    m == (gap as int) * (islope as int),
            ;
            vstd::arithmetic::div_mod::lemma_div_of0(FX_ONE as int);
        }
    }
    let p: u128 = (gap as u128) * (ui as u128);
    let q: u128 = p / (FX_ONE as u128);
    if q > (2 * X_CLAMP) as u128 {
        // the true advance magnitude exceeds twice the clamp, so the sum
        // lands outside the clamp on the advance's side
        if islope < 0 {
            -X_CLAMP
        } else {
            X_CLAMP
        }
    } else {
        let delta: i64 = if islope < 0 {
            -(q as i64)
        } else {
            q as i64
        };
        let nx: i64 = x + delta;
        if nx > X_CLAMP {
            X_CLAMP
        } else if nx < -X_CLAMP {
            -X_CLAMP
        } else {
            nx
        }
    }
}

/// The edge an advanced entry becomes: same extent and slope, new abscissa.
pub open spec fn advance_edge_v(e: EdgeEntry, gap: int) -> EdgeEntry {
    EdgeEntry {
        ymin: e.ymin,
        ymax: e.ymax,
        x: advance_x_v(e.x as int, gap, e.islope as int) as i64,
        islope: e.islope,
    }
}

/// The entries of the active set that still reach above the sweep line.
pub open spec fn keep_edges_v(s: Seq<EdgeEntry>, y: int) -> Seq<EdgeEntry>
    decreases s.len(),
{
    if s.len() == 0 {
        Seq::empty()
    } else {
        keep_edges_v(s.drop_last(), y) + (if s.last().ymax > y {
            seq![s.last()]
        } else {
            Seq::empty()
        })
    }
}

/// The edge table of the (implicitly closed) polygons: one entry per edge
/// with nonzero vertical extent. For a single axis-aligned rectangle ring
/// the table is exactly its right and left side, in that order.
pub open spec fn rect_ring(pts: Seq<Point>) -> bool {
    &&& pts.len() == 4
    &&& pts[0].y == pts[1].y
    &&& pts[1].x == pts[2].x
    &&& pts[2].y == pts[3].y
    &&& pts[3].x == pts[0].x
    &&& (pts[0].x as int) < (pts[1].x as int)
    &&& (pts[0].y as int) < (pts[2].y as int)
}

/// The right and left sides of an axis-aligned rectangle ring, as edge
/// entries.
pub open spec fn rect_edges(pts: Seq<Point>) -> Seq<EdgeEntry> {
    seq![
        EdgeEntry { ymin: pts[0].y, ymax: pts[2].y, x: pts[1].x, islope: 0 },
        EdgeEntry { ymin: pts[0].y, ymax: pts[2].y, x: pts[0].x, islope: 0 },
    ]
}

/// The edge-table entry of one polygon edge, when it has vertical extent.
pub open spec fn edge_of_v(p1: Point, p2: Point) -> Seq<EdgeEntry> {
    if p1.y == p2.y {
        Seq::empty()
    } else {
        seq![
            EdgeEntry {
                ymin: if p1.y <= p2.y {
                    p1.y
                } else {
                    p2.y
                },
                ymax: if p1.y <= p2.y {
                    p2.y
                } else {
                    p1.y
                },
                x: if p1.y <= p2.y {
                    p1.x
                } else {
                    p2.x
                },
                islope: islope_v((p2.x - p1.x) as int, (p2.y - p1.y) as int) as i64,
            },
        ]
    }
}

/// The edge-table entries of the first `i` edges of an implicitly closed
/// ring.
pub open spec fn ring_edges_upto_v(pts: Seq<Point>, i: int) -> Seq<EdgeEntry>
    decreases i,
{
    if i <= 0 {
        Seq::empty()
    } else {
        ring_edges_upto_v(pts, i - 1) + edge_of_v(
            pts[i - 1],
            if i < pts.len() {
                pts[i]
            } else {
                pts[0]
            },
        )
    }
}

/// The scanline edge table of the polygons: every edge with vertical
/// extent of every implicitly closed polygon with at least three
/// vertices, in input order.
pub open spec fn edge_table_v(polys: Seq<Seq<Point>>) -> Seq<EdgeEntry>
    decreases polys.len(),
{
    if polys.len() == 0 {
        Seq::empty()
    } else {
        edge_table_v(polys.drop_last()) + (if polys.last().len() > 2 {
            ring_edges_upto_v(polys.last(), polys.last().len() as int)
        } else {
            Seq::empty()
        })
    }
}

/// The element views of a polygon list.
pub open spec fn views_of(polys: Seq<Vec<Point>>) -> Seq<Seq<Point>> {
    Seq::new(polys.len(), |i: int| polys[i]@)
}

fn build_edge_table(polygon_list: &Vec<Vec<Point>>) -> (edges: Vec<EdgeEntry>)
    requires
        forall|i: int|
            0 <= i < polygon_list@.len() ==> points_within(
                (#[trigger] polygon_list@[i])@,
                EDGE_LIMIT as int,
            ),
    ensures
        forall|i: int| 0 <= i < edges@.len() ==> edge_ok(#[trigger] edges@[i]),
        edges@ =~= edge_table_v(views_of(polygon_list@)),
        (forall|i: int|
            0 <= i < polygon_list@.len() ==> (#[trigger] polygon_list@[i])@.len() <= 2)
            ==> edges@.len() == 0,
        polygon_list@.len() == 1 && rect_ring(polygon_list@[0]@) ==> edges@ =~= rect_edges(
            polygon_list@[0]@,
        ),
{
    let mut edges: Vec<EdgeEntry> = Vec::new();
    let mut pi: usize = 0;
    while pi < polygon_list.len()
        invariant
            0 <= pi <= polygon_list@.len(),
            forall|i: int|
                0 <= i < polygon_list@.len() ==> points_within(
                    (#[trigger] polygon_list@[i])@,
                    EDGE_LIMIT as int,
                ),
            forall|i: int| 0 <= i < edges@.len() ==> edge_ok(#[trigger] edges@[i]),
            (forall|i: int|
                0 <= i < polygon_list@.len() ==> (#[trigger] polygon_list@[i])@.len() <= 2)
                ==> edges@.len() == 0,
            edges@ =~= edge_table_v(views_of(polygon_list@).subrange(0, pi as int)),
            polygon_list@.len() == 1 && rect_ring(polygon_list@[0]@) ==> (if pi == 0 {
                edges@ =~= Seq::<EdgeEntry>::empty()
            } else {
                edges@ =~= rect_edges(polygon_list@[0]@)
            }),
        decreases polygon_list@.len() - pi,
    {
        let points: &Vec<Point> = &polygon_list[pi];
        let n: usize = points.len();
        let ghost base_t: Seq<EdgeEntry> = edges@;
        if n > 2 {
            let ghost special: bool = polygon_list@.len() == 1 && rect_ring(polygon_list@[0]@);
            let mut i: usize = 0;
            proof {
                assert(edges@ =~= base_t + ring_edges_upto_v(points@, 0));
            }
            while i < n
                invariant
                    0 <= i <= n,
                    n == points@.len(),
                    n > 2,
                    points_within(points@, EDGE_LIMIT as int),
                    forall|j: int| 0 <= j < edges@.len() ==> edge_ok(#[trigger] edges@[j]),
                    edges@ =~= base_t + ring_edges_upto_v(points@, i as int),
                    special ==> points@ =~= polygon_list@[0]@ && rect_ring(points@) && n == 4,
                    special ==> (edges@ =~= if i <= 1 {
                        Seq::<EdgeEntry>::empty()
                    } else if i <= 3 {
                        rect_edges(points@).subrange(0, 1)
                    } else {
                        rect_edges(points@)
                    }),
                decreases n - i,
            {
                let p1: Point = points[i];
                let p2: Point = if i + 1 < n {
                    points[i + 1]
                } else {
                    points[0]
                };
                if p1.y != p2.y {
                    let ymin: i64 = if p1.y <= p2.y {
                        p1.y
                    } else {
                        p2.y
                    };
                    let ymax: i64 = if p1.y <= p2.y {
                        p2.y
                    } else {
                        p1.y
                    };
                    let x: i64 = if ymin == p1.y {
                        p1.x
                    } else {
                        p2.x
                    };
                    let islope: i64 = islope_sat(p2.x - p1.x, p2.y - p1.y);
                    edges.push(EdgeEntry { ymin, ymax, x, islope });
                    proof {
                        if special {
                            assert(edges@.drop_last() =~= edges@.subrange(
                                0,
                                edges@.len() - 1,
                            ));
                        }
                    }
                }
                proof {
                    assert(edges@ =~= base_t + ring_edges_upto_v(points@, i as int + 1));
                    if special {
                        if i == 1 {
                            assert(edges@ =~= rect_edges(points@).subrange(0, 1));
                        }
                        if i == 3 {
                            assert(edges@ =~= rect_edges(points@));
                        }
                    }
                }
                i = i + 1;
            }
        }
        pi = pi + 1;
        proof {
            assert(views_of(polygon_list@).subrange(0, pi as int).drop_last() =~= views_of(
                polygon_list@,
            ).subrange(0, pi as int - 1));
            assert(views_of(polygon_list@).subrange(0, pi as int).last() == polygon_list@[pi as int
                - 1]@);
            assert(edges@ =~= edge_table_v(views_of(polygon_list@).subrange(0, pi as int)));
        }
    }
    proof {
        assert(views_of(polygon_list@).subrange(0, polygon_list@.len() as int) =~= views_of(
            polygon_list@,
        ));
    }
    edges
}

/// Inserts an entry into a key-ordered table, before the first entry it
/// does not follow.
pub open spec fn insert_key_v(e: EdgeEntry, s: Seq<EdgeEntry>) -> Seq<EdgeEntry>
    decreases s.len(),
{
    if s.len() == 0 {
        seq![e]
    } else if edge_key_le(s[0], e) {
        seq![s[0]] + insert_key_v(e, s.drop_first())
    } else {
        seq![e] + s
    }
}

/// The edge table in admission order: insertion sort by the edge key,
/// entries taken left to right.
pub open spec fn sort_key_v(s: Seq<EdgeEntry>) -> Seq<EdgeEntry>
    decreases s.len(),
{
    if s.len() == 0 {
        Seq::empty()
    } else {
        insert_key_v(s.last(), sort_key_v(s.drop_last()))
    }
}

/// Inserts an entry into an abscissa-ordered set, before the first entry
/// it does not follow.
pub open spec fn insert_x_v(e: EdgeEntry, s: Seq<EdgeEntry>) -> Seq<EdgeEntry>
    decreases s.len(),
{
    if s.len() == 0 {
        seq![e]
    } else if edge_x_le(s[0], e) {
        seq![s[0]] + insert_x_v(e, s.drop_first())
    } else {
        seq![e] + s
    }
}

/// The active set in crossing order: insertion sort by abscissa.
pub open spec fn sort_x_v(s: Seq<EdgeEntry>) -> Seq<EdgeEntry>
    decreases s.len(),
{
    if s.len() == 0 {
        Seq::empty()
    } else {
        insert_x_v(s.last(), sort_x_v(s.drop_last()))
    }
}

/// Inserting at the first position whose entry does not precede `e` is
/// the recursive ordered insertion.
proof fn lemma_insert_key_at(s: Seq<EdgeEntry>, e: EdgeEntry, idx: int)
    requires
        0 <= idx <= s.len(),
        forall|j: int| 0 <= j < idx ==> edge_key_le(#[trigger] s[j], e),
        idx < s.len() ==> !edge_key_le(s[idx], e),
    ensures
        insert_key_v(e, s) =~= s.subrange(0, idx).push(e) + s.subrange(idx, s.len() as int),
    decreases s.len(),
{
    if idx == 0 {
        if s.len() == 0 {
            assert(insert_key_v(e, s) =~= s.subrange(0, 0).push(e) + s.subrange(0, 0));
        } else {
            assert(!edge_key_le(s[0], e));
            assert(insert_key_v(e, s) =~= s.subrange(0, 0).push(e) + s.subrange(0, s.len() as int));
        }
    } else {
        assert(edge_key_le(s[0], e));
        let d = s.drop_first();
        lemma_insert_key_at(d, e, idx - 1);
        assert(insert_key_v(e, s) == seq![s[0]] + insert_key_v(e, d));
        assert(seq![s[0]] + (d.subrange(0, idx - 1).push(e) + d.subrange(idx - 1, d.len() as int))
            =~= s.subrange(0, idx).push(e) + s.subrange(idx, s.len() as int));
    }
}

/// The abscissa-order twin of the insertion-position law.
proof fn lemma_insert_x_at(s: Seq<EdgeEntry>, e: EdgeEntry, idx: int)
    requires
        0 <= idx <= s.len(),
        forall|j: int| 0 <= j < idx ==> edge_x_le(#[trigger] s[j], e),
        idx < s.len() ==> !edge_x_le(s[idx], e),
    ensures
        insert_x_v(e, s) =~= s.subrange(0, idx).push(e) + s.subrange(idx, s.len() as int),
    decreases s.len(),
{
    if idx == 0 {
        if s.len() == 0 {
            assert(insert_x_v(e, s) =~= s.subrange(0, 0).push(e) + s.subrange(0, 0));
        } else {
            assert(!edge_x_le(s[0], e));
            assert(insert_x_v(e, s) =~= s.subrange(0, 0).push(e) + s.subrange(0, s.len() as int));
        }
    } else {
        assert(edge_x_le(s[0], e));
        let d = s.drop_first();
        lemma_insert_x_at(d, e, idx - 1);
        assert(insert_x_v(e, s) == seq![s[0]] + insert_x_v(e, d));
        assert(seq![s[0]] + (d.subrange(0, idx - 1).push(e) + d.subrange(idx - 1, d.len() as int))
            =~= s.subrange(0, idx).push(e) + s.subrange(idx, s.len() as int));
    }
}

/// Sorts the edge table into admission order; exact per [`sort_key_v`].
/// Length and entry bounds are preserved; a two-entry table whose second
/// entry comes first is swapped.
#[verifier::rlimit(100)]
fn sort_edges_by_key(edges: Vec<EdgeEntry>) -> (r: Vec<EdgeEntry>)
    requires
        forall|i: int| 0 <= i < edges@.len() ==> edge_ok(#[trigger] edges@[i]),
    ensures
        r@.len() == edges@.len(),
        r@ =~= sort_key_v(edges@),
        forall|i: int| 0 <= i < r@.len() ==> edge_ok(#[trigger] r@[i]),
        forall|i: int, j: int| 0 <= i < j < r@.len() ==> edge_key_le(r@[i], r@[j]),
        edges@.len() == 2 && edge_key_le(edges@[1], edges@[0]) && !edge_key_le(
            edges@[0],
            edges@[1],
        ) ==> r@ =~= seq![edges@[1], edges@[0]],
{
    let ghost special: bool = edges@.len() == 2 && edge_key_le(edges@[1], edges@[0])
        && !edge_key_le(edges@[0], edges@[1]);
    let mut r: Vec<EdgeEntry> = Vec::new();
    let mut i: usize = 0;
    while i < edges.len()
        invariant
            0 <= i <= edges@.len(),
            forall|k: int| 0 <= k < edges@.len() ==> edge_ok(#[trigger] edges@[k]),
            r@.len() == i,
            forall|k: int| 0 <= k < r@.len() ==> edge_ok(#[trigger] r@[k]),
            forall|k: int, j: int| 0 <= k < j < r@.len() ==> edge_key_le(r@[k], r@[j]),
            r@ =~= sort_key_v(edges@.subrange(0, i as int)),
            special == (edges@.len() == 2 && edge_key_le(edges@[1], edges@[0]) && !edge_key_le(
                edges@[0],
                edges@[1],
            )),
            special ==> (r@ =~= if i == 0 {
                Seq::<EdgeEntry>::empty()
            } else if i == 1 {
                seq![edges@[0]]
            } else {
                seq![edges@[1], edges@[0]]
            }),
        decreases edges@.len() - i,
    {
        let e: EdgeEntry = edges[i];
        let mut idx: usize = 0;
        while idx < r.len() && edge_le_exec(&r[idx], &e)
            invariant
                0 <= idx <= r@.len(),
                forall|k: int| 0 <= k < idx ==> edge_key_le(#[trigger] r@[k], e),
            decreases r@.len() - idx,
        {
            idx = idx + 1;
        }
        proof {
            if (idx as int) < r@.len() {
                assert(!edge_key_le(r@[idx as int], e));
            }
        }
        let ghost old_r: Seq<EdgeEntry> = r@;
        r.insert(idx, e);
        proof {
            old_r.insert_ensures(idx as int, e);
            assert(r@ =~= old_r.insert(idx as int, e));
            lemma_insert_key_at(old_r, e, idx as int);
            assert(r@ =~= insert_key_v(e, old_r));
            assert(edges@.subrange(0, i as int + 1).drop_last() =~= edges@.subrange(0, i as int));
            assert(edges@.subrange(0, i as int + 1).last() == e);
            assert(r@ =~= sort_key_v(edges@.subrange(0, i as int + 1)));
            assert(forall|m: int| 0 <= m < idx ==> #[trigger] r@[m] == old_r[m]);
            assert(r@[idx as int] == e);
            assert(forall|m: int| idx < m < r@.len() ==> #[trigger] r@[m] == old_r[m - 1]);
            assert forall|k: int, j: int| 0 <= k < j < r@.len() implies edge_key_le(
                r@[k],
                r@[j],
            ) by {
                if j > idx {
                    assert(!edge_key_le(old_r[idx as int], e));
                    if k < idx {
                        assert(edge_key_le(old_r[k], e));
                    }
                    if j - 1 > idx {
                        assert(edge_key_le(old_r[idx as int], old_r[j - 1]));
                    }
                }
                if k < idx && j == idx {
                    assert(edge_key_le(old_r[k], e));
                }
            }
            if special {
                if i == 0 {
                    assert(r@ =~= seq![edges@[0]]);
                }
                if i == 1 {
                    assert(old_r[0] == edges@[0]);
                    assert(!edge_key_le(old_r[0], e));
                    assert(idx == 0);
                    assert(r@ =~= seq![edges@[1], edges@[0]]);
                }
            }
        }
        i = i + 1;
    }
    proof {
        assert(edges@.subrange(0, edges@.len() as int) =~= edges@);
    }
    r
}

/// Sorts the active set by crossing abscissa; exact per [`sort_x_v`].
/// Length and entry bounds are preserved; a two-entry set already in
/// order is unchanged.
#[verifier::rlimit(100)]
fn sort_active_by_x(active: Vec<EdgeEntry>) -> (r: Vec<EdgeEntry>)
    requires
        forall|i: int| 0 <= i < active@.len() ==> edge_ok(#[trigger] active@[i]),
    ensures
        r@.len() == active@.len(),
        r@ =~= sort_x_v(active@),
        forall|i: int| 0 <= i < r@.len() ==> edge_ok(#[trigger] r@[i]),
        forall|i: int, j: int| 0 <= i < j < r@.len() ==> edge_x_le(r@[i], r@[j]),
        active@.len() == 2 && active@[0].x <= active@[1].x ==> r@ =~= active@,
{
    let ghost special: bool = active@.len() == 2 && active@[0].x <= active@[1].x;
    let mut r: Vec<EdgeEntry> = Vec::new();
    let mut i: usize = 0;
    while i < active.len()
        invariant
            0 <= i <= active@.len(),
            forall|k: int| 0 <= k < active@.len() ==> edge_ok(#[trigger] active@[k]),
            r@.len() == i,
            forall|k: int| 0 <= k < r@.len() ==> edge_ok(#[trigger] r@[k]),
            forall|k: int, j: int| 0 <= k < j < r@.len() ==> edge_x_le(r@[k], r@[j]),
            r@ =~= sort_x_v(active@.subrange(0, i as int)),
            special == (active@.len() == 2 && active@[0].x <= active@[1].x),
            special ==> (r@ =~= if i == 0 {
                Seq::<EdgeEntry>::empty()
            } else {
                active@.subrange(0, i as int)
            }),
        decreases active@.len() - i,
    {
        let e: EdgeEntry = active[i];
        let mut idx: usize = 0;
        while idx < r.len() && r[idx].x <= e.x
            invariant
                0 <= idx <= r@.len(),
                forall|k: int| 0 <= k < idx ==> edge_x_le(#[trigger] r@[k], e),
            decreases r@.len() - idx,
        {
            idx = idx + 1;
        }
        proof {
            if (idx as int) < r@.len() {
                assert(!edge_x_le(r@[idx as int], e));
            }
        }
        let ghost old_r: Seq<EdgeEntry> = r@;
        r.insert(idx, e);
        proof {
            old_r.insert_ensures(idx as int, e);
            assert(r@ =~= old_r.insert(idx as int, e));
            lemma_insert_x_at(old_r, e, idx as int);
            assert(r@ =~= insert_x_v(e, old_r));
            assert(active@.subrange(0, i as int + 1).drop_last() =~= active@.subrange(0, i as int));
            assert(active@.subrange(0, i as int + 1).last() == e);
            assert(r@ =~= sort_x_v(active@.subrange(0, i as int + 1)));
            assert(forall|m: int| 0 <= m < idx ==> #[trigger] r@[m] == old_r[m]);
            assert(r@[idx as int] == e);
            assert(forall|m: int| idx < m < r@.len() ==> #[trigger] r@[m] == old_r[m - 1]);
            assert forall|k: int, j: int| 0 <= k < j < r@.len() implies edge_x_le(
                r@[k],
                r@[j],
            ) by {
                if j > idx {
                    assert(!edge_x_le(old_r[idx as int], e));
                    if k < idx {
                        assert(edge_x_le(old_r[k], e));
                    }
                    if j - 1 > idx {
                        assert(edge_x_le(old_r[idx as int], old_r[j - 1]));
                    }
                }
                if k < idx && j == idx {
                    assert(edge_x_le(old_r[k], e));
                }
            }
            if special {
                if i == 0 {
                    assert(r@ =~= active@.subrange(0, 1));
                }
                if i == 1 {
                    assert(old_r[0] == active@[0]);
                    assert(edge_x_le(old_r[0], e));
                    assert(idx == 1);
                    assert(r@ =~= active@.subrange(0, 2));
                }
            }
        }
        i = i + 1;
    }
    proof {
        assert(active@.subrange(0, active@.len() as int) =~= active@);
    }
    r
}

/// The number of fill lines an axis-aligned rectangle of vertical extent
/// `h` receives with line spacing `gap`: the extent divided by the spacing,
/// rounded up.
pub open spec fn ceil_div(a: int, b: int) -> int {
    (a + b - 1) / b
}

/// The `k`-th fill line of the rectangle with sides at `l` and `r`,
/// starting at height `b`: horizontal, from the left side to the right.
pub open spec fn rect_line_v(l: int, r: int, b: int, k: int, gap: int) -> Line {
    Line {
        start: Point { x: l as i64, y: (b + k * gap) as i64 },
        end: Point { x: r as i64, y: (b + k * gap) as i64 },
    }
}

/// The sweep state for the vertical-pair input, at the head of each sweep
/// iteration: not yet started, running with both sides active, or done with
/// the full count emitted.
pub open spec fn sweep_phase(
    sorted: Seq<EdgeEntry>,
    gap: int,
    pi: int,
    active: Seq<EdgeEntry>,
    y: int,
    lines: Seq<Line>,
) -> bool {
    let b = sorted[0].ymin as int;
    let t = sorted[0].ymax as int;
    let l = sorted[0].x as int;
    let r = sorted[1].x as int;
    &&& (forall|k: int|
        0 <= k < lines.len() ==> #[trigger] lines[k] == rect_line_v(l, r, b, k, gap))
    &&& (forall|k: int| 0 <= k < lines.len() ==> b + #[trigger] (k * gap) < t)
    &&& ({
        ||| (pi == 0 && active =~= Seq::<EdgeEntry>::empty() && y == b && lines.len() == 0)
        ||| (pi == 2 && active =~= sorted && y == b + lines.len() * gap && 1 <= lines.len() && b
            + (lines.len() - 1) * gap < t)
        ||| (pi == 2 && active =~= Seq::<EdgeEntry>::empty() && y > t && lines.len() == ceil_div(
            t - b,
            gap,
        ))
    })
}

/// A two-entry table of two vertical edges spanning the same extent, left
/// side after right side sorted to left first.
pub open spec fn vertical_pair(s: Seq<EdgeEntry>) -> bool {
    &&& s.len() == 2
    &&& s[0].islope == 0
    &&& s[1].islope == 0
    &&& s[0].ymin == s[1].ymin
    &&& s[0].ymax == s[1].ymax
    &&& (s[0].ymin as int) < (s[0].ymax as int)
    &&& (s[0].x as int) < (s[1].x as int)
}

/// The rectangle law of the sweep's output: one line per spacing step,
/// spanning the two sides exactly, all below the top.
pub open spec fn rect_sweep_ok(lines: Seq<Line>, sorted: Seq<EdgeEntry>, gap: int) -> bool {
    let b = sorted[0].ymin as int;
    let t = sorted[0].ymax as int;
    let l = sorted[0].x as int;
    let r = sorted[1].x as int;
    &&& lines.len() == ceil_div(t - b, gap)
    &&& (forall|k: int|
        0 <= k < lines.len() ==> #[trigger] lines[k] == rect_line_v(l, r, b, k, gap))
    &&& (forall|k: int| 0 <= k < lines.len() ==> b + #[trigger] (k * gap) < t)
}

/// The number of leading pending entries whose lower end the sweep line
/// has reached.
pub open spec fn admit_count_v(pending: Seq<EdgeEntry>, y: int) -> int
    decreases pending.len(),
{
    if pending.len() == 0 {
        0
    } else if pending[0].ymin as int <= y {
        1 + admit_count_v(pending.drop_first(), y)
    } else {
        0
    }
}

/// A prefix of entries at or below the sweep line, stopped by the first
/// entry above it, is exactly what admission takes.
proof fn lemma_admit_count(s: Seq<EdgeEntry>, y: int, k: int)
    requires
        0 <= k <= s.len(),
        forall|j: int| 0 <= j < k ==> (#[trigger] s[j]).ymin as int <= y,
        k < s.len() ==> s[k].ymin as int > y,
    ensures
        admit_count_v(s, y) == k,
    decreases s.len(),
{
    if k == 0 {
    } else {
        lemma_admit_count(s.drop_first(), y, k - 1);
    }
}

/// The scan segments cut from the first `i` sorted crossings, paired in
/// order.
pub open spec fn pairs_upto_v(active: Seq<EdgeEntry>, i: int, y: int) -> Seq<Line>
    decreases i,
{
    if i <= 1 {
        Seq::empty()
    } else {
        pairs_upto_v(active, i - 2, y) + seq![
            Line {
                start: Point { x: active[i - 2].x, y: y as i64 },
                end: Point { x: active[i - 1].x, y: y as i64 },
            },
        ]
    }
}

/// The segments one scanline emits: the sorted crossings paired
/// consecutively, an odd trailing crossing left unpaired.
pub open spec fn scan_pairs_v(active: Seq<EdgeEntry>, y: int) -> Seq<Line> {
    pairs_upto_v(active, 2 * ((active.len() as int) / 2), y)
}

/// Every crossing advanced by one spacing step.
pub open spec fn advance_all_v(active: Seq<EdgeEntry>, gap: int) -> Seq<EdgeEntry> {
    Seq::new(active.len(), |i: int| advance_edge_v(active[i], gap))
}

/// The greatest upper end in the table.
pub open spec fn max_ymax_v(s: Seq<EdgeEntry>) -> int
    decreases s.len(),
{
    if s.len() == 0 {
        0
    } else if s.len() == 1 {
        s[0].ymax as int
    } else if s.last().ymax as int > max_ymax_v(s.drop_last()) {
        s.last().ymax as int
    } else {
        max_ymax_v(s.drop_last())
    }
}

/// The scanline sweep from a given state: admit every pending entry the
/// line has reached, drop the ones it has passed, order the crossings,
/// pair them into segments, advance, and step the line by the spacing.
#[verifier::opaque]
pub open spec fn sweep_v(
    pending: Seq<EdgeEntry>,
    active: Seq<EdgeEntry>,
    y: int,
    maxy: int,
    gap: int,
) -> Seq<Line>
    decreases maxy + gap - y,
        when gap >= 1
{
    if y > maxy {
        Seq::empty()
    } else {
        let k = admit_count_v(pending, y);
        let active1 = active + pending.subrange(0, k);
        let pending1 = pending.subrange(k, pending.len() as int);
        let active2 = sort_x_v(keep_edges_v(active1, y));
        scan_pairs_v(active2, y) + sweep_v(pending1, advance_all_v(active2, gap), y + gap, maxy,
        gap)
    }
}

/// The whole hachure scan of a sorted edge table: the sweep from the first
/// entry's lower end up to the greatest upper end.
pub open spec fn sweep_lines_v(sorted: Seq<EdgeEntry>, gap: int) -> Seq<Line> {
    if sorted.len() == 0 {
        Seq::empty()
    } else {
        sweep_v(sorted, Seq::empty(), sorted[0].ymin as int, max_ymax_v(sorted), gap)
    }
}

/// If the sweep line has passed `b + (n-1) * gap` but not `b + n * gap`,
/// then `n` is exactly the rounded-up quotient.
pub proof fn lemma_ceil_count(h: int, gap: int, n: int)
    requires
        0 < gap,
        1 <= n,
        (n - 1) * gap < h,
        h <= n * gap,
    ensures
        ceil_div(h, gap) == n,
{
    let rr = h + gap - 1 - n * gap;
    assert((n - 1) * gap == n * gap - gap) by (nonlinear_arith);
    lemma_fundamental_div_mod_converse_div(h + gap - 1, gap, n, rr);
}

#[verifier::rlimit(100)]
#[verifier::spinoff_prover]
fn hachure_sweep(sorted: Vec<EdgeEntry>, gap: i64) -> (lines: Vec<Line>)
    requires
        100_000 <= gap <= 4_000_000_000,
        sorted@.len() > 0,
        forall|i: int| 0 <= i < sorted@.len() ==> edge_ok(#[trigger] sorted@[i]),
    ensures
        forall|i: int|
            0 <= i < lines@.len() ==> (#[trigger] lines@[i]).start.y == lines@[i].end.y,
        forall|i: int|
            0 <= i < lines@.len() ==> point_within((#[trigger] lines@[i]).start, X_CLAMP as int)
                && point_within(lines@[i].end, X_CLAMP as int),
        forall|i: int|
            0 <= i < lines@.len() - 1 ==> (#[trigger] lines@[i]).start.y <= lines@[i + 1].start.y,
        forall|i: int|
            0 <= i < lines@.len() - 1 ==> ((#[trigger] lines@[i + 1]).start.y as int
                - lines@[i].start.y as int) % (gap as int) == 0,
        lines@ =~= sweep_lines_v(sorted@, gap as int),
        vertical_pair(sorted@) ==> rect_sweep_ok(lines@, sorted@, gap as int),
{
    let ghost special: bool = vertical_pair(sorted@);
    let mut maxy: i64 = sorted[0].ymax;
    let mut k: usize = 1;
    proof {
        assert(sorted@.subrange(0, 1).len() == 1);
        assert(maxy as int == max_ymax_v(sorted@.subrange(0, 1)));
    }
    while k < sorted.len()
        invariant
            1 <= k <= sorted@.len(),
            forall|j: int| 0 <= j < sorted@.len() ==> edge_ok(#[trigger] sorted@[j]),
            forall|j: int| 0 <= j < k ==> (#[trigger] sorted@[j]).ymax <= maxy,
            exists|j: int| 0 <= j < k && maxy == (#[trigger] sorted@[j]).ymax,
            maxy as int == max_ymax_v(sorted@.subrange(0, k as int)),
        decreases sorted@.len() - k,
    {
        if sorted[k].ymax > maxy {
            maxy = sorted[k].ymax;
        }
        k = k + 1;
        proof {
            assert(sorted@.subrange(0, k as int).drop_last() =~= sorted@.subrange(
                0,
                k as int - 1,
            ));
            assert(sorted@.subrange(0, k as int).last() == sorted@[k as int - 1]);
            assert(maxy as int == max_ymax_v(sorted@.subrange(0, k as int)));
        }
    }
    proof {
        if special {
            assert(maxy == sorted@[0].ymax);
        }
        assert(abs_v(maxy as int) <= EDGE_LIMIT as int);
        assert(sorted@.subrange(0, sorted@.len() as int) =~= sorted@);
        assert(maxy as int == max_ymax_v(sorted@));
    }
    let mut y: i64 = sorted[0].ymin;
    let mut pi: usize = 0;
    let mut active: Vec<EdgeEntry> = Vec::new();
    let mut lines: Vec<Line> = Vec::new();
    proof {
        if special {
            assert(lines@.len() == 0);
            assert(sweep_phase(sorted@, gap as int, pi as int, active@, y as int, lines@));
        }
    }
    while y <= maxy
        invariant
            100_000 <= gap <= 4_000_000_000,
            sorted@.len() > 0,
            forall|i: int| 0 <= i < sorted@.len() ==> edge_ok(#[trigger] sorted@[i]),
            forall|j: int| 0 <= j < sorted@.len() ==> (#[trigger] sorted@[j]).ymax <= maxy,
            abs_v(maxy as int) <= EDGE_LIMIT as int,
            0 <= pi <= sorted@.len(),
            -(EDGE_LIMIT as int) <= y as int <= (EDGE_LIMIT as int) + (gap as int),
            forall|i: int| 0 <= i < active@.len() ==> edge_ok(#[trigger] active@[i]),
            forall|i: int|
                0 <= i < lines@.len() ==> (#[trigger] lines@[i]).start.y == lines@[i].end.y,
            forall|i: int|
                0 <= i < lines@.len() ==> point_within(
                    (#[trigger] lines@[i]).start,
                    X_CLAMP as int,
                ) && point_within(lines@[i].end, X_CLAMP as int),
            forall|i: int| 0 <= i < lines@.len() ==> (#[trigger] lines@[i]).start.y <= y - gap,
            forall|i: int|
                0 <= i < lines@.len() ==> ((y as int) - (#[trigger] lines@[i]).start.y as int) % (
                gap as int) == 0,
            forall|i: int|
                0 <= i < lines@.len() - 1 ==> (#[trigger] lines@[i]).start.y <= lines@[i
                    + 1].start.y,
            special == vertical_pair(sorted@),
            special ==> maxy as int == sorted@[0].ymax as int,
            special ==> sweep_phase(sorted@, gap as int, pi as int, active@, y as int, lines@),
            maxy as int == max_ymax_v(sorted@),
            sweep_lines_v(sorted@, gap as int) =~= lines@ + sweep_v(
                sorted@.subrange(pi as int, sorted@.len() as int),
                active@,
                y as int,
                maxy as int,
                gap as int,
            ),
        decreases maxy + gap - y,
    {
        let ghost pi0: int = pi as int;
        let ghost active0: Seq<EdgeEntry> = active@;
        let ghost lines0: Seq<Line> = lines@;
        let ghost y0: int = y as int;
        // admit every pending edge whose lower end has been reached
        while pi < sorted.len() && sorted[pi].ymin <= y
            invariant
                0 <= pi0 <= pi as int <= sorted@.len(),
                forall|i: int| 0 <= i < sorted@.len() ==> edge_ok(#[trigger] sorted@[i]),
                forall|i: int| 0 <= i < active@.len() ==> edge_ok(#[trigger] active@[i]),
                active@ =~= active0 + sorted@.subrange(pi0, pi as int),
                forall|i: int| pi0 <= i < pi as int ==> (#[trigger] sorted@[i]).ymin <= y,
            decreases sorted@.len() - pi,
        {
            active.push(sorted[pi]);
            pi = pi + 1;
            proof {
                assert(sorted@.subrange(pi0, pi as int) =~= sorted@.subrange(
                    pi0,
                    pi as int - 1,
                ).push(sorted@[pi as int - 1]));
                assert(active@ =~= active0 + sorted@.subrange(pi0, pi as int));
            }
        }
        proof {
            let pending0 = sorted@.subrange(pi0, sorted@.len() as int);
            let kc = pi as int - pi0;
            assert forall|j: int| 0 <= j < kc implies (#[trigger] pending0[j]).ymin as int
                <= y as int by {
                assert(pending0[j] == sorted@[pi0 + j]);
            }
            if kc < pending0.len() {
                assert(pending0[kc] == sorted@[pi as int]);
                assert(pending0[kc].ymin as int > y as int);
            }
            lemma_admit_count(pending0, y as int, kc);
            assert(pending0.subrange(0, kc) =~= sorted@.subrange(pi0, pi as int));
            assert(pending0.subrange(kc, pending0.len() as int) =~= sorted@.subrange(
                pi as int,
                sorted@.len() as int,
            ));
            if special {
                if pi0 == 0 {
                    // both edges start at the sweep's first line, so both
                    // are admitted at once
                    assert(sorted@[0].ymin == sorted@[1].ymin);
                    assert(pi as int == 2);
                    assert(active@ =~= sorted@);
                } else {
                    assert(pi0 == 2);
                    assert(pi as int == 2);
                    assert(active@ =~= active0);
                }
            }
        }
        // drop edges whose upper end has been passed
        let mut kept: Vec<EdgeEntry> = Vec::new();
        let mut j: usize = 0;
        while j < active.len()
            invariant
                0 <= j <= active@.len(),
                forall|i: int| 0 <= i < active@.len() ==> edge_ok(#[trigger] active@[i]),
                forall|i: int| 0 <= i < kept@.len() ==> edge_ok(#[trigger] kept@[i]),
                kept@ =~= keep_edges_v(active@.subrange(0, j as int), y as int),
            decreases active@.len() - j,
        {
            proof {
                assert(active@.subrange(0, j as int + 1).drop_last() =~= active@.subrange(
                    0,
                    j as int,
                ));
            }
            if active[j].ymax > y {
                kept.push(active[j]);
            }
            j = j + 1;
        }
        proof {
            assert(active@.subrange(0, active@.len() as int) =~= active@);
        }
        let ghost before_filter: Seq<EdgeEntry> = active@;
        active = kept;
        proof {
            if special {
                let b = sorted@[0].ymin as int;
                let t = sorted@[0].ymax as int;
                if pi0 != 0 && active0.len() != 2 {
                    // the done state lies above the top, where the sweep
                    // no longer runs
                    assert(y as int > t);
                    assert(false);
                }
                assert(before_filter =~= sorted@);
                let e0 = sorted@[0];
                let e1 = sorted@[1];
                reveal_with_fuel(keep_edges_v, 4);
                assert(sorted@.drop_last().drop_last() =~= Seq::<EdgeEntry>::empty());
                assert(sorted@.drop_last().last() == e0);
                assert(sorted@.last() == e1);
                if e0.ymax > y {
                    assert(active@ =~= sorted@);
                } else {
                    assert(active@ =~= Seq::<EdgeEntry>::empty());
                }
            }
        }
        // order the active set by crossing abscissa
        active = sort_active_by_x(active);
        let ghost active_s: Seq<EdgeEntry> = active@;
        // emit one segment per consecutive pair
        let mut i2: usize = 0;
        while i2 + 1 < active.len()
            invariant
                0 <= i2 <= active@.len(),
                i2 % 2 == 0,
                100_000 <= gap <= 4_000_000_000,
                lines@ =~= lines0 + pairs_upto_v(active@, i2 as int, y as int),
                forall|i: int| 0 <= i < active@.len() ==> edge_ok(#[trigger] active@[i]),
                -(EDGE_LIMIT as int) <= y as int <= (EDGE_LIMIT as int) + (gap as int),
                forall|i: int|
                    0 <= i < lines@.len() ==> (#[trigger] lines@[i]).start.y == lines@[i].end.y,
                forall|i: int|
                    0 <= i < lines@.len() ==> point_within(
                        (#[trigger] lines@[i]).start,
                        X_CLAMP as int,
                    ) && point_within(lines@[i].end, X_CLAMP as int),
                forall|i: int| 0 <= i < lines@.len() ==> (#[trigger] lines@[i]).start.y <= y,
                forall|i: int|
                    0 <= i < lines@.len() ==> ((y as int) - (#[trigger] lines@[i]).start.y as int)
                        % (gap as int) == 0,
                forall|i: int|
                    0 <= i < lines@.len() - 1 ==> (#[trigger] lines@[i]).start.y <= lines@[i
                        + 1].start.y,
                lines0.len() <= lines@.len(),
                forall|i: int| 0 <= i < lines0.len() ==> lines0[i] == #[trigger] lines@[i],
                active@.len() < 2 ==> lines@ =~= lines0,
                active@.len() == 2 ==> (lines@ =~= if i2 == 0 {
                    lines0
                } else {
                    lines0.push(
                        Line {
                            start: Point { x: active@[0].x, y },
                            end: Point { x: active@[1].x, y },
                        },
                    )
                }),
            decreases active@.len() - i2,
        {
            lines.push(
                Line { start: Point { x: active[i2].x, y }, end: Point { x: active[i2 + 1].x, y } },
            );
            proof {
                lemma_small_mod(0, gap as nat);
            }
            i2 = i2 + 2;
            proof {
                assert(lines@ =~= lines0 + pairs_upto_v(active@, i2 as int, y as int));
            }
        }
        proof {
            vstd::arithmetic::div_mod::lemma_fundamental_div_mod(active@.len() as int, 2);
            vstd::arithmetic::div_mod::lemma_fundamental_div_mod(i2 as int, 2);
            assert(i2 as int == 2 * ((active@.len() as int) / 2));
            assert(lines@ =~= lines0 + scan_pairs_v(active@, y as int));
        }
        // advance every crossing abscissa by one spacing step
        let mut adv: Vec<EdgeEntry> = Vec::new();
        let mut m: usize = 0;
        while m < active.len()
            invariant
                0 <= m <= active@.len(),
                forall|i: int| 0 <= i < active@.len() ==> edge_ok(#[trigger] active@[i]),
                100_000 <= gap <= 4_000_000_000,
                adv@.len() == m,
                forall|i: int| 0 <= i < m ==> adv@[i] == advance_edge_v(#[trigger] active@[i],
                gap as int),
                forall|i: int| 0 <= i < adv@.len() ==> edge_ok(#[trigger] adv@[i]),
            decreases active@.len() - m,
        {
            let e: EdgeEntry = active[m];
            let nx: i64 = advance_x(e.x, gap, e.islope);
            adv.push(EdgeEntry { ymin: e.ymin, ymax: e.ymax, x: nx, islope: e.islope });
            m = m + 1;
        }
        let ghost before_adv: Seq<EdgeEntry> = active@;
        active = adv;
        proof {
            assert(active@ =~= advance_all_v(active_s, gap as int));
            if special {
                let b = sorted@[0].ymin as int;
                let t = sorted@[0].ymax as int;
                let g = gap as int;
                let n0 = lines0.len() as int;
                vstd::arithmetic::div_mod::lemma_div_of0(FX_ONE as int);
                if before_adv =~= sorted@ {
                    // both sides are vertical, so advancing leaves them put
                    assert(sorted@[0].islope == 0);
                    assert((gap as int) * (sorted@[0].islope as int) == 0) by (nonlinear_arith)
                        requires
                            sorted@[0].islope as int == 0,
                    ;
                    assert(advance_edge_v(sorted@[0], g) == sorted@[0]);
                    assert(advance_edge_v(sorted@[1], g) == sorted@[1]);
                    assert(active@ =~= sorted@);
                } else {
                    assert(before_adv =~= Seq::<EdgeEntry>::empty());
                    assert(active@ =~= Seq::<EdgeEntry>::empty());
                }
            }
        }
        y = y + gap;
        proof {
            reveal(sweep_v);
            let pending0 = sorted@.subrange(pi0, sorted@.len() as int);
            let kc = pi as int - pi0;
            assert(admit_count_v(pending0, y0) == kc);
            assert(active0 + pending0.subrange(0, kc) =~= before_filter);
            assert(keep_edges_v(active0 + pending0.subrange(0, kc), y0) == keep_edges_v(
                before_filter,
                y0,
            ));
            assert(active_s =~= sort_x_v(keep_edges_v(active0 + pending0.subrange(0, kc), y0)));
            assert(sweep_v(pending0, active0, y0, maxy as int, gap as int) =~= scan_pairs_v(
                active_s,
                y0,
            ) + sweep_v(
                pending0.subrange(kc, pending0.len() as int),
                advance_all_v(sort_x_v(keep_edges_v(active0 + pending0.subrange(0, kc), y0)),
                gap as int),
                y0 + gap,
                maxy as int,
                gap as int,
            ));
            assert(lines@ =~= lines0 + scan_pairs_v(active_s, y0));
            assert(sweep_lines_v(sorted@, gap as int) =~= lines@ + sweep_v(
                sorted@.subrange(pi as int, sorted@.len() as int),
                active@,
                y as int,
                maxy as int,
                gap as int,
            ));
            assert forall|i: int| 0 <= i < lines@.len() implies ((y as int) - (
            #[trigger] lines@[i]).start.y as int) % (gap as int) == 0 by {
                lemma_mod_add_multiples_vanish(
                    (y as int) - (gap as int) - (lines@[i].start.y as int),
                    gap as int,
                );
            }
            if special {
                let b = sorted@[0].ymin as int;
                let t = sorted@[0].ymax as int;
                let g = gap as int;
                let n0 = lines0.len() as int;
                if pi0 == 0 {
                    // first iteration: both sides admitted, first line cut
                    assert(lines@ =~= lines0.push(rect_line_v(
                        sorted@[0].x as int,
                        sorted@[1].x as int,
                        b,
                        0,
                        g,
                    )));
                    assert(lines@.len() == 1);
                    assert(1 * g == g) by (nonlinear_arith);
                    assert(y as int == b + 1 * g);
                    assert((1 - 1) * g == 0 && 1 * g == g) by (nonlinear_arith);
                    assert(b + (1 - 1) * g < t);
                    assert(sweep_phase(sorted@, g, pi as int, active@, y as int, lines@));
                } else {
                    let yh = b + n0 * g;
                    if t > yh {
                        // another line cut at the current height
                        assert(lines@ =~= lines0.push(rect_line_v(
                            sorted@[0].x as int,
                            sorted@[1].x as int,
                            b,
                            n0,
                            g,
                        )));
                        assert(y as int == b + (n0 + 1) * g) by (nonlinear_arith)
                            requires
                                y as int == b + n0 * g + g,
                        ;
                        assert(b + ((n0 + 1) - 1) * g < t) by (nonlinear_arith)
                            requires
                                b + n0 * g < t,
                        ;
                        assert(sweep_phase(sorted@, g, pi as int, active@, y as int, lines@));
                    } else {
                        // the sweep has passed the top: both sides dropped
                        assert(lines@ =~= lines0);
                        lemma_ceil_count(t - b, g, n0);
                        assert(y as int > t);
                        assert(sweep_phase(sorted@, g, pi as int, active@, y as int, lines@));
                    }
                }
            }
        }
    }
    proof {
        reveal(sweep_v);
        assert(sweep_v(
            sorted@.subrange(pi as int, sorted@.len() as int),
            active@,
            y as int,
            maxy as int,
            gap as int,
        ) =~= Seq::<Line>::empty());
        assert(lines@ =~= sweep_lines_v(sorted@, gap as int));
        assert forall|i: int| 0 <= i < lines@.len() - 1 implies ((#[trigger] lines@[i
            + 1]).start.y as int - lines@[i].start.y as int) % (gap as int) == 0 by {
            let g = gap as int;
            let a = (y as int) - (lines@[i].start.y as int);
            let b = (y as int) - (lines@[i + 1].start.y as int);
            lemma_sub_mod_noop(a, b, g);
            lemma_small_mod(0, g as nat);
        }
        if special {
            let b = sorted@[0].ymin as int;
            let t = sorted@[0].ymax as int;
            let g = gap as int;
            let n = lines@.len() as int;
            assert(y as int > maxy as int);
            if pi as int == 0 {
                // the sweep cannot end before its first line
                assert(y as int == b);
                assert(false);
            } else if active@.len() == 2 {
                assert(y as int == b + n * g);
                assert(b + (n - 1) * g < t);
                lemma_ceil_count(t - b, g, n);
            }
            assert(rect_sweep_ok(lines@, sorted@, g));
        }
    }
    lines
}

/// The whole oriented scanline fill: the edge table of the polygons,
/// sorted into admission order, swept.
pub open spec fn straight_lines_v(polys: Seq<Seq<Point>>, gap: int) -> Seq<Line> {
    sweep_lines_v(sort_key_v(edge_table_v(polys)), gap)
}

/// The scanline fill lines of the (implicitly closed) polygons, already
/// oriented: horizontal segments every `gap` apart — exactly
/// [`straight_lines_v`] of the polygons. On a single axis-aligned
/// rectangle ring that means one line per spacing step from the bottom
/// edge up, each spanning the left and right sides.
pub fn straight_hachure_lines(polygon_list: Vec<Vec<Point>>, gap: i64) -> (lines: Vec<Line>)
    requires
        100_000 <= gap <= 4_000_000_000,
        forall|i: int|
            0 <= i < polygon_list@.len() ==> points_within(
                (#[trigger] polygon_list@[i])@,
                EDGE_LIMIT as int,
            ),
    ensures
        forall|i: int|
            0 <= i < lines@.len() ==> (#[trigger] lines@[i]).start.y == lines@[i].end.y,
        forall|i: int|
            0 <= i < lines@.len() ==> point_within((#[trigger] lines@[i]).start, X_CLAMP as int)
                && point_within(lines@[i].end, X_CLAMP as int),
        forall|i: int|
            0 <= i < lines@.len() - 1 ==> (#[trigger] lines@[i]).start.y <= lines@[i + 1].start.y,
        forall|i: int|
            0 <= i < lines@.len() - 1 ==> ((#[trigger] lines@[i + 1]).start.y as int
                - lines@[i].start.y as int) % (gap as int) == 0,
        lines@ =~= straight_lines_v(views_of(polygon_list@), gap as int),
        edge_table_v(views_of(polygon_list@)).len() == 0 ==> lines@.len() == 0,
        (forall|i: int|
            0 <= i < polygon_list@.len() ==> (#[trigger] polygon_list@[i])@.len() <= 2)
            ==> lines@.len() == 0,
        polygon_list@.len() == 1 && rect_ring(polygon_list@[0]@) ==> ({
            let pts = polygon_list@[0]@;
            let b = pts[0].y as int;
            let t = pts[2].y as int;
            let l = pts[0].x as int;
            let r = pts[1].x as int;
            &&& lines@.len() == ceil_div(t - b, gap as int)
            &&& (forall|k: int|
                0 <= k < lines@.len() ==> #[trigger] lines@[k] == rect_line_v(
                    l,
                    r,
                    b,
                    k,
                    gap as int,
                ))
            &&& (forall|k: int| 0 <= k < lines@.len() ==> b + #[trigger] (k * (gap as int)) < t)
        }),
{
    let ghost special: bool = polygon_list@.len() == 1 && rect_ring(polygon_list@[0]@);
    let edges: Vec<EdgeEntry> = build_edge_table(&polygon_list);
    if edges.len() == 0 {
        proof {
            assert(sort_key_v(edge_table_v(views_of(polygon_list@))) =~= Seq::<
                EdgeEntry,
            >::empty());
            assert(Seq::<Line>::empty() =~= straight_lines_v(views_of(polygon_list@), gap as int));
            if special {
                // a rectangle ring always yields its two vertical sides
                assert(rect_edges(polygon_list@[0]@).len() == 2);
                assert(false);
            }
        }
        return Vec::new();
    }
    proof {
        if special {
            let pts = polygon_list@[0]@;
            assert(edges@[0] == rect_edges(pts)[0]);
            assert(edges@[1] == rect_edges(pts)[1]);
            assert(edge_key_le(edges@[1], edges@[0]));
            assert(!edge_key_le(edges@[0], edges@[1]));
        }
    }
    let sorted: Vec<EdgeEntry> = sort_edges_by_key(edges);
    proof {
        if special {
            let pts = polygon_list@[0]@;
            assert(sorted@ =~= seq![rect_edges(pts)[1], rect_edges(pts)[0]]);
            assert(vertical_pair(sorted@));
        }
    }
    let lines: Vec<Line> = hachure_sweep(sorted, gap);
    proof {
        if special {
            let pts = polygon_list@[0]@;
            assert(sorted@[0].ymin as int == pts[0].y as int);
            assert(sorted@[0].ymax as int == pts[2].y as int);
            assert(sorted@[0].x as int == pts[0].x as int);
            assert(sorted@[1].x as int == pts[1].x as int);
        }
    }
    lines
}

/// The fill-line spacing a configuration asks for: the hachure gap when it
/// is non-negative, else four stroke widths, floored at a tenth of a unit
/// so that the sweep always advances.
pub open spec fn resolve_gap_v(o: Options) -> int {
    let raw = if o.hachure_gap < 0 {
        4 * (o.stroke_width as int)
    } else {
        o.hachure_gap as int
    };
    if raw < 100_000 {
        100_000
    } else {
        raw
    }
}

/// Resolves the fill-line spacing; exact per [`resolve_gap_v`].
pub fn resolve_gap(o: &Options) -> (g: i64)
    requires
        o.valid(),
    ensures
        g as int == resolve_gap_v(*o),
        100_000 <= g <= 4_000_000_000,
{
    let raw: i64 = if o.hachure_gap < 0 {
        4 * o.stroke_width
    } else {
        o.hachure_gap
    };
    if raw < 100_000 {
        100_000
    } else {
        raw
    }
}

/// A ring rotated about the origin, point by point.
pub open spec fn rotate_ring_v(pts: Seq<Point>, angle: int) -> Seq<Point> {
    Seq::new(pts.len(), |i: int| rotate_point_v(pts[i], Point { x: 0i64, y: 0i64 }, angle))
}

/// Every ring rotated about the origin.
pub open spec fn rotate_polys_v(polys: Seq<Seq<Point>>, angle: int) -> Seq<Seq<Point>> {
    Seq::new(polys.len(), |i: int| rotate_ring_v(polys[i], angle))
}

/// The whole hachure pipeline: rotate the polygons so the fill direction
/// becomes horizontal, sweep them at the resolved gap, and rotate the
/// scan lines back.
pub open spec fn hachure_lines_v(polys: Seq<Seq<Point>>, o: Options) -> Seq<Line> {
    let angle = o.hachure_angle as int + 90_000_000;
    let mid = straight_lines_v(rotate_polys_v(polys, angle), resolve_gap_v(o));
    Seq::new(mid.len(), |i: int| rotate_line_v(mid[i], Point { x: 0i64, y: 0i64 }, -angle))
}

/// A line set is a hachure line set for the configuration: each final
/// line is the exact back-rotation, by the hachure angle plus a quarter
/// turn, of one horizontal scan line; the scan lines come in nondecreasing
/// scan order, spaced by whole multiples of the resolved gap.
pub open spec fn hachure_lines_ok(lines: Seq<Line>, mid: Seq<Line>, o: Options) -> bool {
    let angle = o.hachure_angle as int + 90_000_000;
    &&& mid.len() == lines.len()
    &&& (forall|i: int| 0 <= i < mid.len() ==> (#[trigger] mid[i]).start.y == mid[i].end.y)
    &&& (forall|i: int|
        0 <= i < mid.len() - 1 ==> (#[trigger] mid[i]).start.y <= mid[i + 1].start.y)
    &&& (forall|i: int|
        0 <= i < mid.len() - 1 ==> ((#[trigger] mid[i + 1]).start.y as int
            - mid[i].start.y as int) % resolve_gap_v(o) == 0)
    &&& (forall|i: int|
        0 <= i < lines.len() ==> #[trigger] lines[i] == rotate_line_v(
            mid[i],
            Point { x: 0i64, y: 0i64 },
            -angle,
        ))
}

/// Some horizontal scan-line set witnesses the lines as a hachure set.
pub open spec fn is_hachure_line_set(lines: Seq<Line>, o: Options) -> bool {
    exists|mid: Seq<Line>| #[trigger] hachure_lines_ok(lines, mid, o)
}

/// The hachure fill lines of the polygons: each polygon is rotated so the
/// configured hachure direction becomes horizontal, swept, and the lines
/// are rotated back. Deterministic; every line stays within the segment
/// renderer's range.
pub fn polygon_hachure_lines(polygon_list: Vec<Vec<Point>>, o: &Options) -> (lines: Vec<Line>)
    requires
        o.valid(),
        forall|i: int|
            0 <= i < polygon_list@.len() ==> points_within(
                (#[trigger] polygon_list@[i])@,
                FILL_LIMIT as int,
            ),
    ensures
        forall|i: int|
            0 <= i < lines@.len() ==> point_within(
                (#[trigger] lines@[i]).start,
                160_000_000_000_000,
            ) && point_within(lines@[i].end, 160_000_000_000_000),
        lines@ =~= hachure_lines_v(views_of(polygon_list@), *o),
        is_hachure_line_set(lines@, *o),
{
    let angle: i64 = o.hachure_angle + 90_000_000;
    let gap: i64 = resolve_gap(o);
    let center: Point = Point { x: 0, y: 0 };
    let mut rotated: Vec<Vec<Point>> = Vec::new();
    let mut pi: usize = 0;
    while pi < polygon_list.len()
        invariant
            0 <= pi <= polygon_list@.len(),
            o.valid(),
            abs_v(angle as int) <= 450_000_000,
            center == (Point { x: 0i64, y: 0i64 }),
            forall|i: int|
                0 <= i < polygon_list@.len() ==> points_within(
                    (#[trigger] polygon_list@[i])@,
                    FILL_LIMIT as int,
                ),
            rotated@.len() == pi,
            forall|i: int|
                0 <= i < rotated@.len() ==> points_within(
                    (#[trigger] rotated@[i])@,
                    EDGE_LIMIT as int,
                ),
            forall|i: int|
                0 <= i < rotated@.len() ==> (#[trigger] rotated@[i])@ =~= rotate_ring_v(
                    polygon_list@[i]@,
                    angle as int,
                ),
        decreases polygon_list@.len() - pi,
    {
        let pg: Vec<Point> = polygon_list[pi].clone();
        let rp: Vec<Point> = rotate_points(pg, center, angle);
        proof {
            assert forall|j: int| 0 <= j < rp@.len() implies point_within(
                #[trigger] rp@[j],
                EDGE_LIMIT as int,
            ) by {
                assert(point_within(polygon_list@[pi as int]@[j], FILL_LIMIT as int));
            }
            assert(rp@ =~= rotate_ring_v(polygon_list@[pi as int]@, angle as int));
        }
        rotated.push(rp);
        pi = pi + 1;
    }
    let lines: Vec<Line> = straight_hachure_lines(rotated, gap);
    let back: Vec<Line> = rotate_lines(lines, center, -angle);
    proof {
        assert forall|i: int| 0 <= i < back@.len() implies point_within(
            (#[trigger] back@[i]).start,
            160_000_000_000_000,
        ) && point_within(back@[i].end, 160_000_000_000_000) by {
            assert(point_within(lines@[i].start, X_CLAMP as int));
            assert(point_within(lines@[i].end, X_CLAMP as int));
        }
        assert(hachure_lines_ok(back@, lines@, *o));
        assert(views_of(rotated@) =~~= rotate_polys_v(views_of(polygon_list@), angle as int));
        assert(lines@ =~= straight_lines_v(
            rotate_polys_v(views_of(polygon_list@), angle as int),
            resolve_gap_v(*o),
        ));
        assert(back@ =~= hachure_lines_v(views_of(polygon_list@), *o));
    }
    back
}

/// Chunk `i` of a fill sketch is the perturbed double line of fill line
/// `i`.
pub open spec fn sketch_chunk_ok(ops: Seq<crate::model::Op>, lines: Seq<Line>, i: int, o: Options) -> bool {
    let c = stroke_op_count(o);
    double_line_ops_ok(
        ops.subrange(i * c, (i + 1) * c),
        lines[i].start.x as int,
        lines[i].start.y as int,
        lines[i].end.x as int,
        lines[i].end.y as int,
        o,
    )
}

/// A fill-sketch operation list renders exactly the given lines: one
/// perturbed double line per fill line, in order.
pub open spec fn sketch_of_lines(ops: Seq<crate::model::Op>, lines: Seq<Line>, o: Options) -> bool {
    &&& ops.len() == lines.len() * stroke_op_count(o)
    &&& forall|i: int| 0 <= i < lines.len() ==> #[trigger] sketch_chunk_ok(ops, lines, i, o)
}

/// Renders a list of fill lines as perturbed double lines in one
/// fill-sketch operation set.
fn lines_to_sketch(lines: &Vec<Line>, o: &Options, rs: &mut RandomSource) -> (r: OpSet)
    requires
        o.valid(),
        forall|i: int|
            0 <= i < lines@.len() ==> point_within(
                (#[trigger] lines@[i]).start,
                170_000_000_000_000,
            ) && point_within(lines@[i].end, 170_000_000_000_000),
    ensures
        r.ops_type == OpSetType::FillSketch,
        r.wf(),
        reaches_v(old(rs).state, final(rs).state),
        sketch_of_lines(r.ops@, lines@, *o),
{
    let ghost s0: u64 = rs.state;
    let mut ops: Vec<crate::model::Op> = Vec::new();
    let mut i: usize = 0;
    let ghost c: int = stroke_op_count(*o);
    proof {
        lemma_reaches_refl(s0);
    }
    while i < lines.len()
        invariant
            0 <= i <= lines@.len(),
            o.valid(),
            c == stroke_op_count(*o),
            forall|j: int|
                0 <= j < lines@.len() ==> point_within(
                    (#[trigger] lines@[j]).start,
                    170_000_000_000_000,
                ) && point_within(lines@[j].end, 170_000_000_000_000),
            reaches_v(s0, rs.state),
            ops@.len() == i * c,
            forall|j: int| 0 <= j < ops@.len() ==> (#[trigger] ops@[j]).wf(),
            forall|j: int| 0 <= j < i ==> #[trigger] sketch_chunk_ok(ops@, lines@, j, *o),
        decreases lines@.len() - i,
    {
        let l: Line = lines[i];
        let ghost before: u64 = rs.state;
        let ghost old_ops: Seq<crate::model::Op> = ops@;
        let mut dl: Vec<crate::model::Op> = _double_line(
            l.start.x,
            l.start.y,
            l.end.x,
            l.end.y,
            o,
            rs,
        );
        let ghost dl0: Seq<crate::model::Op> = dl@;
        ops.append(&mut dl);
        proof {
            crate::rng::lemma_reaches_nth(
                before,
                if o.disable_multi_stroke {
                    11nat
                } else {
                    22nat
                },
            );
            lemma_reaches_trans(s0, before, rs.state);
            assert((i + 1) * c == i * c + c) by (nonlinear_arith);
            assert(ops@.subrange(i as int * c, (i + 1) * c) =~= dl0);
            assert(sketch_chunk_ok(ops@, lines@, i as int, *o));
            assert forall|j: int| 0 <= j < i implies #[trigger] sketch_chunk_ok(
                ops@,
                lines@,
                j,
                *o,
            ) by {
                assert(sketch_chunk_ok(old_ops, lines@, j, *o));
                assert((j + 1) * c <= i * c && 0 <= j * c) by (nonlinear_arith)
                    requires
                        0 <= j < i,
                        0 < c,
                ;
                assert(ops@.subrange(j * c, (j + 1) * c) =~= old_ops.subrange(j * c, (j + 1) * c));
            }
        }
        i = i + 1;
    }
    OpSet { ops_type: OpSetType::FillSketch, ops }
}

/// The hachure fill of the polygons: always succeeds.
fn hachure_fill_ops(polygon_list: Vec<Vec<Point>>, o: &Options, rs: &mut RandomSource) -> (r:
    OpSet)
    requires
        o.valid(),
        forall|i: int|
            0 <= i < polygon_list@.len() ==> points_within(
                (#[trigger] polygon_list@[i])@,
                FILL_LIMIT as int,
            ),
    ensures
        r.ops_type == OpSetType::FillSketch,
        r.wf(),
        reaches_v(old(rs).state, final(rs).state),
        sketch_of_lines(r.ops@, hachure_lines_v(views_of(polygon_list@), *o), *o),
        exists|lines: Seq<Line>|
            #[trigger] sketch_of_lines(r.ops@, lines, *o) && is_hachure_line_set(lines, *o),
{
    let lines: Vec<Line> = polygon_hachure_lines(polygon_list, o);
    let r: OpSet = lines_to_sketch(&lines, o, rs);
    proof {
        assert(sketch_of_lines(r.ops@, lines@, *o) && is_hachure_line_set(lines@, *o));
    }
    r
}

/// The zigzag doubling of the first `i` hachure lines: each line of
/// nonzero length becomes two half-lines meeting at its end, their starts
/// offset by half a spacing along the hachure direction.
pub open spec fn zigzag_upto_v(lines: Seq<Line>, i: int, o: Options) -> Seq<Line>
    decreases i,
{
    if i <= 0 {
        Seq::empty()
    } else {
        let l = lines[i - 1];
        let dgx = fx_mul_v(tdiv(resolve_gap_v(o), 2), cos_fx_v(deg_rad_v(o.hachure_angle as int)));
        let dgy = fx_mul_v(tdiv(resolve_gap_v(o), 2), sin_fx_v(deg_rad_v(o.hachure_angle as int)));
        zigzag_upto_v(lines, i - 1, o) + (if l.end.x != l.start.x || l.end.y != l.start.y {
            seq![
                Line {
                    start: Point {
                        x: (l.start.x - dgx) as i64,
                        y: (l.start.y + dgy) as i64,
                    },
                    end: l.end,
                },
                Line {
                    start: Point {
                        x: (l.start.x + dgx) as i64,
                        y: (l.start.y - dgy) as i64,
                    },
                    end: l.end,
                },
            ]
        } else {
            Seq::empty()
        })
    }
}

/// The zigzag doubling of a whole hachure line set.
pub open spec fn zigzag_of_v(lines: Seq<Line>, o: Options) -> Seq<Line> {
    zigzag_upto_v(lines, lines.len() as int, o)
}

/// Lines `i` and `i + 1` form one zigzag pair: they share their end, and
/// their starts sit a full resolved-gap-scaled step apart along the
/// hachure direction, symmetric about the underlying hachure start.
pub open spec fn zigzag_pair_ok(lines: Seq<Line>, i: int, o: Options) -> bool {
    let dgx = fx_mul_v(tdiv(resolve_gap_v(o), 2), cos_fx_v(deg_rad_v(o.hachure_angle as int)));
    let dgy = fx_mul_v(tdiv(resolve_gap_v(o), 2), sin_fx_v(deg_rad_v(o.hachure_angle as int)));
    &&& lines[i].end == lines[i + 1].end
    &&& lines[i + 1].start.x as int - lines[i].start.x as int == 2 * dgx
    &&& lines[i].start.y as int - lines[i + 1].start.y as int == 2 * dgy
}

/// The lines come in zigzag pairs throughout.
pub open spec fn is_zigzag_line_set(lines: Seq<Line>, o: Options) -> bool {
    &&& lines.len() % 2 == 0
    &&& forall|k: int| 0 <= k && 2 * k + 1 < lines.len() ==> #[trigger] zigzag_pair_ok(
        lines,
        2 * k,
        o,
    )
}

/// The zigzag fill of the polygons: the hachure line set, with each line
/// of nonzero length doubled into two half-lines whose starts are offset
/// by half a spacing along the hachure direction. Always succeeds.
fn zigzag_fill_ops(polygon_list: Vec<Vec<Point>>, o: &Options, rs: &mut RandomSource) -> (r: OpSet)
    requires
        o.valid(),
        forall|i: int|
            0 <= i < polygon_list@.len() ==> points_within(
                (#[trigger] polygon_list@[i])@,
                FILL_LIMIT as int,
            ),
    ensures
        r.ops_type == OpSetType::FillSketch,
        r.wf(),
        reaches_v(old(rs).state, final(rs).state),
        sketch_of_lines(
            r.ops@,
            zigzag_of_v(hachure_lines_v(views_of(polygon_list@), *o), *o),
            *o,
        ),
        exists|zl: Seq<Line>|
            #[trigger] sketch_of_lines(r.ops@, zl, *o) && is_zigzag_line_set(zl, *o),
{
    let gap: i64 = resolve_gap(o);
    let lines: Vec<Line> = polygon_hachure_lines(polygon_list, o);
    let zigzag_angle: i64 = crate::fixed::deg_to_rad(o.hachure_angle);
    let half_gap: i64 = ((gap as u64) / 2) as i64;
    let ca: i64 = crate::fixed::cos_fx(zigzag_angle);
    let sa: i64 = crate::fixed::sin_fx(zigzag_angle);
    proof {
        crate::fixed::lemma_fx_scale(half_gap as int, ca as int, 2_000_000_000);
        crate::fixed::lemma_fx_scale(half_gap as int, sa as int, 2_000_000_000);
    }
    let dgx: i64 = crate::fixed::fx_mul(half_gap, ca);
    let dgy: i64 = crate::fixed::fx_mul(half_gap, sa);
    let mut zigzag_lines: Vec<Line> = Vec::new();
    let mut i: usize = 0;
    while i < lines.len()
        invariant
            0 <= i <= lines@.len(),
            o.valid(),
            abs_v(dgx as int) <= 2_000_000_000,
            abs_v(dgy as int) <= 2_000_000_000,
            dgx as int == fx_mul_v(
                tdiv(resolve_gap_v(*o), 2),
                cos_fx_v(deg_rad_v(o.hachure_angle as int)),
            ),
            dgy as int == fx_mul_v(
                tdiv(resolve_gap_v(*o), 2),
                sin_fx_v(deg_rad_v(o.hachure_angle as int)),
            ),
            forall|j: int|
                0 <= j < lines@.len() ==> point_within(
                    (#[trigger] lines@[j]).start,
                    160_000_000_000_000,
                ) && point_within(lines@[j].end, 160_000_000_000_000),
            forall|j: int|
                0 <= j < zigzag_lines@.len() ==> point_within(
                    (#[trigger] zigzag_lines@[j]).start,
                    170_000_000_000_000,
                ) && point_within(zigzag_lines@[j].end, 170_000_000_000_000),
            zigzag_lines@ =~= zigzag_upto_v(lines@, i as int, *o),
            is_zigzag_line_set(zigzag_lines@, *o),
        decreases lines@.len() - i,
    {
        let l: Line = lines[i];
        let dx: i64 = l.end.x - l.start.x;
        let dy: i64 = l.end.y - l.start.y;
        if dx == 0 && dy == 0 {
            proof {
                assert(zigzag_lines@ =~= zigzag_upto_v(lines@, i as int + 1, *o));
            }
        }
        if dx != 0 || dy != 0 {
            let ghost old_zz: Seq<Line> = zigzag_lines@;
            zigzag_lines.push(
                Line {
                    start: Point { x: l.start.x - dgx, y: l.start.y + dgy },
                    end: l.end,
                },
            );
            zigzag_lines.push(
                Line {
                    start: Point { x: l.start.x + dgx, y: l.start.y - dgy },
                    end: l.end,
                },
            );
            proof {
                assert(zigzag_pair_ok(zigzag_lines@, old_zz.len() as int, *o));
                assert forall|k: int| 0 <= k && 2 * k + 1 < zigzag_lines@.len() implies
                    #[trigger] zigzag_pair_ok(zigzag_lines@, 2 * k, *o) by {
                    if 2 * k + 1 < old_zz.len() {
                        assert(zigzag_pair_ok(old_zz, 2 * k, *o));
                    } else {
                        assert(2 * k == old_zz.len()) by (nonlinear_arith)
                            requires
                                old_zz.len() % 2 == 0,
                                0 <= k,
                                2 * k + 1 >= old_zz.len(),
                                2 * k + 1 < old_zz.len() + 2,
                        ;
                    }
                }
                assert(zigzag_lines@ =~= zigzag_upto_v(lines@, i as int + 1, *o));
            }
        }
        i = i + 1;
    }
    let r: OpSet = lines_to_sketch(&zigzag_lines, o, rs);
    proof {
        assert(sketch_of_lines(r.ops@, zigzag_lines@, *o) && is_zigzag_line_set(
            zigzag_lines@,
            *o,
        ));
        assert(zigzag_lines@ =~= zigzag_of_v(hachure_lines_v(views_of(polygon_list@), *o), *o));
    }
    r
}

/// A pattern filler: turns polygons into one fill-sketch operation set, or
/// says why it cannot.
pub trait PatternFiller {
    /// Fills the polygons with this pattern.
    fn fill_polygons(
        &self,
        polygon_list: Vec<Vec<Point>>,
        o: &Options,
        rs: &mut RandomSource,
    ) -> (r: Result<OpSet, FillError>)
        requires
            o.valid(),
            forall|i: int|
                0 <= i < polygon_list@.len() ==> points_within(
                    (#[trigger] polygon_list@[i])@,
                    FILL_LIMIT as int,
                ),
        ensures
            reaches_v(old(rs).state, final(rs).state),
            r is Ok ==> (r->Ok_0).ops_type == OpSetType::FillSketch && (r->Ok_0).wf(),
    ;
}

/// The parallel-line scanline filler.
pub struct HachureFiller {}

/// The zigzag filler, derived from the hachure line set.
pub struct ZigzagFiller {}

/// The dashed filler: a valid configuration whose algorithm is not
/// implemented; it reports that rather than producing an empty result.
pub struct DashedFiller {}

impl PatternFiller for HachureFiller {
    fn fill_polygons(
        &self,
        polygon_list: Vec<Vec<Point>>,
        o: &Options,
        rs: &mut RandomSource,
    ) -> (r: Result<OpSet, FillError>)
        ensures
            r is Ok,
            sketch_of_lines((r->Ok_0).ops@, hachure_lines_v(views_of(polygon_list@), *o), *o),
            exists|lines: Seq<Line>|
                #[trigger] sketch_of_lines((r->Ok_0).ops@, lines, *o) && is_hachure_line_set(
                    lines,
                    *o,
                ),
    {
        Ok(hachure_fill_ops(polygon_list, o, rs))
    }
}

impl PatternFiller for ZigzagFiller {
    fn fill_polygons(
        &self,
        polygon_list: Vec<Vec<Point>>,
        o: &Options,
        rs: &mut RandomSource,
    ) -> (r: Result<OpSet, FillError>)
        ensures
            r is Ok,
            sketch_of_lines(
                (r->Ok_0).ops@,
                zigzag_of_v(hachure_lines_v(views_of(polygon_list@), *o), *o),
                *o,
            ),
            exists|zl: Seq<Line>|
                #[trigger] sketch_of_lines((r->Ok_0).ops@, zl, *o) && is_zigzag_line_set(zl, *o),
    {
        Ok(zigzag_fill_ops(polygon_list, o, rs))
    }
}

impl PatternFiller for DashedFiller {
    fn fill_polygons(
        &self,
        polygon_list: Vec<Vec<Point>>,
        o: &Options,
        rs: &mut RandomSource,
    ) -> (r: Result<OpSet, FillError>)
        ensures
            r == Result::<OpSet, FillError>::Err(FillError::NotImplemented),
    {
        proof {
            lemma_reaches_refl(rs.state);
        }
        Err(FillError::NotImplemented)
    }
}

/// A chosen filler, dispatched by fill style.
pub enum Filler {
    Hachure(HachureFiller),
    Zigzag(ZigzagFiller),
    Dashed(DashedFiller),
}

impl Filler {
    /// Fills the polygons with the chosen pattern: hachure and zigzag
    /// always succeed, the dashed filler is not implemented.
    pub fn fill_polygons(
        &self,
        polygon_list: Vec<Vec<Point>>,
        o: &Options,
        rs: &mut RandomSource,
    ) -> (r: Result<OpSet, FillError>)
        requires
            o.valid(),
            forall|i: int|
                0 <= i < polygon_list@.len() ==> points_within(
                    (#[trigger] polygon_list@[i])@,
                    FILL_LIMIT as int,
                ),
        ensures
            reaches_v(old(rs).state, final(rs).state),
            r is Ok <==> !(self is Dashed),
            r is Ok ==> (r->Ok_0).ops_type == OpSetType::FillSketch && (r->Ok_0).wf(),
            self is Hachure ==> sketch_of_lines(
                (r->Ok_0).ops@,
                hachure_lines_v(views_of(polygon_list@), *o),
                *o,
            ),
            self is Zigzag ==> sketch_of_lines(
                (r->Ok_0).ops@,
                zigzag_of_v(hachure_lines_v(views_of(polygon_list@), *o), *o),
                *o,
            ),
            self is Hachure ==> (exists|lines: Seq<Line>|
                #[trigger] sketch_of_lines((r->Ok_0).ops@, lines, *o) && is_hachure_line_set(
                    lines,
                    *o,
                )),
            self is Zigzag ==> (exists|zl: Seq<Line>|
                #[trigger] sketch_of_lines((r->Ok_0).ops@, zl, *o) && is_zigzag_line_set(zl, *o)),
            self is Dashed ==> r == Result::<OpSet, FillError>::Err(FillError::NotImplemented),
    {
        match self {
            Filler::Hachure(_) => Ok(hachure_fill_ops(polygon_list, o, rs)),
            Filler::Zigzag(_) => Ok(zigzag_fill_ops(polygon_list, o, rs)),
            Filler::Dashed(_) => {
                proof {
                    lemma_reaches_refl(rs.state);
                }
                Err(FillError::NotImplemented)
            },
        }
    }
}

/// Chooses the filler for a configuration: hachure, zigzag and dashed have
/// fillers; a solid fill is not a pattern and is reported as unsupported
/// here; the remaining styles are not implemented.
pub fn get_filler(options: &Options) -> (r: Result<Filler, FillError>)
    ensures
        options.fill_style == crate::model::FillStyle::Hachure ==> r == Result::<
            Filler,
            FillError,
        >::Ok(Filler::Hachure(HachureFiller {  })),
        options.fill_style == crate::model::FillStyle::Zigzag ==> r == Result::<
            Filler,
            FillError,
        >::Ok(Filler::Zigzag(ZigzagFiller {  })),
        options.fill_style == crate::model::FillStyle::Dashed ==> r == Result::<
            Filler,
            FillError,
        >::Ok(Filler::Dashed(DashedFiller {  })),
        options.fill_style == crate::model::FillStyle::Solid ==> r == Result::<
            Filler,
            FillError,
        >::Err(FillError::Unsupported),
        (options.fill_style == crate::model::FillStyle::CrossHatch || options.fill_style
            == crate::model::FillStyle::Dots || options.fill_style
            == crate::model::FillStyle::ZigzagLine) ==> r == Result::<Filler, FillError>::Err(
            FillError::NotImplemented,
        ),
{
    match options.fill_style {
        crate::model::FillStyle::Hachure => Ok(Filler::Hachure(HachureFiller {  })),
        crate::model::FillStyle::Zigzag => Ok(Filler::Zigzag(ZigzagFiller {  })),
        crate::model::FillStyle::Dashed => Ok(Filler::Dashed(DashedFiller {  })),
        crate::model::FillStyle::Solid => Err(FillError::Unsupported),
        _ => Err(FillError::NotImplemented),
    }
}

} // verus!
