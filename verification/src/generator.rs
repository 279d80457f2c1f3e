//! The generator facade: a builder-style configuration surface and one
//! entry point per shape kind.
//!
//! Every shape method copies the current options into the result, draws
//! from the caller's random source, and — when a fill is requested —
//! places the fill operation set before the outline, so fills always paint
//! beneath strokes.

use crate::fixed::abs_v;
use crate::geometry::{points_within, Point};
use crate::model::{Color, Drawable, FillError, FillStyle, OpSet, OpSetType, Options};
use crate::renderer::{
    arc, arc_span_v, double_line_ops_ok, ellipse_with_params, generate_ellipse_params, line,
    linear_path, path_chunk_ok, pattern_fill_arc, pattern_fill_polygon, rect_points_v, rectangle,
    solid_fill_polygon, solid_vertex_ops_ok, stroke_op_count, SHAPE_LIMIT,
};
use crate::filler::{hachure_lines_v, is_hachure_line_set, is_zigzag_line_set, sketch_of_lines, zigzag_of_v};
use crate::geometry::Line;
use crate::rng::{lemma_reaches_refl, lemma_reaches_trans, reaches_v, RandomSource};
use vstd::prelude::*;

verus! {

/// The public entry point: carries a configuration built by its
/// builder-style methods and generates drawables from it.
pub struct RoughGenerator {
    options: Options,
}

impl RoughGenerator {
    /// The configuration the generator currently carries.
    pub closed spec fn options_v(self) -> Options {
        self.options
    }

    /// The configuration is within range and its fill style is one of the
    /// implemented ones, so every shape method can serve it.
    pub open spec fn wf(self) -> bool {
        &&& self.options_v().valid()
        &&& (self.options_v().fill_style == FillStyle::Solid || self.options_v().fill_style
            == FillStyle::Hachure || self.options_v().fill_style == FillStyle::Zigzag)
    }

    /// A generator with the default configuration.
    pub fn new() -> (r: RoughGenerator)
        ensures
            r.wf(),
            r.options_v() == Options::default_v(),
    {
        RoughGenerator { options: Options::default() }
    }

    /// Selects the fill style; only the implemented styles are accepted.
    pub fn fill_style(&mut self, style: FillStyle)
        requires
            old(self).wf(),
            style == FillStyle::Solid || style == FillStyle::Hachure || style == FillStyle::Zigzag,
        ensures
            final(self).wf(),
            final(self).options_v() == (Options { fill_style: style, ..old(self).options_v() }),
    {
        self.options.fill_style = style;
    }

    /// Sets the outline stroke width.
    pub fn stroke_width(&mut self, width: i64)
        requires
            old(self).wf(),
            0 <= width <= 1_000_000_000,
        ensures
            final(self).wf(),
            final(self).options_v() == (Options { stroke_width: width, ..old(self).options_v() }),
    {
        self.options.stroke_width = width;
    }

    /// Sets the stroke width of fill sketch lines.
    pub fn fill_weight(&mut self, weight: i64)
        requires
            old(self).wf(),
            0 <= weight <= 1_000_000_000,
        ensures
            final(self).wf(),
            final(self).options_v() == (Options { fill_weight: weight, ..old(self).options_v() }),
    {
        self.options.fill_weight = weight;
    }

    /// Requests a fill for subsequent shapes.
    pub fn fill(&mut self)
        requires
            old(self).wf(),
        ensures
            final(self).wf(),
            final(self).options_v() == (Options { fill: true, ..old(self).options_v() }),
    {
        self.options.fill = true;
    }

    /// Sets the minimum number of curve samples per full turn.
    pub fn curve_step_count(&mut self, curve_step_count: usize)
        requires
            old(self).wf(),
            1 <= curve_step_count <= 1000,
        ensures
            final(self).wf(),
            final(self).options_v() == (Options {
                curve_step_count,
                ..old(self).options_v()
            }),
    {
        self.options.curve_step_count = curve_step_count;
    }

    /// Sets the outline color.
    pub fn color(&mut self, color: Color)
        requires
            old(self).wf(),
        ensures
            final(self).wf(),
            final(self).options_v() == (Options { color, ..old(self).options_v() }),
    {
        self.options.color = color;
    }

    /// Sets the fill color.
    pub fn fill_color(&mut self, color: Color)
        requires
            old(self).wf(),
        ensures
            final(self).wf(),
            final(self).options_v() == (Options { fill_color: color, ..old(self).options_v() }),
    {
        self.options.fill_color = color;
    }

    /// A perturbed straight line: one outline operation set holding one
    /// perturbed double line, whose endpoints are exact when roughness is
    /// zero or vertices are preserved.
    pub fn line(&self, x1: i64, y1: i64, x2: i64, y2: i64, rs: &mut RandomSource) -> (r: Drawable)
        requires
            self.wf(),
            abs_v(x1 as int) <= SHAPE_LIMIT as int,
            abs_v(y1 as int) <= SHAPE_LIMIT as int,
            abs_v(x2 as int) <= SHAPE_LIMIT as int,
            abs_v(y2 as int) <= SHAPE_LIMIT as int,
        ensures
            r.shape@ == "line"@,
            r.options == self.options_v(),
            r.wf(),
            r.sets@.len() == 1,
            r.sets@[0].ops_type == OpSetType::Path,
            r.sets@[0].ops@.len() == stroke_op_count(self.options_v()),
            double_line_ops_ok(
                r.sets@[0].ops@,
                x1 as int,
                y1 as int,
                x2 as int,
                y2 as int,
                self.options_v(),
            ),
            reaches_v(old(rs).state, final(rs).state),
    {
        let s: OpSet = line(x1, y1, x2, y2, &self.options, rs);
        let mut sets: Vec<OpSet> = Vec::new();
        sets.push(s);
        Drawable::new("line", self.options, sets)
    }

    /// A perturbed rectangle: when a fill is requested, exactly two
    /// operation sets, the fill first (a fill path for solid fill, a fill
    /// sketch for the pattern fillers) and the outline second; otherwise
    /// the outline alone.
    pub fn rectangle(&self, x: i64, y: i64, width: i64, height: i64, rs: &mut RandomSource) -> (r:
        Drawable)
        requires
            self.wf(),
            abs_v(x as int) <= SHAPE_LIMIT as int,
            abs_v(y as int) <= SHAPE_LIMIT as int,
            abs_v(width as int) <= SHAPE_LIMIT as int,
            abs_v(height as int) <= SHAPE_LIMIT as int,
        ensures
            r.shape@ == "rectangle"@,
            r.options == self.options_v(),
            r.wf(),
            r.sets@.len() == (if self.options_v().fill {
                2int
            } else {
                1int
            }),
            self.options_v().fill ==> r.sets@[0].ops_type == (
            if self.options_v().fill_style == FillStyle::Solid {
                OpSetType::FillPath
            } else {
                OpSetType::FillSketch
            }),
            r.sets@[r.sets@.len() - 1].ops_type == OpSetType::Path,
            r.sets@[r.sets@.len() - 1].ops@.len() == 4 * stroke_op_count(self.options_v()),
            forall|s: int|
                0 <= s < 4 ==> #[trigger] path_chunk_ok(
                    r.sets@[r.sets@.len() - 1].ops@,
                    rect_points_v(x as int, y as int, width as int, height as int),
                    s,
                    self.options_v(),
                ),
            self.options_v().fill && self.options_v().fill_style == FillStyle::Solid
                ==> solid_vertex_ops_ok(
                r.sets@[0].ops@,
                rect_points_v(x as int, y as int, width as int, height as int),
                4,
                self.options_v(),
            ),
            self.options_v().fill && self.options_v().fill_style == FillStyle::Hachure
                ==> sketch_of_lines(
                r.sets@[0].ops@,
                hachure_lines_v(
                    seq![rect_points_v(x as int, y as int, width as int, height as int)],
                    self.options_v(),
                ),
                self.options_v(),
            ),
            self.options_v().fill && self.options_v().fill_style == FillStyle::Zigzag
                ==> sketch_of_lines(
                r.sets@[0].ops@,
                zigzag_of_v(
                    hachure_lines_v(
                        seq![rect_points_v(x as int, y as int, width as int, height as int)],
                        self.options_v(),
                    ),
                    self.options_v(),
                ),
                self.options_v(),
            ),
            reaches_v(old(rs).state, final(rs).state),
    {
        let ghost s0: u64 = rs.state;
        let mut paths: Vec<OpSet> = Vec::new();
        proof {
            lemma_reaches_refl(s0);
        }
        if self.options.fill {
            let mut points: Vec<Point> = Vec::new();
            points.push(Point { x, y });
            points.push(Point { x: x + width, y });
            points.push(Point { x: x + width, y: y + height });
            points.push(Point { x, y: y + height });
            proof {
                assert(points@ =~= rect_points_v(x as int, y as int, width as int, height as int));
            }
            let mut polys: Vec<Vec<Point>> = Vec::new();
            polys.push(points);
            proof {
                assert(crate::filler::views_of(polys@) =~~= seq![
                    rect_points_v(x as int, y as int, width as int, height as int),
                ]);
            }
            if matches!(self.options.fill_style, FillStyle::Solid) {
                paths.push(solid_fill_polygon(polys, &self.options, rs));
            } else {
                match pattern_fill_polygon(polys, &self.options, rs) {
                    Ok(s) => paths.push(s),
                    // a well-formed generator only selects implemented
                    // pattern styles, so the filler cannot refuse
                    Err(_) => {
                        proof {
                            assert(false);
                        }
                    },
                }
            }
        }
        let ghost b1: u64 = rs.state;
        let outline: OpSet = rectangle(x, y, width, height, &self.options, rs);
        paths.push(outline);
        proof {
            lemma_reaches_trans(s0, b1, rs.state);
        }
        Drawable::new("rectangle", self.options, paths)
    }

    /// A perturbed ellipse within the axis-aligned box of the given width
    /// and height about the center: fill first when requested, then the
    /// outline pass, which the solid style tags as a fill path.
    pub fn ellipse(&self, x: i64, y: i64, width: i64, height: i64, rs: &mut RandomSource) -> (r:
        Drawable)
        requires
            self.wf(),
            abs_v(x as int) <= SHAPE_LIMIT as int,
            abs_v(y as int) <= SHAPE_LIMIT as int,
            abs_v(width as int) <= SHAPE_LIMIT as int,
            abs_v(height as int) <= SHAPE_LIMIT as int,
        ensures
            r.shape@ == "ellipse"@,
            r.options == self.options_v(),
            r.wf(),
            r.sets@.len() == (if self.options_v().fill {
                2int
            } else {
                1int
            }),
            self.options_v().fill ==> r.sets@[0].ops_type == (
            if self.options_v().fill_style == FillStyle::Solid {
                OpSetType::FillPath
            } else {
                OpSetType::FillSketch
            }),
            r.sets@[r.sets@.len() - 1].ops_type == (
            if self.options_v().fill_style == FillStyle::Solid {
                OpSetType::FillPath
            } else {
                OpSetType::Path
            }),
            r.sets@[r.sets@.len() - 1].ops@.len() >= 2,
            self.options_v().fill && self.options_v().fill_style == FillStyle::Hachure ==> (exists|
                lines: Seq<Line>,
            |
                #[trigger] sketch_of_lines(r.sets@[0].ops@, lines, self.options_v())
                    && is_hachure_line_set(lines, self.options_v())),
            self.options_v().fill && self.options_v().fill_style == FillStyle::Zigzag ==> (exists|
                zl: Seq<Line>,
            |
                #[trigger] sketch_of_lines(r.sets@[0].ops@, zl, self.options_v())
                    && is_zigzag_line_set(zl, self.options_v())),
            reaches_v(old(rs).state, final(rs).state),
    {
        let ghost s0: u64 = rs.state;
        let mut paths: Vec<OpSet> = Vec::new();
        let ellipse_params = generate_ellipse_params(width, height, &self.options, rs);
        let ghost b1: u64 = rs.state;
        let response = ellipse_with_params(x, y, &self.options, ellipse_params, rs);
        proof {
            lemma_reaches_trans(s0, b1, rs.state);
        }
        if self.options.fill {
            if matches!(self.options.fill_style, FillStyle::Solid) {
                let ghost b2: u64 = rs.state;
                let shape = ellipse_with_params(x, y, &self.options, ellipse_params, rs);
                proof {
                    lemma_reaches_trans(s0, b2, rs.state);
                }
                paths.push(OpSet { ops_type: OpSetType::FillPath, ops: shape.opset.ops });
            } else {
                let mut polys: Vec<Vec<Point>> = Vec::new();
                polys.push(response.estimated_points);
                let ghost b2: u64 = rs.state;
                match pattern_fill_polygon(polys, &self.options, rs) {
                    Ok(s) => {
                        paths.push(s);
                    },
                    Err(_) => {
                        proof {
                            assert(false);
                        }
                    },
                }
                proof {
                    lemma_reaches_trans(s0, b2, rs.state);
                }
                paths.push(response.opset);
                return Drawable::new("ellipse", self.options, paths);
            }
        }
        paths.push(response.opset);
        Drawable::new("ellipse", self.options, paths)
    }

    /// A perturbed open path through the given points.
    pub fn linear_path(&self, points: Vec<Point>, rs: &mut RandomSource) -> (r: Drawable)
        requires
            self.wf(),
            points_within(points@, SHAPE_LIMIT as int),
        ensures
            r.shape@ == "linear_path"@,
            r.options == self.options_v(),
            r.wf(),
            r.sets@.len() == 1,
            r.sets@[0].ops_type == OpSetType::Path,
            points@.len() < 2 ==> r.sets@[0].ops@.len() == 0,
            points@.len() == 2 ==> double_line_ops_ok(
                r.sets@[0].ops@,
                points@[0].x as int,
                points@[0].y as int,
                points@[1].x as int,
                points@[1].y as int,
                self.options_v(),
            ),
            points@.len() > 2 ==> r.sets@[0].ops@.len() == (points@.len() - 1) * stroke_op_count(
                self.options_v(),
            ),
            points@.len() > 2 ==> (forall|s: int|
                0 <= s < points@.len() - 1 ==> #[trigger] path_chunk_ok(
                    r.sets@[0].ops@,
                    points@,
                    s,
                    self.options_v(),
                )),
            reaches_v(old(rs).state, final(rs).state),
    {
        let path: OpSet = linear_path(points, false, &self.options, rs);
        let mut sets: Vec<OpSet> = Vec::new();
        sets.push(path);
        Drawable::new("linear_path", self.options, sets)
    }

    /// A perturbed closed polygon through the given points, filled first
    /// when a fill is requested.
    pub fn polygon(&self, points: Vec<Point>, rs: &mut RandomSource) -> (r: Drawable)
        requires
            self.wf(),
            points_within(points@, SHAPE_LIMIT as int),
        ensures
            r.shape@ == "polygon"@,
            r.options == self.options_v(),
            r.wf(),
            r.sets@.len() == (if self.options_v().fill {
                2int
            } else {
                1int
            }),
            self.options_v().fill ==> r.sets@[0].ops_type == (
            if self.options_v().fill_style == FillStyle::Solid {
                OpSetType::FillPath
            } else {
                OpSetType::FillSketch
            }),
            r.sets@[r.sets@.len() - 1].ops_type == OpSetType::Path,
            points@.len() > 2 ==> r.sets@[r.sets@.len() - 1].ops@.len() == points@.len()
                * stroke_op_count(self.options_v()),
            points@.len() > 2 ==> (forall|s: int|
                0 <= s < points@.len() ==> #[trigger] path_chunk_ok(
                    r.sets@[r.sets@.len() - 1].ops@,
                    points@,
                    s,
                    self.options_v(),
                )),
            self.options_v().fill && self.options_v().fill_style == FillStyle::Solid
                && points@.len() > 2 ==> solid_vertex_ops_ok(
                r.sets@[0].ops@,
                points@,
                points@.len() as int,
                self.options_v(),
            ),
            self.options_v().fill && self.options_v().fill_style == FillStyle::Hachure
                ==> sketch_of_lines(
                r.sets@[0].ops@,
                hachure_lines_v(seq![points@], self.options_v()),
                self.options_v(),
            ),
            self.options_v().fill && self.options_v().fill_style == FillStyle::Zigzag
                ==> sketch_of_lines(
                r.sets@[0].ops@,
                zigzag_of_v(hachure_lines_v(seq![points@], self.options_v()), self.options_v()),
                self.options_v(),
            ),
            reaches_v(old(rs).state, final(rs).state),
    {
        let ghost s0: u64 = rs.state;
        let mut paths: Vec<OpSet> = Vec::new();
        proof {
            lemma_reaches_refl(s0);
        }
        if self.options.fill {
            let copy: Vec<Point> = points.clone();
            proof {
                assert(copy@ =~= points@);
            }
            let mut polys: Vec<Vec<Point>> = Vec::new();
            polys.push(copy);
            proof {
                assert(crate::filler::views_of(polys@) =~~= seq![points@]);
            }
            if matches!(self.options.fill_style, FillStyle::Solid) {
                paths.push(solid_fill_polygon(polys, &self.options, rs));
            } else {
                match pattern_fill_polygon(polys, &self.options, rs) {
                    Ok(s) => paths.push(s),
                    // a well-formed generator only selects implemented
                    // pattern styles, so the filler cannot refuse
                    Err(_) => {
                        proof {
                            assert(false);
                        }
                    },
                }
            }
        }
        let ghost b1: u64 = rs.state;
        let outline: OpSet = linear_path(points, true, &self.options, rs);
        paths.push(outline);
        proof {
            lemma_reaches_trans(s0, b1, rs.state);
        }
        Drawable::new("polygon", self.options, paths)
    }

    /// A perturbed elliptic arc. A solid fill of an arc is not supported
    /// and is reported as an error; a pattern fill of a closed arc sweeps
    /// the arc's sector. The outline closes roughly through the center
    /// when the arc is closed.
    pub fn arc(
        &self,
        x: i64,
        y: i64,
        width: i64,
        height: i64,
        start: i64,
        stop: i64,
        closed: bool,
        rs: &mut RandomSource,
    ) -> (r: Result<Drawable, FillError>)
        requires
            self.wf(),
            abs_v(x as int) <= SHAPE_LIMIT as int,
            abs_v(y as int) <= SHAPE_LIMIT as int,
            abs_v(width as int) <= SHAPE_LIMIT as int,
            abs_v(height as int) <= SHAPE_LIMIT as int,
            abs_v(start as int) <= 1_000_000_000,
            abs_v(stop as int) <= 1_000_000_000,
            arc_span_v(start as int, stop as int) >= 2,
            closed && self.options_v().fill && self.options_v().fill_style != FillStyle::Solid
                ==> arc_span_v(start as int, stop as int) >= self.options_v().curve_step_count,
        ensures
            (r is Err) <==> (closed && self.options_v().fill && self.options_v().fill_style
                == FillStyle::Solid),
            r is Err ==> r == Result::<Drawable, FillError>::Err(FillError::Unsupported),
            r is Ok ==> ({
                let d = r->Ok_0;
                &&& d.shape@ == "arc"@
                &&& d.options == self.options_v()
                &&& d.wf()
                &&& d.sets@.len() == (if closed && self.options_v().fill {
                    2int
                } else {
                    1int
                })
                &&& (closed && self.options_v().fill ==> d.sets@[0].ops_type
                    == OpSetType::FillSketch)
                &&& d.sets@[d.sets@.len() - 1].ops_type == OpSetType::Path
                &&& (!closed ==> ({
                    let outline = d.sets@[d.sets@.len() - 1];
                    let last = outline.ops@[outline.ops@.len() - 1];
                    &&& last.op == crate::model::OpType::BcurveTo
                    &&& crate::fixed::abs_v(last.data@[4] - x as int) <= crate::fixed::abs_v(
                        width as int,
                    )
                    &&& crate::fixed::abs_v(last.data@[5] - y as int) <= crate::fixed::abs_v(
                        height as int,
                    )
                    &&& (self.options_v().roughness == 0 ==> last.data@[4] == x as int
                        + crate::fixed::fx_mul_v(
                        crate::fixed::tdiv(crate::fixed::abs_v(width as int), 2),
                        crate::fixed::cos_fx_v(
                            crate::renderer::norm_stop_v(start as int, stop as int),
                        ),
                    ) && last.data@[5] == y as int + crate::fixed::fx_mul_v(
                        crate::fixed::tdiv(crate::fixed::abs_v(height as int), 2),
                        crate::fixed::sin_fx_v(
                            crate::renderer::norm_stop_v(start as int, stop as int),
                        ),
                    ))
                }))
                &&& (closed && self.options_v().fill && self.options_v().fill_style
                    == FillStyle::Hachure ==> (exists|lines: Seq<Line>|
                    #[trigger] sketch_of_lines(d.sets@[0].ops@, lines, self.options_v())
                        && is_hachure_line_set(lines, self.options_v())))
                &&& (closed && self.options_v().fill && self.options_v().fill_style
                    == FillStyle::Zigzag ==> (exists|zl: Seq<Line>|
                    #[trigger] sketch_of_lines(d.sets@[0].ops@, zl, self.options_v())
                        && is_zigzag_line_set(zl, self.options_v())))
            }),
            reaches_v(old(rs).state, final(rs).state),
    {
        let ghost s0: u64 = rs.state;
        if closed && self.options.fill && matches!(self.options.fill_style, FillStyle::Solid) {
            proof {
                lemma_reaches_refl(s0);
            }
            return Err(FillError::Unsupported);
        }
        let mut paths: Vec<OpSet> = Vec::new();
        proof {
            lemma_reaches_refl(s0);
        }
        if closed && self.options.fill {
            match pattern_fill_arc(x, y, width, height, start, stop, &self.options, rs) {
                Ok(s) => paths.push(s),
                // the solid style was already rejected above, and the
                // remaining well-formed styles always fill
                Err(_) => {
                    proof {
                        assert(false);
                    }
                },
            }
        }
        let ghost b1: u64 = rs.state;
        let outline: OpSet = arc(x, y, width, height, start, stop, closed, true, &self.options, rs);
        paths.push(outline);
        proof {
            lemma_reaches_trans(s0, b1, rs.state);
        }
        Ok(Drawable::new("arc", self.options, paths))
    }
}

} // verus!
