use roughgen::fixed::{PI_FX, TWO_PI_FX};
use roughgen::geometry::Point;
use roughgen::model::{OpSetType, OpType, Options};
use roughgen::renderer::{
    _curve, _double_line, arc, linear_path, normalize_arc_angles, solid_fill_polygon,
};
use roughgen::rng::RandomSource;

fn opts() -> Options {
    Options::default()
}

#[test]
fn zero_roughness_line_is_exact_at_its_endpoints() {
    // a 100-unit horizontal line with roughness zero: move to (0,0), cubic
    // curve ending exactly at (100,0), doubled because multi-stroke is on
    let mut o = opts();
    o.roughness = 0;
    let mut rs = RandomSource::new(7);
    let set = roughgen::renderer::line(0, 0, 100_000_000, 0, &o, &mut rs);
    assert!(matches!(set.ops_type, OpSetType::Path));
    assert_eq!(set.ops.len(), 4);
    assert!(matches!(set.ops[0].op, OpType::Move));
    assert_eq!(set.ops[0].data, vec![0, 0]);
    assert!(matches!(set.ops[1].op, OpType::BcurveTo));
    assert_eq!(set.ops[1].data[4], 100_000_000);
    assert_eq!(set.ops[1].data[5], 0);
    assert!(matches!(set.ops[2].op, OpType::Move));
    assert_eq!(set.ops[2].data, vec![0, 0]);
    assert_eq!(set.ops[3].data[4], 100_000_000);
    assert_eq!(set.ops[3].data[5], 0);
    // the curve's control points stay on the segment: y is exactly zero
    assert_eq!(set.ops[1].data[1], 0);
    assert_eq!(set.ops[1].data[3], 0);
}

#[test]
fn multi_stroke_doubles_the_passes() {
    let o = opts();
    let mut rs = RandomSource::new(1);
    let ops = _double_line(0, 0, 10_000_000, 10_000_000, &o, &mut rs);
    assert_eq!(ops.len(), 4);
    let mut o2 = opts();
    o2.disable_multi_stroke = true;
    let ops2 = _double_line(0, 0, 10_000_000, 10_000_000, &o2, &mut rs);
    assert_eq!(ops2.len(), 2);
    assert!(matches!(ops2[0].op, OpType::Move));
    assert!(matches!(ops2[1].op, OpType::BcurveTo));
}

#[test]
fn preserved_vertices_are_never_jittered() {
    let mut o = opts();
    o.preserve_vertices = true;
    let mut rs = RandomSource::new(99);
    let ops = _double_line(1_000_000, 2_000_000, 3_000_000, 4_000_000, &o, &mut rs);
    assert_eq!(ops[0].data, vec![1_000_000, 2_000_000]);
    assert_eq!(ops[1].data[4], 3_000_000);
    assert_eq!(ops[1].data[5], 4_000_000);
}

#[test]
fn curve_fit_on_tiny_inputs_degenerates_per_policy() {
    let o = opts();
    let mut rs = RandomSource::new(3);
    assert_eq!(_curve(vec![], None, &o, &mut rs).len(), 0);
    assert_eq!(_curve(vec![Point { x: 5, y: 5 }], None, &o, &mut rs).len(), 0);
    // two points: one perturbed double line (a move and a curve per pass)
    let two = _curve(
        vec![Point { x: 0, y: 0 }, Point { x: 10_000_000, y: 0 }],
        None,
        &o,
        &mut rs,
    );
    assert_eq!(two.len(), 4);
    assert!(matches!(two[0].op, OpType::Move));
    assert!(matches!(two[1].op, OpType::BcurveTo));
}

#[test]
fn curve_fit_on_three_points_is_one_exact_cubic() {
    let o = opts();
    let mut rs = RandomSource::new(3);
    let p = vec![
        Point { x: 0, y: 0 },
        Point { x: 5_000_000, y: 1_000_000 },
        Point { x: 10_000_000, y: 0 },
    ];
    let ops = _curve(p, None, &o, &mut rs);
    assert_eq!(ops.len(), 2);
    assert!(matches!(ops[0].op, OpType::Move));
    assert_eq!(ops[0].data, vec![5_000_000, 1_000_000]);
    assert!(matches!(ops[1].op, OpType::BcurveTo));
    assert_eq!(
        ops[1].data,
        vec![5_000_000, 1_000_000, 10_000_000, 0, 10_000_000, 0]
    );
}

#[test]
fn curve_fit_on_four_points_ends_exactly_at_the_third() {
    let o = opts();
    let mut rs = RandomSource::new(3);
    let p = vec![
        Point { x: 0, y: 0 },
        Point { x: 3_000_000, y: 4_000_000 },
        Point { x: 6_000_000, y: 4_000_000 },
        Point { x: 9_000_000, y: 0 },
    ];
    let ops = _curve(p, None, &o, &mut rs);
    assert_eq!(ops.len(), 2);
    assert!(matches!(ops[0].op, OpType::Move));
    assert_eq!(ops[0].data, vec![3_000_000, 4_000_000]);
    assert!(matches!(ops[1].op, OpType::BcurveTo));
    assert_eq!(ops[1].data[4], 6_000_000);
    assert_eq!(ops[1].data[5], 4_000_000);
}

#[test]
fn linear_path_emits_one_double_line_per_segment() {
    let o = opts();
    let mut rs = RandomSource::new(11);
    let pts = vec![
        Point { x: 0, y: 0 },
        Point { x: 10_000_000, y: 0 },
        Point { x: 10_000_000, y: 10_000_000 },
    ];
    let open = linear_path(pts.clone(), false, &o, &mut rs);
    assert_eq!(open.ops.len(), 8);
    let closed = linear_path(pts, true, &o, &mut rs);
    assert_eq!(closed.ops.len(), 12);
    let two = linear_path(
        vec![Point { x: 0, y: 0 }, Point { x: 1_000_000, y: 0 }],
        false,
        &o,
        &mut rs,
    );
    assert_eq!(two.ops.len(), 4);
    let one = linear_path(vec![Point { x: 0, y: 0 }], false, &o, &mut rs);
    assert_eq!(one.ops.len(), 0);
}

#[test]
fn solid_fill_traces_every_vertex_once() {
    let mut o = opts();
    o.roughness = 0;
    let mut rs = RandomSource::new(2);
    let poly = vec![
        Point { x: 0, y: 0 },
        Point { x: 10_000_000, y: 0 },
        Point { x: 10_000_000, y: 10_000_000 },
        Point { x: 0, y: 10_000_000 },
    ];
    let set = solid_fill_polygon(vec![poly], &o, &mut rs);
    assert!(matches!(set.ops_type, OpSetType::FillPath));
    assert_eq!(set.ops.len(), 4);
    assert!(matches!(set.ops[0].op, OpType::Move));
    // zero roughness leaves the vertices exact
    assert_eq!(set.ops[0].data, vec![0, 0]);
    assert_eq!(set.ops[1].data, vec![10_000_000, 0]);
    assert_eq!(set.ops[3].data, vec![0, 10_000_000]);
}

#[test]
fn arc_angles_normalize_per_the_full_turn_clamp() {
    // a span beyond one full turn collapses to exactly one turn from zero
    assert_eq!(
        normalize_arc_angles(0, TWO_PI_FX + 500_000),
        (0, TWO_PI_FX)
    );
    // a negative start wraps forward by whole turns, keeping the span
    assert_eq!(
        normalize_arc_angles(-1_000_000, 500_000),
        (-1_000_000 + TWO_PI_FX, 500_000 + TWO_PI_FX)
    );
    // an in-range request is untouched
    assert_eq!(normalize_arc_angles(100, PI_FX), (100, PI_FX));
}

#[test]
fn arc_outline_is_a_path_with_curves() {
    let o = opts();
    let mut rs = RandomSource::new(5);
    let set = arc(
        0,
        0,
        100_000_000,
        100_000_000,
        0,
        PI_FX,
        false,
        false,
        &o,
        &mut rs,
    );
    assert!(matches!(set.ops_type, OpSetType::Path));
    assert!(set.ops.len() >= 2);
    for op in set.ops.iter() {
        let want = match op.op {
            OpType::Move | OpType::LineTo => 2,
            OpType::BcurveTo => 6,
        };
        assert_eq!(op.data.len(), want);
    }
}

#[test]
fn zero_roughness_arc_ends_exactly_on_the_ellipse() {
    // with zero roughness the radii are exact halves, and the outline's
    // final curve ends exactly at the parametric point of the stop angle
    let mut o = opts();
    o.roughness = 0;
    let mut rs = RandomSource::new(13);
    let set = arc(
        0,
        0,
        100_000_000,
        100_000_000,
        0,
        PI_FX,
        false,
        false,
        &o,
        &mut rs,
    );
    let last = set.ops.last().unwrap();
    assert!(matches!(last.op, OpType::BcurveTo));
    let expected_x = roughgen::fixed::fx_mul(50_000_000, roughgen::fixed::cos_fx(PI_FX));
    let expected_y = roughgen::fixed::fx_mul(50_000_000, roughgen::fixed::sin_fx(PI_FX));
    assert_eq!(last.data[4], expected_x);
    assert_eq!(last.data[5], expected_y);
    assert_eq!(expected_y, 0);
}
