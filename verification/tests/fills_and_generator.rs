use roughgen::filler::{get_filler, straight_hachure_lines, Filler};
use roughgen::generator::RoughGenerator;
use roughgen::geometry::Point;
use roughgen::model::{FillError, FillStyle, OpSetType, Options};
use roughgen::renderer::{pattern_fill_polygon, rectangle};
use roughgen::rng::RandomSource;

fn rect_ring(l: i64, b: i64, r: i64, t: i64) -> Vec<Point> {
    vec![
        Point { x: l, y: b },
        Point { x: r, y: b },
        Point { x: r, y: t },
        Point { x: l, y: t },
    ]
}

#[test]
fn hachure_lines_of_a_rectangle_are_evenly_spaced_spans() {
    // height 100, gap 10: exactly ten lines, each from the left side to
    // the right side, at heights 0, 10, ..., 90
    let lines = straight_hachure_lines(
        vec![rect_ring(0, 0, 100_000_000, 100_000_000)],
        10_000_000,
    );
    assert_eq!(lines.len(), 10);
    for (k, l) in lines.iter().enumerate() {
        let y = 10_000_000 * k as i64;
        assert_eq!(l.start.x, 0);
        assert_eq!(l.start.y, y);
        assert_eq!(l.end.x, 100_000_000);
        assert_eq!(l.end.y, y);
        assert!(y < 100_000_000);
    }
}

#[test]
fn hachure_line_count_rounds_the_height_up() {
    // height 100, gap 30: ceil(100/30) = 4 lines at 0, 30, 60, 90
    let lines = straight_hachure_lines(
        vec![rect_ring(5_000_000, 0, 95_000_000, 100_000_000)],
        30_000_000,
    );
    assert_eq!(lines.len(), 4);
    assert_eq!(lines[3].start.y, 90_000_000);
    assert_eq!(lines[3].start.x, 5_000_000);
    assert_eq!(lines[3].end.x, 95_000_000);
}

#[test]
fn pattern_fill_of_a_square_yields_about_ten_hachure_lines() {
    // the end-to-end pipeline rotates by the hachure angle plus a quarter
    // turn and back, so the count can shift by one around height/gap
    let mut o = Options::default();
    o.fill_style = FillStyle::Hachure;
    o.hachure_angle = 0;
    o.hachure_gap = 10_000_000;
    let mut rs = RandomSource::new(4);
    let set = pattern_fill_polygon(
        vec![rect_ring(0, 0, 100_000_000, 100_000_000)],
        &o,
        &mut rs,
    )
    .unwrap();
    assert!(matches!(set.ops_type, OpSetType::FillSketch));
    assert_eq!(set.ops.len() % 4, 0);
    let line_count = set.ops.len() / 4;
    assert!(
        (9..=11).contains(&line_count),
        "expected about ten fill lines, got {line_count}"
    );
}

#[test]
fn zigzag_fill_doubles_the_hachure_lines() {
    let mut o = Options::default();
    o.fill_style = FillStyle::Hachure;
    o.hachure_angle = 0;
    o.hachure_gap = 10_000_000;
    let mut rs = RandomSource::new(4);
    let hach = pattern_fill_polygon(
        vec![rect_ring(0, 0, 100_000_000, 100_000_000)],
        &o,
        &mut rs,
    )
    .unwrap();
    o.fill_style = FillStyle::Zigzag;
    let zig = pattern_fill_polygon(
        vec![rect_ring(0, 0, 100_000_000, 100_000_000)],
        &o,
        &mut rs,
    )
    .unwrap();
    assert!(matches!(zig.ops_type, OpSetType::FillSketch));
    assert_eq!(zig.ops.len(), 2 * hach.ops.len());
}

#[test]
fn unimplemented_and_unsupported_fillers_say_so() {
    let mut o = Options::default();
    let mut rs = RandomSource::new(1);
    let polys = vec![rect_ring(0, 0, 10_000_000, 10_000_000)];
    o.fill_style = FillStyle::Dashed;
    assert_eq!(
        pattern_fill_polygon(polys.clone(), &o, &mut rs).unwrap_err(),
        FillError::NotImplemented
    );
    o.fill_style = FillStyle::CrossHatch;
    assert_eq!(
        pattern_fill_polygon(polys.clone(), &o, &mut rs).unwrap_err(),
        FillError::NotImplemented
    );
    o.fill_style = FillStyle::Solid;
    assert_eq!(
        pattern_fill_polygon(polys, &o, &mut rs).unwrap_err(),
        FillError::Unsupported
    );
    o.fill_style = FillStyle::Hachure;
    assert!(matches!(get_filler(&o), Ok(Filler::Hachure(_))));
    o.fill_style = FillStyle::Dashed;
    assert!(matches!(get_filler(&o), Ok(Filler::Dashed(_))));
}

#[test]
fn solid_filled_rectangle_paints_fill_before_outline() {
    // fill on, solid style: exactly two operation sets, fill path first,
    // outline path second, never the reverse
    let mut rg = RoughGenerator::new();
    rg.fill();
    let mut rs = RandomSource::new(8);
    let d = rg.rectangle(0, 0, 100_000_000, 100_000_000, &mut rs);
    assert_eq!(d.shape, "rectangle");
    assert_eq!(d.sets.len(), 2);
    assert!(matches!(d.sets[0].ops_type, OpSetType::FillPath));
    assert!(matches!(d.sets[1].ops_type, OpSetType::Path));
    assert_eq!(d.sets[1].ops.len(), 16);
}

#[test]
fn hachure_filled_rectangle_sketches_fill_before_outline() {
    let mut rg = RoughGenerator::new();
    rg.fill();
    rg.fill_style(FillStyle::Hachure);
    let mut rs = RandomSource::new(8);
    let d = rg.rectangle(0, 0, 100_000_000, 100_000_000, &mut rs);
    assert_eq!(d.sets.len(), 2);
    assert!(matches!(d.sets[0].ops_type, OpSetType::FillSketch));
    assert!(matches!(d.sets[1].ops_type, OpSetType::Path));
}

#[test]
fn unfilled_rectangle_is_outline_alone() {
    let rg = RoughGenerator::new();
    let mut rs = RandomSource::new(8);
    let d = rg.rectangle(0, 0, 50_000_000, 20_000_000, &mut rs);
    assert_eq!(d.sets.len(), 1);
    assert!(matches!(d.sets[0].ops_type, OpSetType::Path));
}

#[test]
fn generator_line_carries_its_options() {
    let mut rg = RoughGenerator::new();
    rg.stroke_width(5_000_000);
    let mut rs = RandomSource::new(8);
    let d = rg.line(0, 0, 10_000_000, 0, &mut rs);
    assert_eq!(d.shape, "line");
    assert_eq!(d.options.stroke_width, 5_000_000);
    assert_eq!(d.sets.len(), 1);
    assert_eq!(d.sets[0].ops.len(), 4);
}

#[test]
fn generator_polygon_and_path_counts() {
    let rg = RoughGenerator::new();
    let mut rs = RandomSource::new(8);
    let tri = vec![
        Point { x: 0, y: 0 },
        Point { x: 10_000_000, y: 0 },
        Point { x: 5_000_000, y: 9_000_000 },
    ];
    let p = rg.polygon(tri.clone(), &mut rs);
    assert_eq!(p.shape, "polygon");
    assert_eq!(p.sets.len(), 1);
    assert_eq!(p.sets[0].ops.len(), 12);
    let lp = rg.linear_path(tri, &mut rs);
    assert_eq!(lp.shape, "linear_path");
    assert_eq!(lp.sets[0].ops.len(), 8);
}

#[test]
fn generator_ellipse_tags_follow_the_fill_style() {
    let mut rs = RandomSource::new(8);
    // the outline pass itself is tagged by the fill style: the default
    // (solid) style marks it a fill path even when no fill was requested
    let plain = RoughGenerator::new().ellipse(0, 0, 100_000_000, 60_000_000, &mut rs);
    assert_eq!(plain.sets.len(), 1);
    assert!(matches!(plain.sets[0].ops_type, OpSetType::FillPath));
    let mut rg0 = RoughGenerator::new();
    rg0.fill_style(FillStyle::Hachure);
    let outlined = rg0.ellipse(0, 0, 100_000_000, 60_000_000, &mut rs);
    assert_eq!(outlined.sets.len(), 1);
    assert!(matches!(outlined.sets[0].ops_type, OpSetType::Path));
    let mut rg = RoughGenerator::new();
    rg.fill();
    let solid = rg.ellipse(0, 0, 100_000_000, 60_000_000, &mut rs);
    assert_eq!(solid.sets.len(), 2);
    assert!(matches!(solid.sets[0].ops_type, OpSetType::FillPath));
    assert!(matches!(solid.sets[1].ops_type, OpSetType::FillPath));
    let mut rg2 = RoughGenerator::new();
    rg2.fill();
    rg2.fill_style(FillStyle::Zigzag);
    let zig = rg2.ellipse(0, 0, 100_000_000, 60_000_000, &mut rs);
    assert_eq!(zig.sets.len(), 2);
    assert!(matches!(zig.sets[0].ops_type, OpSetType::FillSketch));
    assert!(matches!(zig.sets[1].ops_type, OpSetType::Path));
}

#[test]
fn solid_filled_arc_is_rejected_loudly() {
    let mut rg = RoughGenerator::new();
    rg.fill();
    let mut rs = RandomSource::new(8);
    let r = rg.arc(
        0,
        0,
        100_000_000,
        100_000_000,
        0,
        3_141_593,
        true,
        &mut rs,
    );
    assert_eq!(r.unwrap_err(), FillError::Unsupported);
}

#[test]
fn hachure_filled_arc_sweeps_its_sector() {
    let mut rg = RoughGenerator::new();
    rg.fill();
    rg.fill_style(FillStyle::Hachure);
    let mut rs = RandomSource::new(8);
    let d = rg
        .arc(
            0,
            0,
            100_000_000,
            100_000_000,
            0,
            3_141_593,
            true,
            &mut rs,
        )
        .unwrap();
    assert_eq!(d.shape, "arc");
    assert_eq!(d.sets.len(), 2);
    assert!(matches!(d.sets[0].ops_type, OpSetType::FillSketch));
    assert!(matches!(d.sets[1].ops_type, OpSetType::Path));
}

#[test]
fn same_seed_replays_the_same_drawing() {
    let rg = RoughGenerator::new();
    let mut rs1 = RandomSource::new(2024);
    let mut rs2 = RandomSource::new(2024);
    let a = rg.line(0, 0, 50_000_000, 50_000_000, &mut rs1);
    let b = rg.line(0, 0, 50_000_000, 50_000_000, &mut rs2);
    assert_eq!(a.sets[0].ops.len(), b.sets[0].ops.len());
    for (x, y) in a.sets[0].ops.iter().zip(b.sets[0].ops.iter()) {
        assert_eq!(x.data, y.data);
    }
    let outline = rectangle(1, 2, 30_000_000, 40_000_000, &Options::default(), &mut rs1);
    assert_eq!(outline.ops.len(), 16);
}
