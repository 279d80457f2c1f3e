//! The configuration and drawing-instruction model.
//!
//! [`Options`] is an immutable-per-call configuration aggregate, copied by
//! value into every generated shape. [`Op`] is one drawing instruction,
//! [`OpSet`] a tagged replay-ordered group of them, and [`Drawable`] the
//! result of generating one shape: a shape-kind label, the options used,
//! and an ordered list of operation sets, fill before outline.

use vstd::prelude::*;

verus! {

/// The kind of one drawing instruction.
#[derive(Clone, Copy, Debug, PartialEq, Eq, Structural)]
pub enum OpType {
    Move,
    BcurveTo,
    LineTo,
}

/// The replay semantics of an operation set: outline stroke, fill painted
/// as a filled path, or fill rendered with stroke semantics.
#[derive(Clone, Copy, Debug, PartialEq, Eq, Structural)]
pub enum OpSetType {
    Path,
    FillPath,
    FillSketch,
}

/// The fill pattern a shape's interior asks for. Only `Solid`, `Hachure`
/// and `Zigzag` are implemented; the other values are valid configuration
/// but generation reports them as unsupported or not implemented.
#[derive(Clone, Copy, Debug, PartialEq, Eq, Structural)]
pub enum FillStyle {
    Solid,
    Zigzag,
    CrossHatch,
    Dots,
    Dashed,
    ZigzagLine,
    Hachure,
}

/// Why a fill request could not be served.
#[derive(Clone, Copy, Debug, PartialEq, Eq, Structural)]
pub enum FillError {
    /// The combination is outside the pattern filler's contract, such as a
    /// solid fill routed through the pattern filler, or a solid-filled arc.
    Unsupported,
    /// The style is a valid configuration value whose filler does not exist
    /// yet (dashed, cross-hatch, dots, zigzag-line).
    NotImplemented,
}

/// A presentation-only color, passed through the geometry engine unread.
#[derive(Clone, Copy, Debug, PartialEq, Eq, Structural)]
pub struct Color {
    pub r: u8,
    pub g: u8,
    pub b: u8,
    pub a: u8,
}

/// The configuration aggregate. All fixed-point fields carry six decimal
/// places; angles for hachure are degrees, angles for arcs radians.
#[derive(Clone, Copy, Debug, PartialEq, Eq, Structural)]
pub struct Options {
    /// Global multiplier on all positional randomization; zero disables it.
    pub roughness: i64,
    /// Scales the midpoint displacement bending straight lines.
    pub bowing: i64,
    /// When set, each segment is drawn once instead of twice.
    pub disable_multi_stroke: bool,
    /// Absolute cap on per-point jitter, in geometry units.
    pub max_randomness_offset: i64,
    /// When set, segment endpoints are never jittered.
    pub preserve_vertices: bool,
    /// Whether a shape emits a fill operation set besides its outline.
    pub fill: bool,
    /// Which fill pattern to use when `fill` is set.
    pub fill_style: FillStyle,
    /// Fill-line orientation, in fixed-point degrees.
    pub hachure_angle: i64,
    /// Fill-line spacing; negative means derive from `stroke_width * 4`.
    pub hachure_gap: i64,
    /// Outline stroke width, presentation-only except as hachure fallback.
    pub stroke_width: i64,
    /// Stroke width of fill sketch lines, presentation-only.
    pub fill_weight: i64,
    /// Minimum number of curve samples per full turn.
    pub curve_step_count: usize,
    /// How closely an ellipse pass fits the ideal radius; one is exact.
    pub curve_fitting: i64,
    /// Tightness of the cubic fit through sampled points; zero is loose.
    pub curve_tightness: i64,
    /// Outline color, passed through unmodified.
    pub color: Color,
    /// Fill color, passed through unmodified.
    pub fill_color: Color,
    /// Dash placement for the (unimplemented) dashed filler.
    pub dash_offset: i64,
    /// Dash spacing for the (unimplemented) dashed filler.
    pub dash_gap: i64,
}

/// The number of payload values an instruction kind carries.
pub open spec fn arity_of(k: OpType) -> int {
    match k {
        OpType::Move => 2,
        OpType::BcurveTo => 6,
        OpType::LineTo => 2,
    }
}

impl Options {
    /// The ranges within which every fixed-point knob must stay so that all
    /// geometry arithmetic fits the machine.
    pub open spec fn valid(self) -> bool {
        &&& 0 <= self.roughness <= 10_000_000
        &&& 0 <= self.bowing <= 100_000_000
        &&& 0 <= self.max_randomness_offset <= 1_000_000_000
        &&& -360_000_000 <= self.hachure_angle <= 360_000_000
        &&& -1_000_000_000 <= self.hachure_gap <= 1_000_000_000
        &&& 0 <= self.stroke_width <= 1_000_000_000
        &&& 0 <= self.fill_weight <= 1_000_000_000
        &&& 1 <= self.curve_step_count <= 1000
        &&& 0 <= self.curve_fitting <= 1_000_000
        &&& 0 <= self.curve_tightness <= 1_000_000
        &&& -1_000_000_000 <= self.dash_offset <= 1_000_000_000
        &&& -1_000_000_000 <= self.dash_gap <= 1_000_000_000
    }

    /// The default configuration, as a specification value.
    pub open spec fn default_v() -> Options {
        Options {
            roughness: 1_000_000,
            bowing: 1_500_000,
            disable_multi_stroke: false,
            max_randomness_offset: 3_000_000,
            preserve_vertices: false,
            fill: false,
            fill_style: FillStyle::Solid,
            hachure_angle: 45_000_000,
            hachure_gap: 10_000_000,
            stroke_width: 2_000_000,
            fill_weight: 3_000_000,
            curve_step_count: 9,
            curve_fitting: 950_000,
            curve_tightness: 0,
            color: Color { r: 0, g: 0, b: 0, a: 255 },
            fill_color: Color { r: 0, g: 0, b: 0, a: 255 },
            dash_offset: -1_000_000i64,
            dash_gap: -1_000_000i64,
        }
    }

    /// The default configuration.
    pub fn new() -> (r: Options)
        ensures
            r == Options::default_v(),
            r.valid(),
    {
        Options::default()
    }

    /// The default configuration: unit roughness, double stroke, no fill.
    pub fn default() -> (r: Options)
        ensures
            r == Options::default_v(),
            r.valid(),
    {
        Options {
            roughness: 1_000_000,
            bowing: 1_500_000,
            disable_multi_stroke: false,
            max_randomness_offset: 3_000_000,
            preserve_vertices: false,
            fill: false,
            fill_style: FillStyle::Solid,
            hachure_angle: 45_000_000,
            hachure_gap: 10_000_000,
            stroke_width: 2_000_000,
            fill_weight: 3_000_000,
            curve_step_count: 9,
            curve_fitting: 950_000,
            curve_tightness: 0,
            color: Color { r: 0, g: 0, b: 0, a: 255 },
            fill_color: Color { r: 0, g: 0, b: 0, a: 255 },
            dash_offset: -1_000_000,
            dash_gap: -1_000_000,
        }
    }
}

/// One drawing instruction: a kind and its flat fixed-point payload.
#[derive(Clone, Debug)]
pub struct Op {
    pub op: OpType,
    pub data: Vec<i64>,
}

impl Op {
    /// The payload length matches the kind's arity.
    pub open spec fn wf(self) -> bool {
        self.data@.len() == arity_of(self.op)
    }
}

/// A tagged, replay-ordered group of drawing instructions.
#[derive(Clone, Debug)]
pub struct OpSet {
    pub ops_type: OpSetType,
    pub ops: Vec<Op>,
}

impl OpSet {
    /// Every instruction carries the payload its kind requires.
    pub open spec fn wf(self) -> bool {
        forall|i: int| 0 <= i < self.ops@.len() ==> (#[trigger] self.ops@[i]).wf()
    }
}

/// A generated shape: its kind label, the options that produced it, and its
/// operation sets in paint order (fill, when present, before outline).
#[derive(Clone, Debug)]
pub struct Drawable {
    pub shape: String,
    pub options: Options,
    pub sets: Vec<OpSet>,
}

impl Drawable {
    /// Every operation set is well-formed.
    pub open spec fn wf(self) -> bool {
        forall|i: int| 0 <= i < self.sets@.len() ==> (#[trigger] self.sets@[i]).wf()
    }

    /// Bundles a generated shape.
    pub fn new(shape: &str, options: Options, sets: Vec<OpSet>) -> (r: Drawable)
        ensures
            r.shape@ == shape@,
            r.options == options,
            r.sets == sets,
    {
        Drawable { shape: shape.to_owned(), options, sets }
    }
}

} // verus!
