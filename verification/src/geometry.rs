//! Points, lines, and rotation about a center.
//!
//! Rotation is by a fixed-point angle in degrees, through the fixed-point
//! sine and cosine, and is deterministic: its result is pinned exactly by
//! [`rotate_point_v`].

use crate::fixed::{
    abs_v, cos_fx, cos_fx_v, deg_rad_v, deg_to_rad, fx_hypot, fx_mul, fx_mul_v, lemma_fx_scale,
    sin_fx, sin_fx_v,
};
use vstd::prelude::*;

verus! {

/// Coordinates this large are accepted by the rotation helpers.
pub const GEOM_LIMIT: i64 = 100_000_000_000_000;

/// Rotating a point within [`GEOM_LIMIT`] about a center within it lands
/// within this bound; rotation about the origin stays within the sum of
/// the coordinate magnitudes, which the exact ensures below pin down.
pub const ROTATED_LIMIT: i64 = 500_000_000_000_000;

/// A point in the plane, both coordinates fixed-point.
#[derive(Clone, Copy, Debug, PartialEq, Eq, Structural)]
pub struct Point {
    pub x: i64,
    pub y: i64,
}

/// A straight segment between two points.
#[derive(Clone, Copy, Debug, PartialEq, Eq, Structural)]
pub struct Line {
    pub start: Point,
    pub end: Point,
}

/// Both coordinates of a point are within `lim` in magnitude.
pub open spec fn point_within(p: Point, lim: int) -> bool {
    abs_v(p.x as int) <= lim && abs_v(p.y as int) <= lim
}

/// Every point of the sequence is within `lim`.
pub open spec fn points_within(s: Seq<Point>, lim: int) -> bool {
    forall|i: int| 0 <= i < s.len() ==> point_within(#[trigger] s[i], lim)
}

/// The rotation of `p` about `center` by `degrees`, counter-clockwise:
/// the displacement is turned through the fixed-point sine and cosine and
/// added back to the center.
pub open spec fn rotate_point_v(p: Point, center: Point, degrees: int) -> Point {
    let rad = deg_rad_v(degrees);
    let c = cos_fx_v(rad);
    let s = sin_fx_v(rad);
    let dx = p.x - center.x;
    let dy = p.y - center.y;
    Point {
        x: (center.x + fx_mul_v(dx, c) - fx_mul_v(dy, s)) as i64,
        y: (center.y + fx_mul_v(dx, s) + fx_mul_v(dy, c)) as i64,
    }
}

/// The rotation of a segment: both endpoints rotated.
pub open spec fn rotate_line_v(l: Line, center: Point, degrees: int) -> Line {
    Line {
        start: rotate_point_v(l.start, center, degrees),
        end: rotate_point_v(l.end, center, degrees),
    }
}

/// Rotates one point about a center; exact per [`rotate_point_v`].
#[verifier::rlimit(100)]
pub fn rotate_point(p: Point, center: Point, degrees: i64) -> (r: Point)
    requires
        point_within(p, GEOM_LIMIT as int),
        point_within(center, GEOM_LIMIT as int),
        abs_v(degrees as int) <= 1_000_000_000,
    ensures
        r == rotate_point_v(p, center, degrees as int),
        point_within(r, ROTATED_LIMIT as int),
        abs_v(r.x as int - center.x as int) <= abs_v(p.x as int - center.x as int) + abs_v(
            p.y as int - center.y as int,
        ),
        abs_v(r.y as int - center.y as int) <= abs_v(p.x as int - center.x as int) + abs_v(
            p.y as int - center.y as int,
        ),
{
    let rad: i64 = deg_to_rad(degrees);
    let c: i64 = cos_fx(rad);
    let s: i64 = sin_fx(rad);
    let dx: i64 = p.x - center.x;
    let dy: i64 = p.y - center.y;
    proof {
        lemma_fx_scale(dx as int, c as int, abs_v(dx as int));
        lemma_fx_scale(dy as int, s as int, abs_v(dy as int));
        lemma_fx_scale(dx as int, s as int, abs_v(dx as int));
        lemma_fx_scale(dy as int, c as int, abs_v(dy as int));
    }
    let xc: i64 = fx_mul(dx, c);
    let xs: i64 = fx_mul(dx, s);
    let yc: i64 = fx_mul(dy, c);
    let ys: i64 = fx_mul(dy, s);
    Point { x: center.x + xc - ys, y: center.y + xs + yc }
}

impl Line {
    /// Rotates the segment about a center; exact per [`rotate_line_v`].
    pub fn rotate(&self, center: Point, degrees: i64) -> (r: Line)
        requires
            point_within(self.start, GEOM_LIMIT as int),
            point_within(self.end, GEOM_LIMIT as int),
            point_within(center, GEOM_LIMIT as int),
            abs_v(degrees as int) <= 1_000_000_000,
        ensures
            r == rotate_line_v(*self, center, degrees as int),
            point_within(r.start, ROTATED_LIMIT as int),
            point_within(r.end, ROTATED_LIMIT as int),
            abs_v(r.start.x as int - center.x as int) <= abs_v(
                self.start.x as int - center.x as int,
            ) + abs_v(self.start.y as int - center.y as int),
            abs_v(r.start.y as int - center.y as int) <= abs_v(
                self.start.x as int - center.x as int,
            ) + abs_v(self.start.y as int - center.y as int),
            abs_v(r.end.x as int - center.x as int) <= abs_v(self.end.x as int - center.x as int)
                + abs_v(self.end.y as int - center.y as int),
            abs_v(r.end.y as int - center.y as int) <= abs_v(self.end.x as int - center.x as int)
                + abs_v(self.end.y as int - center.y as int),
    {
        Line {
            start: rotate_point(self.start, center, degrees),
            end: rotate_point(self.end, center, degrees),
        }
    }

    /// The fixed-point Euclidean length of the segment: the integer square
    /// root of the sum of squared coordinate differences.
    pub fn length(&self) -> (r: i64)
        requires
            point_within(self.start, 100_000_000_000_000),
            point_within(self.end, 100_000_000_000_000),
        ensures
            0 <= r <= 1_500_000_000_000_000,
            (r as int) * (r as int) <= (self.end.x - self.start.x) * (self.end.x - self.start.x)
                + (self.end.y - self.start.y) * (self.end.y - self.start.y),
            (self.end.x - self.start.x) * (self.end.x - self.start.x) + (self.end.y
                - self.start.y) * (self.end.y - self.start.y) < ((r as int) + 1) * ((
            r as int) + 1),
    {
        fx_hypot(self.end.x - self.start.x, self.end.y - self.start.y)
    }
}

/// Rotates every point of a polygon about a center; element-wise exact per
/// [`rotate_point_v`].
pub fn rotate_points(points: Vec<Point>, center: Point, degrees: i64) -> (r: Vec<Point>)
    requires
        points_within(points@, GEOM_LIMIT as int),
        point_within(center, GEOM_LIMIT as int),
        abs_v(degrees as int) <= 1_000_000_000,
    ensures
        r@.len() == points@.len(),
        forall|i: int|
            0 <= i < points@.len() ==> r@[i] == rotate_point_v(
                #[trigger] points@[i],
                center,
                degrees as int,
            ),
        points_within(r@, ROTATED_LIMIT as int),
        forall|i: int|
            0 <= i < r@.len() ==> abs_v((#[trigger] r@[i]).x as int - center.x as int) <= abs_v(
                points@[i].x as int - center.x as int,
            ) + abs_v(points@[i].y as int - center.y as int) && abs_v(
                r@[i].y as int - center.y as int,
            ) <= abs_v(points@[i].x as int - center.x as int) + abs_v(
                points@[i].y as int - center.y as int,
            ),
{
    let mut out: Vec<Point> = Vec::new();
    let mut i: usize = 0;
    while i < points.len()
        invariant
            0 <= i <= points@.len(),
            out@.len() == i,
            points_within(points@, GEOM_LIMIT as int),
            point_within(center, GEOM_LIMIT as int),
            abs_v(degrees as int) <= 1_000_000_000,
            forall|j: int|
                0 <= j < i ==> out@[j] == rotate_point_v(
                    #[trigger] points@[j],
                    center,
                    degrees as int,
                ),
            points_within(out@, ROTATED_LIMIT as int),
            forall|j: int|
                0 <= j < out@.len() ==> abs_v((#[trigger] out@[j]).x as int - center.x as int)
                    <= abs_v(points@[j].x as int - center.x as int) + abs_v(
                    points@[j].y as int - center.y as int,
                ) && abs_v(out@[j].y as int - center.y as int) <= abs_v(
                    points@[j].x as int - center.x as int,
                ) + abs_v(points@[j].y as int - center.y as int),
        decreases points@.len() - i,
    {
        let p: Point = points[i];
        out.push(rotate_point(p, center, degrees));
        i = i + 1;
    }
    out
}

/// Rotates every segment of a list about a center; element-wise exact per
/// [`rotate_line_v`].
pub fn rotate_lines(lines: Vec<Line>, center: Point, degrees: i64) -> (r: Vec<Line>)
    requires
        forall|i: int|
            0 <= i < lines@.len() ==> point_within((#[trigger] lines@[i]).start, GEOM_LIMIT as int)
                && point_within(lines@[i].end, GEOM_LIMIT as int),
        point_within(center, GEOM_LIMIT as int),
        abs_v(degrees as int) <= 1_000_000_000,
    ensures
        r@.len() == lines@.len(),
        forall|i: int|
            0 <= i < lines@.len() ==> r@[i] == rotate_line_v(
                #[trigger] lines@[i],
                center,
                degrees as int,
            ),
        forall|i: int|
            0 <= i < r@.len() ==> point_within((#[trigger] r@[i]).start, ROTATED_LIMIT as int)
                && point_within(r@[i].end, ROTATED_LIMIT as int),
        forall|i: int|
            0 <= i < r@.len() ==> abs_v((#[trigger] r@[i]).start.x as int - center.x as int)
                <= abs_v(lines@[i].start.x as int - center.x as int) + abs_v(
                lines@[i].start.y as int - center.y as int,
            ) && abs_v(r@[i].start.y as int - center.y as int) <= abs_v(
                lines@[i].start.x as int - center.x as int,
            ) + abs_v(lines@[i].start.y as int - center.y as int) && abs_v(
                r@[i].end.x as int - center.x as int,
            ) <= abs_v(lines@[i].end.x as int - center.x as int) + abs_v(
                lines@[i].end.y as int - center.y as int,
            ) && abs_v(r@[i].end.y as int - center.y as int) <= abs_v(
                lines@[i].end.x as int - center.x as int,
            ) + abs_v(lines@[i].end.y as int - center.y as int),
{
    let mut out: Vec<Line> = Vec::new();
    let mut i: usize = 0;
    while i < lines.len()
        invariant
            0 <= i <= lines@.len(),
            out@.len() == i,
            forall|j: int|
                0 <= j < lines@.len() ==> point_within(
                    (#[trigger] lines@[j]).start,
                    GEOM_LIMIT as int,
                ) && point_within(lines@[j].end, GEOM_LIMIT as int),
            point_within(center, GEOM_LIMIT as int),
            abs_v(degrees as int) <= 1_000_000_000,
            forall|j: int|
                0 <= j < i ==> out@[j] == rotate_line_v(
                    #[trigger] lines@[j],
                    center,
                    degrees as int,
                ),
            forall|j: int|
                0 <= j < i ==> point_within((#[trigger] out@[j]).start, ROTATED_LIMIT as int)
                    && point_within(out@[j].end, ROTATED_LIMIT as int),
            forall|j: int|
                0 <= j < out@.len() ==> abs_v((#[trigger] out@[j]).start.x as int
                    - center.x as int) <= abs_v(lines@[j].start.x as int - center.x as int)
                    + abs_v(lines@[j].start.y as int - center.y as int) && abs_v(
                    out@[j].start.y as int - center.y as int,
                ) <= abs_v(lines@[j].start.x as int - center.x as int) + abs_v(
                    lines@[j].start.y as int - center.y as int,
                ) && abs_v(out@[j].end.x as int - center.x as int) <= abs_v(
                    lines@[j].end.x as int - center.x as int,
                ) + abs_v(lines@[j].end.y as int - center.y as int) && abs_v(
                    out@[j].end.y as int - center.y as int,
                ) <= abs_v(lines@[j].end.x as int - center.x as int) + abs_v(
                    lines@[j].end.y as int - center.y as int,
                ),
        decreases lines@.len() - i,
    {
        let l: Line = lines[i];
        out.push(l.rotate(center, degrees));
        i = i + 1;
    }
    out
}

} // verus!
