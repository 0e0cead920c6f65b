//! Discrete path segments (lines, quadratic and cubic Bézier pieces) and the
//! per-point role flags a contour stores beside each point.

use vstd::prelude::*;
use crate::geom::{PointI, zero_point};

verus! {

/// The role of one stored point. `bits` uses the two low bits: 0 marks a
/// point the curve passes through (an endpoint), 1 the sole or first control
/// point of a curve, 2 the second control point of a cubic.
#[derive(Clone, Copy, Debug, PartialEq, Eq, Structural)]
pub struct PointFlags {
    pub bits: u8,
}

/// The flag value of an endpoint.
pub open spec fn flag_endpoint() -> PointFlags {
    PointFlags { bits: 0 }
}

/// The flag value of a quadratic's control point or a cubic's first one.
pub open spec fn flag_control_0() -> PointFlags {
    PointFlags { bits: 1 }
}

/// The flag value of a cubic's second control point.
pub open spec fn flag_control_1() -> PointFlags {
    PointFlags { bits: 2 }
}

impl PointFlags {
    /// Whether this flag marks an endpoint.
    pub open spec fn is_endpoint_spec(self) -> bool {
        self.bits == 0
    }

    /// One of the three meaningful role values.
    pub open spec fn valid(self) -> bool {
        self.bits == 0 || self.bits == 1 || self.bits == 2
    }

    /// No role flag set: an endpoint.
    pub fn empty() -> (r: PointFlags)
        ensures
            r == flag_endpoint(),
    {
        PointFlags { bits: 0 }
    }

    /// The first-control-point marker.
    pub fn control_point_0() -> (r: PointFlags)
        ensures
            r == flag_control_0(),
    {
        PointFlags { bits: 1 }
    }

    /// The second-control-point marker.
    pub fn control_point_1() -> (r: PointFlags)
        ensures
            r == flag_control_1(),
    {
        PointFlags { bits: 2 }
    }
}

/// The shape of a segment.
#[derive(Clone, Copy, Debug, PartialEq, Eq, Structural)]
pub enum SegmentKind {
    /// A degenerate or absent segment.
    Empty,
    /// A straight chord.
    Line,
    /// A chord plus one control point.
    Quadratic,
    /// A chord plus two control points.
    Cubic,
}

/// A directed straight chord between two points.
#[derive(Clone, Copy, Debug, PartialEq, Eq, Structural)]
pub struct LineSegmentI {
    pub from: PointI,
    pub to: PointI,
}

/// The all-zero chord.
pub open spec fn zero_line() -> LineSegmentI {
    LineSegmentI { from: zero_point(), to: zero_point() }
}

/// One piece of curve between two endpoints. `baseline` is the chord between
/// the segment's endpoints; `ctrl` carries the control points of quadratic
/// (its `from` only) and cubic segments. The two subpath flags matter only
/// while a segment stream is turned into contours; they are never stored in
/// a contour.
#[derive(Clone, Copy, Debug, PartialEq, Eq, Structural)]
pub struct Segment {
    pub kind: SegmentKind,
    pub baseline: LineSegmentI,
    pub ctrl: LineSegmentI,
    pub first_in_subpath: bool,
    pub closes_subpath: bool,
}

/// A line segment value with no subpath flags set.
pub open spec fn line_seg(from: PointI, to: PointI) -> Segment {
    Segment {
        kind: SegmentKind::Line,
        baseline: LineSegmentI { from, to },
        ctrl: zero_line(),
        first_in_subpath: false,
        closes_subpath: false,
    }
}

/// A quadratic segment value with no subpath flags set.
pub open spec fn quadratic_seg(from: PointI, ctrl: PointI, to: PointI) -> Segment {
    Segment {
        kind: SegmentKind::Quadratic,
        baseline: LineSegmentI { from, to },
        ctrl: LineSegmentI { from: ctrl, to: zero_point() },
        first_in_subpath: false,
        closes_subpath: false,
    }
}

/// A cubic segment value with no subpath flags set.
pub open spec fn cubic_seg(from: PointI, ctrl0: PointI, ctrl1: PointI, to: PointI) -> Segment {
    Segment {
        kind: SegmentKind::Cubic,
        baseline: LineSegmentI { from, to },
        ctrl: LineSegmentI { from: ctrl0, to: ctrl1 },
        first_in_subpath: false,
        closes_subpath: false,
    }
}

/// `s` with the closes-subpath flag set.
pub open spec fn with_closes(s: Segment) -> Segment {
    Segment { closes_subpath: true, ..s }
}

impl Segment {
    /// The degenerate segment.
    pub fn none() -> (r: Segment)
        ensures
            r.kind == SegmentKind::Empty,
            r == (Segment {
                kind: SegmentKind::Empty,
                baseline: zero_line(),
                ctrl: zero_line(),
                first_in_subpath: false,
                closes_subpath: false,
            }),
    {
        Segment {
            kind: SegmentKind::Empty,
            baseline: LineSegmentI { from: PointI { x: 0, y: 0 }, to: PointI { x: 0, y: 0 } },
            ctrl: LineSegmentI { from: PointI { x: 0, y: 0 }, to: PointI { x: 0, y: 0 } },
            first_in_subpath: false,
            closes_subpath: false,
        }
    }

    /// A straight segment between two endpoints.
    pub fn line(from: PointI, to: PointI) -> (r: Segment)
        ensures
            r == line_seg(from, to),
    {
        Segment {
            kind: SegmentKind::Line,
            baseline: LineSegmentI { from, to },
            ctrl: LineSegmentI { from: PointI { x: 0, y: 0 }, to: PointI { x: 0, y: 0 } },
            first_in_subpath: false,
            closes_subpath: false,
        }
    }

    /// A quadratic segment with one control point.
    pub fn quadratic(from: PointI, to: PointI, ctrl: PointI) -> (r: Segment)
        ensures
            r == quadratic_seg(from, ctrl, to),
    {
        Segment {
            kind: SegmentKind::Quadratic,
            baseline: LineSegmentI { from, to },
            ctrl: LineSegmentI { from: ctrl, to: PointI { x: 0, y: 0 } },
            first_in_subpath: false,
            closes_subpath: false,
        }
    }

    /// A cubic segment with two control points.
    pub fn cubic(from: PointI, to: PointI, ctrl0: PointI, ctrl1: PointI) -> (r: Segment)
        ensures
            r == cubic_seg(from, ctrl0, ctrl1, to),
    {
        Segment {
            kind: SegmentKind::Cubic,
            baseline: LineSegmentI { from, to },
            ctrl: LineSegmentI { from: ctrl0, to: ctrl1 },
            first_in_subpath: false,
            closes_subpath: false,
        }
    }

    /// Whether this is the degenerate segment.
    pub fn is_none(&self) -> (r: bool)
        ensures
            r == (self.kind == SegmentKind::Empty),
    {
        self.kind == SegmentKind::Empty
    }

    /// Whether this is a straight segment.
    pub fn is_line(&self) -> (r: bool)
        ensures
            r == (self.kind == SegmentKind::Line),
    {
        self.kind == SegmentKind::Line
    }

    /// Whether this is a quadratic segment.
    pub fn is_quadratic(&self) -> (r: bool)
        ensures
            r == (self.kind == SegmentKind::Quadratic),
    {
        self.kind == SegmentKind::Quadratic
    }
}

} // verus!
