//! A two-field key identifying one point inside one contour of an outline,
//! used for cross-referencing points without holding structural references.
//!
//! Both ordinals are range-limited at construction time: a contour ordinal
//! must fit in 12 bits and a point ordinal in 20 bits, so that the pair can
//! also be carried as a single 32-bit word by callers that need that.

use vstd::prelude::*;

verus! {

/// A key naming point `point` of contour `contour` in an outline.
///
/// Ordering is lexicographic by contour, then by point, which agrees with
/// the numeric order of the packed form `contour << 20 | point` because a
/// point ordinal never exceeds 20 bits.
#[derive(Clone, Copy, Debug, Default, PartialEq, Eq, PartialOrd, Ord, Structural)]
pub struct PointIndex {
    contour: u32,
    point: u32,
}

impl PointIndex {
    /// The contour ordinal this key was built with.
    pub closed spec fn spec_contour(self) -> u32 {
        self.contour
    }

    /// The point ordinal this key was built with.
    pub closed spec fn spec_point(self) -> u32 {
        self.point
    }

    /// Builds a key. Ordinals out of range are a programming error, so they
    /// are excluded up front rather than tolerated.
    pub fn new(contour: u32, point: u32) -> (r: PointIndex)
        requires
            contour <= 0xfff,
            point <= 0xf_ffff,
        ensures
            r.spec_contour() == contour,
            r.spec_point() == point,
    {
        PointIndex { contour, point }
    }

    /// The contour ordinal.
    pub fn contour(self) -> (r: u32)
        ensures
            r == self.spec_contour(),
    {
        self.contour
    }

    /// The point ordinal.
    pub fn point(self) -> (r: u32)
        ensures
            r == self.spec_point(),
    {
        self.point
    }
}

} // verus!
