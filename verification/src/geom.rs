//! Integer 2D points and axis-aligned rectangles, with the exact
//! minimum/maximum bounding-box semantics the path types cache.

use vstd::prelude::*;

verus! {

/// A 2D point on the integer coordinate grid.
#[derive(Clone, Copy, Debug, PartialEq, Eq, Structural)]
pub struct PointI {
    pub x: i32,
    pub y: i32,
}

impl PointI {
    pub fn new(x: i32, y: i32) -> (r: PointI)
        ensures
            r == (PointI { x, y }),
    {
        PointI { x, y }
    }
}

/// The point at the origin.
pub open spec fn zero_point() -> PointI {
    PointI { x: 0, y: 0 }
}

/// An axis-aligned rectangle given by its corner coordinates. A rectangle
/// whose minima equal its maxima is a single point; the all-zero rectangle
/// stands for "no area at the origin" and is the bounds of anything empty.
#[derive(Clone, Copy, Debug, PartialEq, Eq, Structural)]
pub struct RectI {
    pub min_x: i32,
    pub min_y: i32,
    pub max_x: i32,
    pub max_y: i32,
}

impl RectI {
    /// The all-zero rectangle.
    pub open spec fn zero_spec() -> RectI {
        RectI { min_x: 0, min_y: 0, max_x: 0, max_y: 0 }
    }

    /// The all-zero rectangle.
    pub fn zero() -> (r: RectI)
        ensures
            r == RectI::zero_spec(),
    {
        RectI { min_x: 0, min_y: 0, max_x: 0, max_y: 0 }
    }

    /// Whether `p` lies in this rectangle (boundary counted as inside).
    pub open spec fn spec_contains(self, p: PointI) -> bool {
        self.min_x <= p.x && p.x <= self.max_x && self.min_y <= p.y && p.y <= self.max_y
    }

    /// Whether `p` lies in this rectangle (boundary counted as inside).
    pub fn contains(&self, p: PointI) -> (r: bool)
        ensures
            r == self.spec_contains(p),
    {
        self.min_x <= p.x && p.x <= self.max_x && self.min_y <= p.y && p.y <= self.max_y
    }

    /// The smallest rectangle covering both `self` and `other`.
    pub fn union(&self, other: &RectI) -> (r: RectI)
        ensures
            r == union_rects(*self, *other),
    {
        RectI {
            min_x: if self.min_x <= other.min_x { self.min_x } else { other.min_x },
            min_y: if self.min_y <= other.min_y { self.min_y } else { other.min_y },
            max_x: if self.max_x >= other.max_x { self.max_x } else { other.max_x },
            max_y: if self.max_y >= other.max_y { self.max_y } else { other.max_y },
        }
    }
}

/// The degenerate rectangle covering exactly one point.
pub open spec fn point_rect(p: PointI) -> RectI {
    RectI { min_x: p.x, min_y: p.y, max_x: p.x, max_y: p.y }
}

/// `r` widened just enough to cover `p` as well.
pub open spec fn widen_rect(r: RectI, p: PointI) -> RectI {
    RectI {
        min_x: if r.min_x <= p.x { r.min_x } else { p.x },
        min_y: if r.min_y <= p.y { r.min_y } else { p.y },
        max_x: if r.max_x >= p.x { r.max_x } else { p.x },
        max_y: if r.max_y >= p.y { r.max_y } else { p.y },
    }
}

/// The smallest rectangle covering both arguments.
pub open spec fn union_rects(a: RectI, b: RectI) -> RectI {
    RectI {
        min_x: if a.min_x <= b.min_x { a.min_x } else { b.min_x },
        min_y: if a.min_y <= b.min_y { a.min_y } else { b.min_y },
        max_x: if a.max_x >= b.max_x { a.max_x } else { b.max_x },
        max_y: if a.max_y >= b.max_y { a.max_y } else { b.max_y },
    }
}

/// The exact bounding box of a point sequence: the all-zero rectangle when
/// the sequence is empty, otherwise the tightest rectangle over all points.
pub open spec fn bounds_of(pts: Seq<PointI>) -> RectI
    decreases pts.len(),
{
    if pts.len() == 0 {
        RectI::zero_spec()
    } else if pts.len() == 1 {
        point_rect(pts[0])
    } else {
        widen_rect(bounds_of(pts.drop_last()), pts.last())
    }
}

/// Grows `bounds` to cover `new_point`; when `first` is set the box is
/// instead reset to the degenerate box at that point.
pub fn union_rect(bounds: &mut RectI, new_point: PointI, first: bool)
    ensures
        *final(bounds) == if first {
            point_rect(new_point)
        } else {
            widen_rect(*old(bounds), new_point)
        },
{
    if first {
        *bounds = RectI {
            min_x: new_point.x,
            min_y: new_point.y,
            max_x: new_point.x,
            max_y: new_point.y,
        };
        return ;
    }
    let r = RectI {
        min_x: if bounds.min_x <= new_point.x { bounds.min_x } else { new_point.x },
        min_y: if bounds.min_y <= new_point.y { bounds.min_y } else { new_point.y },
        max_x: if bounds.max_x >= new_point.x { bounds.max_x } else { new_point.x },
        max_y: if bounds.max_y >= new_point.y { bounds.max_y } else { new_point.y },
    };
    *bounds = r;
}

/// Twice the signed area of the triangle `(o, a, b)`: positive when `b`
/// lies to the left of the directed edge from `o` to `a`.
pub open spec fn cross_z(o: PointI, a: PointI, b: PointI) -> int {
    (a.x - o.x) * (b.y - o.y) - (a.y - o.y) * (b.x - o.x)
}

/// Whether `p` lies inside (or on the boundary of) the convex polygon with
/// the given counterclockwise vertex sequence: on or to the left of every
/// directed edge, the edge from the last vertex back to the first counted
/// too.
pub open spec fn point_in_convex_polygon(p: PointI, poly: Seq<PointI>) -> bool {
    forall|i: int|
        0 <= i < poly.len() ==> cross_z(
            #[trigger] poly[i],
            poly[if i + 1 == poly.len() {
                0
            } else {
                i + 1
            }],
            p,
        ) >= 0
}

/// The cached-bounds law for one point sequence: the exact bounding box of a
/// non-empty sequence covers every point, and each of its four coordinates is
/// attained by some point, so it is the exact minimum/maximum over the
/// sequence and no smaller or larger box would do.
pub proof fn lemma_bounds_exact(pts: Seq<PointI>)
    requires
        pts.len() > 0,
    ensures
        forall|i: int| 0 <= i < pts.len() ==> bounds_of(pts).spec_contains(#[trigger] pts[i]),
        exists|i: int| 0 <= i < pts.len() && #[trigger] pts[i].x == bounds_of(pts).min_x,
        exists|i: int| 0 <= i < pts.len() && #[trigger] pts[i].x == bounds_of(pts).max_x,
        exists|i: int| 0 <= i < pts.len() && #[trigger] pts[i].y == bounds_of(pts).min_y,
        exists|i: int| 0 <= i < pts.len() && #[trigger] pts[i].y == bounds_of(pts).max_y,
    decreases pts.len(),
{
    if pts.len() == 1 {
        assert(bounds_of(pts).spec_contains(pts[0]));
    } else {
        lemma_bounds_exact(pts.drop_last());
        let prev = bounds_of(pts.drop_last());
        let last = pts.last();
        assert forall|i: int| 0 <= i < pts.len() implies bounds_of(pts).spec_contains(
            #[trigger] pts[i],
        ) by {
            if i < pts.len() - 1 {
                assert(pts.drop_last()[i] == pts[i]);
                assert(prev.spec_contains(pts[i]));
            }
        }
        assert(pts.drop_last().len() == pts.len() - 1);
        if bounds_of(pts).min_x == last.x {
            assert(pts[pts.len() - 1].x == bounds_of(pts).min_x);
        } else {
            let i = choose|i: int|
                0 <= i < pts.drop_last().len() && #[trigger] pts.drop_last()[i].x == prev.min_x;
            assert(pts[i].x == bounds_of(pts).min_x);
        }
        if bounds_of(pts).max_x == last.x {
            assert(pts[pts.len() - 1].x == bounds_of(pts).max_x);
        } else {
            let i = choose|i: int|
                0 <= i < pts.drop_last().len() && #[trigger] pts.drop_last()[i].x == prev.max_x;
            assert(pts[i].x == bounds_of(pts).max_x);
        }
        if bounds_of(pts).min_y == last.y {
            assert(pts[pts.len() - 1].y == bounds_of(pts).min_y);
        } else {
            let i = choose|i: int|
                0 <= i < pts.drop_last().len() && #[trigger] pts.drop_last()[i].y == prev.min_y;
            assert(pts[i].y == bounds_of(pts).min_y);
        }
        if bounds_of(pts).max_y == last.y {
            assert(pts[pts.len() - 1].y == bounds_of(pts).max_y);
        } else {
            let i = choose|i: int|
                0 <= i < pts.drop_last().len() && #[trigger] pts.drop_last()[i].y == prev.max_y;
            assert(pts[i].y == bounds_of(pts).max_y);
        }
    }
}

/// Appending one point widens the exact bounding box by exactly that point.
pub proof fn lemma_bounds_push(pts: Seq<PointI>, p: PointI)
    ensures
        bounds_of(pts.push(p)) == if pts.len() == 0 {
            point_rect(p)
        } else {
            widen_rect(bounds_of(pts), p)
        },
{
    assert(pts.push(p).drop_last() =~= pts);
    assert(pts.push(p).last() == p);
    if pts.len() == 0 {
        assert(pts.push(p).len() == 1);
        assert(pts.push(p)[0] == p);
    }
}

} // verus!
