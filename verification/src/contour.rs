//! One closed sub-path, stored as a flat point buffer paired 1:1 with role
//! flags, plus a cached bounding box kept exact under every mutation.
//!
//! Segment boundaries are not stored: they are recovered from the flags
//! alone, with index arithmetic that wraps over the circular index space of
//! the contour (the point after the last is the first, so every contour is
//! implicitly closed).

use vstd::prelude::*;
use vstd::pervasive::VecAdditionalExecFns;
use crate::decimal::{decimal_int, decimal_string};
use crate::geom::{PointI, RectI, bounds_of, lemma_bounds_exact, lemma_bounds_push, union_rect, union_rects};
use vstd::string::StringExecFns;
use crate::segment::{
    PointFlags, Segment, SegmentKind, cubic_seg, flag_control_0, flag_control_1, flag_endpoint,
    line_seg, quadratic_seg, with_closes,
};

verus! {

/// The alternation contract of the role flags of a stored contour: every
/// flag is one of the three roles, the first and last points are endpoints,
/// and a first control point is followed by a second control point or an
/// endpoint, while a second control point is followed by an endpoint.
pub open spec fn flags_wf(fl: Seq<PointFlags>) -> bool {
    &&& forall|i: int| 0 <= i < fl.len() ==> (#[trigger] fl[i]).valid()
    &&& fl.len() > 0 ==> fl[0].is_endpoint_spec()
    &&& fl.len() > 0 ==> fl[fl.len() - 1].is_endpoint_spec()
    &&& forall|i: int|
        0 <= i < fl.len() - 1 ==> transition_ok(#[trigger] fl[i], fl[i + 1])
}

/// Which flag may follow which: after an endpoint anything but a stray
/// second control point, after a first control point no first control point
/// again, after a second control point only an endpoint.
pub open spec fn transition_ok(a: PointFlags, b: PointFlags) -> bool {
    &&& a.bits == 0 ==> b.bits != 2
    &&& a.bits == 1 ==> b.bits != 1
    &&& a.bits == 2 ==> b.bits == 0
}

/// One closed sub-path: points and their role flags (always the same
/// length), plus the cached exact bounding box of the points.
#[derive(Clone, Debug)]
pub struct Contour {
    points: Vec<PointI>,
    flags: Vec<PointFlags>,
    bounds: RectI,
}

/// The next index in the circular index space of a contour of length `len`.
pub open spec fn next_index_spec(len: int, i: int) -> int {
    if i == len - 1 {
        0
    } else {
        i + 1
    }
}

/// The previous index in the circular index space.
pub open spec fn prev_index_spec(len: int, i: int) -> int {
    if i == 0 {
        len - 1
    } else {
        i - 1
    }
}

/// `k` applications of `next_index_spec` starting from `i`.
pub open spec fn iterate_next(len: int, i: int, k: nat) -> int
    decreases k,
{
    if k == 0 {
        i
    } else {
        iterate_next(len, next_index_spec(len, i), (k - 1) as nat)
    }
}

impl Contour {
    /// The stored points, as a sequence.
    pub closed spec fn pts(self) -> Seq<PointI> {
        self.points@
    }

    /// The stored role flags, as a sequence.
    pub closed spec fn flgs(self) -> Seq<PointFlags> {
        self.flags@
    }

    /// The cached bounding box.
    pub closed spec fn bounds_spec(self) -> RectI {
        self.bounds
    }

    /// The structural invariant every operation preserves: flags pair 1:1
    /// with points, the point count stays addressable by 32-bit indices,
    /// and the cached bounds are the exact bounding box of the points.
    pub open spec fn basic_inv(self) -> bool {
        &&& self.flgs().len() == self.pts().len()
        &&& self.pts().len() < 0x8000_0000
        &&& self.bounds_spec() == bounds_of(self.pts())
    }

    /// Full well-formedness: the structural invariant plus the alternation
    /// contract of the flags, under which segments can be reconstructed.
    pub open spec fn wf(self) -> bool {
        &&& self.basic_inv()
        &&& flags_wf(self.flgs())
    }

    /// An empty contour with all-zero bounds.
    pub fn new() -> (r: Contour)
        ensures
            r.wf(),
            r.pts() == Seq::<PointI>::empty(),
            r.flgs() == Seq::<PointFlags>::empty(),
    {
        let r = Contour { points: Vec::new(), flags: Vec::new(), bounds: RectI::zero() };
        proof {
            assert(r.pts() =~= Seq::<PointI>::empty());
            assert(r.flgs() =~= Seq::<PointFlags>::empty());
        }
        r
    }

    /// Detaches this contour's storage, leaving the contour empty but with
    /// capacity for a same-size replacement.
    pub fn take(&mut self) -> (r: Contour)
        ensures
            r == *old(self),
            final(self).wf(),
            final(self).pts() == Seq::<PointI>::empty(),
            final(self).flgs() == Seq::<PointFlags>::empty(),
    {
        let length = self.points.len();
        let mut replacement = Contour {
            points: Vec::with_capacity(length),
            flags: Vec::with_capacity(length),
            bounds: RectI::zero(),
        };
        core::mem::swap(self, &mut replacement);
        proof {
            assert(self.pts() =~= Seq::<PointI>::empty());
            assert(self.flgs() =~= Seq::<PointFlags>::empty());
        }
        replacement
    }

    /// Whether the contour holds no points.
    pub fn is_empty(&self) -> (r: bool)
        ensures
            r == (self.pts().len() == 0),
    {
        self.points.is_empty()
    }

    /// The number of points.
    pub fn len(&self) -> (r: u32)
        requires
            self.pts().len() < 0x8000_0000,
        ensures
            r == self.pts().len(),
    {
        self.points.len() as u32
    }

    /// The cached bounding box.
    pub fn bounds(&self) -> (r: RectI)
        ensures
            r == self.bounds_spec(),
    {
        self.bounds
    }

    /// The point at `index`.
    pub fn position_of(&self, index: u32) -> (r: PointI)
        requires
            index < self.pts().len(),
        ensures
            r == self.pts()[index as int],
    {
        self.points[index as usize]
    }

    /// The most recently pushed point, if any.
    pub fn last_position(&self) -> (r: Option<PointI>)
        ensures
            match r {
                Some(p) => self.pts().len() > 0 && p == self.pts().last(),
                None => self.pts().len() == 0,
            },
    {
        if self.points.len() == 0 {
            None
        } else {
            Some(self.points[self.points.len() - 1])
        }
    }

    /// Appends one point/flag pair, widening the cached bounds by exactly
    /// that point (or resetting them to it when it is the first point).
    /// Runs in constant time: the bounds are never recomputed from scratch.
    pub fn push_point(&mut self, point: PointI, flags: PointFlags)
        requires
            old(self).basic_inv(),
            old(self).pts().len() < 0x7fff_ffff,
        ensures
            final(self).basic_inv(),
            final(self).pts() == old(self).pts().push(point),
            final(self).flgs() == old(self).flgs().push(flags),
    {
        let first = self.is_empty();
        proof {
            lemma_bounds_push(self.pts(), point);
        }
        union_rect(&mut self.bounds, point, first);
        self.points.push(point);
        self.flags.push(flags);
    }

    /// Unions this contour's cached bounds into a running aggregate: the
    /// aggregate starts as `None` and becomes the union of the bounds of
    /// every contour folded in.
    pub fn update_bounds(&self, bounds: &mut Option<RectI>)
        ensures
            *final(bounds) == match *old(bounds) {
                None => Some(self.bounds_spec()),
                Some(r) => Some(union_rects(r, self.bounds_spec())),
            },
    {
        let b = self.bounds;
        *bounds = Some(
            match *bounds {
                None => b,
                Some(r) => r.union(&b),
            },
        );
    }

    /// The role flags of the point at `point_index`.
    pub fn flag_at(&self, point_index: u32) -> (r: PointFlags)
        requires
            point_index < self.flgs().len(),
        ensures
            r == self.flgs()[point_index as int],
    {
        self.flags[point_index as usize]
    }

    /// Whether the point at `point_index` is an endpoint (neither control
    /// flag set).
    pub fn point_is_endpoint(&self, point_index: u32) -> (r: bool)
        requires
            point_index < self.flgs().len(),
        ensures
            r == self.flgs()[point_index as int].is_endpoint_spec(),
    {
        self.flags[point_index as usize].bits == 0
    }

    /// `(point_index + addend) mod len`, without relying on a modulo
    /// operation: the displacement never exceeds the length, so one
    /// conditional subtraction is enough.
    pub fn add_to_point_index(&self, point_index: u32, addend: u32) -> (r: u32)
        requires
            self.basic_inv(),
            self.pts().len() > 0,
            point_index < self.pts().len(),
            addend <= self.pts().len(),
        ensures
            r == (point_index + addend) % (self.pts().len() as int),
    {
        let limit = self.len();
        let index = point_index + addend;
        if index >= limit {
            proof {
                assert((point_index + addend) % (self.pts().len() as int) == index - limit) by (nonlinear_arith)
                    requires
                        limit == self.pts().len(),
                        index == point_index + addend,
                        limit <= index < 2 * limit,
                        0 < limit,
                ;
            }
            index - limit
        } else {
            proof {
                assert((point_index + addend) % (self.pts().len() as int) == index) by (nonlinear_arith)
                    requires
                        limit == self.pts().len(),
                        index == point_index + addend,
                        0 <= index < limit,
                ;
            }
            index
        }
    }

    /// The circular predecessor of `point_index`.
    pub fn prev_point_index_of(&self, point_index: u32) -> (r: u32)
        requires
            self.basic_inv(),
            self.pts().len() > 0,
            point_index < self.pts().len(),
        ensures
            r == prev_index_spec(self.pts().len() as int, point_index as int),
            r < self.pts().len(),
    {
        if point_index == 0 {
            self.len() - 1
        } else {
            point_index - 1
        }
    }

    /// The circular successor of `point_index`.
    pub fn next_point_index_of(&self, point_index: u32) -> (r: u32)
        requires
            self.basic_inv(),
            self.pts().len() > 0,
            point_index < self.pts().len(),
        ensures
            r == next_index_spec(self.pts().len() as int, point_index as int),
            r < self.pts().len(),
    {
        if point_index == self.len() - 1 {
            0
        } else {
            point_index + 1
        }
    }

    /// Walks backwards (circularly) to the nearest endpoint, skipping
    /// interior control points. From point 0 this wraps to the last point,
    /// which is an endpoint in every well-formed contour.
    pub fn prev_endpoint_index_of(&self, point_index: u32) -> (r: u32)
        requires
            self.wf(),
            self.pts().len() > 0,
            point_index < self.pts().len(),
        ensures
            r < self.pts().len(),
            self.flgs()[r as int].is_endpoint_spec(),
            point_index == 0 ==> r == self.pts().len() - 1,
            point_index > 0 ==> r < point_index && (forall|j: int|
                r < j < point_index ==> !(#[trigger] self.flgs()[j]).is_endpoint_spec()),
    {
        let mut idx = self.prev_point_index_of(point_index);
        if point_index == 0 {
            return idx;
        }
        while !self.point_is_endpoint(idx)
            invariant
                self.wf(),
                0 < point_index < self.pts().len(),
                idx < point_index,
                forall|j: int| idx < j < point_index ==> !(#[trigger] self.flgs()[j]).is_endpoint_spec(),
            decreases idx,
        {
            assert(idx != 0);
            idx = idx - 1;
        }
        idx
    }

    /// Walks forwards (circularly) to the nearest endpoint, skipping
    /// interior control points. From the last point this wraps to point 0,
    /// which is an endpoint in every well-formed contour.
    pub fn next_endpoint_index_of(&self, point_index: u32) -> (r: u32)
        requires
            self.wf(),
            self.pts().len() > 0,
            point_index < self.pts().len(),
        ensures
            r < self.pts().len(),
            self.flgs()[r as int].is_endpoint_spec(),
            point_index == self.pts().len() - 1 ==> r == 0,
            point_index < self.pts().len() - 1 ==> point_index < r && (forall|j: int|
                point_index < j < r ==> !(#[trigger] self.flgs()[j]).is_endpoint_spec()),
    {
        let mut idx = self.next_point_index_of(point_index);
        if idx == 0 {
            return idx;
        }
        let len = self.len();
        while !self.point_is_endpoint(idx)
            invariant
                self.wf(),
                len == self.pts().len(),
                point_index < len - 1,
                point_index < idx < len,
                forall|j: int| point_index < j < idx ==> !(#[trigger] self.flgs()[j]).is_endpoint_spec(),
            decreases len - idx,
        {
            assert(idx != len - 1);
            idx = idx + 1;
        }
        idx
    }

    /// The total order used by downstream tiling: `a` is above `b` when its
    /// y-coordinate is strictly smaller, with the smaller index breaking
    /// ties between points at equal height.
    pub fn point_is_logically_above(&self, a: u32, b: u32) -> (r: bool)
        requires
            a < self.pts().len(),
            b < self.pts().len(),
        ensures
            r == (self.pts()[a as int].y < self.pts()[b as int].y || (self.pts()[a as int].y
                == self.pts()[b as int].y && a < b)),
    {
        let a_y = self.points[a as usize].y;
        let b_y = self.points[b as usize].y;
        a_y < b_y || (a_y == b_y && a < b)
    }
}

/// The point/flag pairs that pushing one segment appends: nothing for a
/// degenerate segment; for a closing segment only the seed endpoint, and
/// that only into an empty contour (its closing edge is implicit); for the
/// rest, the start endpoint when the contour is empty, then the control
/// points with their role flags, then the end endpoint.
pub open spec fn replay_one(pts: Seq<PointI>, fl: Seq<PointFlags>, s: Segment) -> (
    Seq<PointI>,
    Seq<PointFlags>,
) {
    if s.kind == SegmentKind::Empty {
        (pts, fl)
    } else if s.closes_subpath {
        if pts.len() == 0 {
            (pts.push(s.baseline.from), fl.push(flag_endpoint()))
        } else {
            (pts, fl)
        }
    } else {
        let pts1 = if pts.len() == 0 {
            pts.push(s.baseline.from)
        } else {
            pts
        };
        let fl1 = if pts.len() == 0 {
            fl.push(flag_endpoint())
        } else {
            fl
        };
        if s.kind == SegmentKind::Line {
            (pts1.push(s.baseline.to), fl1.push(flag_endpoint()))
        } else if s.kind == SegmentKind::Quadratic {
            (
                pts1.push(s.ctrl.from).push(s.baseline.to),
                fl1.push(flag_control_0()).push(flag_endpoint()),
            )
        } else {
            (
                pts1.push(s.ctrl.from).push(s.ctrl.to).push(s.baseline.to),
                fl1.push(flag_control_0()).push(flag_control_1()).push(flag_endpoint()),
            )
        }
    }
}

/// The point/flag arrays that pushing a whole segment sequence builds,
/// starting from the given arrays.
pub open spec fn replay(pts: Seq<PointI>, fl: Seq<PointFlags>, segs: Seq<Segment>) -> (
    Seq<PointI>,
    Seq<PointFlags>,
)
    decreases segs.len(),
{
    if segs.len() == 0 {
        (pts, fl)
    } else {
        let stepped = replay_one(pts, fl, segs[0]);
        replay(stepped.0, stepped.1, segs.skip(1))
    }
}

/// Appending one of the three flag runs a segment push produces keeps the
/// alternation contract intact.
proof fn lemma_flags_wf_extend(fl: Seq<PointFlags>, tail: Seq<PointFlags>)
    requires
        flags_wf(fl),
        fl.len() > 0,
        tail == seq![flag_endpoint()] || tail == seq![flag_control_0(), flag_endpoint()] || tail
            == seq![flag_control_0(), flag_control_1(), flag_endpoint()],
    ensures
        flags_wf(fl + tail),
{
    let g = fl + tail;
    let n = fl.len() as int;
    let m = tail.len() as int;
    assert(tail[m - 1] == flag_endpoint());
    assert(g[g.len() - 1] == tail[m - 1]);
    assert(g[0] == fl[0]);
    assert forall|i: int| 0 <= i < g.len() implies (#[trigger] g[i]).valid() by {
        if i < n {
            assert(g[i] == fl[i]);
        } else {
            assert(g[i] == tail[i - n]);
        }
    }
    assert forall|i: int| 0 <= i < g.len() - 1 implies transition_ok(#[trigger] g[i], g[i + 1]) by {
        if i < n - 1 {
            assert(g[i] == fl[i]);
            assert(g[i + 1] == fl[i + 1]);
        } else if i == n - 1 {
            assert(g[i] == fl[n - 1]);
            assert(g[i + 1] == tail[0]);
        } else {
            assert(g[i] == tail[i - n]);
            assert(g[i + 1] == tail[i - n + 1]);
        }
    }
}

impl Contour {
    /// Appends the points a segment implies, skipping its start endpoint
    /// when the contour already ends with it and seeding it first
    /// otherwise. A degenerate segment is a no-op; a segment flagged as
    /// closing its subpath carries only implicit geometry, so it pushes
    /// nothing beyond the seed. Pushing back every segment read off a
    /// well-formed contour rebuilds its arrays exactly.
    pub fn push_segment(&mut self, segment: Segment)
        requires
            old(self).wf(),
            old(self).pts().len() < 0x7fff_fffb,
        ensures
            final(self).wf(),
            (final(self).pts(), final(self).flgs()) == replay_one(
                old(self).pts(),
                old(self).flgs(),
                segment,
            ),
    {
        if segment.is_none() {
            return ;
        }
        let ghost old_pts = self.pts();
        let ghost old_fl = self.flgs();
        let was_empty = self.is_empty();
        if segment.closes_subpath {
            if was_empty {
                self.push_point(segment.baseline.from, PointFlags::empty());
                proof {
                    assert(flags_wf(self.flgs()));
                }
            }
            return ;
        }
        if was_empty {
            self.push_point(segment.baseline.from, PointFlags::empty());
        }
        let ghost base_pts = self.pts();
        let ghost base_fl = self.flgs();
        if !segment.is_line() {
            self.push_point(segment.ctrl.from, PointFlags::control_point_0());
            if !segment.is_quadratic() {
                self.push_point(segment.ctrl.to, PointFlags::control_point_1());
            }
        }
        self.push_point(segment.baseline.to, PointFlags::empty());
        proof {
            if was_empty {
                assert(base_fl =~= old_fl.push(flag_endpoint()));
                assert(flags_wf(base_fl));
            }
            if segment.kind == SegmentKind::Line {
                assert(self.flgs() =~= base_fl + seq![flag_endpoint()]);
                lemma_flags_wf_extend(base_fl, seq![flag_endpoint()]);
            } else if segment.kind == SegmentKind::Quadratic {
                assert(self.flgs() =~= base_fl + seq![flag_control_0(), flag_endpoint()]);
                lemma_flags_wf_extend(base_fl, seq![flag_control_0(), flag_endpoint()]);
            } else {
                assert(self.flgs() =~= base_fl + seq![
                    flag_control_0(),
                    flag_control_1(),
                    flag_endpoint(),
                ]);
                lemma_flags_wf_extend(
                    base_fl,
                    seq![flag_control_0(), flag_control_1(), flag_endpoint()],
                );
            }
            assert(self.pts() =~= replay_one(old_pts, old_fl, segment).0);
            assert(self.flgs() =~= replay_one(old_pts, old_fl, segment).1);
        }
    }
}

/// The segment whose baseline starts at endpoint `i` of `c`: a line when
/// the next point is an endpoint, a quadratic when one control point
/// follows, a cubic when two do, and — for the last point — the implicit
/// closing line back to point 0.
pub open spec fn seg_at(c: Contour, i: int) -> Segment {
    let n = c.pts().len() as int;
    if i == n - 1 {
        line_seg(c.pts()[i], c.pts()[0])
    } else if c.flgs()[i + 1].is_endpoint_spec() {
        line_seg(c.pts()[i], c.pts()[i + 1])
    } else if i + 2 < n && c.flgs()[i + 2].is_endpoint_spec() {
        quadratic_seg(c.pts()[i], c.pts()[i + 1], c.pts()[i + 2])
    } else if i + 3 < n {
        cubic_seg(c.pts()[i], c.pts()[i + 1], c.pts()[i + 2], c.pts()[i + 3])
    } else {
        line_seg(c.pts()[i], c.pts()[0])
    }
}

/// How many points the segment starting at endpoint `i` consumes beyond
/// its start: 1, 2 or 3 for a line, quadratic or cubic.
pub open spec fn step_at(c: Contour, i: int) -> int {
    let n = c.pts().len() as int;
    if c.flgs()[i + 1].is_endpoint_spec() {
        1
    } else if i + 2 >= n {
        2
    } else if c.flgs()[i + 2].is_endpoint_spec() {
        2
    } else {
        3
    }
}

/// The segments still to be produced by an iterator whose cursor stands at
/// `idx` (one past the start endpoint of the next segment): each segment in
/// endpoint order, ending with the implicit closing segment, which carries
/// the closes-subpath flag.
pub open spec fn segs_from_cursor(c: Contour, idx: int) -> Seq<Segment>
    decreases c.pts().len() + 2 - idx,
{
    let n = c.pts().len() as int;
    if idx < 1 || idx > n {
        Seq::empty()
    } else if idx == n {
        seq![with_closes(seg_at(c, n - 1))]
    } else {
        seq![seg_at(c, idx - 1)] + segs_from_cursor(c, idx + step_at(c, idx - 1))
    }
}

/// All segments of a contour, in order, the implicit closing segment last.
/// An empty contour has none; a contour of one point has exactly the
/// closing segment.
pub open spec fn segments_of(c: Contour) -> Seq<Segment> {
    segs_from_cursor(c, 1)
}

/// A restartable producer of a contour's segments, ending with the implicit
/// closing segment back to point 0. The cursor starts just past point 0 and
/// advances by the number of points each reconstructed segment consumes.
pub struct ContourIter<'a> {
    contour: &'a Contour,
    index: u32,
}

impl<'a> ContourIter<'a> {
    /// The contour being walked.
    pub closed spec fn ctr(&self) -> Contour {
        *self.contour
    }

    /// The cursor: one past the start endpoint of the next segment.
    pub closed spec fn cursor(&self) -> int {
        self.index as int
    }

    /// The iterator is over a well-formed contour and its cursor stands
    /// just past an endpoint (or past the end, once exhausted).
    pub open spec fn iter_wf(&self) -> bool {
        &&& self.ctr().wf()
        &&& 1 <= self.cursor() <= self.ctr().pts().len() + 1
        &&& self.ctr().pts().len() == 0 ==> self.cursor() == 1
        &&& self.cursor() <= self.ctr().pts().len() ==> self.ctr().flgs()[self.cursor()
            - 1].is_endpoint_spec()
    }

    /// The segments this iterator has yet to produce.
    pub open spec fn remaining(&self) -> Seq<Segment> {
        segs_from_cursor(self.ctr(), self.cursor())
    }

    /// Produces the next segment: a line, quadratic or cubic read off the
    /// flags, or the implicit closing segment (flagged as closing) once the
    /// last stored endpoint is reached; `None` after that.
    pub fn next(&mut self) -> (r: Option<Segment>)
        requires
            old(self).iter_wf(),
        ensures
            final(self).iter_wf(),
            final(self).ctr() == old(self).ctr(),
            match r {
                Some(s) => old(self).remaining().len() > 0 && s == old(self).remaining()[0]
                    && final(self).remaining() == old(self).remaining().skip(1),
                None => old(self).remaining().len() == 0 && final(self).remaining().len() == 0,
            },
    {
        let contour = self.contour;
        let n = contour.len();
        if self.index == n + 1 {
            return None;
        }
        let ghost old_rem = self.remaining();
        let point0_index = self.index - 1;
        let point0 = contour.position_of(point0_index);
        if self.index == n {
            self.index += 1;
            let mut s = Segment::line(point0, contour.position_of(0));
            s.closes_subpath = true;
            proof {
                assert(s == with_closes(seg_at(*contour, n - 1)));
                assert(old_rem == seq![with_closes(seg_at(*contour, n - 1))]);
                assert(self.remaining() =~= old_rem.skip(1));
            }
            return Some(s);
        }
        let point1_index = self.index;
        self.index += 1;
        let point1 = contour.position_of(point1_index);
        if contour.point_is_endpoint(point1_index) {
            let s = Segment::line(point0, point1);
            proof {
                assert(step_at(*contour, point0_index as int) == 1);
                assert(s == seg_at(*contour, point0_index as int));
                assert(old_rem[0] == s);
                assert(self.remaining() =~= old_rem.skip(1));
            }
            return Some(s);
        }
        proof {
            assert(contour.flgs()[n - 1].is_endpoint_spec());
            assert(point1_index < n - 1);
        }
        let point2_index = self.index;
        let point2 = contour.position_of(point2_index);
        self.index += 1;
        if contour.point_is_endpoint(point2_index) {
            let s = Segment::quadratic(point0, point2, point1);
            proof {
                assert(step_at(*contour, point0_index as int) == 2);
                assert(s == seg_at(*contour, point0_index as int));
                assert(old_rem[0] == s);
                assert(self.remaining() =~= old_rem.skip(1));
            }
            return Some(s);
        }
        proof {
            let ghost p1f = contour.flgs()[point1_index as int];
            let ghost p2f = contour.flgs()[point2_index as int];
            assert(transition_ok(p1f, p2f));
            assert(transition_ok(contour.flgs()[point0_index as int], p1f));
            assert(contour.flgs()[point1_index as int].bits == 1);
            assert(contour.flgs()[point2_index as int].bits == 2);
            assert(point2_index < n - 1);
        }
        let point3_index = self.index;
        let point3 = contour.position_of(point3_index);
        self.index += 1;
        let s = Segment::cubic(point0, point3, point1, point2);
        proof {
            let ghost p2f = contour.flgs()[point2_index as int];
            let ghost p3f = contour.flgs()[point3_index as int];
            assert(transition_ok(p2f, p3f));
            assert(contour.flgs()[point3_index as int].is_endpoint_spec());
            assert(step_at(*contour, point0_index as int) == 3);
            assert(s == seg_at(*contour, point0_index as int));
            assert(old_rem[0] == s);
            assert(self.remaining() =~= old_rem.skip(1));
        }
        Some(s)
    }
}

impl Contour {
    /// A fresh iterator over this contour's segments.
    pub fn iter<'a>(&'a self) -> (it: ContourIter<'a>)
        requires
            self.wf(),
        ensures
            it.iter_wf(),
            it.ctr() == *self,
            it.remaining() == segments_of(*self),
    {
        ContourIter { contour: self, index: 1 }
    }

    /// Reconstructs the segment whose baseline starts at `point_index`,
    /// which must be an endpoint, by looking ahead through the circular
    /// index space: a segment spanning the end/start boundary wraps
    /// correctly.
    pub fn segment_after(&self, point_index: u32) -> (r: Segment)
        requires
            self.wf(),
            self.pts().len() > 0,
            point_index < self.pts().len(),
            self.flgs()[point_index as int].is_endpoint_spec(),
        ensures
            r == seg_at(*self, point_index as int),
    {
        let ghost n = self.pts().len() as int;
        let mut segment = Segment::none();
        segment.baseline.from = self.position_of(point_index);
        let point1_index = self.add_to_point_index(point_index, 1);
        proof {
            if point_index as int == n - 1 {
                lemma_index_mod_wraps(n);
                assert(point1_index == 0);
            } else {
                lemma_index_mod_small(point_index + 1, n);
                assert(point1_index == point_index + 1);
            }
        }
        if self.point_is_endpoint(point1_index) {
            segment.baseline.to = self.position_of(point1_index);
            segment.kind = SegmentKind::Line;
        } else {
            proof {
                assert(self.flgs()[n - 1].is_endpoint_spec());
                assert(self.flgs()[0].is_endpoint_spec());
                assert(point_index as int != n - 1);
                assert(point1_index == point_index + 1);
                assert(point1_index as int != n - 1);
            }
            segment.ctrl.from = self.position_of(point1_index);
            let point2_index = self.add_to_point_index(point_index, 2);
            proof {
                assert(point1_index < n - 1);
                lemma_index_mod_small(point_index + 2, n);
                assert(point2_index == point_index + 2);
            }
            if self.point_is_endpoint(point2_index) {
                segment.baseline.to = self.position_of(point2_index);
                segment.kind = SegmentKind::Quadratic;
            } else {
                proof {
                    let ghost p1f = self.flgs()[point1_index as int];
                    let ghost p2f = self.flgs()[point2_index as int];
                    assert(transition_ok(p1f, p2f));
                    assert(transition_ok(self.flgs()[point_index as int], p1f));
                    assert(self.flgs()[point1_index as int].bits == 1);
                    assert(self.flgs()[point2_index as int].bits == 2);
                    assert(point2_index < n - 1);
                }
                segment.ctrl.to = self.position_of(point2_index);
                segment.kind = SegmentKind::Cubic;
                let point3_index = self.add_to_point_index(point_index, 3);
                proof {
                    assert(point2_index as int != n - 1);
                    lemma_index_mod_small(point_index + 3, n);
                    assert(point3_index == point_index + 3);
                }
                segment.baseline.to = self.position_of(point3_index);
            }
        }
        segment
    }
}

/// Replaying a segment sequence extended by one segment is replaying the
/// sequence and then pushing the extra segment.
pub proof fn lemma_replay_snoc(
    pts: Seq<PointI>,
    fl: Seq<PointFlags>,
    segs: Seq<Segment>,
    s: Segment,
)
    ensures
        replay(pts, fl, segs.push(s)) == replay_one(
            replay(pts, fl, segs).0,
            replay(pts, fl, segs).1,
            s,
        ),
    decreases segs.len(),
{
    if segs.len() == 0 {
        assert(segs.push(s)[0] == s);
        assert(segs.push(s).skip(1) =~= Seq::<Segment>::empty());
        let one = replay_one(pts, fl, s);
        assert(replay(pts, fl, segs.push(s)) == replay(one.0, one.1, segs.push(s).skip(1)));
        assert(replay(one.0, one.1, segs.push(s).skip(1)) == one);
        assert(replay(pts, fl, segs) == (pts, fl));
    } else {
        let stepped = replay_one(pts, fl, segs[0]);
        assert(segs.push(s)[0] == segs[0]);
        assert(segs.push(s).skip(1) =~= segs.skip(1).push(s));
        lemma_replay_snoc(stepped.0, stepped.1, segs.skip(1), s);
        assert(replay(pts, fl, segs.push(s)) == replay(stepped.0, stepped.1, segs.push(s).skip(1)));
        assert(replay(pts, fl, segs) == replay(stepped.0, stepped.1, segs.skip(1)));
    }
}

/// How many stored points are endpoints, from position `i` on.
pub open spec fn endpoint_count_from(fl: Seq<PointFlags>, i: int) -> int
    decreases fl.len() - i,
{
    if i < 0 || i >= fl.len() {
        0
    } else {
        (if fl[i].is_endpoint_spec() {
            1int
        } else {
            0int
        }) + endpoint_count_from(fl, i + 1)
    }
}

/// How many of a contour's stored points are endpoints.
pub open spec fn endpoint_count(c: Contour) -> int {
    endpoint_count_from(c.flgs(), 0)
}

/// From a cursor just past an endpoint, the segments still to come are one
/// per remaining endpoint.
proof fn lemma_count_cursor(c: Contour, idx: int)
    requires
        c.wf(),
        1 <= idx <= c.pts().len(),
        c.flgs()[idx - 1].is_endpoint_spec(),
    ensures
        segs_from_cursor(c, idx).len() == endpoint_count_from(c.flgs(), idx - 1),
    decreases c.pts().len() + 2 - idx,
{
    let n = c.pts().len() as int;
    let fl = c.flgs();
    if idx == n {
        assert(endpoint_count_from(fl, n) == 0);
    } else {
        let st = step_at(c, idx - 1);
        assert(fl[n - 1].is_endpoint_spec());
        if st == 1 {
            assert(fl[idx].is_endpoint_spec());
        } else {
            assert(!fl[idx].is_endpoint_spec());
            assert(idx != n - 1);
            assert(transition_ok(fl[idx - 1], fl[idx]));
            assert(fl[idx].bits == 1);
            if st == 2 {
                assert(fl[idx + 1].is_endpoint_spec());
                assert(endpoint_count_from(fl, idx) == endpoint_count_from(fl, idx + 1));
            } else {
                assert(st == 3);
                assert(!fl[idx + 1].is_endpoint_spec());
                assert(idx + 1 != n - 1);
                assert(transition_ok(fl[idx], fl[idx + 1]));
                assert(fl[idx + 1].bits == 2);
                assert(transition_ok(fl[idx + 1], fl[idx + 2]));
                assert(fl[idx + 2].is_endpoint_spec());
                assert(endpoint_count_from(fl, idx) == endpoint_count_from(fl, idx + 1));
                assert(endpoint_count_from(fl, idx + 1) == endpoint_count_from(fl, idx + 2));
            }
        }
        lemma_count_cursor(c, idx + st);
    }
}

/// The segment-count law: an iterator over a well-formed contour produces
/// exactly one segment per endpoint of the contour — every endpoint starts
/// exactly one outgoing segment, the last one the implicit closing segment.
pub proof fn lemma_segment_count(c: Contour)
    requires
        c.wf(),
    ensures
        segments_of(c).len() == endpoint_count(c),
{
    if c.pts().len() == 0 {
        assert(endpoint_count_from(c.flgs(), 0) == 0);
    } else {
        lemma_count_cursor(c, 1);
    }
}

/// From a cursor just past an endpoint, replaying the remaining segments on
/// top of the already-covered prefix rebuilds the whole contour.
proof fn lemma_replay_cursor(c: Contour, idx: int)
    requires
        c.wf(),
        1 <= idx <= c.pts().len(),
        c.flgs()[idx - 1].is_endpoint_spec(),
    ensures
        replay(c.pts().take(idx), c.flgs().take(idx), segs_from_cursor(c, idx)) == (
            c.pts(),
            c.flgs(),
        ),
    decreases c.pts().len() + 2 - idx,
{
    let n = c.pts().len() as int;
    let pts = c.pts();
    let fl = c.flgs();
    let p0 = pts.take(idx);
    let f0 = fl.take(idx);
    let segs = segs_from_cursor(c, idx);
    if idx == n {
        let s = with_closes(seg_at(c, n - 1));
        assert(segs[0] == s);
        assert(segs.skip(1) =~= Seq::<Segment>::empty());
        assert(s.closes_subpath);
        assert(s.kind != SegmentKind::Empty);
        assert(replay_one(p0, f0, s) == (p0, f0));
        assert(p0 =~= pts);
        assert(f0 =~= fl);
        let one = replay_one(p0, f0, s);
        assert(replay(p0, f0, segs) == replay(one.0, one.1, segs.skip(1)));
        assert(replay(one.0, one.1, segs.skip(1)) == (pts, fl));
    } else {
        let s = seg_at(c, idx - 1);
        let st = step_at(c, idx - 1);
        assert(fl[n - 1].is_endpoint_spec());
        assert(segs[0] == s);
        assert(segs.skip(1) =~= segs_from_cursor(c, idx + st));
        assert(!s.closes_subpath);
        assert(p0.len() == idx > 0);
        let stepped = replay_one(p0, f0, s);
        if st == 1 {
            assert(fl[idx].is_endpoint_spec());
            assert(s == line_seg(pts[idx - 1], pts[idx]));
            assert(fl[idx] == flag_endpoint());
            assert(stepped.0 =~= pts.take(idx + 1));
            assert(stepped.1 =~= fl.take(idx + 1));
        } else {
            assert(!fl[idx].is_endpoint_spec());
            assert(idx != n - 1);
            assert(transition_ok(fl[idx - 1], fl[idx]));
            assert(fl[idx].bits == 1);
            assert(fl[idx] == flag_control_0());
            if st == 2 {
                assert(fl[idx + 1].is_endpoint_spec());
                assert(s == quadratic_seg(pts[idx - 1], pts[idx], pts[idx + 1]));
                assert(fl[idx + 1] == flag_endpoint());
                assert(stepped.0 =~= pts.take(idx + 2));
                assert(stepped.1 =~= fl.take(idx + 2));
            } else {
                assert(st == 3);
                assert(!fl[idx + 1].is_endpoint_spec());
                assert(idx + 1 != n - 1);
                assert(transition_ok(fl[idx], fl[idx + 1]));
                assert(fl[idx + 1].bits == 2);
                assert(fl[idx + 1] == flag_control_1());
                assert(transition_ok(fl[idx + 1], fl[idx + 2]));
                assert(fl[idx + 2].is_endpoint_spec());
                assert(fl[idx + 2] == flag_endpoint());
                assert(s == cubic_seg(pts[idx - 1], pts[idx], pts[idx + 1], pts[idx + 2]));
                assert(stepped.0 =~= pts.take(idx + 3));
                assert(stepped.1 =~= fl.take(idx + 3));
            }
        }
        lemma_replay_cursor(c, idx + st);
        assert(replay(p0, f0, segs) == replay(stepped.0, stepped.1, segs.skip(1)));
        assert(stepped.0 == pts.take(idx + st));
        assert(stepped.1 == fl.take(idx + st));
        assert(replay(stepped.0, stepped.1, segs.skip(1)) == (pts, fl));
    }
}

/// The round-trip law: iterating a well-formed contour and pushing every
/// produced segment, in order, into a fresh contour rebuilds exactly the
/// original point and flag arrays.
pub proof fn lemma_round_trip(c: Contour)
    requires
        c.wf(),
    ensures
        replay(Seq::<PointI>::empty(), Seq::<PointFlags>::empty(), segments_of(c)) == (
            c.pts(),
            c.flgs(),
        ),
{
    let n = c.pts().len() as int;
    let pts = c.pts();
    let fl = c.flgs();
    let segs = segments_of(c);
    let ep: Seq<PointI> = Seq::empty();
    let ef: Seq<PointFlags> = Seq::empty();
    if n == 0 {
        assert(segs =~= Seq::<Segment>::empty());
        assert(pts =~= ep);
        assert(fl =~= ef);
        assert(replay(ep, ef, segs) == (ep, ef));
    } else {
        let s = segs[0];
        assert(Seq::<PointI>::empty().push(s.baseline.from) =~= pts.take(1));
        assert(Seq::<PointFlags>::empty().push(flag_endpoint()) =~= fl.take(1));
        if n == 1 {
            assert(s == with_closes(seg_at(c, 0)));
            assert(s.closes_subpath && s.kind != SegmentKind::Empty);
            assert(replay_one(ep, ef, s) == (pts.take(1), fl.take(1)));
            assert(segs.skip(1) =~= Seq::<Segment>::empty());
            assert(pts.take(1) =~= pts);
            assert(fl.take(1) =~= fl);
            let one = replay_one(ep, ef, s);
            assert(replay(ep, ef, segs) == replay(one.0, one.1, segs.skip(1)));
            assert(replay(one.0, one.1, segs.skip(1)) == (pts, fl));
        } else {
            assert(s == seg_at(c, 0));
            assert(!s.closes_subpath && s.kind != SegmentKind::Empty);
            assert(replay_one(ep, ef, s) == replay_one(pts.take(1), fl.take(1), s));
            lemma_replay_cursor(c, 1);
            let one = replay_one(pts.take(1), fl.take(1), s);
            assert(replay(ep, ef, segs) == replay(one.0, one.1, segs.skip(1)));
            assert(replay(pts.take(1), fl.take(1), segs) == replay(one.0, one.1, segs.skip(1)));
            assert(replay(pts.take(1), fl.take(1), segs) == (pts, fl));
        }
    }
}

/// The rebuilt contour's arrays are exactly the replay of some output the
/// decomposition function can produce for the original contour's segments.
pub open spec fn monotonic_rebuilt<F: Fn(Vec<Segment>) -> Vec<Segment>>(
    convert: F,
    orig: Contour,
    rebuilt: Contour,
) -> bool {
    exists|inp: Vec<Segment>, out: Vec<Segment>|
        {
            &&& inp@ == segments_of(orig)
            &&& #[trigger] call_ensures(convert, (inp,), out)
            &&& (rebuilt.pts(), rebuilt.flgs()) == replay(
                Seq::<PointI>::empty(),
                Seq::<PointFlags>::empty(),
                out@,
            )
        }
}

impl Contour {
    /// Maps every point through the given point-mapping function in place
    /// (an affine transform handed in by the caller), recomputing the
    /// cached bounds from scratch in the same pass, since every point may
    /// move arbitrarily.
    pub fn transform<F: Fn(PointI) -> PointI + Copy>(&mut self, f: F)
        requires
            old(self).wf(),
            forall|p: PointI| call_requires(f, (p,)),
        ensures
            final(self).wf(),
            final(self).pts().len() == old(self).pts().len(),
            final(self).flgs() == old(self).flgs(),
            forall|i: int|
                0 <= i < old(self).pts().len() ==> call_ensures(
                    f,
                    (old(self).pts()[i],),
                    #[trigger] final(self).pts()[i],
                ),
    {
        let len = self.points.len();
        let mut i: usize = 0;
        while i < len
            invariant
                len == self.pts().len(),
                self.flgs().len() == len,
                len < 0x8000_0000,
                self.flgs() == old(self).flgs(),
                flags_wf(self.flgs()),
                forall|p: PointI| call_requires(f, (p,)),
                i <= len,
                forall|j: int|
                    0 <= j < i ==> call_ensures(f, (old(self).pts()[j],), #[trigger] self.pts()[j]),
                forall|j: int| i <= j < len ==> self.pts()[j] == old(self).pts()[j],
                i == 0 ==> self.bounds_spec() == old(self).bounds_spec(),
                i > 0 ==> self.bounds_spec() == bounds_of(self.pts().take(i as int)),
            decreases len - i,
        {
            let p = self.points[i];
            let q = f(p);
            let ghost prev = self.pts();
            self.points.set(i, q);
            proof {
                assert(self.pts().take(i as int) =~= prev.take(i as int));
                lemma_bounds_push(self.pts().take(i as int), q);
                assert(self.pts().take(i as int).push(q) =~= self.pts().take(i + 1));
                if i > 0 {
                    assert(self.bounds_spec() == bounds_of(self.pts().take(i as int)));
                }
            }
            union_rect(&mut self.bounds, q, i == 0);
            i += 1;
        }
        proof {
            if len > 0 {
                assert(self.pts().take(len as int) =~= self.pts());
            } else {
                assert(self.pts() =~= old(self).pts());
            }
        }
    }

    /// Maps every point through the given perspective mapping (an opaque
    /// point-mapping function as far as this contour is concerned), exactly
    /// as `transform` does, recomputing the bounds in the same pass.
    pub fn apply_perspective<F: Fn(PointI) -> PointI + Copy>(&mut self, perspective: F)
        requires
            old(self).wf(),
            forall|p: PointI| call_requires(perspective, (p,)),
        ensures
            final(self).wf(),
            final(self).pts().len() == old(self).pts().len(),
            final(self).flgs() == old(self).flgs(),
            forall|i: int|
                0 <= i < old(self).pts().len() ==> call_ensures(
                    perspective,
                    (old(self).pts()[i],),
                    #[trigger] final(self).pts()[i],
                ),
    {
        self.transform(perspective)
    }

    /// All segments of this contour, in order, collected into a vector:
    /// what iterating the contour to exhaustion produces.
    pub fn segments(&self) -> (v: Vec<Segment>)
        requires
            self.wf(),
        ensures
            v@ == segments_of(*self),
    {
        let mut v: Vec<Segment> = Vec::new();
        let mut it = self.iter();
        proof {
            assert(v@ + it.remaining() =~= segments_of(*self));
        }
        loop
            invariant
                it.iter_wf(),
                it.ctr() == *self,
                v@ + it.remaining() == segments_of(*self),
            ensures
                v@ == segments_of(*self),
            decreases it.remaining().len(),
        {
            let ghost rem = it.remaining();
            let ghost prev = v@;
            match it.next() {
                Some(s) => {
                    v.push(s);
                    proof {
                        assert(v@ + it.remaining() =~= prev + rem);
                    }
                },
                None => {
                    proof {
                        assert(v@ =~= segments_of(*self));
                    }
                    break ;
                },
            }
        }
        v
    }

    /// Replaces this contour's content with the result of feeding its
    /// segments through the given decomposition function and replaying the
    /// output segments into the freshly detached storage. Whatever the
    /// function returns, the rebuilt contour is well-formed.
    pub fn make_monotonic<F: Fn(Vec<Segment>) -> Vec<Segment>>(&mut self, convert: F)
        requires
            old(self).wf(),
            forall|v: Vec<Segment>| call_requires(convert, (v,)),
            forall|v: Vec<Segment>, out: Vec<Segment>|
                call_ensures(convert, (v,), out) ==> out@.len() <= 0x0fff_ffff,
        ensures
            final(self).wf(),
            monotonic_rebuilt(convert, *old(self), *final(self)),
    {
        let segs = self.segments();
        let ghost ginp = segs;
        let new_segs = convert(segs);
        let _ = self.take();
        let n = new_segs.len();
        let mut i: usize = 0;
        proof {
            assert(new_segs@.take(0) =~= Seq::<Segment>::empty());
        }
        while i < n
            invariant
                self.wf(),
                n == new_segs@.len(),
                n <= 0x0fff_ffff,
                i <= n,
                self.pts().len() <= 4 * i,
                (self.pts(), self.flgs()) == replay(
                    Seq::<PointI>::empty(),
                    Seq::<PointFlags>::empty(),
                    new_segs@.take(i as int),
                ),
            decreases n - i,
        {
            let s = new_segs[i];
            proof {
                lemma_replay_snoc(
                    Seq::<PointI>::empty(),
                    Seq::<PointFlags>::empty(),
                    new_segs@.take(i as int),
                    s,
                );
                assert(new_segs@.take(i as int).push(s) =~= new_segs@.take(i + 1));
            }
            self.push_segment(s);
            i += 1;
        }
        proof {
            assert(new_segs@.take(n as int) =~= new_segs@);
            assert(ginp@ == segments_of(*old(self)));
            assert(call_ensures(convert, (ginp,), new_segs));
        }
    }
}

/// The characters one segment contributes to the textual path form: its
/// letter and coordinates for a line (`L`), quadratic (`Q`) or cubic (`C`),
/// and nothing for a closing or degenerate segment (the closing edge is the
/// trailing `z`).
pub open spec fn seg_chars(s: Segment) -> Seq<char> {
    if s.closes_subpath || s.kind == SegmentKind::Empty {
        Seq::empty()
    } else if s.kind == SegmentKind::Line {
        seq![' ', 'L', ' '] + decimal_int(s.baseline.to.x as int) + seq![' '] + decimal_int(
            s.baseline.to.y as int,
        )
    } else if s.kind == SegmentKind::Quadratic {
        seq![' ', 'Q', ' '] + decimal_int(s.ctrl.from.x as int) + seq![' '] + decimal_int(
            s.ctrl.from.y as int,
        ) + seq![' '] + decimal_int(s.baseline.to.x as int) + seq![' '] + decimal_int(
            s.baseline.to.y as int,
        )
    } else {
        seq![' ', 'C', ' '] + decimal_int(s.ctrl.from.x as int) + seq![' '] + decimal_int(
            s.ctrl.from.y as int,
        ) + seq![' '] + decimal_int(s.ctrl.to.x as int) + seq![' '] + decimal_int(
            s.ctrl.to.y as int,
        ) + seq![' '] + decimal_int(s.baseline.to.x as int) + seq![' '] + decimal_int(
            s.baseline.to.y as int,
        )
    }
}

/// The characters the segments from position `i` on contribute.
pub open spec fn body_chars_from(segs: Seq<Segment>, i: int) -> Seq<char>
    decreases segs.len() - i,
{
    if i < 0 || i >= segs.len() {
        Seq::empty()
    } else {
        seg_chars(segs[i]) + body_chars_from(segs, i + 1)
    }
}

/// The textual path form of a contour: `M x y` for the start point, one
/// chunk per non-closing segment, and a terminating ` z` for the implicit
/// closing edge. An empty contour renders as just ` z`.
pub open spec fn path_chars(c: Contour) -> Seq<char> {
    if c.pts().len() == 0 {
        seq![' ', 'z']
    } else {
        seq!['M', ' '] + decimal_int(c.pts()[0].x as int) + seq![' '] + decimal_int(
            c.pts()[0].y as int,
        ) + body_chars_from(segments_of(c), 0) + seq![' ', 'z']
    }
}

/// Appends the path-form chunk of one segment.
#[verifier::rlimit(100)]
fn append_segment_chunk(s: &mut String, seg: Segment)
    ensures
        final(s)@ == old(s)@ + seg_chars(seg),
{
    if seg.closes_subpath {
        proof {
            assert(final(s)@ =~= old(s)@ + seg_chars(seg));
        }
        return ;
    }
    match seg.kind {
        SegmentKind::Empty => {
            proof {
                assert(final(s)@ =~= old(s)@ + seg_chars(seg));
            }
        },
        SegmentKind::Line => {
            s.append(" L ");
            let x = decimal_string(seg.baseline.to.x);
            s.append(x.as_str());
            s.append(" ");
            let y = decimal_string(seg.baseline.to.y);
            s.append(y.as_str());
            proof {
                reveal_strlit(" L ");
                reveal_strlit(" ");
                assert(s@ =~= old(s)@ + seg_chars(seg));
            }
        },
        SegmentKind::Quadratic => {
            s.append(" Q ");
            let cx = decimal_string(seg.ctrl.from.x);
            s.append(cx.as_str());
            s.append(" ");
            let cy = decimal_string(seg.ctrl.from.y);
            s.append(cy.as_str());
            s.append(" ");
            let x = decimal_string(seg.baseline.to.x);
            s.append(x.as_str());
            s.append(" ");
            let y = decimal_string(seg.baseline.to.y);
            s.append(y.as_str());
            proof {
                reveal_strlit(" Q ");
                reveal_strlit(" ");
                assert(s@ =~= old(s)@ + seg_chars(seg));
            }
        },
        SegmentKind::Cubic => {
            s.append(" C ");
            let c1x = decimal_string(seg.ctrl.from.x);
            s.append(c1x.as_str());
            s.append(" ");
            let c1y = decimal_string(seg.ctrl.from.y);
            s.append(c1y.as_str());
            s.append(" ");
            let c2x = decimal_string(seg.ctrl.to.x);
            s.append(c2x.as_str());
            s.append(" ");
            let c2y = decimal_string(seg.ctrl.to.y);
            s.append(c2y.as_str());
            s.append(" ");
            let x = decimal_string(seg.baseline.to.x);
            s.append(x.as_str());
            s.append(" ");
            let y = decimal_string(seg.baseline.to.y);
            s.append(y.as_str());
            proof {
                reveal_strlit(" C ");
                reveal_strlit(" ");
                assert(s@ =~= old(s)@ + seg_chars(seg));
            }
        },
    }
}

impl Contour {
    /// The textual path-description form: `M x y`, one ` L x y`,
    /// ` Q cx cy x y` or ` C c1x c1y c2x c2y x y` per subsequent segment,
    /// terminated by ` z`. A debugging aid whose exact token layout is
    /// nevertheless a contract.
    pub fn path_string(&self) -> (r: String)
        requires
            self.wf(),
        ensures
            r@ == path_chars(*self),
    {
        let mut s = String::new();
        if self.is_empty() {
            s.append(" z");
            proof {
                reveal_strlit(" z");
                assert(s@ =~= path_chars(*self));
            }
            return s;
        }
        let p0 = self.position_of(0);
        s.append("M ");
        let xs = decimal_string(p0.x);
        s.append(xs.as_str());
        s.append(" ");
        let ys = decimal_string(p0.y);
        s.append(ys.as_str());
        let ghost segs = segments_of(*self);
        proof {
            reveal_strlit("M ");
            reveal_strlit(" ");
            assert(s@ =~= seq!['M', ' '] + decimal_int(self.pts()[0].x as int) + seq![' ']
                + decimal_int(self.pts()[0].y as int));
        }
        let ghost mut k: int = 0;
        let mut it = self.iter();
        loop
            invariant
                it.iter_wf(),
                it.ctr() == *self,
                segs == segments_of(*self),
                0 <= k <= segs.len(),
                it.remaining() == segs.skip(k),
                s@ + body_chars_from(segs, k) + seq![' ', 'z'] == path_chars(*self),
            ensures
                s@ + seq![' ', 'z'] == path_chars(*self),
            decreases it.remaining().len(),
        {
            let ghost pre = s@;
            match it.next() {
                Some(seg) => {
                    proof {
                        assert(segs.skip(k)[0] == segs[k]);
                        assert(segs.skip(k).skip(1) =~= segs.skip(k + 1));
                    }
                    append_segment_chunk(&mut s, seg);
                    proof {
                        assert((pre + seg_chars(segs[k])) + body_chars_from(segs, k + 1) =~= pre
                            + body_chars_from(segs, k));
                        k = k + 1;
                    }
                },
                None => {
                    proof {
                        assert(k == segs.len());
                        assert(body_chars_from(segs, k) =~= Seq::<char>::empty());
                        assert(s@ + body_chars_from(segs, k) =~= s@);
                    }
                    break ;
                },
            }
        }
        s.append(" z");
        proof {
            reveal_strlit(" z");
            assert(s@ =~= path_chars(*self));
        }
        s
    }

    /// The cached-bounds law for one contour: the cached box covers every
    /// stored point, and — for a non-empty contour — each of its four
    /// coordinates is attained by some stored point, so the cache is the
    /// exact minimum/maximum over the contour.
    pub proof fn lemma_contour_bounds_exact(self)
        requires
            self.wf(),
            self.pts().len() > 0,
        ensures
            forall|i: int|
                0 <= i < self.pts().len() ==> self.bounds_spec().spec_contains(
                    #[trigger] self.pts()[i],
                ),
            exists|i: int|
                0 <= i < self.pts().len() && #[trigger] self.pts()[i].x == self.bounds_spec().min_x,
            exists|i: int|
                0 <= i < self.pts().len() && #[trigger] self.pts()[i].x == self.bounds_spec().max_x,
            exists|i: int|
                0 <= i < self.pts().len() && #[trigger] self.pts()[i].y == self.bounds_spec().min_y,
            exists|i: int|
                0 <= i < self.pts().len() && #[trigger] self.pts()[i].y == self.bounds_spec().max_y,
    {
        lemma_bounds_exact(self.pts());
    }
}

/// A sum below the length is its own circular index.
proof fn lemma_index_mod_small(x: int, m: int)
    requires
        0 <= x < m,
    ensures
        x % m == x,
{
    assert(x % m == x) by (nonlinear_arith)
        requires
            0 <= x < m,
    ;
}

/// Advancing one step off the last point wraps to the first.
proof fn lemma_index_mod_wraps(m: int)
    requires
        0 < m,
    ensures
        m % m == 0,
{
    assert(m % m == 0) by (nonlinear_arith)
        requires
            0 < m,
    ;
}

/// The circular index space closes: stepping forward undoes stepping
/// backward, and vice versa.
pub proof fn lemma_prev_next_inverse(len: int, i: int)
    requires
        0 < len,
        0 <= i < len,
    ensures
        next_index_spec(len, prev_index_spec(len, i)) == i,
        prev_index_spec(len, next_index_spec(len, i)) == i,
{
}

/// Stepping forward `k` times from `i` lands on `(i + k) mod len`.
pub proof fn lemma_iterate_next_mod(len: int, i: int, k: nat)
    requires
        0 < len,
        0 <= i < len,
    ensures
        iterate_next(len, i, k) == (i + k) % len,
    decreases k,
{
    if k == 0 {
        assert(i % len == i) by (nonlinear_arith)
            requires
                0 <= i < len,
        ;
    } else {
        let j = next_index_spec(len, i);
        lemma_iterate_next_mod(len, j, (k - 1) as nat);
        if i == len - 1 {
            vstd::arithmetic::div_mod::lemma_mod_multiples_vanish(1, k - 1, len);
            assert(len * 1 + (k - 1) == i + k);
        }
    }
}

/// Stepping forward as many times as the contour is long returns to the
/// start: the index space is circular with period `len`.
pub proof fn lemma_iterate_next_full_cycle(len: int, i: int)
    requires
        0 < len,
        0 <= i < len,
    ensures
        iterate_next(len, i, len as nat) == i,
{
    lemma_iterate_next_mod(len, i, len as nat);
    vstd::arithmetic::div_mod::lemma_mod_multiples_vanish(1, i, len);
    assert(len * 1 + i == i + len);
    assert(i % len == i) by (nonlinear_arith)
        requires
            0 <= i < len,
    ;
}

} // verus!
