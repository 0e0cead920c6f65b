//! An ordered collection of contours with an aggregate bounding box: built
//! from a linear segment stream, transformed and clipped wholesale, with the
//! aggregate bounds re-derived from the surviving contours after every
//! operation.

use vstd::prelude::*;
use vstd::pervasive::VecAdditionalExecFns;
use crate::contour::{monotonic_rebuilt, path_chars, replay_one, Contour};
use vstd::string::StringExecFns;
use crate::geom::{bounds_of, lemma_bounds_exact, point_in_convex_polygon, union_rects, PointI, RectI};
use crate::segment::{flag_endpoint, PointFlags, Segment, SegmentKind};

verus! {

/// The point/flag arrays of one sub-path, as pure sequences: the value a
/// contour under construction holds.
pub struct SubpathData {
    pub pts: Seq<PointI>,
    pub fl: Seq<PointFlags>,
}

/// The state of the stream-to-contours construction: the sub-paths already
/// flushed, and the one in progress.
pub struct BuildState {
    pub done: Seq<SubpathData>,
    pub cur: SubpathData,
}

/// A sub-path with nothing in it yet.
pub open spec fn empty_subpath() -> SubpathData {
    SubpathData { pts: Seq::empty(), fl: Seq::empty() }
}

/// One step of the construction state machine, in the priority order the
/// stream contract fixes: a first-in-subpath segment flushes the sub-path in
/// progress (if non-empty) and seeds a new one with its start point; a
/// closes-subpath segment flushes without consuming any further geometry
/// (the closing edge is implicit); a degenerate segment is skipped; any
/// other segment appends its implied points.
pub open spec fn build_step(st: BuildState, s: Segment) -> BuildState {
    let st1 = if s.first_in_subpath {
        let done1 = if st.cur.pts.len() > 0 {
            st.done.push(st.cur)
        } else {
            st.done
        };
        BuildState {
            done: done1,
            cur: SubpathData { pts: seq![s.baseline.from], fl: seq![flag_endpoint()] },
        }
    } else {
        st
    };
    if s.closes_subpath {
        if st1.cur.pts.len() > 0 {
            BuildState { done: st1.done.push(st1.cur), cur: empty_subpath() }
        } else {
            st1
        }
    } else if s.kind == SegmentKind::Empty {
        st1
    } else {
        let rep = replay_one(st1.cur.pts, st1.cur.fl, s);
        BuildState { done: st1.done, cur: SubpathData { pts: rep.0, fl: rep.1 } }
    }
}

/// The construction state after the first `n` segments of the stream.
pub open spec fn build_fold(segs: Seq<Segment>, n: int) -> BuildState
    decreases n,
{
    if n <= 0 {
        BuildState { done: Seq::empty(), cur: empty_subpath() }
    } else {
        build_step(build_fold(segs, n - 1), segs[n - 1])
    }
}

/// The end of the stream flushes a remaining non-empty sub-path.
pub open spec fn build_finish(st: BuildState) -> Seq<SubpathData> {
    if st.cur.pts.len() > 0 {
        st.done.push(st.cur)
    } else {
        st.done
    }
}

/// The sub-paths a whole stream builds.
pub open spec fn built_subpaths(segs: Seq<Segment>) -> Seq<SubpathData> {
    build_finish(build_fold(segs, segs.len() as int))
}

/// A segment is admissible at its place in the stream if it does not ask
/// for geometry to be appended to a sub-path that has no start point yet:
/// such a stream violates the construction contract and is rejected up
/// front rather than silently tolerated.
pub open spec fn seg_admissible(st: BuildState, s: Segment) -> bool {
    ||| s.first_in_subpath
    ||| s.closes_subpath
    ||| s.kind == SegmentKind::Empty
    ||| st.cur.pts.len() > 0
}

/// Every segment of the stream is admissible where it stands.
pub open spec fn stream_ok(segs: Seq<Segment>) -> bool {
    forall|i: int| 0 <= i < segs.len() ==> seg_admissible(build_fold(segs, i), #[trigger] segs[i])
}

/// A contour sequence realises a sub-path sequence when it has the same
/// length and pointwise the same point and flag arrays.
pub open spec fn views_match(cs: Seq<Contour>, ds: Seq<SubpathData>) -> bool {
    &&& cs.len() == ds.len()
    &&& forall|i: int|
        0 <= i < cs.len() ==> (#[trigger] cs[i]).pts() == ds[i].pts && cs[i].flgs() == ds[i].fl
}

/// The predicate that keeps a contour: it still has points after clipping.
pub open spec fn keep_nonempty() -> spec_fn(Contour) -> bool {
    |c: Contour| c.pts().len() > 0
}

/// The aggregate bounds of a contour sequence: the union of the exact
/// bounding boxes of the non-empty contours, or nothing when every contour
/// is empty.
pub open spec fn agg_opt(cs: Seq<Contour>) -> Option<RectI>
    decreases cs.len(),
{
    if cs.len() == 0 {
        None
    } else {
        let rest = agg_opt(cs.drop_last());
        let c = cs.last();
        if c.pts().len() == 0 {
            rest
        } else {
            match rest {
                None => Some(bounds_of(c.pts())),
                Some(r) => Some(union_rects(r, bounds_of(c.pts()))),
            }
        }
    }
}

/// The aggregate bounds, with the all-zero rectangle standing in when no
/// contour has any point.
pub open spec fn agg_bounds(cs: Seq<Contour>) -> RectI {
    match agg_opt(cs) {
        None => RectI::zero_spec(),
        Some(r) => r,
    }
}

/// An ordered collection of contours plus the aggregate bounding box of all
/// their points. Contour order is insertion order.
#[derive(Clone, Debug)]
pub struct Outline {
    pub contours: Vec<Contour>,
    bounds: RectI,
}

impl Outline {
    /// The cached aggregate bounding box.
    pub closed spec fn bounds_spec(self) -> RectI {
        self.bounds
    }

    /// The contours, as a sequence.
    pub closed spec fn contours_seq(self) -> Seq<Contour> {
        self.contours@
    }

    /// Well-formedness: every contour is well-formed and the cached
    /// aggregate bounds are the union of the non-empty contours' exact
    /// bounds.
    pub open spec fn wf(self) -> bool {
        &&& forall|i: int|
            0 <= i < self.contours_seq().len() ==> (#[trigger] self.contours_seq()[i]).wf()
        &&& self.bounds_spec() == agg_bounds(self.contours_seq())
    }

    /// An outline with no contours and all-zero bounds.
    pub fn new() -> (r: Outline)
        ensures
            r.wf(),
            r.contours_seq().len() == 0,
    {
        let r = Outline { contours: Vec::new(), bounds: RectI::zero() };
        proof {
            assert(r.contours@ =~= Seq::<Contour>::empty());
        }
        r
    }

    /// The aggregate bounding box.
    pub fn bounds(&self) -> (r: RectI)
        ensures
            r == self.bounds_spec(),
    {
        self.bounds
    }

    /// Builds contours from a linear segment stream, as the construction
    /// state machine prescribes, flushing any remaining non-empty sub-path
    /// at the end; the aggregate bounds are the union of the flushed
    /// contours' bounds. Streams that would append geometry to a sub-path
    /// with no start point violate the stream contract and are excluded.
    #[verifier::rlimit(100)]
    pub fn from_segments(segments: &Vec<Segment>) -> (o: Outline)
        requires
            segments@.len() <= 0x0fff_ffff,
            stream_ok(segments@),
        ensures
            o.wf(),
            views_match(o.contours_seq(), built_subpaths(segments@)),
            forall|i: int|
                0 <= i < o.contours_seq().len() ==> (#[trigger] o.contours_seq()[i]).pts().len()
                    > 0,
    {
        let ghost segs = segments@;
        let mut outline = Outline::new();
        let mut current = Contour::new();
        let mut agg: Option<RectI> = None;
        let n = segments.len();
        let mut i: usize = 0;
        proof {
            assert(outline.contours@ =~= Seq::<Contour>::empty());
        }
        while i < n
            invariant
                n == segs.len(),
                n <= 0x0fff_ffff,
                segs == segments@,
                stream_ok(segs),
                i <= n,
                current.wf(),
                current.pts() == build_fold(segs, i as int).cur.pts,
                current.flgs() == build_fold(segs, i as int).cur.fl,
                current.pts().len() <= 1 + 4 * i,
                views_match(outline.contours@, build_fold(segs, i as int).done),
                forall|j: int|
                    0 <= j < outline.contours@.len() ==> (#[trigger] outline.contours@[j]).wf()
                        && outline.contours@[j].pts().len() > 0,
                agg == agg_opt(outline.contours@),
            decreases n - i,
        {
            let seg = segments[i];
            let ghost st = build_fold(segs, i as int);
            proof {
                assert(build_fold(segs, i + 1) == build_step(st, segs[i as int]));
                assert(seg_admissible(st, segs[i as int]));
            }
            if seg.first_in_subpath {
                if !current.is_empty() {
                    current.update_bounds(&mut agg);
                    let ghost prev_contours = outline.contours@;
                    outline.contours.push(current);
                    proof {
                        assert(prev_contours.push(current).drop_last() =~= prev_contours);
                    }
                    current = Contour::new();
                }
                current.push_point(seg.baseline.from, PointFlags::empty());
                proof {
                    assert(current.pts() =~= seq![seg.baseline.from]);
                    assert(current.flgs() =~= seq![flag_endpoint()]);
                    assert(crate::contour::flags_wf(current.flgs()));
                }
            }
            if seg.closes_subpath {
                if !current.is_empty() {
                    current.update_bounds(&mut agg);
                    let ghost prev_contours = outline.contours@;
                    outline.contours.push(current);
                    proof {
                        assert(prev_contours.push(current).drop_last() =~= prev_contours);
                    }
                    current = Contour::new();
                }
            } else if seg.is_none() {
            } else {
                current.push_segment(seg);
            }
            i += 1;
        }
        if !current.is_empty() {
            current.update_bounds(&mut agg);
            let ghost prev_contours = outline.contours@;
            outline.contours.push(current);
            proof {
                assert(prev_contours.push(current).drop_last() =~= prev_contours);
            }
        }
        outline.bounds = match agg {
            None => RectI::zero(),
            Some(r) => r,
        };
        outline
    }

    /// Applies the point-mapping function to every contour in place and
    /// recomputes the aggregate bounds as the union of the freshly
    /// recomputed per-contour bounds (all-zero again if there are no
    /// contours). Flags are untouched: only positions move.
    pub fn transform<F: Fn(PointI) -> PointI + Copy>(&mut self, f: F)
        requires
            old(self).wf(),
            forall|p: PointI| call_requires(f, (p,)),
        ensures
            final(self).wf(),
            final(self).contours_seq().len() == old(self).contours_seq().len(),
            forall|i: int|
                0 <= i < old(self).contours_seq().len() ==> (#[trigger] final(self).contours_seq()[i]).flgs() == old(self).contours_seq()[i].flgs() && final(self).contours_seq()[i].pts().len() == old(self).contours_seq()[i].pts().len(),
            forall|i: int, j: int|
                0 <= i < old(self).contours_seq().len() && 0 <= j < old(self).contours_seq()[i].pts().len() ==> call_ensures(
                    f,
                    (old(self).contours_seq()[i].pts()[j],),
                    #[trigger] final(self).contours_seq()[i].pts()[j],
                ),
    {
        let n = self.contours.len();
        let mut i: usize = 0;
        let mut agg: Option<RectI> = None;
        proof {
            assert(self.contours@.take(0) =~= Seq::<Contour>::empty());
        }
        while i < n
            invariant
                n == self.contours@.len(),
                n == old(self).contours_seq().len(),
                i <= n,
                forall|p: PointI| call_requires(f, (p,)),
                forall|j: int| i <= j < n ==> self.contours@[j] == old(self).contours_seq()[j],
                forall|j: int| 0 <= j < n ==> (#[trigger] self.contours@[j]).wf(),
                forall|j: int|
                    0 <= j < i ==> (#[trigger] self.contours@[j]).flgs() == old(self).contours_seq()[j].flgs() && self.contours@[j].pts().len() == old(self).contours_seq()[j].pts().len(),
                forall|j: int, k: int|
                    0 <= j < i && 0 <= k < old(self).contours_seq()[j].pts().len() ==> call_ensures(
                        f,
                        (old(self).contours_seq()[j].pts()[k],),
                        #[trigger] self.contours@[j].pts()[k],
                    ),
                agg == agg_opt(self.contours@.take(i as int)),
            decreases n - i,
        {
            let ghost pre = self.contours@;
            let mut c = Contour::new();
            self.contours.set_and_swap(i, &mut c);
            c.transform(f);
            if !c.is_empty() {
                c.update_bounds(&mut agg);
            }
            self.contours.set_and_swap(i, &mut c);
            proof {
                assert(self.contours@.take(i as int) =~= pre.take(i as int));
                assert(self.contours@.take(i + 1).drop_last() =~= self.contours@.take(i as int));
                assert(self.contours@.take(i + 1).last() == self.contours@[i as int]);
            }
            i += 1;
        }
        proof {
            assert(self.contours@.take(n as int) =~= self.contours@);
        }
        self.bounds = match agg {
            None => RectI::zero(),
            Some(r) => r,
        };
    }

    /// Applies the perspective mapping to every contour, exactly as
    /// `transform` does: to the outline both are opaque point mappings.
    pub fn apply_perspective<F: Fn(PointI) -> PointI + Copy>(&mut self, perspective: F)
        requires
            old(self).wf(),
            forall|p: PointI| call_requires(perspective, (p,)),
        ensures
            final(self).wf(),
            final(self).contours_seq().len() == old(self).contours_seq().len(),
            forall|i: int|
                0 <= i < old(self).contours_seq().len() ==> (#[trigger] final(self).contours_seq()[i]).flgs() == old(self).contours_seq()[i].flgs() && final(self).contours_seq()[i].pts().len() == old(self).contours_seq()[i].pts().len(),
            forall|i: int, j: int|
                0 <= i < old(self).contours_seq().len() && 0 <= j < old(self).contours_seq()[i].pts().len() ==> call_ensures(
                    perspective,
                    (old(self).contours_seq()[i].pts()[j],),
                    #[trigger] final(self).contours_seq()[i].pts()[j],
                ),
    {
        self.transform(perspective)
    }

    /// Replaces every contour with the result of feeding its segments
    /// through the decomposition function and replaying the output, then
    /// re-derives the aggregate bounds from the rebuilt contours.
    pub fn make_monotonic<F: Fn(Vec<Segment>) -> Vec<Segment> + Copy>(&mut self, convert: F)
        requires
            old(self).wf(),
            forall|v: Vec<Segment>| call_requires(convert, (v,)),
            forall|v: Vec<Segment>, out: Vec<Segment>|
                call_ensures(convert, (v,), out) ==> out@.len() <= 0x0fff_ffff,
        ensures
            final(self).wf(),
            final(self).contours_seq().len() == old(self).contours_seq().len(),
            forall|i: int|
                0 <= i < old(self).contours_seq().len() ==> monotonic_rebuilt(
                    convert,
                    old(self).contours_seq()[i],
                    #[trigger] final(self).contours_seq()[i],
                ),
    {
        let n = self.contours.len();
        let mut i: usize = 0;
        let mut agg: Option<RectI> = None;
        proof {
            assert(self.contours@.take(0) =~= Seq::<Contour>::empty());
        }
        while i < n
            invariant
                n == self.contours@.len(),
                n == old(self).contours_seq().len(),
                i <= n,
                forall|v: Vec<Segment>| call_requires(convert, (v,)),
                forall|v: Vec<Segment>, out: Vec<Segment>|
                    call_ensures(convert, (v,), out) ==> out@.len() <= 0x0fff_ffff,
                forall|j: int| i <= j < n ==> self.contours@[j] == old(self).contours_seq()[j],
                forall|j: int| 0 <= j < n ==> (#[trigger] self.contours@[j]).wf(),
                forall|j: int|
                    0 <= j < i ==> monotonic_rebuilt(
                        convert,
                        old(self).contours_seq()[j],
                        #[trigger] self.contours@[j],
                    ),
                agg == agg_opt(self.contours@.take(i as int)),
            decreases n - i,
        {
            let ghost pre = self.contours@;
            let mut c = Contour::new();
            self.contours.set_and_swap(i, &mut c);
            c.make_monotonic(convert);
            if !c.is_empty() {
                c.update_bounds(&mut agg);
            }
            self.contours.set_and_swap(i, &mut c);
            proof {
                assert(self.contours@.take(i as int) =~= pre.take(i as int));
                assert(self.contours@.take(i + 1).drop_last() =~= self.contours@.take(i as int));
                assert(self.contours@.take(i + 1).last() == self.contours@[i as int]);
            }
            i += 1;
        }
        proof {
            assert(self.contours@.take(n as int) =~= self.contours@);
        }
        self.bounds = match agg {
            None => RectI::zero(),
            Some(r) => r,
        };
    }

    /// Replaces the contour list by running every contour through the
    /// polygon clipper, discarding contours that come back empty, and
    /// re-aggregating the bounds from the survivors. Surviving contours
    /// keep their original relative order.
    pub fn clip_against_polygon<F: Fn(&Vec<PointI>, Contour) -> Contour>(
        &mut self,
        clip_polygon: &Vec<PointI>,
        clipper: F,
    )
        requires
            old(self).wf(),
            forall|c: Contour| c.wf() ==> call_requires(clipper, (clip_polygon, c)),
            forall|c: Contour, out: Contour|
                call_ensures(clipper, (clip_polygon, c), out) ==> out.wf(),
        ensures
            final(self).wf(),
            exists|outs: Seq<Contour>|
                {
                    &&& #[trigger] outs.len() == old(self).contours_seq().len()
                    &&& forall|i: int|
                        0 <= i < outs.len() ==> call_ensures(
                            clipper,
                            (clip_polygon, old(self).contours_seq()[i]),
                            #[trigger] outs[i],
                        )
                    &&& final(self).contours_seq() == outs.filter(keep_nonempty())
                },
    {
        let mut old_contours: Vec<Contour> = Vec::new();
        core::mem::swap(&mut old_contours, &mut self.contours);
        let ghost orig = old_contours@;
        let ghost pred = keep_nonempty();
        let ghost mut outs: Seq<Contour> = Seq::empty();
        let mut agg: Option<RectI> = None;
        let n = old_contours.len();
        let mut i: usize = 0;
        proof {
            reveal(Seq::<Contour>::filter);
            assert(self.contours@ =~= Seq::<Contour>::empty());
            assert(outs.filter(pred) =~= Seq::<Contour>::empty());
        }
        while i < n
            invariant
                n == old_contours@.len(),
                n == orig.len(),
                i <= n,
                forall|j: int| i <= j < n ==> old_contours@[j] == orig[j],
                forall|j: int| 0 <= j < n ==> (#[trigger] orig[j]).wf(),
                forall|c: Contour| c.wf() ==> call_requires(clipper, (clip_polygon, c)),
                forall|c: Contour, out: Contour|
                    call_ensures(clipper, (clip_polygon, c), out) ==> out.wf(),
                outs.len() == i,
                forall|j: int|
                    0 <= j < i ==> call_ensures(
                        clipper,
                        (clip_polygon, orig[j]),
                        #[trigger] outs[j],
                    ),
                forall|j: int| 0 <= j < i ==> (#[trigger] outs[j]).wf(),
                pred == keep_nonempty(),
                self.contours@ == outs.filter(pred),
                forall|j: int| 0 <= j < self.contours@.len() ==> (#[trigger] self.contours@[j]).wf(),
                agg == agg_opt(self.contours@),
            decreases n - i,
        {
            let mut c = Contour::new();
            old_contours.set_and_swap(i, &mut c);
            proof {
                assert(c == orig[i as int]);
                assert(c.wf());
                assert(call_requires(clipper, (clip_polygon, c)));
            }
            let clipped = clipper(clip_polygon, c);
            let ghost pre_outs = outs;
            let ghost pre_kept = self.contours@;
            proof {
                outs = outs.push(clipped);
                assert(outs.drop_last() =~= pre_outs);
                assert(outs.last() == clipped);
            }
            if !clipped.is_empty() {
                clipped.update_bounds(&mut agg);
                self.contours.push(clipped);
                proof {
                    reveal(Seq::<Contour>::filter);
                    assert(self.contours@.drop_last() =~= pre_kept);
                    assert(pred(outs.last()));
                    assert(outs.drop_last() == pre_outs);
                    assert(outs.filter(pred) == pre_outs.filter(pred).push(outs.last()));
                    assert(self.contours@ =~= outs.filter(pred));
                }
            } else {
                proof {
                    reveal(Seq::<Contour>::filter);
                    assert(!pred(outs.last()));
                    assert(outs.drop_last() == pre_outs);
                    assert(outs.filter(pred) == pre_outs.filter(pred));
                }
            }
            i += 1;
        }
        self.bounds = match agg {
            None => RectI::zero(),
            Some(r) => r,
        };
    }

    /// Replaces the contour list by running every contour through the
    /// axis-aligned-rectangle clipper, discarding contours that come back
    /// empty, and re-aggregating the bounds from the survivors. Surviving
    /// contours keep their original relative order.
    pub fn clip_against_rect<F: Fn(&RectI, Contour) -> Contour>(
        &mut self,
        clip_rect: &RectI,
        clipper: F,
    )
        requires
            old(self).wf(),
            forall|c: Contour| c.wf() ==> call_requires(clipper, (clip_rect, c)),
            forall|c: Contour, out: Contour| call_ensures(clipper, (clip_rect, c), out) ==> out.wf(),
        ensures
            final(self).wf(),
            exists|outs: Seq<Contour>|
                {
                    &&& #[trigger] outs.len() == old(self).contours_seq().len()
                    &&& forall|i: int|
                        0 <= i < outs.len() ==> call_ensures(
                            clipper,
                            (clip_rect, old(self).contours_seq()[i]),
                            #[trigger] outs[i],
                        )
                    &&& final(self).contours_seq() == outs.filter(keep_nonempty())
                },
    {
        let mut old_contours: Vec<Contour> = Vec::new();
        core::mem::swap(&mut old_contours, &mut self.contours);
        let ghost orig = old_contours@;
        let ghost pred = keep_nonempty();
        let ghost mut outs: Seq<Contour> = Seq::empty();
        let mut agg: Option<RectI> = None;
        let n = old_contours.len();
        let mut i: usize = 0;
        proof {
            reveal(Seq::<Contour>::filter);
            assert(self.contours@ =~= Seq::<Contour>::empty());
            assert(outs.filter(pred) =~= Seq::<Contour>::empty());
        }
        while i < n
            invariant
                n == old_contours@.len(),
                n == orig.len(),
                i <= n,
                forall|j: int| i <= j < n ==> old_contours@[j] == orig[j],
                forall|j: int| 0 <= j < n ==> (#[trigger] orig[j]).wf(),
                forall|c: Contour| c.wf() ==> call_requires(clipper, (clip_rect, c)),
                forall|c: Contour, out: Contour|
                    call_ensures(clipper, (clip_rect, c), out) ==> out.wf(),
                outs.len() == i,
                forall|j: int|
                    0 <= j < i ==> call_ensures(clipper, (clip_rect, orig[j]), #[trigger] outs[j]),
                forall|j: int| 0 <= j < i ==> (#[trigger] outs[j]).wf(),
                pred == keep_nonempty(),
                self.contours@ == outs.filter(pred),
                forall|j: int| 0 <= j < self.contours@.len() ==> (#[trigger] self.contours@[j]).wf(),
                agg == agg_opt(self.contours@),
            decreases n - i,
        {
            let mut c = Contour::new();
            old_contours.set_and_swap(i, &mut c);
            proof {
                assert(c == orig[i as int]);
                assert(c.wf());
                assert(call_requires(clipper, (clip_rect, c)));
            }
            let clipped = clipper(clip_rect, c);
            let ghost pre_outs = outs;
            let ghost pre_kept = self.contours@;
            proof {
                outs = outs.push(clipped);
                assert(outs.drop_last() =~= pre_outs);
                assert(outs.last() == clipped);
            }
            if !clipped.is_empty() {
                clipped.update_bounds(&mut agg);
                self.contours.push(clipped);
                proof {
                    reveal(Seq::<Contour>::filter);
                    assert(self.contours@.drop_last() =~= pre_kept);
                    assert(pred(outs.last()));
                    assert(outs.drop_last() == pre_outs);
                    assert(outs.filter(pred) == pre_outs.filter(pred).push(outs.last()));
                    assert(self.contours@ =~= outs.filter(pred));
                }
            } else {
                proof {
                    reveal(Seq::<Contour>::filter);
                    assert(!pred(outs.last()));
                    assert(outs.drop_last() == pre_outs);
                    assert(outs.filter(pred) == pre_outs.filter(pred));
                }
            }
            i += 1;
        }
        self.bounds = match agg {
            None => RectI::zero(),
            Some(r) => r,
        };
    }
}

/// The characters the contours from position `i` on contribute to an
/// outline's textual form: each contour's path form, single spaces between
/// neighbours.
pub open spec fn outline_chars_from(cs: Seq<Contour>, i: int) -> Seq<char>
    decreases cs.len() - i,
{
    if i < 0 || i >= cs.len() {
        Seq::empty()
    } else if i == 0 {
        path_chars(cs[0]) + outline_chars_from(cs, 1)
    } else {
        seq![' '] + path_chars(cs[i]) + outline_chars_from(cs, i + 1)
    }
}

/// The textual form of a whole outline: its contours' path forms separated
/// by single spaces (empty for an outline with no contours).
pub open spec fn outline_path_chars(o: Outline) -> Seq<char> {
    outline_chars_from(o.contours_seq(), 0)
}

impl Outline {
    /// The textual path-description form of the whole outline: the
    /// contours' forms in order, separated by single spaces.
    pub fn path_string(&self) -> (r: String)
        requires
            self.wf(),
        ensures
            r@ == outline_path_chars(*self),
    {
        let mut s = String::new();
        let n = self.contours.len();
        let mut i: usize = 0;
        proof {
            assert(s@ + outline_chars_from(self.contours@, 0) =~= outline_path_chars(*self));
        }
        while i < n
            invariant
                n == self.contours@.len(),
                self.wf(),
                i <= n,
                s@ + outline_chars_from(self.contours@, i as int) == outline_path_chars(*self),
            decreases n - i,
        {
            let ghost pre = s@;
            if i > 0 {
                s.append(" ");
                proof {
                    reveal_strlit(" ");
                }
            }
            let cs = self.contours[i].path_string();
            s.append(cs.as_str());
            proof {
                if i > 0 {
                    assert(s@ =~= pre + (seq![' '] + path_chars(self.contours@[i as int])));
                    assert((pre + (seq![' '] + path_chars(self.contours@[i as int])))
                        + outline_chars_from(self.contours@, i + 1) =~= pre + outline_chars_from(
                        self.contours@,
                        i as int,
                    ));
                } else {
                    assert(s@ =~= pre + path_chars(self.contours@[0]));
                    assert((pre + path_chars(self.contours@[0])) + outline_chars_from(
                        self.contours@,
                        1,
                    ) =~= pre + outline_chars_from(self.contours@, 0));
                }
            }
            i += 1;
        }
        proof {
            assert(outline_chars_from(self.contours@, n as int) =~= Seq::<char>::empty());
            assert(s@ + outline_chars_from(self.contours@, n as int) =~= s@);
        }
        s
    }
}

/// How exact the aggregate bounds are: every stored point of every contour
/// lies inside them, and — whenever any contour is non-empty — each of the
/// four aggregate coordinates is attained by some stored point.
proof fn lemma_agg_exact(cs: Seq<Contour>)
    requires
        forall|i: int| 0 <= i < cs.len() ==> (#[trigger] cs[i]).wf(),
    ensures
        agg_opt(cs) is None ==> forall|i: int|
            0 <= i < cs.len() ==> (#[trigger] cs[i]).pts().len() == 0,
        forall|i: int, j: int|
            #![trigger cs[i].pts()[j]]
            0 <= i < cs.len() && 0 <= j < cs[i].pts().len() ==> agg_bounds(cs).spec_contains(
                cs[i].pts()[j],
            ),
        agg_opt(cs) is Some ==> exists|i: int, j: int|
            #![trigger cs[i].pts()[j]]
            0 <= i < cs.len() && 0 <= j < cs[i].pts().len() && cs[i].pts()[j].x == agg_bounds(
                cs,
            ).min_x,
        agg_opt(cs) is Some ==> exists|i: int, j: int|
            #![trigger cs[i].pts()[j]]
            0 <= i < cs.len() && 0 <= j < cs[i].pts().len() && cs[i].pts()[j].x == agg_bounds(
                cs,
            ).max_x,
        agg_opt(cs) is Some ==> exists|i: int, j: int|
            #![trigger cs[i].pts()[j]]
            0 <= i < cs.len() && 0 <= j < cs[i].pts().len() && cs[i].pts()[j].y == agg_bounds(
                cs,
            ).min_y,
        agg_opt(cs) is Some ==> exists|i: int, j: int|
            #![trigger cs[i].pts()[j]]
            0 <= i < cs.len() && 0 <= j < cs[i].pts().len() && cs[i].pts()[j].y == agg_bounds(
                cs,
            ).max_y,
    decreases cs.len(),
{
    if cs.len() == 0 {
    } else {
        let rest = cs.drop_last();
        let c = cs.last();
        let m = cs.len() - 1;
        assert(forall|i: int| 0 <= i < rest.len() ==> rest[i] == cs[i]);
        lemma_agg_exact(rest);
        if c.pts().len() == 0 {
            assert forall|i: int, j: int|
                #![trigger cs[i].pts()[j]]
                0 <= i < cs.len() && 0 <= j < cs[i].pts().len() implies agg_bounds(
                cs,
            ).spec_contains(cs[i].pts()[j]) by {
                assert(i < m);
                assert(rest[i] == cs[i]);
            }
            if agg_opt(cs) is Some {
                let (i, j) = choose|i: int, j: int|
                    #![trigger rest[i].pts()[j]]
                    0 <= i < rest.len() && 0 <= j < rest[i].pts().len() && rest[i].pts()[j].x
                        == agg_bounds(rest).min_x;
                assert(cs[i].pts()[j].x == agg_bounds(cs).min_x);
                let (i2, j2) = choose|i2: int, j2: int|
                    #![trigger rest[i2].pts()[j2]]
                    0 <= i2 < rest.len() && 0 <= j2 < rest[i2].pts().len() && rest[i2].pts()[j2].x
                        == agg_bounds(rest).max_x;
                assert(cs[i2].pts()[j2].x == agg_bounds(cs).max_x);
                let (i3, j3) = choose|i3: int, j3: int|
                    #![trigger rest[i3].pts()[j3]]
                    0 <= i3 < rest.len() && 0 <= j3 < rest[i3].pts().len() && rest[i3].pts()[j3].y
                        == agg_bounds(rest).min_y;
                assert(cs[i3].pts()[j3].y == agg_bounds(cs).min_y);
                let (i4, j4) = choose|i4: int, j4: int|
                    #![trigger rest[i4].pts()[j4]]
                    0 <= i4 < rest.len() && 0 <= j4 < rest[i4].pts().len() && rest[i4].pts()[j4].y
                        == agg_bounds(rest).max_y;
                assert(cs[i4].pts()[j4].y == agg_bounds(cs).max_y);
            }
        } else {
            lemma_bounds_exact(c.pts());
            let cb = bounds_of(c.pts());
            assert forall|i: int, j: int|
                #![trigger cs[i].pts()[j]]
                0 <= i < cs.len() && 0 <= j < cs[i].pts().len() implies agg_bounds(
                cs,
            ).spec_contains(cs[i].pts()[j]) by {
                if i < m {
                    assert(rest[i] == cs[i]);
                    assert(agg_opt(rest) is Some);
                    assert(agg_bounds(rest).spec_contains(cs[i].pts()[j]));
                } else {
                    assert(cb.spec_contains(cs[i].pts()[j]));
                }
            }
            let r = agg_bounds(cs);
            if agg_opt(rest) is None {
                let jx = choose|j: int| 0 <= j < c.pts().len() && #[trigger] c.pts()[j].x == cb.min_x;
                assert(cs[m].pts()[jx].x == r.min_x);
                let jx2 = choose|j: int|
                    0 <= j < c.pts().len() && #[trigger] c.pts()[j].x == cb.max_x;
                assert(cs[m].pts()[jx2].x == r.max_x);
                let jy = choose|j: int| 0 <= j < c.pts().len() && #[trigger] c.pts()[j].y == cb.min_y;
                assert(cs[m].pts()[jy].y == r.min_y);
                let jy2 = choose|j: int|
                    0 <= j < c.pts().len() && #[trigger] c.pts()[j].y == cb.max_y;
                assert(cs[m].pts()[jy2].y == r.max_y);
            } else {
                let rb = agg_bounds(rest);
                if r.min_x == cb.min_x {
                    let jx = choose|j: int|
                        0 <= j < c.pts().len() && #[trigger] c.pts()[j].x == cb.min_x;
                    assert(cs[m].pts()[jx].x == r.min_x);
                } else {
                    let (i, j) = choose|i: int, j: int|
                        #![trigger rest[i].pts()[j]]
                        0 <= i < rest.len() && 0 <= j < rest[i].pts().len() && rest[i].pts()[j].x
                            == rb.min_x;
                    assert(cs[i].pts()[j].x == r.min_x);
                }
                if r.max_x == cb.max_x {
                    let jx = choose|j: int|
                        0 <= j < c.pts().len() && #[trigger] c.pts()[j].x == cb.max_x;
                    assert(cs[m].pts()[jx].x == r.max_x);
                } else {
                    let (i, j) = choose|i: int, j: int|
                        #![trigger rest[i].pts()[j]]
                        0 <= i < rest.len() && 0 <= j < rest[i].pts().len() && rest[i].pts()[j].x
                            == rb.max_x;
                    assert(cs[i].pts()[j].x == r.max_x);
                }
                if r.min_y == cb.min_y {
                    let jy = choose|j: int|
                        0 <= j < c.pts().len() && #[trigger] c.pts()[j].y == cb.min_y;
                    assert(cs[m].pts()[jy].y == r.min_y);
                } else {
                    let (i, j) = choose|i: int, j: int|
                        #![trigger rest[i].pts()[j]]
                        0 <= i < rest.len() && 0 <= j < rest[i].pts().len() && rest[i].pts()[j].y
                            == rb.min_y;
                    assert(cs[i].pts()[j].y == r.min_y);
                }
                if r.max_y == cb.max_y {
                    let jy = choose|j: int|
                        0 <= j < c.pts().len() && #[trigger] c.pts()[j].y == cb.max_y;
                    assert(cs[m].pts()[jy].y == r.max_y);
                } else {
                    let (i, j) = choose|i: int, j: int|
                        #![trigger rest[i].pts()[j]]
                        0 <= i < rest.len() && 0 <= j < rest[i].pts().len() && rest[i].pts()[j].y
                            == rb.max_y;
                    assert(cs[i].pts()[j].y == r.max_y);
                }
            }
        }
    }
}

/// The cached-bounds law at the outline level: a well-formed outline's
/// aggregate bounds cover every point of every contour, and — as soon as
/// any contour is non-empty — each of the four cached coordinates is the
/// exact minimum or maximum attained by some stored point.
pub proof fn lemma_outline_bounds_exact(o: Outline)
    requires
        o.wf(),
    ensures
        forall|i: int, j: int|
            #![trigger o.contours_seq()[i].pts()[j]]
            0 <= i < o.contours_seq().len() && 0 <= j < o.contours_seq()[i].pts().len()
                ==> o.bounds_spec().spec_contains(o.contours_seq()[i].pts()[j]),
        (exists|i: int| 0 <= i < o.contours_seq().len() && (#[trigger] o.contours_seq()[i]).pts().len() > 0)
            ==> {
            &&& exists|i: int, j: int|
                #![trigger o.contours_seq()[i].pts()[j]]
                0 <= i < o.contours_seq().len() && 0 <= j < o.contours_seq()[i].pts().len()
                    && o.contours_seq()[i].pts()[j].x == o.bounds_spec().min_x
            &&& exists|i: int, j: int|
                #![trigger o.contours_seq()[i].pts()[j]]
                0 <= i < o.contours_seq().len() && 0 <= j < o.contours_seq()[i].pts().len()
                    && o.contours_seq()[i].pts()[j].x == o.bounds_spec().max_x
            &&& exists|i: int, j: int|
                #![trigger o.contours_seq()[i].pts()[j]]
                0 <= i < o.contours_seq().len() && 0 <= j < o.contours_seq()[i].pts().len()
                    && o.contours_seq()[i].pts()[j].y == o.bounds_spec().min_y
            &&& exists|i: int, j: int|
                #![trigger o.contours_seq()[i].pts()[j]]
                0 <= i < o.contours_seq().len() && 0 <= j < o.contours_seq()[i].pts().len()
                    && o.contours_seq()[i].pts()[j].y == o.bounds_spec().max_y
        },
{
    lemma_agg_exact(o.contours_seq());
    if exists|i: int|
        0 <= i < o.contours_seq().len() && (#[trigger] o.contours_seq()[i]).pts().len() > 0 {
        assert(!(agg_opt(o.contours_seq()) is None));
    }
}

/// The clip-containment law, over any point predicate: when every point of
/// every clipper output satisfies it, every point of every surviving
/// contour (the non-empty outputs, in order) satisfies it too.
pub proof fn lemma_clip_containment(
    outs: Seq<Contour>,
    kept: Seq<Contour>,
    inside: spec_fn(PointI) -> bool,
)
    requires
        kept == outs.filter(keep_nonempty()),
        forall|i: int, j: int|
            #![trigger outs[i].pts()[j]]
            0 <= i < outs.len() && 0 <= j < outs[i].pts().len() ==> inside(outs[i].pts()[j]),
    ensures
        forall|k: int, j: int|
            #![trigger kept[k].pts()[j]]
            0 <= k < kept.len() && 0 <= j < kept[k].pts().len() ==> inside(kept[k].pts()[j]),
    decreases outs.len(),
{
    reveal(Seq::<Contour>::filter);
    if outs.len() == 0 {
    } else {
        let rest = outs.drop_last();
        let prev = rest.filter(keep_nonempty());
        assert(forall|i: int| 0 <= i < rest.len() ==> rest[i] == outs[i]);
        lemma_clip_containment(rest, prev, inside);
        assert forall|k: int, j: int|
            #![trigger kept[k].pts()[j]]
            0 <= k < kept.len() && 0 <= j < kept[k].pts().len() implies inside(
            kept[k].pts()[j],
        ) by {
            if k < prev.len() {
                assert(kept[k] == prev[k]);
            } else {
                assert(kept[k] == outs.last());
                assert(outs[outs.len() - 1].pts()[j] == kept[k].pts()[j]);
            }
        }
    }
}

/// The clip-containment law for a convex polygon clip: if the clipper only
/// ever returns contours whose points lie in the polygon, every point of
/// every surviving contour lies in the polygon.
pub proof fn lemma_clip_containment_polygon(
    outs: Seq<Contour>,
    kept: Seq<Contour>,
    poly: Seq<PointI>,
)
    requires
        kept == outs.filter(keep_nonempty()),
        forall|i: int, j: int|
            #![trigger outs[i].pts()[j]]
            0 <= i < outs.len() && 0 <= j < outs[i].pts().len() ==> point_in_convex_polygon(
                outs[i].pts()[j],
                poly,
            ),
    ensures
        forall|k: int, j: int|
            #![trigger kept[k].pts()[j]]
            0 <= k < kept.len() && 0 <= j < kept[k].pts().len() ==> point_in_convex_polygon(
                kept[k].pts()[j],
                poly,
            ),
{
    let inside = |p: PointI| point_in_convex_polygon(p, poly);
    lemma_clip_containment(outs, kept, inside);
}

/// The clip-containment law for a rectangle clip: if the clipper only ever
/// returns contours whose points lie in the rectangle, every point of every
/// surviving contour lies in the rectangle.
pub proof fn lemma_clip_containment_rect(outs: Seq<Contour>, kept: Seq<Contour>, clip: RectI)
    requires
        kept == outs.filter(keep_nonempty()),
        forall|i: int, j: int|
            #![trigger outs[i].pts()[j]]
            0 <= i < outs.len() && 0 <= j < outs[i].pts().len() ==> clip.spec_contains(
                outs[i].pts()[j],
            ),
    ensures
        forall|k: int, j: int|
            #![trigger kept[k].pts()[j]]
            0 <= k < kept.len() && 0 <= j < kept[k].pts().len() ==> clip.spec_contains(
                kept[k].pts()[j],
            ),
{
    let inside = |p: PointI| clip.spec_contains(p);
    lemma_clip_containment(outs, kept, inside);
}

} // verus!
