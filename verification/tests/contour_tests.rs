use geometry::contour::Contour;
use geometry::geom::{PointI, RectI};
use geometry::segment::{Segment, SegmentKind};

fn p(x: i32, y: i32) -> PointI {
    PointI { x, y }
}

#[test]
fn push_point_tracks_bounds_incrementally() {
    let mut c = Contour::new();
    assert!(c.is_empty());
    assert_eq!(c.bounds(), RectI::zero());
    c.push_segment(Segment::line(p(2, 3), p(7, -1)));
    let b = c.bounds();
    assert_eq!((b.min_x, b.min_y, b.max_x, b.max_y), (2, -1, 7, 3));
    c.push_segment(Segment::line(p(7, -1), p(-4, 10)));
    let b = c.bounds();
    assert_eq!((b.min_x, b.min_y, b.max_x, b.max_y), (-4, -1, 7, 10));
    assert_eq!(c.len(), 3);
}

#[test]
fn push_segment_seeds_start_point_once() {
    let mut c = Contour::new();
    c.push_segment(Segment::line(p(0, 0), p(5, 0)));
    assert_eq!(c.len(), 2);
    c.push_segment(Segment::line(p(5, 0), p(5, 5)));
    // the shared endpoint is not stored twice
    assert_eq!(c.len(), 3);
    assert_eq!(c.position_of(0), p(0, 0));
    assert_eq!(c.position_of(1), p(5, 0));
    assert_eq!(c.position_of(2), p(5, 5));
}

#[test]
fn none_segment_is_a_no_op() {
    let mut c = Contour::new();
    c.push_segment(Segment::line(p(0, 0), p(5, 0)));
    c.push_segment(Segment::none());
    assert_eq!(c.len(), 2);
}

#[test]
fn single_cubic_segment_yields_four_flagged_points() {
    // endpoint, first control, second control, endpoint
    let mut c = Contour::new();
    c.push_segment(Segment::cubic(p(0, 0), p(10, 10), p(0, 10), p(10, 0)));
    assert_eq!(c.len(), 4);
    assert_eq!(c.flag_at(0).bits, 0);
    assert_eq!(c.flag_at(1).bits, 1);
    assert_eq!(c.flag_at(2).bits, 2);
    assert_eq!(c.flag_at(3).bits, 0);
    assert_eq!(c.position_of(1), p(0, 10));
    assert_eq!(c.position_of(2), p(10, 0));
    assert_eq!(c.path_string(), "M 0 0 C 0 10 10 0 10 10 z");
}

#[test]
fn iterator_reconstructs_segments_and_counts_endpoints() {
    let mut c = Contour::new();
    c.push_segment(Segment::line(p(0, 0), p(10, 0)));
    c.push_segment(Segment::quadratic(p(10, 0), p(10, 10), p(12, 5)));
    c.push_segment(Segment::cubic(p(10, 10), p(0, 10), p(7, 13), p(3, 13)));
    // endpoints: (0,0), (10,0), (10,10), (0,10) -> four segments, the last
    // one the implicit closing line back to the start
    let mut it = c.iter();
    let s0 = it.next().unwrap();
    assert_eq!(s0.kind, SegmentKind::Line);
    assert_eq!(s0.baseline.from, p(0, 0));
    assert_eq!(s0.baseline.to, p(10, 0));
    let s1 = it.next().unwrap();
    assert_eq!(s1.kind, SegmentKind::Quadratic);
    assert_eq!(s1.ctrl.from, p(12, 5));
    assert_eq!(s1.baseline.to, p(10, 10));
    let s2 = it.next().unwrap();
    assert_eq!(s2.kind, SegmentKind::Cubic);
    assert_eq!(s2.ctrl.from, p(7, 13));
    assert_eq!(s2.ctrl.to, p(3, 13));
    assert_eq!(s2.baseline.to, p(0, 10));
    let s3 = it.next().unwrap();
    assert_eq!(s3.kind, SegmentKind::Line);
    assert!(s3.closes_subpath);
    assert_eq!(s3.baseline.from, p(0, 10));
    assert_eq!(s3.baseline.to, p(0, 0));
    assert!(it.next().is_none());

    // segment count equals endpoint count
    let mut endpoints = 0;
    for i in 0..c.len() {
        if c.point_is_endpoint(i) {
            endpoints += 1;
        }
    }
    assert_eq!(endpoints, 4);
    assert_eq!(c.segments().len(), 4);
}

#[test]
fn round_trip_rebuilds_identical_arrays() {
    let mut c = Contour::new();
    c.push_segment(Segment::line(p(-3, 4), p(10, 0)));
    c.push_segment(Segment::quadratic(p(10, 0), p(10, 10), p(12, 5)));
    c.push_segment(Segment::cubic(p(10, 10), p(-3, 4), p(7, 13), p(3, 13)));
    let mut rebuilt = Contour::new();
    for seg in c.segments() {
        rebuilt.push_segment(seg);
    }
    assert_eq!(rebuilt.len(), c.len());
    for i in 0..c.len() {
        assert_eq!(rebuilt.position_of(i), c.position_of(i));
        assert_eq!(rebuilt.flag_at(i), c.flag_at(i));
    }
    assert_eq!(rebuilt.bounds(), c.bounds());
}

#[test]
fn round_trip_of_single_point_contour() {
    let mut c = Contour::new();
    c.push_segment(Segment::line(p(4, 5), p(4, 5)));
    // a contour of two coincident endpoints still round-trips exactly
    let mut rebuilt = Contour::new();
    for seg in c.segments() {
        rebuilt.push_segment(seg);
    }
    assert_eq!(rebuilt.len(), c.len());
    for i in 0..c.len() {
        assert_eq!(rebuilt.position_of(i), c.position_of(i));
        assert_eq!(rebuilt.flag_at(i), c.flag_at(i));
    }
}

#[test]
fn segment_after_wraps_across_the_end() {
    let mut c = Contour::new();
    c.push_segment(Segment::line(p(0, 0), p(4, 0)));
    c.push_segment(Segment::line(p(4, 0), p(4, 4)));
    let closing = c.segment_after(2);
    assert_eq!(closing.kind, SegmentKind::Line);
    assert_eq!(closing.baseline.from, p(4, 4));
    assert_eq!(closing.baseline.to, p(0, 0));
    let first = c.segment_after(0);
    assert_eq!(first.baseline.to, p(4, 0));
}

#[test]
fn segment_after_reads_control_points() {
    let mut c = Contour::new();
    c.push_segment(Segment::cubic(p(0, 0), p(9, 9), p(1, 5), p(8, 5)));
    let s = c.segment_after(0);
    assert_eq!(s.kind, SegmentKind::Cubic);
    assert_eq!(s.ctrl.from, p(1, 5));
    assert_eq!(s.ctrl.to, p(8, 5));
    assert_eq!(s.baseline.to, p(9, 9));
    let closing = c.segment_after(3);
    assert_eq!(closing.kind, SegmentKind::Line);
    assert_eq!(closing.baseline.to, p(0, 0));
}

#[test]
fn circular_index_closure() {
    let mut c = Contour::new();
    c.push_segment(Segment::line(p(0, 0), p(1, 0)));
    c.push_segment(Segment::line(p(1, 0), p(2, 0)));
    c.push_segment(Segment::line(p(2, 0), p(3, 0)));
    c.push_segment(Segment::line(p(3, 0), p(4, 0)));
    let n = c.len();
    assert_eq!(n, 5);
    for i in 0..n {
        assert_eq!(c.next_point_index_of(c.prev_point_index_of(i)), i);
        assert_eq!(c.prev_point_index_of(c.next_point_index_of(i)), i);
        let mut j = i;
        for _ in 0..n {
            j = c.next_point_index_of(j);
        }
        assert_eq!(j, i);
    }
    assert_eq!(c.next_point_index_of(n - 1), 0);
    assert_eq!(c.prev_point_index_of(0), n - 1);
    assert_eq!(c.add_to_point_index(3, 3), 1);
    assert_eq!(c.add_to_point_index(1, 2), 3);
}

#[test]
fn endpoint_navigation_skips_control_points() {
    let mut c = Contour::new();
    c.push_segment(Segment::line(p(0, 0), p(10, 0)));
    c.push_segment(Segment::cubic(p(10, 0), p(10, 10), p(12, 2), p(12, 8)));
    // points: 0 EP, 1 EP, 2 C0, 3 C1, 4 EP
    assert_eq!(c.next_endpoint_index_of(1), 4);
    assert_eq!(c.prev_endpoint_index_of(4), 1);
    assert_eq!(c.next_endpoint_index_of(4), 0);
    assert_eq!(c.prev_endpoint_index_of(0), 4);
}

#[test]
fn logically_above_orders_by_y_then_index() {
    let mut c = Contour::new();
    c.push_segment(Segment::line(p(0, 5), p(3, 2)));
    c.push_segment(Segment::line(p(3, 2), p(8, 2)));
    assert!(c.point_is_logically_above(1, 0));
    assert!(!c.point_is_logically_above(0, 1));
    // equal heights: the smaller index wins
    assert!(c.point_is_logically_above(1, 2));
    assert!(!c.point_is_logically_above(2, 1));
}

#[test]
fn take_detaches_storage() {
    let mut c = Contour::new();
    c.push_segment(Segment::line(p(1, 1), p(2, 2)));
    let taken = c.take();
    assert!(c.is_empty());
    assert_eq!(c.bounds(), RectI::zero());
    assert_eq!(taken.len(), 2);
    assert_eq!(taken.position_of(0), p(1, 1));
}

#[test]
fn last_position_reports_newest_point() {
    let mut c = Contour::new();
    assert!(c.last_position().is_none());
    c.push_segment(Segment::line(p(1, 1), p(2, 2)));
    assert_eq!(c.last_position(), Some(p(2, 2)));
}

#[test]
fn transform_doubles_points_and_bounds() {
    let mut c = Contour::new();
    c.push_segment(Segment::line(p(0, 0), p(10, 0)));
    c.push_segment(Segment::line(p(10, 0), p(0, 10)));
    c.transform(|q: PointI| PointI { x: q.x * 2, y: q.y * 2 });
    assert_eq!(c.position_of(1), p(20, 0));
    assert_eq!(c.position_of(2), p(0, 20));
    let b = c.bounds();
    assert_eq!((b.min_x, b.min_y, b.max_x, b.max_y), (0, 0, 20, 20));
}

#[test]
fn apply_perspective_translates_points() {
    let mut c = Contour::new();
    c.push_segment(Segment::line(p(0, 0), p(4, 4)));
    c.apply_perspective(|q: PointI| PointI { x: q.x + 100, y: q.y - 50 });
    assert_eq!(c.position_of(0), p(100, -50));
    assert_eq!(c.position_of(1), p(104, -46));
    let b = c.bounds();
    assert_eq!((b.min_x, b.min_y, b.max_x, b.max_y), (100, -50, 104, -46));
}

#[test]
fn make_monotonic_with_identity_keeps_contour() {
    let mut c = Contour::new();
    c.push_segment(Segment::line(p(0, 0), p(10, 0)));
    c.push_segment(Segment::quadratic(p(10, 0), p(10, 10), p(12, 5)));
    let before: Vec<PointI> = (0..c.len()).map(|i| c.position_of(i)).collect();
    c.make_monotonic(|v: Vec<Segment>| v);
    assert_eq!(c.len() as usize, before.len());
    for (i, q) in before.iter().enumerate() {
        assert_eq!(c.position_of(i as u32), *q);
    }
}

#[test]
fn make_monotonic_replays_decomposed_segments() {
    let mut c = Contour::new();
    c.push_segment(Segment::line(p(0, 0), p(10, 0)));
    c.push_segment(Segment::line(p(10, 0), p(5, 8)));
    // a decomposer that splits every line at its midpoint
    c.make_monotonic(|v: Vec<Segment>| {
        let mut out = Vec::new();
        for s in v {
            if s.kind == SegmentKind::Line && !s.closes_subpath {
                let mid = PointI {
                    x: (s.baseline.from.x + s.baseline.to.x) / 2,
                    y: (s.baseline.from.y + s.baseline.to.y) / 2,
                };
                out.push(Segment::line(s.baseline.from, mid));
                out.push(Segment::line(mid, s.baseline.to));
            } else {
                out.push(s);
            }
        }
        out
    });
    assert_eq!(c.len(), 5);
    assert_eq!(c.position_of(1), p(5, 0));
    assert_eq!(c.position_of(3), p(7, 4));
}

#[test]
fn path_string_of_empty_contour() {
    let c = Contour::new();
    assert_eq!(c.path_string(), " z");
}

#[test]
fn path_string_with_negative_coordinates() {
    let mut c = Contour::new();
    c.push_segment(Segment::line(p(-3, 4), p(10, -20)));
    assert_eq!(c.path_string(), "M -3 4 L 10 -20 z");
}

#[test]
fn path_string_prints_quadratic_controls() {
    let mut c = Contour::new();
    c.push_segment(Segment::line(p(0, 0), p(10, 0)));
    c.push_segment(Segment::quadratic(p(10, 0), p(10, 10), p(12, 5)));
    assert_eq!(c.path_string(), "M 0 0 L 10 0 Q 12 5 10 10 z");
}
