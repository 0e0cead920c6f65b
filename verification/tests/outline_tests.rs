use geometry::contour::Contour;
use geometry::geom::{PointI, RectI};
use geometry::outline::Outline;
use geometry::point_index::PointIndex;
use geometry::segment::Segment;

fn p(x: i32, y: i32) -> PointI {
    PointI { x, y }
}

fn triangle_segments() -> Vec<Segment> {
    let mut s0 = Segment::line(p(0, 0), p(10, 0));
    s0.first_in_subpath = true;
    let s1 = Segment::line(p(10, 0), p(5, 8));
    let mut s2 = Segment::line(p(5, 8), p(0, 0));
    s2.closes_subpath = true;
    vec![s0, s1, s2]
}

fn square_segments(x0: i32, y0: i32, side: i32) -> Vec<Segment> {
    let mut s0 = Segment::line(p(x0, y0), p(x0 + side, y0));
    s0.first_in_subpath = true;
    let s1 = Segment::line(p(x0 + side, y0), p(x0 + side, y0 + side));
    let s2 = Segment::line(p(x0 + side, y0 + side), p(x0, y0 + side));
    let mut s3 = Segment::line(p(x0, y0 + side), p(x0, y0));
    s3.closes_subpath = true;
    vec![s0, s1, s2, s3]
}

fn square_outline(x0: i32, y0: i32, side: i32) -> Outline {
    Outline::from_segments(&square_segments(x0, y0, side))
}

#[test]
fn closed_triangle_builds_one_contour_of_three_endpoints() {
    let o = Outline::from_segments(&triangle_segments());
    assert_eq!(o.contours.len(), 1);
    let c = &o.contours[0];
    assert_eq!(c.len(), 3);
    for i in 0..3 {
        assert!(c.point_is_endpoint(i));
    }
    assert_eq!(c.position_of(0), p(0, 0));
    assert_eq!(c.position_of(1), p(10, 0));
    assert_eq!(c.position_of(2), p(5, 8));
    let b = o.bounds();
    assert_eq!((b.min_x, b.min_y, b.max_x, b.max_y), (0, 0, 10, 8));
    assert_eq!(o.path_string(), "M 0 0 L 10 0 L 5 8 z");
}

#[test]
fn single_cubic_stream_builds_four_point_contour() {
    let mut s = Segment::cubic(p(0, 0), p(10, 10), p(0, 10), p(10, 0));
    s.first_in_subpath = true;
    let o = Outline::from_segments(&vec![s]);
    assert_eq!(o.contours.len(), 1);
    let c = &o.contours[0];
    assert_eq!(c.len(), 4);
    assert_eq!(c.flag_at(0).bits, 0);
    assert_eq!(c.flag_at(1).bits, 1);
    assert_eq!(c.flag_at(2).bits, 2);
    assert_eq!(c.flag_at(3).bits, 0);
    assert_eq!(o.path_string(), "M 0 0 C 0 10 10 0 10 10 z");
}

#[test]
fn empty_stream_builds_empty_outline() {
    let o = Outline::from_segments(&Vec::new());
    assert_eq!(o.contours.len(), 0);
    assert_eq!(o.bounds(), RectI::zero());
    assert_eq!(o.path_string(), "");
}

#[test]
fn none_segments_are_skipped() {
    let mut segs = triangle_segments();
    segs.insert(1, Segment::none());
    let o = Outline::from_segments(&segs);
    assert_eq!(o.contours.len(), 1);
    assert_eq!(o.contours[0].len(), 3);
}

#[test]
fn two_subpaths_build_two_contours_in_order() {
    let mut segs = triangle_segments();
    let mut s0 = Segment::line(p(100, 100), p(110, 100));
    s0.first_in_subpath = true;
    let mut s1 = Segment::line(p(110, 100), p(100, 100));
    s1.closes_subpath = true;
    segs.push(s0);
    segs.push(s1);
    let o = Outline::from_segments(&segs);
    assert_eq!(o.contours.len(), 2);
    assert_eq!(o.contours[0].position_of(0), p(0, 0));
    assert_eq!(o.contours[1].position_of(0), p(100, 100));
    let b = o.bounds();
    assert_eq!((b.min_x, b.min_y, b.max_x, b.max_y), (0, 0, 110, 100));
    assert_eq!(
        o.path_string(),
        "M 0 0 L 10 0 L 5 8 z M 100 100 L 110 100 z"
    );
}

#[test]
fn unclosed_trailing_subpath_is_flushed() {
    let mut s0 = Segment::line(p(0, 0), p(4, 0));
    s0.first_in_subpath = true;
    let s1 = Segment::line(p(4, 0), p(4, 4));
    let o = Outline::from_segments(&vec![s0, s1]);
    assert_eq!(o.contours.len(), 1);
    assert_eq!(o.contours[0].len(), 3);
    let b = o.bounds();
    assert_eq!((b.min_x, b.min_y, b.max_x, b.max_y), (0, 0, 4, 4));
}

#[test]
fn scale_by_two_doubles_outline_bounds() {
    let mut o = square_outline(0, 0, 10);
    let b = o.bounds();
    assert_eq!((b.min_x, b.min_y, b.max_x, b.max_y), (0, 0, 10, 10));
    o.transform(|q: PointI| PointI { x: q.x * 2, y: q.y * 2 });
    let b = o.bounds();
    assert_eq!((b.min_x, b.min_y, b.max_x, b.max_y), (0, 0, 20, 20));
    let c = &o.contours[0];
    assert_eq!(c.position_of(0), p(0, 0));
    assert_eq!(c.position_of(1), p(20, 0));
    assert_eq!(c.position_of(2), p(20, 20));
    assert_eq!(c.position_of(3), p(0, 20));
}

#[test]
fn apply_perspective_moves_outline_bounds() {
    let mut o = square_outline(0, 0, 10);
    o.apply_perspective(|q: PointI| PointI { x: q.x - 5, y: q.y + 5 });
    let b = o.bounds();
    assert_eq!((b.min_x, b.min_y, b.max_x, b.max_y), (-5, 5, 5, 15));
}

#[test]
fn clipping_away_every_contour_leaves_empty_bounds() {
    // a square entirely outside the clip rectangle is clipped to nothing
    let mut o = square_outline(100, 100, 10);
    let clip = RectI { min_x: 0, min_y: 0, max_x: 50, max_y: 50 };
    o.clip_against_rect(&clip, |r: &RectI, c: Contour| {
        let b = c.bounds();
        if b.min_x > r.max_x || b.max_x < r.min_x || b.min_y > r.max_y || b.max_y < r.min_y {
            Contour::new()
        } else {
            c
        }
    });
    assert_eq!(o.contours.len(), 0);
    assert_eq!(o.bounds(), RectI::zero());
}

#[test]
fn rect_clip_keeps_survivors_in_order() {
    let mut segs = square_segments(0, 0, 10);
    segs.extend(square_segments(100, 100, 10));
    segs.extend(square_segments(20, 20, 10));
    let mut o = Outline::from_segments(&segs);
    assert_eq!(o.contours.len(), 3);
    let clip = RectI { min_x: 0, min_y: 0, max_x: 40, max_y: 40 };
    o.clip_against_rect(&clip, |r: &RectI, c: Contour| {
        let b = c.bounds();
        if b.min_x > r.max_x || b.max_x < r.min_x || b.min_y > r.max_y || b.max_y < r.min_y {
            Contour::new()
        } else {
            c
        }
    });
    assert_eq!(o.contours.len(), 2);
    assert_eq!(o.contours[0].position_of(0), p(0, 0));
    assert_eq!(o.contours[1].position_of(0), p(20, 20));
    let b = o.bounds();
    assert_eq!((b.min_x, b.min_y, b.max_x, b.max_y), (0, 0, 30, 30));
}

#[test]
fn polygon_clip_survivors_stay_inside_polygon() {
    let mut segs = square_segments(2, 2, 4);
    segs.extend(square_segments(50, 50, 4));
    let mut o = Outline::from_segments(&segs);
    // clip region: the square (0,0)..(10,10) as a counterclockwise polygon
    let poly = vec![p(0, 0), p(10, 0), p(10, 10), p(0, 10)];
    o.clip_against_polygon(&poly, |poly: &Vec<PointI>, c: Contour| {
        let mut all_inside = true;
        for i in 0..c.len() {
            let q = c.position_of(i);
            for k in 0..poly.len() {
                let a = poly[k];
                let b = poly[(k + 1) % poly.len()];
                let cross = (b.x - a.x) as i64 * (q.y - a.y) as i64
                    - (b.y - a.y) as i64 * (q.x - a.x) as i64;
                if cross < 0 {
                    all_inside = false;
                }
            }
        }
        if all_inside {
            c
        } else {
            Contour::new()
        }
    });
    assert_eq!(o.contours.len(), 1);
    let c = &o.contours[0];
    for i in 0..c.len() {
        let q = c.position_of(i);
        assert!(q.x >= 0 && q.x <= 10 && q.y >= 0 && q.y <= 10);
    }
}

#[test]
fn outline_make_monotonic_keeps_geometry_with_identity() {
    let mut o = square_outline(0, 0, 10);
    o.make_monotonic(|v: Vec<Segment>| v);
    assert_eq!(o.contours.len(), 1);
    assert_eq!(o.contours[0].len(), 4);
    let b = o.bounds();
    assert_eq!((b.min_x, b.min_y, b.max_x, b.max_y), (0, 0, 10, 10));
}

#[test]
fn point_index_packs_and_unpacks() {
    let k = PointIndex::new(0xfff, 0xf_ffff);
    assert_eq!(k.contour(), 0xfff);
    assert_eq!(k.point(), 0xf_ffff);
    let z = PointIndex::new(0, 0);
    assert_eq!(z.contour(), 0);
    assert_eq!(z.point(), 0);
    assert_eq!(z, PointIndex::default());
}

#[test]
fn point_index_orders_by_contour_then_point() {
    let a = PointIndex::new(1, 500);
    let b = PointIndex::new(2, 0);
    let c = PointIndex::new(2, 1);
    assert!(a < b);
    assert!(b < c);
    assert_eq!(PointIndex::new(1, 500), a);
}
