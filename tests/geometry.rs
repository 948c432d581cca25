use bronze::geometry::{BBox, Circle, Intersects, Mixed, Movable, Point, Rect, Shape, ShapeRef};

fn px(v: i64) -> i64 {
    v * 1000
}

fn ext(v: u32) -> u32 {
    v * 1000
}

#[test]
fn points_meet_on_the_pixel_grid() {
    let a = Point::new(1900, 1900);
    assert!(a.intersects_point(&Point::new(1100, 1100)));
    assert!(!a.intersects_point(&Point::new(2100, 1100)));
}

#[test]
fn points_use_the_floor_for_negative_coordinates() {
    let a = Point::new(-100, 0);
    assert!(a.intersects_point(&Point::new(-900, 500)));
    assert!(!a.intersects_point(&Point::new(100, 0)));
}

#[test]
fn touching_rects_intersect() {
    let a = Rect::new(0, 0, 10_000, 10_000);
    let b = Rect::new(10_000, 0, 10_000, 10_000);
    assert!(a.intersects_rect(&b));
    assert!(b.intersects_rect(&a));
    let c = Rect::new(10_001, 0, 10_000, 10_000);
    assert!(!a.intersects_rect(&c));
}

#[test]
fn circles_meet_at_the_sum_of_radii() {
    let a = Circle::new(0, 0, 2000);
    let b = Circle::new(4000, -1000, 3000);
    assert!(a.intersects_circle(&b));
    assert!(b.intersects_circle(&a));
    let c = Circle::new(4001, -1000, 3000);
    assert!(!a.intersects_circle(&c));
    assert!(!c.intersects_circle(&a));
}

#[test]
fn point_in_rect_includes_edges() {
    let r = Rect::new(px(1), px(1), ext(2), ext(2));
    assert!(Point::new(px(3), px(3)).intersects_rect(&r));
    assert!(r.intersects_point(&Point::new(px(1), px(2))));
    assert!(!r.intersects_point(&Point::new(px(3) + 1, px(2))));
}

#[test]
fn point_in_circle_measures_from_the_center() {
    let c = Circle::new(0, 0, 5000);
    assert!(Point::new(5000, 0).intersects_circle(&c));
    assert!(c.intersects_point(&Point::new(8000, 1000)));
    assert!(!c.intersects_point(&Point::new(0, 0)));
    assert!(c.intersects_point(&Point::new(10_000, 5000)));
}

#[test]
fn rect_and_circle_use_the_closest_point() {
    let r = Rect::new(0, 0, 10_000, 10_000);
    let near = Circle::new(10_000, 0, 2000);
    assert!(r.intersects_circle(&near));
    assert!(near.intersects_rect(&r));
    let corner = Circle::new(10_500, 10_500, 1000);
    assert!(!r.intersects_circle(&corner));
    assert!(!corner.intersects_rect(&r));
    let inside = Circle::new(4000, 4000, 500);
    assert!(r.intersects_circle(&inside));
}

#[test]
fn intersection_is_symmetric() {
    let shapes = [
        Shape::Point(Point::new(1500, 1500)),
        Shape::Point(Point::new(9000, 9000)),
        Shape::Rect(Rect::new(0, 0, 4000, 4000)),
        Shape::Rect(Rect::new(4000, 2000, 1000, 1000)),
        Shape::Circle(Circle::new(3000, 3000, 1000)),
        Shape::Circle(Circle::new(8000, 8000, 600)),
        Shape::Rect(Rect::new(0, 0, 0, 0)),
    ];
    let members = [&shapes[0], &shapes[5]];
    let mixed = Mixed { shapes: &members };
    let mut refs: Vec<ShapeRef> = shapes.iter().map(|s| s.as_ref()).collect();
    refs.push(mixed.as_ref());
    refs.push(ShapeRef::Empty);
    for a in &refs {
        for b in &refs {
            assert_eq!(a.intersects(b), b.intersects(a));
        }
    }
}

#[test]
fn shapes_intersect_themselves() {
    let r = Rect::new(px(5), px(5), ext(3), ext(4));
    assert!(r.intersects(&r.clone()));
    let c = Circle::new(-px(5), px(5), 700);
    assert!(c.intersects(&c));
    let p = Point::new(42, -42);
    assert!(p.intersects(&p));
    let degenerate = Circle::new(100, 100, 0);
    assert!(degenerate.intersects(&degenerate));
    assert!(!ShapeRef::Empty.intersects(&ShapeRef::Empty));
}

#[test]
fn zero_size_shapes_behave_like_points() {
    let r = Rect::new(px(2), px(2), 0, 0);
    let c = Circle::new(px(2), px(2), 0);
    let p = Point::new(px(2), px(2));
    assert!(r.intersects_circle(&c));
    assert!(p.intersects_rect(&r));
    assert!(p.intersects_circle(&c));
    let big = Rect::new(0, 0, ext(4), ext(4));
    assert!(big.intersects_rect(&r));
    assert!(big.intersects_circle(&c));
}

#[test]
fn mixed_is_hit_through_any_member() {
    let far = Shape::Rect(Rect::new(px(1000), px(1000), ext(10), ext(10)));
    let near = Shape::Circle(Circle::new(0, 0, ext(5)));
    let members = [&far, &near];
    let mixed = Mixed { shapes: &members };
    let query = Rect::new(px(8), px(8), ext(4), ext(4));
    assert!(mixed.intersects_rect(&query));
    assert!(query.intersects_mixed(&mixed));
    assert!(mixed.intersects(&query));
    let gap = Rect::new(px(500), px(500), ext(4), ext(4));
    assert!(!mixed.intersects_rect(&gap));
    assert!(!gap.intersects(&mixed));
}

#[test]
fn mixed_against_mixed() {
    let a1 = Shape::Point(Point::new(0, 0));
    let a2 = Shape::Rect(Rect::new(px(10), 0, ext(2), ext(2)));
    let b1 = Shape::Circle(Circle::new(px(11), px(1), ext(1)));
    let a = [&a1, &a2];
    let b = [&b1];
    let ma = Mixed { shapes: &a };
    let mb = Mixed { shapes: &b };
    assert!(ma.intersects_mixed(&mb));
    assert!(mb.intersects(&ma));
    let empty: [&Shape; 0] = [];
    let me = Mixed { shapes: &empty };
    assert!(!ma.intersects_mixed(&me));
    assert!(!me.intersects(&ma));
}

#[test]
fn mixed_box_is_the_union_of_member_boxes() {
    let s1 = Shape::Rect(Rect::new(-px(3), px(2), ext(4), ext(1)));
    let s2 = Shape::Circle(Circle::new(px(5), -px(1), ext(2)));
    let s3 = Shape::Point(Point::new(0, px(9)));
    let members = [&s1, &s2, &s3];
    let m = Mixed { shapes: &members };
    assert_eq!(m.left(), -3000);
    assert_eq!(m.top(), -1000);
    assert_eq!(m.right(), 9000);
    assert_eq!(m.bottom(), 9000);
    assert_eq!(m.width(), 12_000);
    assert_eq!(m.height(), 10_000);
    let empty: [&Shape; 0] = [];
    let e = Mixed { shapes: &empty };
    assert_eq!((e.left(), e.top(), e.width(), e.height()), (0, 0, 0, 0));
}

#[test]
fn derived_box_values() {
    let c = Circle::new(px(10), px(20), ext(3));
    assert_eq!(c.width(), 6000);
    assert_eq!(c.height(), 6000);
    assert_eq!(c.right(), 16_000);
    assert_eq!(c.bottom(), 26_000);
    assert_eq!(c.center(), (13_000, 23_000));
    assert_eq!(c.position(), Point::new(px(10), px(20)));
    let r = Rect::new(1, 2, 5, 8);
    assert_eq!((r.center_x(), r.center_y()), (3, 6));
    let e = ShapeRef::Empty;
    assert_eq!((e.left(), e.top(), e.width(), e.height()), (0, 0, 0, 0));
    assert_eq!(Circle::from_point(Point::new(3, 4), 9), Circle::new(3, 4, 9));
    assert_eq!(Circle::new(0, 0, 7).radius(), 7);
}

#[test]
fn moving_keeps_the_extent() {
    let mut r = Rect::new(0, 0, ext(4), ext(2));
    r.set_center(px(10), px(10));
    assert_eq!((r.x, r.y, r.width, r.height), (px(8), px(9), ext(4), ext(2)));
    r.set_right(px(20));
    assert_eq!((r.x, r.y), (px(16), px(9)));
    r.set_bottom(0);
    assert_eq!((r.x, r.y), (px(16), -px(2)));
    r.move_by(-px(16), px(2));
    assert_eq!((r.x, r.y), (0, 0));
    r.set_left(5);
    r.set_top(6);
    assert_eq!((r.x, r.y, r.width, r.height), (5, 6, ext(4), ext(2)));
    let mut s = Shape::Circle(Circle::new(0, 0, 10));
    s.set_position(100, 200);
    assert_eq!(s, Shape::Circle(Circle::new(100, 200, 10)));
    s.move_by(1, 2);
    assert_eq!(s, Shape::Circle(Circle::new(101, 202, 10)));
    let mut p = Point::new(0, 0);
    p.set_center(7, 8);
    assert_eq!(p, Point::new(7, 8));
}

#[test]
fn extreme_coordinates_do_not_overflow() {
    let far = Circle::new(i64::MAX, i64::MAX, u32::MAX);
    let near = Circle::new(i64::MIN, i64::MIN, u32::MAX);
    assert!(!far.intersects_circle(&near));
    assert!(far.intersects_circle(&far));
    let wide = Rect::new(i64::MAX, i64::MIN, u32::MAX, u32::MAX);
    assert!(wide.intersects_circle(&Circle::new(i64::MAX, i64::MIN, 0)));
    assert!(!wide.intersects_circle(&near));
    assert!(!Point::new(i64::MIN, i64::MAX).intersects_circle(&far));
    assert!(!Point::new(i64::MIN, 0).intersects_point(&Point::new(i64::MAX, 0)));
    assert_eq!(wide.right(), i64::MAX as i128 + u32::MAX as i128);
    let a = Shape::Point(Point::new(i64::MIN, i64::MIN));
    let b = Shape::Circle(far);
    let members = [&a, &b];
    let m = Mixed { shapes: &members };
    assert_eq!(m.width(), i64::MAX as i128 + 2 * u32::MAX as i128 - i64::MIN as i128);
}
