//! Shapes, their bounding boxes and pairwise intersection tests.
//!
//! Coordinates are fixed-point: one unit is a thousandth of a pixel
//! (see [`UNITS_PER_PIXEL`]). Positions are `i64`, extents are `u32`, and the
//! derived quantities (right edge, center, the extent of a composite) are
//! computed in `i128`, so no operation here can overflow or fail.
use vstd::prelude::*;

verus! {

/// Number of coordinate units in one pixel.
pub const UNITS_PER_PIXEL: i64 = 1000;

/// The pixel that a coordinate falls in: its floor on the pixel grid.
pub open spec fn pixel(v: int) -> int {
    v / (UNITS_PER_PIXEL as int)
}

/// Squared Euclidean distance between `(ax, ay)` and `(bx, by)`.
pub open spec fn dist_sq(ax: int, ay: int, bx: int, by: int) -> int {
    (ax - bx) * (ax - bx) + (ay - by) * (ay - by)
}

/// `v` moved into the interval `[lo, hi]` (with `lo <= hi`).
pub open spec fn clamp(v: int, lo: int, hi: int) -> int {
    if v < lo {
        lo
    } else if v > hi {
        hi
    } else {
        v
    }
}

/// A zero-area shape at `(x, y)`.
#[derive(Clone, Copy, Debug, PartialEq, Eq, Structural)]
pub struct Point {
    pub x: i64,
    pub y: i64,
}

/// An axis-aligned rectangle whose top-left corner is `(x, y)`.
#[derive(Clone, Copy, Debug, PartialEq, Eq, Structural)]
pub struct Rect {
    pub x: i64,
    pub y: i64,
    pub width: u32,
    pub height: u32,
}

/// A circle whose bounding box has its top-left corner at `(x, y)`; its center
/// is `(x + radius, y + radius)`.
#[derive(Clone, Copy, Debug, PartialEq, Eq, Structural)]
pub struct Circle {
    pub x: i64,
    pub y: i64,
    pub radius: u32,
}

/// One of the three simple shapes.
#[derive(Clone, Copy, Debug, PartialEq, Eq, Structural)]
pub enum Shape {
    Point(Point),
    Rect(Rect),
    Circle(Circle),
}

impl Point {
    pub open spec fn in_rect(self, r: Rect) -> bool {
        &&& r.x <= self.x <= r.x + r.width
        &&& r.y <= self.y <= r.y + r.height
    }

    /// The point lies in the closed disk of `c`.
    pub open spec fn in_circle(self, c: Circle) -> bool {
        c.point_inside(self.x as int, self.y as int)
    }
}

impl Rect {
    /// Inclusive overlap: the two rectangles are not separated on either axis.
    pub open spec fn touches_rect(self, o: Rect) -> bool {
        &&& self.x <= o.x + o.width
        &&& self.x + self.width >= o.x
        &&& self.y <= o.y + o.height
        &&& self.y + self.height >= o.y
    }

    /// The point of the rectangle closest to the center of `c` lies in `c`.
    pub open spec fn touches_circle(self, c: Circle) -> bool {
        c.point_inside(
            clamp(c.center_x(), self.x as int, self.x + self.width),
            clamp(c.center_y(), self.y as int, self.y + self.height),
        )
    }
}

impl Circle {
    pub open spec fn center_x(self) -> int {
        self.x + self.radius
    }

    pub open spec fn center_y(self) -> int {
        self.y + self.radius
    }

    /// `(px, py)` is at most `radius` away from the center.
    pub open spec fn point_inside(self, px: int, py: int) -> bool {
        dist_sq(px, py, self.center_x(), self.center_y()) <= self.radius * self.radius
    }

    /// The centers are at most the sum of the radii apart.
    pub open spec fn touches_circle(self, o: Circle) -> bool {
        dist_sq(self.center_x(), self.center_y(), o.center_x(), o.center_y()) <= (self.radius
            + o.radius) * (self.radius + o.radius)
    }
}

/// Whether two simple shapes intersect. Two points meet when they fall in the
/// same pixel; every other test is inclusive of the boundary.
pub open spec fn hits(a: Shape, b: Shape) -> bool {
    match (a, b) {
        (Shape::Point(p), Shape::Point(q)) => pixel(p.x as int) == pixel(q.x as int) && pixel(
            p.y as int,
        ) == pixel(q.y as int),
        (Shape::Point(p), Shape::Rect(r)) => p.in_rect(r),
        (Shape::Rect(r), Shape::Point(p)) => p.in_rect(r),
        (Shape::Point(p), Shape::Circle(c)) => p.in_circle(c),
        (Shape::Circle(c), Shape::Point(p)) => p.in_circle(c),
        (Shape::Rect(r), Shape::Rect(o)) => r.touches_rect(o),
        (Shape::Rect(r), Shape::Circle(c)) => r.touches_circle(c),
        (Shape::Circle(c), Shape::Rect(r)) => r.touches_circle(c),
        (Shape::Circle(c), Shape::Circle(o)) => c.touches_circle(o),
    }
}

/// Whether some part of `a` intersects some part of `b`.
pub open spec fn overlaps(a: Seq<Shape>, b: Seq<Shape>) -> bool {
    exists|i: int, j: int| 0 <= i < a.len() && 0 <= j < b.len() && #[trigger] hits(a[i], b[j])
}


/// The least of `s`, or 0 when `s` is empty.
pub open spec fn lowest(s: Seq<int>) -> int
    decreases s.len(),
{
    if s.len() == 0 {
        0
    } else if s.len() == 1 {
        s[0]
    } else {
        let m = lowest(s.drop_last());
        if s.last() < m {
            s.last()
        } else {
            m
        }
    }
}

/// The greatest of `s`, or 0 when `s` is empty.
pub open spec fn highest(s: Seq<int>) -> int
    decreases s.len(),
{
    if s.len() == 0 {
        0
    } else if s.len() == 1 {
        s[0]
    } else {
        let m = highest(s.drop_last());
        if s.last() > m {
            s.last()
        } else {
            m
        }
    }
}

/// A non-empty sequence has its least and greatest element among its elements,
/// and bounds every element with them.
pub proof fn lemma_lowest_highest(s: Seq<int>)
    requires
        s.len() > 0,
    ensures
        forall|i: int| 0 <= i < s.len() ==> lowest(s) <= #[trigger] s[i] <= highest(s),
        exists|i: int| 0 <= i < s.len() && s[i] == lowest(s),
        exists|i: int| 0 <= i < s.len() && s[i] == highest(s),
    decreases s.len(),
{
    if s.len() > 1 {
        lemma_lowest_highest(s.drop_last());
        let lo = choose|i: int| 0 <= i < s.len() - 1 && s.drop_last()[i] == lowest(s.drop_last());
        let hi = choose|i: int| 0 <= i < s.len() - 1 && s.drop_last()[i] == highest(s.drop_last());
        assert(s[lo] == s.drop_last()[lo]);
        assert(s[hi] == s.drop_last()[hi]);
        assert forall|i: int| 0 <= i < s.len() implies lowest(s) <= #[trigger] s[i] <= highest(s) by {
            if i < s.len() - 1 {
                assert(s[i] == s.drop_last()[i]);
            }
        }
        if s.last() < lowest(s.drop_last()) {
            assert(s[s.len() - 1] == lowest(s));
        } else {
            assert(s[lo] == lowest(s));
        }
        if s.last() > highest(s.drop_last()) {
            assert(s[s.len() - 1] == highest(s));
        } else {
            assert(s[hi] == highest(s));
        }
    } else {
        assert(s[0] == lowest(s));
        assert(s[0] == highest(s));
    }
}

/// Two simple shapes intersect in either order alike.
pub proof fn lemma_hits_symmetric(a: Shape, b: Shape)
    ensures
        hits(a, b) == hits(b, a),
{
    match (a, b) {
        (Shape::Circle(c), Shape::Circle(o)) => {
            let dx = c.center_x() - o.center_x();
            let dy = c.center_y() - o.center_y();
            assert(dx * dx == (-dx) * (-dx)) by (nonlinear_arith);
            assert(dy * dy == (-dy) * (-dy)) by (nonlinear_arith);
            assert((c.radius + o.radius) * (c.radius + o.radius) == (o.radius + c.radius) * (
            o.radius + c.radius));
        },
        _ => {},
    }
}

/// Overlap of two composites does not depend on their order.
pub proof fn lemma_overlaps_symmetric(a: Seq<Shape>, b: Seq<Shape>)
    ensures
        overlaps(a, b) == overlaps(b, a),
{
    if overlaps(a, b) {
        let (i, j) = choose|i: int, j: int|
            0 <= i < a.len() && 0 <= j < b.len() && #[trigger] hits(a[i], b[j]);
        lemma_hits_symmetric(a[i], b[j]);
        assert(hits(b[j], a[i]));
    }
    if overlaps(b, a) {
        let (j, i) = choose|j: int, i: int|
            0 <= j < b.len() && 0 <= i < a.len() && #[trigger] hits(b[j], a[i]);
        lemma_hits_symmetric(b[j], a[i]);
        assert(hits(a[i], b[j]));
    }
}

/// Two single shapes overlap exactly when they intersect.
pub proof fn lemma_overlaps_single(a: Shape, b: Shape)
    ensures
        overlaps(seq![a], seq![b]) == hits(a, b),
{
    if hits(a, b) {
        assert(hits(seq![a][0], seq![b][0]));
    }
}

/// Whether `(px, py)` is within distance `r` of `(cx, cy)`.
fn within(px: i128, py: i128, cx: i128, cy: i128, r: i128) -> (b: bool)
    requires
        -0x4_0000_0000_0000_0000 <= px <= 0x4_0000_0000_0000_0000,
        -0x4_0000_0000_0000_0000 <= py <= 0x4_0000_0000_0000_0000,
        -0x4_0000_0000_0000_0000 <= cx <= 0x4_0000_0000_0000_0000,
        -0x4_0000_0000_0000_0000 <= cy <= 0x4_0000_0000_0000_0000,
        0 <= r <= 0x4_0000_0000,
    ensures
        b == (dist_sq(px as int, py as int, cx as int, cy as int) <= r * r),
{
    let dx = px - cx;
    let dy = py - cy;
    let adx = if dx < 0 {
        -dx
    } else {
        dx
    };
    let ady = if dy < 0 {
        -dy
    } else {
        dy
    };
    assert(dx * dx == adx * adx) by (nonlinear_arith)
        requires
            adx == dx || adx == -dx,
    ;
    assert(dy * dy == ady * ady) by (nonlinear_arith)
        requires
            ady == dy || ady == -dy,
    ;
    assert(0 <= ady * ady) by (nonlinear_arith);
    assert(0 <= adx * adx) by (nonlinear_arith);
    if adx > r || ady > r {
        assert(adx * adx + ady * ady > r * r) by (nonlinear_arith)
            requires
                adx > r || ady > r,
                0 <= r,
                0 <= adx,
                0 <= ady,
        ;
        false
    } else {
        assert(adx * adx <= r * r && ady * ady <= r * r && r * r <= 0x10_0000_0000_0000_0000)
            by (nonlinear_arith)
            requires
                0 <= adx <= r,
                0 <= ady <= r,
                r <= 0x4_0000_0000,
        ;
        adx * adx + ady * ady <= r * r
    }
}

fn point_hits_point(p: &Point, q: &Point) -> (b: bool)
    ensures
        b == hits(Shape::Point(*p), Shape::Point(*q)),
{
    let px = p.x.checked_div_euclid(UNITS_PER_PIXEL);
    let qx = q.x.checked_div_euclid(UNITS_PER_PIXEL);
    let py = p.y.checked_div_euclid(UNITS_PER_PIXEL);
    let qy = q.y.checked_div_euclid(UNITS_PER_PIXEL);
    px == qx && py == qy
}

fn point_in_rect(p: &Point, r: &Rect) -> (b: bool)
    ensures
        b == hits(Shape::Point(*p), Shape::Rect(*r)),
{
    let x = p.x as i128;
    let y = p.y as i128;
    r.x as i128 <= x && x <= r.x as i128 + r.width as i128 && r.y as i128 <= y && y <= r.y as i128
        + r.height as i128
}

fn point_in_circle(p: &Point, c: &Circle) -> (b: bool)
    ensures
        b == hits(Shape::Point(*p), Shape::Circle(*c)),
{
    within(
        p.x as i128,
        p.y as i128,
        c.x as i128 + c.radius as i128,
        c.y as i128 + c.radius as i128,
        c.radius as i128,
    )
}

fn rect_hits_rect(a: &Rect, o: &Rect) -> (b: bool)
    ensures
        b == hits(Shape::Rect(*a), Shape::Rect(*o)),
{
    let (al, at) = (a.x as i128, a.y as i128);
    let (ol, ot) = (o.x as i128, o.y as i128);
    al <= ol + o.width as i128 && al + a.width as i128 >= ol && at <= ot + o.height as i128 && at
        + a.height as i128 >= ot
}

fn clamp_exec(v: i128, lo: i128, hi: i128) -> (r: i128)
    requires
        lo <= hi,
    ensures
        r == clamp(v as int, lo as int, hi as int),
{
    if v < lo {
        lo
    } else if v > hi {
        hi
    } else {
        v
    }
}

fn rect_hits_circle(a: &Rect, c: &Circle) -> (b: bool)
    ensures
        b == hits(Shape::Rect(*a), Shape::Circle(*c)),
{
    let cx = c.x as i128 + c.radius as i128;
    let cy = c.y as i128 + c.radius as i128;
    let px = clamp_exec(cx, a.x as i128, a.x as i128 + a.width as i128);
    let py = clamp_exec(cy, a.y as i128, a.y as i128 + a.height as i128);
    within(px, py, cx, cy, c.radius as i128)
}

fn circle_hits_circle(a: &Circle, o: &Circle) -> (b: bool)
    ensures
        b == hits(Shape::Circle(*a), Shape::Circle(*o)),
{
    within(
        a.x as i128 + a.radius as i128,
        a.y as i128 + a.radius as i128,
        o.x as i128 + o.radius as i128,
        o.y as i128 + o.radius as i128,
        a.radius as i128 + o.radius as i128,
    )
}

/// A value that occupies a region of the plane: it has a bounding box and can
/// be tested for intersection against any other such value.
pub trait BBox: Sized {
    /// The simple shapes that make up the region; empty for a region with no
    /// collidable extent.
    spec fn parts(&self) -> Seq<Shape>;

    /// The left edge of the bounding box.
    spec fn spec_left(&self) -> int;

    /// The top edge of the bounding box.
    spec fn spec_top(&self) -> int;

    /// The width of the bounding box.
    spec fn spec_width(&self) -> int;

    /// The height of the bounding box.
    spec fn spec_height(&self) -> int;

    fn left(&self) -> (r: i128)
        ensures
            r == self.spec_left(),
            i64::MIN <= r <= i64::MAX,
    ;

    fn top(&self) -> (r: i128)
        ensures
            r == self.spec_top(),
            i64::MIN <= r <= i64::MAX,
    ;

    fn width(&self) -> (r: i128)
        ensures
            r == self.spec_width(),
            0 <= r <= MAX_SPAN,
    ;

    fn height(&self) -> (r: i128)
        ensures
            r == self.spec_height(),
            0 <= r <= MAX_SPAN,
    ;

    fn right(&self) -> (r: i128)
        ensures
            r == self.spec_left() + self.spec_width(),
    {
        self.left() + self.width()
    }

    fn bottom(&self) -> (r: i128)
        ensures
            r == self.spec_top() + self.spec_height(),
    {
        self.top() + self.height()
    }

    /// The horizontal middle of the box, rounded down to a whole unit.
    fn center_x(&self) -> (r: i128)
        ensures
            r == self.spec_left() + self.spec_width() / 2,
    {
        self.left() + self.width() / 2
    }

    /// The vertical middle of the box, rounded down to a whole unit.
    fn center_y(&self) -> (r: i128)
        ensures
            r == self.spec_top() + self.spec_height() / 2,
    {
        self.top() + self.height() / 2
    }

    /// The top-left corner of the box.
    fn position(&self) -> (p: Point)
        ensures
            p.x == self.spec_left(),
            p.y == self.spec_top(),
    {
        Point { x: self.left() as i64, y: self.top() as i64 }
    }

    /// The middle of the box, as `(center_x, center_y)`.
    fn center(&self) -> (c: (i128, i128))
        ensures
            c.0 == self.spec_left() + self.spec_width() / 2,
            c.1 == self.spec_top() + self.spec_height() / 2,
    {
        (self.center_x(), self.center_y())
    }

    /// Whether some part of `self` intersects the point.
    fn intersects_point(&self, other: &Point) -> (b: bool)
        ensures
            b == overlaps(self.parts(), seq![Shape::Point(*other)]),
    ;

    /// Whether some part of `self` intersects the rectangle.
    fn intersects_rect(&self, other: &Rect) -> (b: bool)
        ensures
            b == overlaps(self.parts(), seq![Shape::Rect(*other)]),
    ;

    /// Whether some part of `self` intersects the circle.
    fn intersects_circle(&self, other: &Circle) -> (b: bool)
        ensures
            b == overlaps(self.parts(), seq![Shape::Circle(*other)]),
    ;

    /// Whether some part of `self` intersects some member of the composite.
    fn intersects_mixed(&self, other: &Mixed) -> (b: bool)
        ensures
            b == overlaps(self.parts(), other.members()),
    {
        let ghost a = self.parts();
        let ghost m = other.members();
        let n = other.shapes.len();
        let mut i: usize = 0;
        while i < n
            invariant
                0 <= i <= n,
                n == other.shapes@.len(),
                a == self.parts(),
                m == other.members(),
                forall|j: int, k: int| 0 <= j < a.len() && 0 <= k < i ==> !#[trigger] hits(a[j], m[k]),
            decreases n - i,
        {
            let s = other.shapes[i];
            let hit = match s {
                Shape::Point(p) => self.intersects_point(p),
                Shape::Rect(r) => self.intersects_rect(r),
                Shape::Circle(c) => self.intersects_circle(c),
            };
            proof {
                assert(m[i as int] == *s);
                assert(seq![*s][0] == *s);
                if hit {
                    let (j, z) = choose|j: int, z: int| 0 <= j < a.len() && 0 <= z < 1 && #[trigger] hits(a[j], seq![*s][z]);
                    assert(hits(a[j], m[i as int]));
                } else {
                    assert forall|j: int| 0 <= j < a.len() implies !#[trigger] hits(a[j], m[i as int]) by {
                        if hits(a[j], m[i as int]) {
                            assert(hits(a[j], seq![*s][0]));
                        }
                    }
                }
            }
            if hit {
                return true;
            }
            i = i + 1;
        }
        false
    }
}

/// Intersection with any region, whatever its kind.
pub trait Intersects: BBox {
    /// Whether some part of `self` intersects some part of `other`.
    fn intersects<B: BBox>(&self, other: &B) -> (b: bool)
        ensures
            b == overlaps(self.parts(), other.parts()),
    ;
}

/// A bound on the width and height of any region: room for a composite that
/// spans the whole coordinate range.
pub const MAX_SPAN: i128 = 0x1_0000_0002_0000_0000;

impl Shape {
    pub open spec fn left_edge(self) -> int {
        match self {
            Shape::Point(p) => p.x as int,
            Shape::Rect(r) => r.x as int,
            Shape::Circle(c) => c.x as int,
        }
    }

    pub open spec fn top_edge(self) -> int {
        match self {
            Shape::Point(p) => p.y as int,
            Shape::Rect(r) => r.y as int,
            Shape::Circle(c) => c.y as int,
        }
    }

    pub open spec fn span_x(self) -> int {
        match self {
            Shape::Point(_) => 0,
            Shape::Rect(r) => r.width as int,
            Shape::Circle(c) => 2 * c.radius,
        }
    }

    pub open spec fn span_y(self) -> int {
        match self {
            Shape::Point(_) => 0,
            Shape::Rect(r) => r.height as int,
            Shape::Circle(c) => 2 * c.radius,
        }
    }
}

impl BBox for Point {
    open spec fn parts(&self) -> Seq<Shape> {
        seq![Shape::Point(*self)]
    }

    open spec fn spec_left(&self) -> int {
        self.x as int
    }

    open spec fn spec_top(&self) -> int {
        self.y as int
    }

    open spec fn spec_width(&self) -> int {
        0
    }

    open spec fn spec_height(&self) -> int {
        0
    }

    fn left(&self) -> (r: i128) {
        self.x as i128
    }

    fn top(&self) -> (r: i128) {
        self.y as i128
    }

    fn width(&self) -> (r: i128) {
        0
    }

    fn height(&self) -> (r: i128) {
        0
    }

    fn intersects_point(&self, other: &Point) -> (b: bool) {
        proof {
            lemma_overlaps_single(Shape::Point(*self), Shape::Point(*other));
        }
        point_hits_point(self, other)
    }

    fn intersects_rect(&self, other: &Rect) -> (b: bool) {
        proof {
            lemma_overlaps_single(Shape::Point(*self), Shape::Rect(*other));
        }
        point_in_rect(self, other)
    }

    fn intersects_circle(&self, other: &Circle) -> (b: bool) {
        proof {
            lemma_overlaps_single(Shape::Point(*self), Shape::Circle(*other));
        }
        point_in_circle(self, other)
    }
}

impl Intersects for Point {
    fn intersects<B: BBox>(&self, other: &B) -> (b: bool) {
        proof {
            lemma_overlaps_symmetric(self.parts(), other.parts());
        }
        other.intersects_point(self)
    }
}

impl BBox for Rect {
    open spec fn parts(&self) -> Seq<Shape> {
        seq![Shape::Rect(*self)]
    }

    open spec fn spec_left(&self) -> int {
        self.x as int
    }

    open spec fn spec_top(&self) -> int {
        self.y as int
    }

    open spec fn spec_width(&self) -> int {
        self.width as int
    }

    open spec fn spec_height(&self) -> int {
        self.height as int
    }

    fn left(&self) -> (r: i128) {
        self.x as i128
    }

    fn top(&self) -> (r: i128) {
        self.y as i128
    }

    fn width(&self) -> (r: i128) {
        self.width as i128
    }

    fn height(&self) -> (r: i128) {
        self.height as i128
    }

    fn intersects_point(&self, other: &Point) -> (b: bool) {
        proof {
            lemma_overlaps_single(Shape::Rect(*self), Shape::Point(*other));
        }
        point_in_rect(other, self)
    }

    fn intersects_rect(&self, other: &Rect) -> (b: bool) {
        proof {
            lemma_overlaps_single(Shape::Rect(*self), Shape::Rect(*other));
        }
        rect_hits_rect(self, other)
    }

    fn intersects_circle(&self, other: &Circle) -> (b: bool) {
        proof {
            lemma_overlaps_single(Shape::Rect(*self), Shape::Circle(*other));
        }
        rect_hits_circle(self, other)
    }
}

impl Intersects for Rect {
    fn intersects<B: BBox>(&self, other: &B) -> (b: bool) {
        proof {
            lemma_overlaps_symmetric(self.parts(), other.parts());
        }
        other.intersects_rect(self)
    }
}

impl BBox for Circle {
    open spec fn parts(&self) -> Seq<Shape> {
        seq![Shape::Circle(*self)]
    }

    open spec fn spec_left(&self) -> int {
        self.x as int
    }

    open spec fn spec_top(&self) -> int {
        self.y as int
    }

    open spec fn spec_width(&self) -> int {
        2 * self.radius
    }

    open spec fn spec_height(&self) -> int {
        2 * self.radius
    }

    fn left(&self) -> (r: i128) {
        self.x as i128
    }

    fn top(&self) -> (r: i128) {
        self.y as i128
    }

    fn width(&self) -> (r: i128) {
        self.radius as i128 * 2
    }

    fn height(&self) -> (r: i128) {
        self.radius as i128 * 2
    }

    fn intersects_point(&self, other: &Point) -> (b: bool) {
        proof {
            lemma_overlaps_single(Shape::Circle(*self), Shape::Point(*other));
        }
        point_in_circle(other, self)
    }

    fn intersects_rect(&self, other: &Rect) -> (b: bool) {
        proof {
            lemma_overlaps_single(Shape::Circle(*self), Shape::Rect(*other));
        }
        rect_hits_circle(other, self)
    }

    fn intersects_circle(&self, other: &Circle) -> (b: bool) {
        proof {
            lemma_overlaps_single(Shape::Circle(*self), Shape::Circle(*other));
            lemma_hits_symmetric(Shape::Circle(*self), Shape::Circle(*other));
        }
        circle_hits_circle(self, other)
    }
}

impl Intersects for Circle {
    fn intersects<B: BBox>(&self, other: &B) -> (b: bool) {
        proof {
            lemma_overlaps_symmetric(self.parts(), other.parts());
        }
        other.intersects_circle(self)
    }
}

impl BBox for Shape {
    open spec fn parts(&self) -> Seq<Shape> {
        seq![*self]
    }

    open spec fn spec_left(&self) -> int {
        self.left_edge()
    }

    open spec fn spec_top(&self) -> int {
        self.top_edge()
    }

    open spec fn spec_width(&self) -> int {
        self.span_x()
    }

    open spec fn spec_height(&self) -> int {
        self.span_y()
    }

    fn left(&self) -> (r: i128) {
        proof {
            assert(self.spec_left() == self.left_edge());
        }
        match self {
            Shape::Point(p) => p.left(),
            Shape::Rect(r) => r.left(),
            Shape::Circle(c) => c.left(),
        }
    }

    fn top(&self) -> (r: i128) {
        proof {
            assert(self.spec_top() == self.top_edge());
        }
        match self {
            Shape::Point(p) => p.top(),
            Shape::Rect(r) => r.top(),
            Shape::Circle(c) => c.top(),
        }
    }

    fn width(&self) -> (r: i128) {
        match self {
            Shape::Point(p) => p.width(),
            Shape::Rect(r) => r.width(),
            Shape::Circle(c) => c.width(),
        }
    }

    fn height(&self) -> (r: i128) {
        match self {
            Shape::Point(p) => p.height(),
            Shape::Rect(r) => r.height(),
            Shape::Circle(c) => c.height(),
        }
    }

    fn intersects_point(&self, other: &Point) -> (b: bool) {
        match self {
            Shape::Point(p) => p.intersects_point(other),
            Shape::Rect(r) => r.intersects_point(other),
            Shape::Circle(c) => c.intersects_point(other),
        }
    }

    fn intersects_rect(&self, other: &Rect) -> (b: bool) {
        match self {
            Shape::Point(p) => p.intersects_rect(other),
            Shape::Rect(r) => r.intersects_rect(other),
            Shape::Circle(c) => c.intersects_rect(other),
        }
    }

    fn intersects_circle(&self, other: &Circle) -> (b: bool) {
        match self {
            Shape::Point(p) => p.intersects_circle(other),
            Shape::Rect(r) => r.intersects_circle(other),
            Shape::Circle(c) => c.intersects_circle(other),
        }
    }
}

impl Intersects for Shape {
    fn intersects<B: BBox>(&self, other: &B) -> (b: bool) {
        match self {
            Shape::Point(p) => p.intersects(other),
            Shape::Rect(r) => r.intersects(other),
            Shape::Circle(c) => c.intersects(other),
        }
    }
}

/// A composite region made of simple shapes that are owned elsewhere. Its
/// bounding box is the union of its members' boxes, and it intersects whatever
/// one of its members intersects.
pub struct Mixed<'b> {
    pub shapes: &'b [&'b Shape],
}

/// One side of a bounding box.
pub enum Side {
    Left,
    Top,
    Right,
    Bottom,
}

/// The coordinate of side `e` of the box of `s`.
pub open spec fn side_of(s: Shape, e: Side) -> int {
    match e {
        Side::Left => s.left_edge(),
        Side::Top => s.top_edge(),
        Side::Right => s.left_edge() + s.span_x(),
        Side::Bottom => s.top_edge() + s.span_y(),
    }
}

/// The coordinates of side `e` of every shape in `m`.
pub open spec fn sides(m: Seq<Shape>, e: Side) -> Seq<int> {
    m.map_values(|s: Shape| side_of(s, e))
}

/// The outermost of the coordinates `v` of side `e`.
pub open spec fn outermost(v: Seq<int>, e: Side) -> int {
    match e {
        Side::Left | Side::Top => lowest(v),
        Side::Right | Side::Bottom => highest(v),
    }
}

fn side_exec(s: &Shape, e: &Side) -> (r: i128)
    ensures
        r == side_of(*s, *e),
        i64::MIN <= r <= i64::MAX + 0x2_0000_0000,
{
    match e {
        Side::Left => s.left(),
        Side::Top => s.top(),
        Side::Right => s.right(),
        Side::Bottom => s.bottom(),
    }
}

/// The union of the members' boxes spans the members' boxes: an empty
/// composite has the empty box at the origin.
proof fn lemma_union_box(m: Seq<Shape>)
    ensures
        i64::MIN <= lowest(sides(m, Side::Left)) <= i64::MAX,
        i64::MIN <= lowest(sides(m, Side::Top)) <= i64::MAX,
        0 <= highest(sides(m, Side::Right)) - lowest(sides(m, Side::Left)) <= MAX_SPAN,
        0 <= highest(sides(m, Side::Bottom)) - lowest(sides(m, Side::Top)) <= MAX_SPAN,
{
    if m.len() > 0 {
        let (l, t, r, b) = (
            sides(m, Side::Left),
            sides(m, Side::Top),
            sides(m, Side::Right),
            sides(m, Side::Bottom),
        );
        lemma_lowest_highest(l);
        lemma_lowest_highest(t);
        lemma_lowest_highest(r);
        lemma_lowest_highest(b);
        assert(l[0] <= r[0] && t[0] <= b[0]);
        let il = choose|i: int| 0 <= i < l.len() && l[i] == lowest(l);
        let it = choose|i: int| 0 <= i < t.len() && t[i] == lowest(t);
        let ir = choose|i: int| 0 <= i < r.len() && r[i] == highest(r);
        let ib = choose|i: int| 0 <= i < b.len() && b[i] == highest(b);
        assert(l[il] == side_of(m[il], Side::Left));
        assert(t[it] == side_of(m[it], Side::Top));
        assert(r[ir] == side_of(m[ir], Side::Right));
        assert(b[ib] == side_of(m[ib], Side::Bottom));
    }
}

impl<'b> Mixed<'b> {
    /// The member shapes.
    pub open spec fn members(&self) -> Seq<Shape> {
        self.shapes@.map_values(|s: &Shape| *s)
    }

    /// The outermost coordinate of side `e` over the members, or 0 when there
    /// are none.
    fn outer_side(&self, e: &Side) -> (r: i128)
        ensures
            r == outermost(sides(self.members(), *e), *e),
    {
        let n = self.shapes.len();
        if n == 0 {
            return 0;
        }
        let ghost v = sides(self.members(), *e);
        let mut m = side_exec(self.shapes[0], e);
        let mut i: usize = 1;
        proof {
            assert(v.take(1) =~= seq![v[0]]);
        }
        while i < n
            invariant
                1 <= i <= n,
                n == self.shapes@.len(),
                v == sides(self.members(), *e),
                m == outermost(v.take(i as int), *e),
            decreases n - i,
        {
            let x = side_exec(self.shapes[i], e);
            proof {
                assert(v.take(i + 1).drop_last() =~= v.take(i as int));
                assert(v.take(i + 1).last() == x);
            }
            match e {
                Side::Left | Side::Top => {
                    if x < m {
                        m = x;
                    }
                },
                Side::Right | Side::Bottom => {
                    if x > m {
                        m = x;
                    }
                },
            }
            i = i + 1;
        }
        proof {
            assert(v.take(n as int) =~= v);
        }
        m
    }
}

impl<'b> BBox for Mixed<'b> {
    open spec fn parts(&self) -> Seq<Shape> {
        self.members()
    }

    open spec fn spec_left(&self) -> int {
        lowest(sides(self.members(), Side::Left))
    }

    open spec fn spec_top(&self) -> int {
        lowest(sides(self.members(), Side::Top))
    }

    open spec fn spec_width(&self) -> int {
        highest(sides(self.members(), Side::Right)) - lowest(sides(self.members(), Side::Left))
    }

    open spec fn spec_height(&self) -> int {
        highest(sides(self.members(), Side::Bottom)) - lowest(sides(self.members(), Side::Top))
    }

    fn left(&self) -> (r: i128) {
        proof {
            lemma_union_box(self.members());
        }
        self.outer_side(&Side::Left)
    }

    fn top(&self) -> (r: i128) {
        proof {
            lemma_union_box(self.members());
        }
        self.outer_side(&Side::Top)
    }

    fn right(&self) -> (r: i128) {
        self.outer_side(&Side::Right)
    }

    fn bottom(&self) -> (r: i128) {
        self.outer_side(&Side::Bottom)
    }

    fn width(&self) -> (r: i128) {
        proof {
            lemma_union_box(self.members());
        }
        self.right() - self.left()
    }

    fn height(&self) -> (r: i128) {
        proof {
            lemma_union_box(self.members());
        }
        self.bottom() - self.top()
    }

    fn intersects_point(&self, other: &Point) -> (b: bool) {
        proof {
            lemma_overlaps_symmetric(self.parts(), other.parts());
        }
        other.intersects_mixed(self)
    }

    fn intersects_rect(&self, other: &Rect) -> (b: bool) {
        proof {
            lemma_overlaps_symmetric(self.parts(), other.parts());
        }
        other.intersects_mixed(self)
    }

    fn intersects_circle(&self, other: &Circle) -> (b: bool) {
        proof {
            lemma_overlaps_symmetric(self.parts(), other.parts());
        }
        other.intersects_mixed(self)
    }
}

impl<'b> Intersects for Mixed<'b> {
    fn intersects<B: BBox>(&self, other: &B) -> (b: bool) {
        proof {
            lemma_overlaps_symmetric(self.parts(), other.parts());
        }
        other.intersects_mixed(self)
    }
}

/// A borrowed region of any kind, or `Empty` for something with no collidable
/// extent. Entities hand these out so that no shape data is copied.
pub enum ShapeRef<'b> {
    Empty,
    Point(&'b Point),
    Rect(&'b Rect),
    Circle(&'b Circle),
    Mixed(&'b Mixed<'b>),
}

impl<'b> BBox for ShapeRef<'b> {
    open spec fn parts(&self) -> Seq<Shape> {
        match self {
            ShapeRef::Empty => seq![],
            ShapeRef::Point(p) => p.parts(),
            ShapeRef::Rect(r) => r.parts(),
            ShapeRef::Circle(c) => c.parts(),
            ShapeRef::Mixed(m) => m.parts(),
        }
    }

    open spec fn spec_left(&self) -> int {
        match self {
            ShapeRef::Empty => 0,
            ShapeRef::Point(p) => p.spec_left(),
            ShapeRef::Rect(r) => r.spec_left(),
            ShapeRef::Circle(c) => c.spec_left(),
            ShapeRef::Mixed(m) => m.spec_left(),
        }
    }

    open spec fn spec_top(&self) -> int {
        match self {
            ShapeRef::Empty => 0,
            ShapeRef::Point(p) => p.spec_top(),
            ShapeRef::Rect(r) => r.spec_top(),
            ShapeRef::Circle(c) => c.spec_top(),
            ShapeRef::Mixed(m) => m.spec_top(),
        }
    }

    open spec fn spec_width(&self) -> int {
        match self {
            ShapeRef::Empty => 0,
            ShapeRef::Point(p) => p.spec_width(),
            ShapeRef::Rect(r) => r.spec_width(),
            ShapeRef::Circle(c) => c.spec_width(),
            ShapeRef::Mixed(m) => m.spec_width(),
        }
    }

    open spec fn spec_height(&self) -> int {
        match self {
            ShapeRef::Empty => 0,
            ShapeRef::Point(p) => p.spec_height(),
            ShapeRef::Rect(r) => r.spec_height(),
            ShapeRef::Circle(c) => c.spec_height(),
            ShapeRef::Mixed(m) => m.spec_height(),
        }
    }

    fn left(&self) -> (r: i128) {
        match self {
            ShapeRef::Empty => 0,
            ShapeRef::Point(p) => p.left(),
            ShapeRef::Rect(r) => r.left(),
            ShapeRef::Circle(c) => c.left(),
            ShapeRef::Mixed(m) => m.left(),
        }
    }

    fn top(&self) -> (r: i128) {
        match self {
            ShapeRef::Empty => 0,
            ShapeRef::Point(p) => p.top(),
            ShapeRef::Rect(r) => r.top(),
            ShapeRef::Circle(c) => c.top(),
            ShapeRef::Mixed(m) => m.top(),
        }
    }

    fn width(&self) -> (r: i128) {
        match self {
            ShapeRef::Empty => 0,
            ShapeRef::Point(p) => p.width(),
            ShapeRef::Rect(r) => r.width(),
            ShapeRef::Circle(c) => c.width(),
            ShapeRef::Mixed(m) => m.width(),
        }
    }

    fn height(&self) -> (r: i128) {
        match self {
            ShapeRef::Empty => 0,
            ShapeRef::Point(p) => p.height(),
            ShapeRef::Rect(r) => r.height(),
            ShapeRef::Circle(c) => c.height(),
            ShapeRef::Mixed(m) => m.height(),
        }
    }

    fn intersects_point(&self, other: &Point) -> (b: bool) {
        match self {
            ShapeRef::Empty => false,
            ShapeRef::Point(p) => p.intersects_point(other),
            ShapeRef::Rect(r) => r.intersects_point(other),
            ShapeRef::Circle(c) => c.intersects_point(other),
            ShapeRef::Mixed(m) => m.intersects_point(other),
        }
    }

    fn intersects_rect(&self, other: &Rect) -> (b: bool) {
        match self {
            ShapeRef::Empty => false,
            ShapeRef::Point(p) => p.intersects_rect(other),
            ShapeRef::Rect(r) => r.intersects_rect(other),
            ShapeRef::Circle(c) => c.intersects_rect(other),
            ShapeRef::Mixed(m) => m.intersects_rect(other),
        }
    }

    fn intersects_circle(&self, other: &Circle) -> (b: bool) {
        match self {
            ShapeRef::Empty => false,
            ShapeRef::Point(p) => p.intersects_circle(other),
            ShapeRef::Rect(r) => r.intersects_circle(other),
            ShapeRef::Circle(c) => c.intersects_circle(other),
            ShapeRef::Mixed(m) => m.intersects_circle(other),
        }
    }
}

impl<'b> Intersects for ShapeRef<'b> {
    fn intersects<B: BBox>(&self, other: &B) -> (b: bool) {
        match self {
            ShapeRef::Empty => false,
            ShapeRef::Point(p) => p.intersects(other),
            ShapeRef::Rect(r) => r.intersects(other),
            ShapeRef::Circle(c) => c.intersects(other),
            ShapeRef::Mixed(m) => m.intersects(other),
        }
    }
}

/// A region with a position of its own that can be moved. Only the top-left
/// corner is state; every other setter is defined through `set_position`, so
/// the extents never change.
pub trait Movable: BBox {
    fn set_position(&mut self, x: i64, y: i64)
        ensures
            final(self).spec_left() == x,
            final(self).spec_top() == y,
            final(self).spec_width() == old(self).spec_width(),
            final(self).spec_height() == old(self).spec_height(),
    ;

    fn move_by(&mut self, dx: i64, dy: i64)
        requires
            i64::MIN <= old(self).spec_left() + dx <= i64::MAX,
            i64::MIN <= old(self).spec_top() + dy <= i64::MAX,
        ensures
            final(self).spec_left() == old(self).spec_left() + dx,
            final(self).spec_top() == old(self).spec_top() + dy,
            final(self).spec_width() == old(self).spec_width(),
            final(self).spec_height() == old(self).spec_height(),
    ;

    /// Moves the box so that its (rounded down) middle is `(x, y)`.
    fn set_center(&mut self, x: i64, y: i64)
        requires
            i64::MIN <= x - old(self).spec_width() / 2,
            i64::MIN <= y - old(self).spec_height() / 2,
        ensures
            final(self).spec_left() == x - old(self).spec_width() / 2,
            final(self).spec_top() == y - old(self).spec_height() / 2,
            final(self).spec_left() + final(self).spec_width() / 2 == x,
            final(self).spec_top() + final(self).spec_height() / 2 == y,
            final(self).spec_width() == old(self).spec_width(),
            final(self).spec_height() == old(self).spec_height(),
    {
        let w = self.width();
        let h = self.height();
        self.set_position((x as i128 - w / 2) as i64, (y as i128 - h / 2) as i64);
    }

    fn set_left(&mut self, x: i64)
        ensures
            final(self).spec_left() == x,
            final(self).spec_top() == old(self).spec_top(),
            final(self).spec_width() == old(self).spec_width(),
            final(self).spec_height() == old(self).spec_height(),
    {
        let y = self.top() as i64;
        self.set_position(x, y);
    }

    fn set_top(&mut self, y: i64)
        ensures
            final(self).spec_left() == old(self).spec_left(),
            final(self).spec_top() == y,
            final(self).spec_width() == old(self).spec_width(),
            final(self).spec_height() == old(self).spec_height(),
    {
        let x = self.left() as i64;
        self.set_position(x, y);
    }

    /// Moves the box so that its right edge is at `x`.
    fn set_right(&mut self, x: i64)
        requires
            i64::MIN <= x - old(self).spec_width(),
        ensures
            final(self).spec_left() + final(self).spec_width() == x,
            final(self).spec_top() == old(self).spec_top(),
            final(self).spec_width() == old(self).spec_width(),
            final(self).spec_height() == old(self).spec_height(),
    {
        let left = (x as i128 - self.width()) as i64;
        let y = self.top() as i64;
        self.set_position(left, y);
    }

    /// Moves the box so that its bottom edge is at `y`.
    fn set_bottom(&mut self, y: i64)
        requires
            i64::MIN <= y - old(self).spec_height(),
        ensures
            final(self).spec_left() == old(self).spec_left(),
            final(self).spec_top() + final(self).spec_height() == y,
            final(self).spec_width() == old(self).spec_width(),
            final(self).spec_height() == old(self).spec_height(),
    {
        let x = self.left() as i64;
        let top = (y as i128 - self.height()) as i64;
        self.set_position(x, top);
    }
}

impl Movable for Point {
    fn set_position(&mut self, x: i64, y: i64) {
        self.x = x;
        self.y = y;
    }

    fn move_by(&mut self, dx: i64, dy: i64) {
        self.x = self.x + dx;
        self.y = self.y + dy;
    }
}

impl Movable for Rect {
    fn set_position(&mut self, x: i64, y: i64) {
        self.x = x;
        self.y = y;
    }

    fn move_by(&mut self, dx: i64, dy: i64) {
        self.x = self.x + dx;
        self.y = self.y + dy;
    }
}

impl Movable for Circle {
    fn set_position(&mut self, x: i64, y: i64) {
        self.x = x;
        self.y = y;
    }

    fn move_by(&mut self, dx: i64, dy: i64) {
        self.x = self.x + dx;
        self.y = self.y + dy;
    }
}

impl Movable for Shape {
    fn set_position(&mut self, x: i64, y: i64) {
        match self {
            Shape::Point(p) => p.set_position(x, y),
            Shape::Rect(r) => r.set_position(x, y),
            Shape::Circle(c) => c.set_position(x, y),
        }
    }

    fn move_by(&mut self, dx: i64, dy: i64) {
        match self {
            Shape::Point(p) => p.move_by(dx, dy),
            Shape::Rect(r) => r.move_by(dx, dy),
            Shape::Circle(c) => c.move_by(dx, dy),
        }
    }
}

impl Point {
    pub fn new(x: i64, y: i64) -> (p: Point)
        ensures
            p == (Point { x, y }),
    {
        Point { x, y }
    }

    /// A handle on this point for heterogeneous queries.
    pub fn as_ref(&self) -> (r: ShapeRef<'_>)
        ensures
            r == ShapeRef::Point(self),
    {
        ShapeRef::Point(self)
    }
}

impl Rect {
    pub fn new(x: i64, y: i64, width: u32, height: u32) -> (r: Rect)
        ensures
            r == (Rect { x, y, width, height }),
    {
        Rect { x, y, width, height }
    }

    /// A handle on this rectangle for heterogeneous queries.
    pub fn as_ref(&self) -> (r: ShapeRef<'_>)
        ensures
            r == ShapeRef::Rect(self),
    {
        ShapeRef::Rect(self)
    }
}

impl Circle {
    pub fn new(x: i64, y: i64, radius: u32) -> (c: Circle)
        ensures
            c == (Circle { x, y, radius }),
    {
        Circle { x, y, radius }
    }

    /// The circle of the given radius whose bounding box starts at `p`.
    pub fn from_point(p: Point, radius: u32) -> (c: Circle)
        ensures
            c == (Circle { x: p.x, y: p.y, radius }),
    {
        Circle::new(p.x, p.y, radius)
    }

    pub fn radius(&self) -> (r: u32)
        ensures
            r == self.radius,
    {
        self.radius
    }

    /// A handle on this circle for heterogeneous queries.
    pub fn as_ref(&self) -> (r: ShapeRef<'_>)
        ensures
            r == ShapeRef::Circle(self),
    {
        ShapeRef::Circle(self)
    }
}

impl Shape {
    /// A handle on the shape inside, for heterogeneous queries.
    pub fn as_ref(&self) -> (r: ShapeRef<'_>)
        ensures
            r.parts() == seq![*self],
            match *self {
                Shape::Point(p) => r == ShapeRef::Point(&p),
                Shape::Rect(q) => r == ShapeRef::Rect(&q),
                Shape::Circle(c) => r == ShapeRef::Circle(&c),
            },
    {
        match self {
            Shape::Point(p) => ShapeRef::Point(p),
            Shape::Rect(r) => ShapeRef::Rect(r),
            Shape::Circle(c) => ShapeRef::Circle(c),
        }
    }
}

impl<'b> Mixed<'b> {
    /// A handle on this composite for heterogeneous queries.
    pub fn as_ref(&'b self) -> (r: ShapeRef<'b>)
        ensures
            r == ShapeRef::Mixed(self),
    {
        ShapeRef::Mixed(self)
    }
}

/// Every simple shape intersects itself.
pub proof fn lemma_hits_reflexive(a: Shape)
    ensures
        hits(a, a),
{
    if let Shape::Circle(c) = a {
        assert(0 <= (c.radius + c.radius) * (c.radius + c.radius)) by (nonlinear_arith);
    }
}

/// Intersection is symmetric: `a.intersects(b) == b.intersects(a)` for any two
/// regions of any kinds.
pub proof fn intersects_symmetric<A: BBox, B: BBox>(a: &A, b: &B)
    ensures
        overlaps(a.parts(), b.parts()) == overlaps(b.parts(), a.parts()),
{
    lemma_overlaps_symmetric(a.parts(), b.parts());
}

/// Any region with at least one part intersects itself (only `Empty` and an
/// empty composite do not).
pub proof fn intersects_itself<A: BBox>(a: &A)
    requires
        a.parts().len() > 0,
    ensures
        overlaps(a.parts(), a.parts()),
{
    lemma_hits_reflexive(a.parts()[0]);
}

/// Two rectangles that share a stretch of a vertical edge (the right edge of
/// `a` is the left edge of `b`) intersect.
pub proof fn touching_rects_intersect(a: Rect, b: Rect)
    requires
        a.x + a.width == b.x,
        a.y <= b.y + b.height,
        b.y <= a.y + a.height,
    ensures
        overlaps(a.parts(), b.parts()),
{
    lemma_overlaps_single(Shape::Rect(a), Shape::Rect(b));
}

/// Two circles intersect exactly when their centers are at most the sum of
/// their radii apart: at that distance they still do, at any greater
/// distance they do not.
pub proof fn circles_intersect_within_radii(a: Circle, b: Circle)
    ensures
        overlaps(a.parts(), b.parts()) <==> dist_sq(
            a.center_x(),
            a.center_y(),
            b.center_x(),
            b.center_y(),
        ) <= (a.radius + b.radius) * (a.radius + b.radius),
{
    lemma_overlaps_single(Shape::Circle(a), Shape::Circle(b));
}

/// A composite intersects whatever one of its members intersects, however
/// far the other members are.
pub proof fn mixed_hit_by_member<B: BBox>(m: &Mixed, other: &B, k: int)
    requires
        0 <= k < m.members().len(),
        overlaps(seq![m.members()[k]], other.parts()),
    ensures
        overlaps(m.parts(), other.parts()),
{
    let (i, j) = choose|i: int, j: int|
        0 <= i < 1 && 0 <= j < other.parts().len() && #[trigger] hits(
            seq![m.members()[k]][i],
            other.parts()[j],
        );
    assert(hits(m.parts()[k], other.parts()[j]));
}

} // verus!
