//! Classification of a triangle against a tile from the projections of both
//! onto the candidate separating axes.

use vstd::prelude::*;

verus! {

/// How a triangle lies to a tile.
#[derive(Clone, Copy, Debug)]
pub enum Overlap {
    /// They share no point.
    Disjoint,
    /// They meet, and the tile is not wholly inside the triangle.
    Partial,
    /// The tile lies wholly inside the triangle.
    Full,
}

/// What the projections of a triangle and a tile onto one axis show.
#[derive(Clone, Copy, Debug)]
pub struct AxisTest {
    /// The two intervals share a point.
    pub overlaps: bool,
    /// The triangle's interval contains the tile's.
    pub contains: bool,
}

/// On every one of the first `n` axes the intervals meet.
pub open spec fn all_overlap(axes: Seq<AxisTest>, n: int) -> bool {
    forall|i: int| 0 <= i < n ==> (#[trigger] axes[i]).overlaps
}

/// On every one of the first `n` axes the triangle's interval contains the
/// tile's.
pub open spec fn all_contain(axes: Seq<AxisTest>, n: int) -> bool {
    forall|i: int| 0 <= i < n ==> (#[trigger] axes[i]).contains
}

/// The separating axis test: one axis on which the intervals are apart
/// separates the shapes; the tile is covered when the triangle's interval
/// contains the tile's on every axis.
pub open spec fn classify(axes: Seq<AxisTest>) -> Overlap {
    if !all_overlap(axes, axes.len() as int) {
        Overlap::Disjoint
    } else if all_contain(axes, axes.len() as int) {
        Overlap::Full
    } else {
        Overlap::Partial
    }
}

/// Classifies a triangle against a tile from the tests on each axis.
pub fn overlap_test(axes: &[AxisTest]) -> (r: Overlap)
    ensures
        r == classify(axes@),
{
    let mut triangle_contains_tile = true;
    let mut i: usize = 0;
    while i < axes.len()
        invariant
            i <= axes@.len(),
            all_overlap(axes@, i as int),
            triangle_contains_tile == all_contain(axes@, i as int),
        decreases axes@.len() - i,
    {
        if !axes[i].overlaps {
            return Overlap::Disjoint;
        }
        let ghost before = triangle_contains_tile;
        triangle_contains_tile = triangle_contains_tile && axes[i].contains;
        proof {
            if triangle_contains_tile {
                assert(all_contain(axes@, i + 1));
            } else if before {
                assert(!axes@[i as int].contains);
            } else {
                assert(!all_contain(axes@, i as int));
            }
        }
        i += 1;
    }
    if triangle_contains_tile {
        Overlap::Full
    } else {
        Overlap::Partial
    }
}

/// A point of the screen, or a direction, in exact coordinates.
pub struct Point {
    pub x: int,
    pub y: int,
}

/// A triangle of the screen, in exact coordinates.
pub struct Corners {
    pub a: Point,
    pub b: Point,
    pub c: Point,
}

/// A rectangle of the screen with sides along the axes, in exact
/// coordinates.
pub struct Rect {
    pub min: Point,
    pub max: Point,
}

/// The place of a point along an axis.
pub open spec fn dot(p: Point, axis: Point) -> int {
    p.x * axis.x + p.y * axis.y
}

/// On which side of the line from `p` to `q` the point `r` lies:
/// `(q - p) x (r - p)`.
pub open spec fn edge_side(p: Point, q: Point, r: Point) -> int {
    (q.x - p.x) * (r.y - p.y) - (q.y - p.y) * (r.x - p.x)
}

/// The direction at right angles to the edge from `p` to `q`.
pub open spec fn edge_normal(p: Point, q: Point) -> Point {
    Point { x: -(q.y - p.y), y: q.x - p.x }
}

/// The smaller of two numbers.
pub open spec fn low(a: int, b: int) -> int {
    if a <= b {
        a
    } else {
        b
    }
}

/// The larger of two numbers.
pub open spec fn high(a: int, b: int) -> int {
    if a >= b {
        a
    } else {
        b
    }
}

/// The four corners of a rectangle.
pub open spec fn rect_corners(r: Rect) -> Seq<Point> {
    seq![
        Point { x: r.min.x, y: r.min.y },
        Point { x: r.min.x, y: r.max.y },
        Point { x: r.max.x, y: r.max.y },
        Point { x: r.max.x, y: r.min.y },
    ]
}

/// Where the triangle starts along an axis.
pub open spec fn triangle_low(t: Corners, axis: Point) -> int {
    low(dot(t.a, axis), low(dot(t.b, axis), dot(t.c, axis)))
}

/// Where the triangle ends along an axis.
pub open spec fn triangle_high(t: Corners, axis: Point) -> int {
    high(dot(t.a, axis), high(dot(t.b, axis), dot(t.c, axis)))
}

/// Where the rectangle starts along an axis.
pub open spec fn rect_low(r: Rect, axis: Point) -> int {
    let c = rect_corners(r);
    low(low(dot(c[0], axis), dot(c[1], axis)), low(dot(c[2], axis), dot(c[3], axis)))
}

/// Where the rectangle ends along an axis.
pub open spec fn rect_high(r: Rect, axis: Point) -> int {
    let c = rect_corners(r);
    high(high(dot(c[0], axis), dot(c[1], axis)), high(dot(c[2], axis), dot(c[3], axis)))
}

/// What the projections of a triangle and a tile onto an axis show, in exact
/// arithmetic.
pub open spec fn axis_test(t: Corners, r: Rect, axis: Point) -> AxisTest {
    AxisTest {
        overlaps: triangle_high(t, axis) >= rect_low(r, axis) && rect_high(r, axis)
            >= triangle_low(t, axis),
        contains: triangle_low(t, axis) <= rect_low(r, axis) && triangle_high(t, axis)
            >= rect_high(r, axis),
    }
}

/// The five axes of the test: the normals of the triangle's three edges and
/// the two axes of the screen.
pub open spec fn sat_axes(t: Corners) -> Seq<Point> {
    seq![
        edge_normal(t.a, t.b),
        edge_normal(t.b, t.c),
        edge_normal(t.c, t.a),
        Point { x: 1, y: 0 },
        Point { x: 0, y: 1 },
    ]
}

/// The tests on the five axes, in exact arithmetic.
pub open spec fn axis_tests(t: Corners, r: Rect) -> Seq<AxisTest> {
    Seq::new(5, |i: int| axis_test(t, r, sat_axes(t)[i]))
}

/// The point lies on the same side of the line from `p` to `q` as `r`, or on
/// the line.
pub open spec fn is_on_side(p: Point, q: Point, r: Point, point: Point) -> bool {
    (edge_side(p, q, r) >= 0 && edge_side(p, q, point) >= 0) || (edge_side(p, q, r) <= 0
        && edge_side(p, q, point) <= 0)
}

/// The point lies in the triangle, its edges counted in.
pub open spec fn is_inside(t: Corners, point: Point) -> bool {
    &&& is_on_side(t.a, t.b, t.c, point)
    &&& is_on_side(t.b, t.c, t.a, point)
    &&& is_on_side(t.c, t.a, t.b, point)
}

/// The point lies in the rectangle, its edges counted in.
pub open spec fn is_in_rect(r: Rect, point: Point) -> bool {
    r.min.x <= point.x <= r.max.x && r.min.y <= point.y <= r.max.y
}

/// Along the normal of an edge, a point lies as far from the edge as
/// `edge_side` says.
proof fn lemma_normal_measures_side(p: Point, q: Point, point: Point)
    ensures
        dot(point, edge_normal(p, q)) - dot(p, edge_normal(p, q)) == edge_side(p, q, point),
        dot(q, edge_normal(p, q)) == dot(p, edge_normal(p, q)),
{
    assert(dot(point, edge_normal(p, q)) - dot(p, edge_normal(p, q)) == edge_side(p, q, point))
        by (nonlinear_arith)
        requires
            dot(point, edge_normal(p, q)) == point.x * (-(q.y - p.y)) + point.y * (q.x - p.x),
            dot(p, edge_normal(p, q)) == p.x * (-(q.y - p.y)) + p.y * (q.x - p.x),
            edge_side(p, q, point) == (q.x - p.x) * (point.y - p.y) - (q.y - p.y) * (point.x
                - p.x),
    ;
    assert(dot(q, edge_normal(p, q)) == dot(p, edge_normal(p, q))) by (nonlinear_arith)
        requires
            dot(q, edge_normal(p, q)) == q.x * (-(q.y - p.y)) + q.y * (q.x - p.x),
            dot(p, edge_normal(p, q)) == p.x * (-(q.y - p.y)) + p.y * (q.x - p.x),
    ;
}

/// Where the triangle's interval contains the rectangle's on the normal of
/// an edge, every corner of the rectangle lies on the triangle's side of
/// that edge.
proof fn lemma_contained_on_normal(p: Point, q: Point, r: Point, t: Corners, rect: Rect, k: int)
    requires
        (t.a == p && t.b == q && t.c == r) || (t.b == p && t.c == q && t.a == r) || (t.c == p
            && t.a == q && t.b == r),
        axis_test(t, rect, edge_normal(p, q)).contains,
        0 <= k < 4,
    ensures
        is_on_side(p, q, r, rect_corners(rect)[k]),
{
    let n = edge_normal(p, q);
    let corner = rect_corners(rect)[k];
    lemma_normal_measures_side(p, q, r);
    lemma_normal_measures_side(p, q, corner);
    let e = dot(p, n);
    assert(dot(q, n) == e);
    assert(dot(r, n) == e + edge_side(p, q, r));
    assert(dot(corner, n) == e + edge_side(p, q, corner));
    assert(triangle_low(t, n) == low(e, e + edge_side(p, q, r)));
    assert(triangle_high(t, n) == high(e, e + edge_side(p, q, r)));
    assert(rect_low(rect, n) <= dot(corner, n) <= rect_high(rect, n));
}

/// A tile that the test finds wholly inside the triangle has its four
/// corners in the triangle.
pub proof fn law_full_cover(t: Corners, rect: Rect, k: int)
    requires
        classify(axis_tests(t, rect)) is Full,
        0 <= k < 4,
    ensures
        is_inside(t, rect_corners(rect)[k]),
{
    let tests = axis_tests(t, rect);
    assert(all_contain(tests, 5));
    assert(tests[0].contains && tests[1].contains && tests[2].contains);
    lemma_contained_on_normal(t.a, t.b, t.c, t, rect, k);
    lemma_contained_on_normal(t.b, t.c, t.a, t, rect, k);
    lemma_contained_on_normal(t.c, t.a, t.b, t, rect, k);
}

/// A point of the rectangle lies between the ends of the rectangle along
/// every axis.
proof fn lemma_rect_interval(rect: Rect, axis: Point, point: Point)
    requires
        is_in_rect(rect, point),
    ensures
        rect_low(rect, axis) <= dot(point, axis) <= rect_high(rect, axis),
{
    let c = rect_corners(rect);
    let px = point.x * axis.x;
    let py = point.y * axis.y;
    let x0 = rect.min.x * axis.x;
    let x1 = rect.max.x * axis.x;
    let y0 = rect.min.y * axis.y;
    let y1 = rect.max.y * axis.y;
    assert((x0 <= px <= x1) || (x1 <= px <= x0)) by (nonlinear_arith)
        requires
            rect.min.x <= point.x <= rect.max.x,
            px == point.x * axis.x,
            x0 == rect.min.x * axis.x,
            x1 == rect.max.x * axis.x,
    ;
    assert((y0 <= py <= y1) || (y1 <= py <= y0)) by (nonlinear_arith)
        requires
            rect.min.y <= point.y <= rect.max.y,
            py == point.y * axis.y,
            y0 == rect.min.y * axis.y,
            y1 == rect.max.y * axis.y,
    ;
    assert(dot(c[0], axis) == x0 + y0);
    assert(dot(c[1], axis) == x0 + y1);
    assert(dot(c[2], axis) == x1 + y1);
    assert(dot(c[3], axis) == x1 + y0);
    assert(dot(point, axis) == px + py);
}

/// The cross product of two directions.
pub open spec fn cross(u: Point, v: Point) -> int {
    u.x * v.y - u.y * v.x
}

/// The step from `p` to `q`.
pub open spec fn step(p: Point, q: Point) -> Point {
    Point { x: q.x - p.x, y: q.y - p.y }
}

/// Cramer's rule: a direction `w` is made of the directions `u` and `v` with
/// the weights `w x v` and `u x w`, all scaled by `u x v`.
proof fn lemma_cramer(u: Point, v: Point, w: Point, k: int, ux: int, vx: int, wx: int)
    requires
        (ux == u.x && vx == v.x && wx == w.x) || (ux == u.y && vx == v.y && wx == w.y),
    ensures
        cross(u, v) * (wx * k) == cross(w, v) * (ux * k) + cross(u, w) * (vx * k),
{
    let (a, b, c, d, e, f) = (u.x, u.y, v.x, v.y, w.x, w.y);
    assert(cross(u, v) == a * d - b * c);
    assert(cross(w, v) == e * d - f * c);
    assert(cross(u, w) == a * f - b * e);
    if ux == u.x && vx == v.x && wx == w.x {
        assert((a * d - b * c) * e == (e * d - f * c) * a + (a * f - b * e) * c) by {
            assert((a * d - b * c) * e == a * d * e - b * c * e) by (nonlinear_arith);
            assert((e * d - f * c) * a == e * d * a - f * c * a) by (nonlinear_arith);
            assert((a * f - b * e) * c == a * f * c - b * e * c) by (nonlinear_arith);
            assert(a * d * e == e * d * a) by (nonlinear_arith);
            assert(f * c * a == a * f * c) by (nonlinear_arith);
            assert(b * c * e == b * e * c) by (nonlinear_arith);
        }
    } else {
        assert((a * d - b * c) * f == (e * d - f * c) * b + (a * f - b * e) * d) by {
            assert((a * d - b * c) * f == a * d * f - b * c * f) by (nonlinear_arith);
            assert((e * d - f * c) * b == e * d * b - f * c * b) by (nonlinear_arith);
            assert((a * f - b * e) * d == a * f * d - b * e * d) by (nonlinear_arith);
            assert(a * d * f == a * f * d) by (nonlinear_arith);
            assert(f * c * b == b * c * f) by (nonlinear_arith);
            assert(e * d * b == b * e * d) by (nonlinear_arith);
        }
    }
    let area = cross(u, v);
    let p = cross(w, v);
    let q = cross(u, w);
    assert(area * wx == p * ux + q * vx);
    assert(area * (wx * k) == (area * wx) * k) by (nonlinear_arith);
    assert((p * ux + q * vx) * k == p * (ux * k) + q * (vx * k)) by (nonlinear_arith);
}

/// A point of a triangle that is not flat lies between the ends of the
/// triangle along every axis.
proof fn lemma_triangle_interval(t: Corners, axis: Point, point: Point)
    requires
        edge_side(t.a, t.b, t.c) != 0,
        is_inside(t, point),
    ensures
        triangle_low(t, axis) <= dot(point, axis) <= triangle_high(t, axis),
{
    let u = step(t.a, t.b);
    let v = step(t.a, t.c);
    let w = step(t.a, point);
    let area = cross(u, v);
    let wb = cross(w, v);
    let wc = cross(u, w);
    let wa = area - wb - wc;
    // the weights of the three corners at the point are what `edge_side`
    // says of the point on the three edges
    assert(edge_side(t.a, t.b, t.c) == area);
    assert(edge_side(t.a, t.b, point) == wc);
    assert(edge_side(t.c, t.a, point) == wb) by (nonlinear_arith)
        requires
            edge_side(t.c, t.a, point) == (t.a.x - t.c.x) * (point.y - t.c.y) - (t.a.y - t.c.y)
                * (point.x - t.c.x),
            wb == (point.x - t.a.x) * (t.c.y - t.a.y) - (point.y - t.a.y) * (t.c.x - t.a.x),
    ;
    assert(edge_side(t.b, t.c, point) == wa) by (nonlinear_arith)
        requires
            edge_side(t.b, t.c, point) == (t.c.x - t.b.x) * (point.y - t.b.y) - (t.c.y - t.b.y)
                * (point.x - t.b.x),
            wa == area - wb - wc,
            area == (t.b.x - t.a.x) * (t.c.y - t.a.y) - (t.b.y - t.a.y) * (t.c.x - t.a.x),
            wb == (point.x - t.a.x) * (t.c.y - t.a.y) - (point.y - t.a.y) * (t.c.x - t.a.x),
            wc == (t.b.x - t.a.x) * (point.y - t.a.y) - (t.b.y - t.a.y) * (point.x - t.a.x),
    ;
    assert(edge_side(t.b, t.c, t.a) == area) by (nonlinear_arith)
        requires
            edge_side(t.b, t.c, t.a) == (t.c.x - t.b.x) * (t.a.y - t.b.y) - (t.c.y - t.b.y) * (
            t.a.x - t.b.x),
            area == (t.b.x - t.a.x) * (t.c.y - t.a.y) - (t.b.y - t.a.y) * (t.c.x - t.a.x),
    ;
    assert(edge_side(t.c, t.a, t.b) == area) by (nonlinear_arith)
        requires
            edge_side(t.c, t.a, t.b) == (t.a.x - t.c.x) * (t.b.y - t.c.y) - (t.a.y - t.c.y) * (
            t.b.x - t.c.x),
            area == (t.b.x - t.a.x) * (t.c.y - t.a.y) - (t.b.y - t.a.y) * (t.c.x - t.a.x),
    ;
    // along the axis, the point lies at the mean of the corners with these
    // weights
    let da = dot(t.a, axis);
    let db = dot(t.b, axis);
    let dc = dot(t.c, axis);
    let dp = dot(point, axis);
    lemma_cramer(u, v, w, axis.x, u.x, v.x, w.x);
    lemma_cramer(u, v, w, axis.y, u.y, v.y, w.y);
    let eu = db - da;
    let ev = dc - da;
    let ew = dp - da;
    assert(eu == u.x * axis.x + u.y * axis.y) by (nonlinear_arith)
        requires
            eu == (t.b.x * axis.x + t.b.y * axis.y) - (t.a.x * axis.x + t.a.y * axis.y),
            u.x == t.b.x - t.a.x,
            u.y == t.b.y - t.a.y,
    ;
    assert(ev == v.x * axis.x + v.y * axis.y) by (nonlinear_arith)
        requires
            ev == (t.c.x * axis.x + t.c.y * axis.y) - (t.a.x * axis.x + t.a.y * axis.y),
            v.x == t.c.x - t.a.x,
            v.y == t.c.y - t.a.y,
    ;
    assert(ew == w.x * axis.x + w.y * axis.y) by (nonlinear_arith)
        requires
            ew == (point.x * axis.x + point.y * axis.y) - (t.a.x * axis.x + t.a.y * axis.y),
            w.x == point.x - t.a.x,
            w.y == point.y - t.a.y,
    ;
    assert(area * ew == wb * eu + wc * ev) by (nonlinear_arith)
        requires
            area * (w.x * axis.x) == wb * (u.x * axis.x) + wc * (v.x * axis.x),
            area * (w.y * axis.y) == wb * (u.y * axis.y) + wc * (v.y * axis.y),
            eu == u.x * axis.x + u.y * axis.y,
            ev == v.x * axis.x + v.y * axis.y,
            ew == w.x * axis.x + w.y * axis.y,
    ;
    let lo = triangle_low(t, axis);
    let hi = triangle_high(t, axis);
    assert(lo <= da <= hi && lo <= db <= hi && lo <= dc <= hi);
    assert(area * dp == wa * da + wb * db + wc * dc) by (nonlinear_arith)
        requires
            area * ew == wb * eu + wc * ev,
            eu == db - da,
            ev == dc - da,
            ew == dp - da,
            wa == area - wb - wc,
    ;
    if area > 0 {
        assert(wa >= 0 && wb >= 0 && wc >= 0);
        assert(wa * lo <= wa * da <= wa * hi) by (nonlinear_arith)
            requires
                wa >= 0,
                lo <= da <= hi,
        ;
        assert(wb * lo <= wb * db <= wb * hi) by (nonlinear_arith)
            requires
                wb >= 0,
                lo <= db <= hi,
        ;
        assert(wc * lo <= wc * dc <= wc * hi) by (nonlinear_arith)
            requires
                wc >= 0,
                lo <= dc <= hi,
        ;
        assert(area * lo == wa * lo + wb * lo + wc * lo && area * hi == wa * hi + wb * hi + wc
            * hi) by (nonlinear_arith)
            requires
                area == wa + wb + wc,
        ;
        assert(lo <= dp <= hi) by (nonlinear_arith)
            requires
                area * lo <= area * dp <= area * hi,
                area > 0,
        ;
    } else {
        assert(wa <= 0 && wb <= 0 && wc <= 0);
        assert(wa * hi <= wa * da <= wa * lo) by (nonlinear_arith)
            requires
                wa <= 0,
                lo <= da <= hi,
        ;
        assert(wb * hi <= wb * db <= wb * lo) by (nonlinear_arith)
            requires
                wb <= 0,
                lo <= db <= hi,
        ;
        assert(wc * hi <= wc * dc <= wc * lo) by (nonlinear_arith)
            requires
                wc <= 0,
                lo <= dc <= hi,
        ;
        assert(area * lo == wa * lo + wb * lo + wc * lo && area * hi == wa * hi + wb * hi + wc
            * hi) by (nonlinear_arith)
            requires
                area == wa + wb + wc,
        ;
        assert(lo <= dp <= hi) by (nonlinear_arith)
            requires
                area * hi <= area * dp <= area * lo,
                area < 0,
        ;
    }
}

/// A tile that the test finds apart from a triangle shares no point with
/// it, as long as the triangle is not flat.
pub proof fn law_separated(t: Corners, rect: Rect, point: Point)
    requires
        classify(axis_tests(t, rect)) is Disjoint,
        edge_side(t.a, t.b, t.c) != 0,
        is_in_rect(rect, point),
    ensures
        !is_inside(t, point),
{
    let tests = axis_tests(t, rect);
    assert(!all_overlap(tests, 5));
    let i = choose|i: int| 0 <= i < 5 && !(#[trigger] tests[i]).overlaps;
    let axis = sat_axes(t)[i];
    assert(tests[i] == axis_test(t, rect, axis));
    lemma_rect_interval(rect, axis, point);
    if is_inside(t, point) {
        lemma_triangle_interval(t, axis, point);
    }
}

} // verus!
