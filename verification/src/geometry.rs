//! The hexagon and the strokes drawn inside it.
//!
//! The hexagon stands on a vertex.  Its six vertices are numbered clockwise
//! on the screen, where `y` grows downward: 0 upper right, 1 top, 2 upper
//! left, 3 lower left, 4 bottom, 5 lower right.

use crate::fixed::{half, halve, lemma_scaled_bound, magnitude, representable, scale, scaled, UNIT};
use crate::root::{floor_sqrt, is_floor_sqrt, isqrt, lemma_floor_sqrt, lemma_square_strictly_increases};
use vstd::prelude::*;

verus! {

/// A point of the plane, as mathematics sees it.
pub struct Position {
    pub x: int,
    pub y: int,
}

/// A point of the plane, in millionths of a unit.
#[derive(Clone, Copy, Debug, PartialEq, Eq, Structural)]
pub struct Point {
    pub x: i64,
    pub y: i64,
}

impl View for Point {
    type V = Position;

    open spec fn view(&self) -> Position {
        Position { x: self.x as int, y: self.y as int }
    }
}

impl DeepView for Point {
    type V = Position;

    open spec fn deep_view(&self) -> Position {
        self@
    }
}

/// A straight stroke between two points.
#[derive(Clone, Copy, Debug, PartialEq, Eq, Structural)]
pub struct Segment {
    pub start: Point,
    pub end: Point,
}

impl View for Segment {
    type V = (Position, Position);

    open spec fn view(&self) -> (Position, Position) {
        (self.start@, self.end@)
    }
}

impl DeepView for Segment {
    type V = (Position, Position);

    open spec fn deep_view(&self) -> (Position, Position) {
        self@
    }
}

/// The distance from the centre of a hexagon of circumradius `r` to the
/// middle of a side, `r` times the cosine of thirty degrees, rounded toward
/// zero: the square root of three quarters of `r * r`, with the sign of `r`.
pub open spec fn apothem(r: int) -> int {
    if r >= 0 {
        floor_sqrt(3 * r * r / 4)
    } else {
        -floor_sqrt(3 * r * r / 4)
    }
}

/// The six vertices of the hexagon of circumradius `r` about `(cx, cy)`.
pub open spec fn hexagon(cx: int, cy: int, r: int) -> Seq<Position> {
    let a = apothem(r);
    let b = half(r);
    seq![
        Position { x: cx + a, y: cy - b },
        Position { x: cx, y: cy - r },
        Position { x: cx - a, y: cy - b },
        Position { x: cx - a, y: cy + b },
        Position { x: cx, y: cy + r },
        Position { x: cx + a, y: cy + b },
    ]
}

/// The unit by which the inner strokes are laid out: the height of the
/// hexagon's left side.
pub open spec fn offset_coeff(v: Seq<Position>) -> int {
    v[3].y - v[2].y
}

/// The five strokes inside the hexagon with vertices `v`, laid out by the
/// unit `c`.
pub open spec fn decoration(v: Seq<Position>, c: int) -> Seq<(Position, Position)> {
    seq![
        (
            Position { x: v[2].x, y: v[2].y + scaled(c, 150_000) },
            Position { x: v[4].x + scaled(c, 350_000), y: v[4].y },
        ),
        (
            Position { x: v[1].x - scaled(c, 230_000), y: v[1].y },
            Position { x: v[5].x, y: v[5].y + scaled(c, 120_000) },
        ),
        (
            Position { x: v[1].x + scaled(c, 110_000), y: v[1].y },
            Position { x: v[3].x, y: v[4].y },
        ),
        (
            Position { x: v[1].x + scaled(c, 650_000), y: v[1].y },
            Position { x: v[3].x + scaled(c, 350_000), y: v[4].y },
        ),
        (
            Position { x: v[0].x + 2 * UNIT, y: v[5].y - scaled(c, 450_000) },
            Position { x: v[4].x + scaled(c, 350_000), y: v[4].y },
        ),
    ]
}

/// Whether both coordinates of `p` can be held in an `i64`.
pub open spec fn point_fits(p: Position) -> bool {
    representable(p.x) && representable(p.y)
}

/// Whether both ends of the stroke `s` can be held in a `Point`.
pub open spec fn stroke_fits(s: (Position, Position)) -> bool {
    point_fits(s.0) && point_fits(s.1)
}

/// Whether every stroke in `s` can be held in a `Segment`.
pub open spec fn strokes_fit(s: Seq<(Position, Position)>) -> bool {
    forall|i: int| 0 <= i < s.len() ==> stroke_fits(#[trigger] s[i])
}

/// Whether neither coordinate of `p` exceeds `bound` in magnitude.
pub open spec fn point_within(p: Position, bound: int) -> bool {
    magnitude(p.x) <= bound && magnitude(p.y) <= bound
}

/// Whether neither end of the stroke `s` exceeds `bound` in a coordinate.
pub open spec fn stroke_within(s: (Position, Position), bound: int) -> bool {
    point_within(s.0, bound) && point_within(s.1, bound)
}

/// The apothem is odd in the radius and no longer than it, and it is the
/// whole number that comes nearest to the square root of three quarters of
/// `r * r` from the side of zero.
pub proof fn lemma_apothem(r: int)
    ensures
        apothem(-r) == -apothem(r),
        r >= 0 ==> 0 <= apothem(r) <= r,
        r <= 0 ==> r <= apothem(r) <= 0,
        4 * (apothem(r) * apothem(r)) <= 3 * (r * r),
        3 * (r * r) < 4 * ((magnitude(apothem(r)) + 1) * (magnitude(apothem(r)) + 1)),
{
    let q: int = r * r;
    let n: int = 3 * r * r / 4;
    let m: int = magnitude(r);
    assert(q >= 0) by (nonlinear_arith)
        requires
            q == r * r,
    ;
    assert(3 * r * r == 3 * q && 3 * (-r) * (-r) == 3 * q && m * m == q) by (nonlinear_arith)
        requires
            q == r * r,
            m == r || m == -r,
    ;
    lemma_floor_sqrt(n);
    let s: int = floor_sqrt(n);
    assert(is_floor_sqrt(s, n));
    assert((-s) * (-s) == s * s) by (nonlinear_arith);
    if s > m {
        lemma_square_strictly_increases(m, s);
    }
}

/// The apothem of `r`, computed.
pub fn apothem_of(r: i64) -> (a: i64)
    ensures
        a == apothem(r as int),
{
    let wide: i128 = r as i128;
    let m: u128 = if wide < 0 {
        (-wide) as u128
    } else {
        wide as u128
    };
    assert(m * m <= 0x8000_0000_0000_0000 * 0x8000_0000_0000_0000) by (nonlinear_arith)
        requires
            0 <= m <= 0x8000_0000_0000_0000,
    ;
    assert(m * m == r * r && 3 * (r * r) == 3 * r * r) by (nonlinear_arith)
        requires
            m == r || m == -r,
    ;
    let n: u128 = 3 * (m * m) / 4;
    let s: u64 = isqrt(n);
    proof {
        lemma_apothem(r as int);
    }
    if r < 0 {
        -(s as i64)
    } else {
        s as i64
    }
}

/// Lays out the six vertices of the hexagon of circumradius `r` about
/// `(x, y)`, in clockwise order from the upper right.
pub fn create_path_points(x: i64, y: i64, r: i64) -> (points: Vec<Point>)
    requires
        representable(x - magnitude(r as int)),
        representable(x + magnitude(r as int)),
        representable(y - magnitude(r as int)),
        representable(y + magnitude(r as int)),
    ensures
        points.deep_view() == hexagon(x as int, y as int, r as int),
{
    proof {
        lemma_apothem(r as int);
    }
    let a: i64 = apothem_of(r);
    let b: i64 = halve(r);
    let mut points: Vec<Point> = Vec::new();
    points.push(Point { x: x + a, y: y - b });
    points.push(Point { x, y: y - r });
    points.push(Point { x: x - a, y: y - b });
    points.push(Point { x: x - a, y: y + b });
    points.push(Point { x, y: y + r });
    points.push(Point { x: x + a, y: y + b });
    assert(points.deep_view() =~= hexagon(x as int, y as int, r as int));
    points
}

/// No vertex of a hexagon is further from the origin, along either axis,
/// than its centre and its radius together.
pub proof fn lemma_hexagon_within(cx: int, cy: int, r: int, centre: int, radius: int)
    requires
        magnitude(cx) <= centre,
        magnitude(cy) <= centre,
        magnitude(r) <= radius,
    ensures
        hexagon(cx, cy, r).len() == 6,
        forall|i: int|
            0 <= i < 6 ==> point_within(#[trigger] hexagon(cx, cy, r)[i], centre + radius),
        magnitude(offset_coeff(hexagon(cx, cy, r))) <= radius,
{
    lemma_apothem(r);
}

/// No end of an inner stroke is further from the origin, along either axis,
/// than the furthest vertex, the stroke unit and two units together.
pub proof fn lemma_decoration_within(v: Seq<Position>, c: int, bound: int)
    requires
        v.len() == 6,
        forall|i: int| 0 <= i < 6 ==> point_within(#[trigger] v[i], bound),
    ensures
        decoration(v, c).len() == 5,
        forall|i: int|
            0 <= i < 5 ==> stroke_within(
                #[trigger] decoration(v, c)[i],
                bound + magnitude(c) + 2 * UNIT,
            ),
{
    lemma_scaled_bound(c, 110_000, 1);
    lemma_scaled_bound(c, 120_000, 1);
    lemma_scaled_bound(c, 150_000, 1);
    lemma_scaled_bound(c, 230_000, 1);
    lemma_scaled_bound(c, 350_000, 1);
    lemma_scaled_bound(c, 450_000, 1);
    lemma_scaled_bound(c, 650_000, 1);
    let d: Seq<(Position, Position)> = decoration(v, c);
    let b: int = bound + magnitude(c) + 2 * UNIT;
    assert(point_within(v[0], bound));
    assert(point_within(v[1], bound));
    assert(point_within(v[2], bound));
    assert(point_within(v[3], bound));
    assert(point_within(v[4], bound));
    assert(point_within(v[5], bound));
    assert(stroke_within(d[0], b));
    assert(stroke_within(d[1], b));
    assert(stroke_within(d[2], b));
    assert(stroke_within(d[3], b));
    assert(stroke_within(d[4], b));
}

/// Measures the unit by which the inner strokes are laid out: how far vertex
/// 3 lies below vertex 2.
pub fn decoration_offset_coeff(points: &[Point]) -> (c: i64)
    requires
        points@.len() == 6,
        representable(offset_coeff(points.deep_view())),
    ensures
        c == offset_coeff(points.deep_view()),
{
    assert(points.deep_view()[3] == points@[3]@);
    assert(points.deep_view()[2] == points@[2]@);
    points[3].y - points[2].y
}

/// Lays out the five strokes inside the hexagon with the given vertices.
pub fn decoration_segments(points: &[Point], coeff: i64) -> (strokes: Vec<Segment>)
    requires
        points@.len() == 6,
        strokes_fit(decoration(points.deep_view(), coeff as int)),
    ensures
        strokes.deep_view() == decoration(points.deep_view(), coeff as int),
{
    let ghost v: Seq<Position> = points.deep_view();
    let ghost d: Seq<(Position, Position)> = decoration(v, coeff as int);
    proof {
        assert forall|i: int| 0 <= i < 6 implies #[trigger] v[i] == points@[i]@ by {}
        lemma_scaled_bound(coeff as int, 110_000, 1);
        lemma_scaled_bound(coeff as int, 120_000, 1);
        lemma_scaled_bound(coeff as int, 150_000, 1);
        lemma_scaled_bound(coeff as int, 230_000, 1);
        lemma_scaled_bound(coeff as int, 350_000, 1);
        lemma_scaled_bound(coeff as int, 450_000, 1);
        lemma_scaled_bound(coeff as int, 650_000, 1);
        assert(stroke_fits(d[0]));
        assert(stroke_fits(d[1]));
        assert(stroke_fits(d[2]));
        assert(stroke_fits(d[3]));
        assert(stroke_fits(d[4]));
    }
    let chin: Point = Point { x: points[4].x + scale(coeff, 350_000), y: points[4].y };
    let mut strokes: Vec<Segment> = Vec::new();
    strokes.push(
        Segment {
            start: Point { x: points[2].x, y: points[2].y + scale(coeff, 150_000) },
            end: chin,
        },
    );
    strokes.push(
        Segment {
            start: Point { x: points[1].x - scale(coeff, 230_000), y: points[1].y },
            end: Point { x: points[5].x, y: points[5].y + scale(coeff, 120_000) },
        },
    );
    strokes.push(
        Segment {
            start: Point { x: points[1].x + scale(coeff, 110_000), y: points[1].y },
            end: Point { x: points[3].x, y: points[4].y },
        },
    );
    strokes.push(
        Segment {
            start: Point { x: points[1].x + scale(coeff, 650_000), y: points[1].y },
            end: Point { x: points[3].x + scale(coeff, 350_000), y: points[4].y },
        },
    );
    strokes.push(
        Segment {
            start: Point { x: points[0].x + 2 * UNIT, y: points[5].y - scale(coeff, 450_000) },
            end: chin,
        },
    );
    assert(strokes.deep_view() =~= d);
    strokes
}

/// Whether `p` lies on the circle of radius `r` about `c`, as nearly as whole
/// millionths allow: `p` is not outside the circle, and would be outside it
/// one step further from `c` in both coordinates.
pub open spec fn lies_on_circle(p: Position, c: Position, r: int) -> bool {
    let dx = magnitude(p.x - c.x);
    let dy = magnitude(p.y - c.y);
    dx * dx + dy * dy <= r * r < (dx + 1) * (dx + 1) + (dy + 1) * (dy + 1)
}

/// A distance along one axis, moved one step toward zero.
pub open spec fn shortened(d: int) -> int {
    if d > 0 {
        d - 1
    } else {
        0
    }
}

/// Whether `p` and `q` are `r` apart, give or take one millionth in each
/// coordinate.
pub open spec fn apart_by(p: Position, q: Position, r: int) -> bool {
    let dx = magnitude(p.x - q.x);
    let dy = magnitude(p.y - q.y);
    shortened(dx) * shortened(dx) + shortened(dy) * shortened(dy) <= r * r <= (dx + 1) * (dx + 1)
        + (dy + 1) * (dy + 1)
}

proof fn lemma_square_le(x: int, y: int)
    by (nonlinear_arith)
    requires
        0 <= x <= y,
    ensures
        x * x <= y * y,
{
}

proof fn lemma_square_of_double(x: int)
    by (nonlinear_arith)
    ensures
        (2 * x) * (2 * x) == 4 * (x * x),
{
}

/// The hexagon is regular.  For a positive radius, each of its vertices lies
/// on the circle of that radius about the centre, and each is one radius
/// away from the next one round, vertex 5 from vertex 0 too: with the centre
/// the two form a triangle of three equal sides, so that neighbours are
/// sixty degrees of arc apart.  Both hold as nearly as whole millionths
/// allow.
pub proof fn lemma_hexagon_is_regular(cx: int, cy: int, r: int)
    requires
        r > 0,
    ensures
        hexagon(cx, cy, r).len() == 6,
        forall|i: int|
            0 <= i < 6 ==> lies_on_circle(
                #[trigger] hexagon(cx, cy, r)[i],
                Position { x: cx, y: cy },
                r,
            ),
        forall|i: int|
            0 <= i < 6 ==> apart_by(
                hexagon(cx, cy, r)[(i + 1) % 6],
                #[trigger] hexagon(cx, cy, r)[i],
                r,
            ),
{
    let a: int = apothem(r);
    let b: int = half(r);
    let e: int = r - b;
    let c: Position = Position { x: cx, y: cy };
    let v: Seq<Position> = hexagon(cx, cy, r);
    lemma_apothem(r);
    // the radius against its half, rounded down and rounded up
    lemma_square_le(2 * b, r);
    lemma_square_of_double(b);
    lemma_square_le(r, 2 * b + 1);
    lemma_square_le(r, 2 * (b + 1));
    lemma_square_of_double(b + 1);
    lemma_square_le(2 * shortened(e), r);
    lemma_square_of_double(shortened(e));
    lemma_square_le(r, 2 * (e + 1));
    lemma_square_of_double(e + 1);
    lemma_square_le(shortened(2 * b), r);
    lemma_square_le(shortened(a), a);
    lemma_square_le(0, a + 1);
    lemma_square_le(0, b + 1);
    lemma_square_le(r, r + 1);
    assert forall|i: int| 0 <= i < 6 implies lies_on_circle(#[trigger] v[i], c, r) by {
        if i == 1 || i == 4 {
            assert(magnitude(v[i].x - c.x) == 0);
            assert(magnitude(v[i].y - c.y) == r);
        } else {
            assert(magnitude(v[i].x - c.x) == a);
            assert(magnitude(v[i].y - c.y) == b);
        }
    }
    assert forall|i: int| 0 <= i < 6 implies apart_by(v[(i + 1) % 6], #[trigger] v[i], r) by {
        let p: Position = v[(i + 1) % 6];
        let q: Position = v[i];
        if i == 2 || i == 5 {
            assert(magnitude(p.x - q.x) == 0);
            assert(magnitude(p.y - q.y) == 2 * b);
        } else {
            assert(magnitude(p.x - q.x) == a);
            assert(magnitude(p.y - q.y) == e);
        }
    }
}

/// The vertices `v`, mirrored top to bottom in the horizontal line at height
/// `axis`.
pub open spec fn mirrored(v: Seq<Position>, axis: int) -> Seq<Position> {
    Seq::new(v.len(), |i: int| Position { x: v[i].x, y: 2 * axis - v[i].y })
}

/// Mirroring a hexagon top to bottom reverses the sign of its stroke unit.
pub proof fn lemma_mirroring_reverses_coeff(v: Seq<Position>, axis: int)
    requires
        v.len() == 6,
    ensures
        offset_coeff(mirrored(v, axis)) == -offset_coeff(v),
{
}

/// An upright box, by its four sides.
pub struct Extent {
    pub left: int,
    pub right: int,
    pub top: int,
    pub bottom: int,
}

/// Whether `b` is the bounding box of the points `v`: the box that holds
/// them all and touches one of them with each side.
pub open spec fn is_bounding_box(b: Extent, v: Seq<Position>) -> bool {
    &&& forall|i: int|
        0 <= i < v.len() ==> b.left <= (#[trigger] v[i]).x <= b.right && b.top <= v[i].y
            <= b.bottom
    &&& exists|i: int| 0 <= i < v.len() && (#[trigger] v[i]).x == b.left
    &&& exists|i: int| 0 <= i < v.len() && (#[trigger] v[i]).x == b.right
    &&& exists|i: int| 0 <= i < v.len() && (#[trigger] v[i]).y == b.top
    &&& exists|i: int| 0 <= i < v.len() && (#[trigger] v[i]).y == b.bottom
}

/// Whether the box `inner` lies within the box `outer` and touches none of
/// its sides.
pub open spec fn strictly_inside(inner: Extent, outer: Extent) -> bool {
    outer.left < inner.left && inner.right < outer.right && outer.top < inner.top && inner.bottom
        < outer.bottom
}

/// The bounding box of a hexagon reaches one apothem to the left and to the
/// right of the centre, and one radius above and below it.
pub proof fn lemma_hexagon_bounding_box(cx: int, cy: int, r: int)
    ensures
        is_bounding_box(
            Extent {
                left: cx - magnitude(apothem(r)),
                right: cx + magnitude(apothem(r)),
                top: cy - magnitude(r),
                bottom: cy + magnitude(r),
            },
            hexagon(cx, cy, r),
        ),
{
    let v: Seq<Position> = hexagon(cx, cy, r);
    let b: Extent = Extent {
        left: cx - magnitude(apothem(r)),
        right: cx + magnitude(apothem(r)),
        top: cy - magnitude(r),
        bottom: cy + magnitude(r),
    };
    lemma_apothem(r);
    if r >= 0 {
        assert(v[2].x == b.left);
        assert(v[0].x == b.right);
        assert(v[1].y == b.top);
        assert(v[4].y == b.bottom);
    } else {
        assert(v[0].x == b.left);
        assert(v[2].x == b.right);
        assert(v[4].y == b.top);
        assert(v[1].y == b.bottom);
    }
}

/// A set of points has one bounding box at most.
pub proof fn lemma_bounding_box_unique(a: Extent, b: Extent, v: Seq<Position>)
    requires
        is_bounding_box(a, v),
        is_bounding_box(b, v),
    ensures
        a == b,
{
}

/// A radius longer by two millionths or more has a strictly longer apothem.
pub proof fn lemma_apothem_strictly_increases(r: int, s: int)
    requires
        0 <= r,
        r + 2 <= s,
    ensures
        apothem(r) < apothem(s),
{
    let a: int = apothem(r);
    let t: int = apothem(s);
    lemma_apothem(r);
    lemma_apothem(s);
    lemma_square_le(r + 2, s);
    assert((r + 2) * (r + 2) == r * r + 4 * r + 4) by (nonlinear_arith);
    assert((a + 1) * (a + 1) == a * a + 2 * a + 1) by (nonlinear_arith);
    // 4 (a + 1)^2 <= 3 r^2 + 8 a + 4 <= 3 (r + 2)^2 <= 3 s^2 < 4 (t + 1)^2
    if t <= a {
        lemma_square_le(t + 1, a + 1);
    }
}

} // verus!
