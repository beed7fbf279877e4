//! Segment intersection on points with integer coordinates.
//!
//! Coordinates are fixed-point values in thousandths of a plot unit, so every
//! orientation test is exact.
use vstd::prelude::*;

verus! {

/// A point of the plane, each coordinate in thousandths of a plot unit.
#[derive(Clone, Copy, Debug, PartialEq, Eq, Structural)]
pub struct Point {
    pub x: i32,
    pub y: i32,
}

impl Point {
    pub fn new(x: i32, y: i32) -> (r: Point)
        ensures
            r.x == x,
            r.y == y,
    {
        Point { x, y }
    }
}

/// Turning direction of the path p -> q -> r.
#[derive(Clone, Copy, Debug, PartialEq, Eq, Structural)]
pub enum Orientation {
    Colinear,
    Clockwise,
    Counterclockwise,
}

/// The cross product whose sign gives the orientation of p -> q -> r.
pub open spec fn cross(p: Point, q: Point, r: Point) -> int {
    (q.y - p.y) * (r.x - q.x) - (q.x - p.x) * (r.y - q.y)
}

pub open spec fn orientation_of(p: Point, q: Point, r: Point) -> Orientation {
    let v = cross(p, q, r);
    if v > 0 {
        Orientation::Clockwise
    } else if v < 0 {
        Orientation::Counterclockwise
    } else {
        Orientation::Colinear
    }
}

pub open spec fn min_of(a: int, b: int) -> int {
    if a <= b { a } else { b }
}

pub open spec fn max_of(a: int, b: int) -> int {
    if a >= b { a } else { b }
}

/// q lies in the closed bounding box spanned by p and r.
pub open spec fn in_box(p: Point, q: Point, r: Point) -> bool {
    &&& min_of(p.x as int, r.x as int) <= q.x <= max_of(p.x as int, r.x as int)
    &&& min_of(p.y as int, r.y as int) <= q.y <= max_of(p.y as int, r.y as int)
}

/// The closed segments p1-q1 and p2-q2 meet.
pub open spec fn segments_meet(p1: Point, q1: Point, p2: Point, q2: Point) -> bool {
    let o1 = orientation_of(p1, q1, p2);
    let o2 = orientation_of(p1, q1, q2);
    let o3 = orientation_of(p2, q2, p1);
    let o4 = orientation_of(p2, q2, q1);
    (o1 != o2 && o3 != o4)
    || (o1 == Orientation::Colinear && in_box(p1, p2, q1))
    || (o2 == Orientation::Colinear && in_box(p1, q2, q1))
    || (o3 == Orientation::Colinear && in_box(p2, p1, q2))
    || (o4 == Orientation::Colinear && in_box(p2, q1, q2))
}

/// Given three collinear points, tells whether q lies in the bounding box of p and r.
pub fn on_segment(p: &Point, q: &Point, r: &Point) -> (b: bool)
    ensures
        b == in_box(*p, *q, *r),
{
    let max_x = if p.x >= r.x { p.x } else { r.x };
    let min_x = if p.x <= r.x { p.x } else { r.x };
    let max_y = if p.y >= r.y { p.y } else { r.y };
    let min_y = if p.y <= r.y { p.y } else { r.y };
    q.x <= max_x && q.x >= min_x && q.y <= max_y && q.y >= min_y
}

pub fn orientation(p: &Point, q: &Point, r: &Point) -> (o: Orientation)
    ensures
        o == orientation_of(*p, *q, *r),
{
    proof {
        lemma_product_bound(q.y - p.y, r.x - q.x);
        lemma_product_bound(q.x - p.x, r.y - q.y);
    }
    let a: i128 = (q.y as i128 - p.y as i128) * (r.x as i128 - q.x as i128);
    let b: i128 = (q.x as i128 - p.x as i128) * (r.y as i128 - q.y as i128);
    let val: i128 = a - b;
    if val > 0 {
        Orientation::Clockwise
    } else if val < 0 {
        Orientation::Counterclockwise
    } else {
        Orientation::Colinear
    }
}

pub(crate) proof fn lemma_product_bound(a: int, b: int)
    requires
        -0x1_0000_0000 <= a <= 0x1_0000_0000,
        -0x1_0000_0000 <= b <= 0x1_0000_0000,
    ensures
        -0x1_0000_0000_0000_0000 <= a * b <= 0x1_0000_0000_0000_0000,
{
    assert(-0x1_0000_0000_0000_0000 <= a * b <= 0x1_0000_0000_0000_0000) by (nonlinear_arith)
        requires
            -0x1_0000_0000 <= a <= 0x1_0000_0000,
            -0x1_0000_0000 <= b <= 0x1_0000_0000,
    ;
}

/// Tells whether the closed segments p1-q1 and p2-q2 meet, touching and
/// collinear overlap included.
pub fn do_intersect(p1: &Point, q1: &Point, p2: &Point, q2: &Point) -> (b: bool)
    ensures
        b == segments_meet(*p1, *q1, *p2, *q2),
{
    let o1 = orientation(p1, q1, p2);
    let o2 = orientation(p1, q1, q2);
    let o3 = orientation(p2, q2, p1);
    let o4 = orientation(p2, q2, q1);
    if o1 != o2 && o3 != o4 {
        return true;
    }
    (o1 == Orientation::Colinear && on_segment(p1, p2, q1))
    || (o2 == Orientation::Colinear && on_segment(p1, q2, q1))
    || (o3 == Orientation::Colinear && on_segment(p2, p1, q2))
    || (o4 == Orientation::Colinear && on_segment(p2, q1, q2))
}

/// Whether two segments meet does not depend on which of them is named first.
pub proof fn lemma_do_intersect_symmetric(a: Point, b: Point, c: Point, d: Point)
    ensures
        segments_meet(a, b, c, d) == segments_meet(c, d, a, b),
{
}

} // verus!
