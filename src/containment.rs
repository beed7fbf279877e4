//! Inside / outside classification of points against a closed curve, by counting
//! how many curve edges a horizontal ray from the query point to the right crosses.
//!
//! Each edge is taken as half-open in y: it counts when exactly one of its end
//! points lies above the query. A vertex on the ray is thus counted once, and no
//! outside reference point is needed. All arithmetic is exact.
use vstd::prelude::*;
use crate::geometry::{Point, lemma_product_bound};

verus! {

/// Twice the signed area of the triangle a, b, p: positive when p lies to the left
/// of the directed line a -> b.
pub open spec fn side(a: Point, b: Point, p: Point) -> int {
    (b.x - a.x) * (p.y - a.y) - (b.y - a.y) * (p.x - a.x)
}

/// The horizontal ray from p to the right crosses the edge a-b: the edge spans
/// p's height (half-open), and p lies left of the crossing.
pub open spec fn ray_crosses(a: Point, b: Point, p: Point) -> bool {
    &&& (a.y > p.y) != (b.y > p.y)
    &&& if b.y > a.y { side(a, b, p) > 0 } else { side(a, b, p) < 0 }
}

/// End point of edge i of the closed curve c; the last edge returns to c[0].
pub open spec fn edge_end(c: Seq<Point>, i: int) -> Point {
    if i + 1 < c.len() { c[i + 1] } else { c[0] }
}

/// The ray from p crosses edge i of c.
pub open spec fn edge_hit(c: Seq<Point>, p: Point, i: int) -> bool {
    ray_crosses(c[i], edge_end(c, i), p)
}

/// Tells whether the horizontal ray from p to the right crosses the edge a-b.
pub fn crosses(a: &Point, b: &Point, p: &Point) -> (r: bool)
    ensures
        r == ray_crosses(*a, *b, *p),
{
    if (a.y > p.y) == (b.y > p.y) {
        return false;
    }
    proof {
        lemma_product_bound(b.x - a.x, p.y - a.y);
        lemma_product_bound(b.y - a.y, p.x - a.x);
    }
    let l: i128 = (b.x as i128 - a.x as i128) * (p.y as i128 - a.y as i128);
    let r: i128 = (b.y as i128 - a.y as i128) * (p.x as i128 - a.x as i128);
    let s: i128 = l - r;
    if b.y > a.y { s > 0 } else { s < 0 }
}

proof fn lemma_side_swap(a: Point, b: Point, p: Point)
    ensures
        side(b, a, p) == -side(a, b, p),
{
    let (ax, ay, bx, by, px, py) = (a.x as int, a.y as int, b.x as int, b.y as int, p.x as int, p.y as int);
    assert((ax - bx) * (py - by) - (ay - by) * (px - bx) == -((bx - ax) * (py - ay) - (by - ay) * (px - ax)))
        by (nonlinear_arith);
}

/// Whether the ray crosses an edge does not depend on the edge's direction.
pub proof fn lemma_ray_crosses_reversed(a: Point, b: Point, p: Point)
    ensures
        ray_crosses(a, b, p) == ray_crosses(b, a, p),
{
    lemma_side_swap(a, b, p);
}

/// Number of edges among lo .. hi that the ray to p meets.
pub open spec fn crossings(c: Seq<Point>, p: Point, lo: int, hi: int) -> nat
    decreases hi - lo,
{
    if hi <= lo {
        0
    } else {
        crossings(c, p, lo, hi - 1) + if edge_hit(c, p, hi - 1) { 1nat } else { 0nat }
    }
}

/// p lies inside the closed curve c by the parity rule.
pub open spec fn inside(c: Seq<Point>, p: Point) -> bool {
    crossings(c, p, 0, c.len() as int) % 2 == 1
}

/// Classifies each point of `data` as inside (`true`) or outside the closed curve.
pub fn check_inside_curve(curve: Vec<Point>, data: Vec<Point>) -> (r: Vec<bool>)
    requires
        curve@.len() >= 3,
    ensures
        r@.len() == data@.len(),
        forall|i: int| 0 <= i < data@.len() ==> r@[i] == inside(curve@, #[trigger] data@[i]),
{
    let mut r: Vec<bool> = Vec::new();
    let mut j: usize = 0;
    while j < data.len()
        invariant
            curve@.len() >= 3,
            j <= data@.len(),
            r@.len() == j,
            forall|i: int| 0 <= i < j ==> r@[i] == inside(curve@, #[trigger] data@[i]),
        decreases data@.len() - j,
    {
        let b = point_inside(&curve, &data[j]);
        r.push(b);
        j += 1;
    }
    r
}

/// Tells whether p lies inside the closed curve.
pub fn point_inside(curve: &Vec<Point>, p: &Point) -> (b: bool)
    requires
        curve@.len() >= 1,
    ensures
        b == inside(curve@, *p),
{
    let n = curve.len();
    let mut count: usize = 0;
    let mut i: usize = 0;
    while i < n
        invariant
            n == curve@.len(),
            n >= 1,
            i <= n,
            count == crossings(curve@, *p, 0, i as int),
            count <= i,
        decreases n - i,
    {
        let next = if i + 1 < n { curve[i + 1] } else { curve[0] };
        assert(next == edge_end(curve@, i as int));
        if crosses(&curve[i], &next, p) {
            count += 1;
        }
        i += 1;
    }
    count % 2 == 1
}

proof fn lemma_crossings_peel(c: Seq<Point>, p: Point, lo: int, hi: int)
    requires
        lo < hi,
    ensures
        crossings(c, p, lo, hi) == (if edge_hit(c, p, lo) { 1nat } else { 0nat }) + crossings(
            c,
            p,
            lo + 1,
            hi,
        ),
    decreases hi - lo,
{
    assert(crossings(c, p, lo + 1, lo + 1) == 0);
    if lo + 1 < hi {
        lemma_crossings_peel(c, p, lo, hi - 1);
        assert(crossings(c, p, lo + 1, hi) == crossings(c, p, lo + 1, hi - 1) + (if edge_hit(
            c,
            p,
            hi - 1,
        ) {
            1nat
        } else {
            0nat
        }));
    } else {
        assert(crossings(c, p, lo, lo) == 0);
    }
}

proof fn lemma_crossings_reverse_prefix(c: Seq<Point>, p: Point, k: int)
    requires
        c.len() >= 1,
        0 <= k <= c.len() - 1,
    ensures
        crossings(c.reverse(), p, 0, k) == crossings(c, p, c.len() - 1 - k, c.len() - 1),
    decreases k,
{
    let n = c.len() as int;
    let r = c.reverse();
    if k > 0 {
        lemma_crossings_reverse_prefix(c, p, k - 1);
        lemma_crossings_peel(c, p, n - 1 - k, n - 1);
        lemma_ray_crosses_reversed(c[n - 1 - k], c[n - k], p);
        assert(r[k - 1] == c[n - k]);
        assert(edge_end(r, k - 1) == c[n - 1 - k]);
    }
}

/// Reversing the order of a curve's points does not change which points lie inside it.
pub proof fn lemma_inside_reversal_invariant(c: Seq<Point>, p: Point)
    requires
        c.len() >= 3,
    ensures
        inside(c.reverse(), p) == inside(c, p),
{
    let n = c.len() as int;
    let r = c.reverse();
    lemma_crossings_reverse_prefix(c, p, n - 1);
    lemma_ray_crosses_reversed(c[n - 1], c[0], p);
    assert(r[n - 1] == c[0]);
    assert(edge_end(r, n - 1) == c[n - 1]);
}

} // verus!
