//! Samples and series, pairing two series into plot points, and marking samples
//! as excluded after a containment test.
use vstd::prelude::*;
use crate::geometry::Point;
use crate::containment::{inside, point_inside};

verus! {

/// One reading of a series, in thousandths of a unit.
pub enum Sample {
    Valid(i32),
    Missing,
    Excluded(i32, String),
}

/// A named column of samples; all series of a dataset share one time index.
pub struct Series {
    pub name: String,
    pub data: Vec<Sample>,
}

/// A drawn curve; it can bound a region once it has been closed.
pub struct Curve {
    pub points: Vec<Point>,
    pub closed: bool,
}

#[derive(Clone, Copy, Debug, PartialEq, Eq, Structural)]
pub enum CurveError {
    TooFewPoints,
    NotClosed,
}

/// The plot point of a pair of samples: present only when both are valid.
pub open spec fn pair_point_of(x: Sample, y: Sample) -> Option<Point> {
    match (x, y) {
        (Sample::Valid(a), Sample::Valid(b)) => Some(Point { x: a, y: b }),
        _ => None,
    }
}

pub fn pair_point(x: &Sample, y: &Sample) -> (r: Option<Point>)
    ensures
        r == pair_point_of(*x, *y),
{
    match (x, y) {
        (Sample::Valid(a), Sample::Valid(b)) => Some(Point { x: *a, y: *b }),
        _ => None,
    }
}

/// The plot points of two aligned series; a pair that is not wholly valid is `None`.
pub fn convert_points(xs: &Vec<Sample>, ys: &Vec<Sample>) -> (r: Vec<Option<Point>>)
    requires
        xs@.len() == ys@.len(),
    ensures
        r@.len() == xs@.len(),
        forall|i: int| 0 <= i < xs@.len() ==> r@[i] == pair_point_of(#[trigger] xs@[i], ys@[i]),
{
    let mut r: Vec<Option<Point>> = Vec::new();
    let mut i: usize = 0;
    while i < xs.len()
        invariant
            xs@.len() == ys@.len(),
            i <= xs@.len(),
            r@.len() == i,
            forall|j: int| 0 <= j < i ==> r@[j] == pair_point_of(#[trigger] xs@[j], ys@[j]),
        decreases xs@.len() - i,
    {
        r.push(pair_point(&xs[i], &ys[i]));
        i += 1;
    }
    r
}

/// The points of the pairs whose samples are both valid, in order.
pub open spec fn valid_points(xs: Seq<Sample>, ys: Seq<Sample>, n: int) -> Seq<Point>
    decreases n,
{
    if n <= 0 {
        Seq::empty()
    } else {
        let rest = valid_points(xs, ys, n - 1);
        match (xs[n - 1], ys[n - 1]) {
            (Sample::Valid(a), Sample::Valid(b)) => rest.push(Point { x: a, y: b }),
            _ => rest,
        }
    }
}

/// The points of the pairs whose samples are both excluded, in order.
pub open spec fn excluded_points(xs: Seq<Sample>, ys: Seq<Sample>, n: int) -> Seq<Point>
    decreases n,
{
    if n <= 0 {
        Seq::empty()
    } else {
        let rest = excluded_points(xs, ys, n - 1);
        match (xs[n - 1], ys[n - 1]) {
            (Sample::Excluded(a, _), Sample::Excluded(b, _)) => rest.push(Point { x: a, y: b }),
            _ => rest,
        }
    }
}

pub fn extract_valid_points(xs: &Vec<Sample>, ys: &Vec<Sample>) -> (r: Vec<Point>)
    requires
        xs@.len() == ys@.len(),
    ensures
        r@ == valid_points(xs@, ys@, xs@.len() as int),
{
    let mut r: Vec<Point> = Vec::new();
    let mut i: usize = 0;
    while i < xs.len()
        invariant
            xs@.len() == ys@.len(),
            i <= xs@.len(),
            r@ == valid_points(xs@, ys@, i as int),
        decreases xs@.len() - i,
    {
        match (&xs[i], &ys[i]) {
            (Sample::Valid(a), Sample::Valid(b)) => r.push(Point { x: *a, y: *b }),
            _ => {},
        }
        i += 1;
    }
    r
}

pub fn extract_excluded_points(xs: &Vec<Sample>, ys: &Vec<Sample>) -> (r: Vec<Point>)
    requires
        xs@.len() == ys@.len(),
    ensures
        r@ == excluded_points(xs@, ys@, xs@.len() as int),
{
    let mut r: Vec<Point> = Vec::new();
    let mut i: usize = 0;
    while i < xs.len()
        invariant
            xs@.len() == ys@.len(),
            i <= xs@.len(),
            r@ == excluded_points(xs@, ys@, i as int),
        decreases xs@.len() - i,
    {
        match (&xs[i], &ys[i]) {
            (Sample::Excluded(a, _), Sample::Excluded(b, _)) => r.push(Point { x: *a, y: *b }),
            _ => {},
        }
        i += 1;
    }
    r
}

/// Inside / outside of an optional point: an absent point is never inside.
pub open spec fn classified(c: Seq<Point>, p: Option<Point>) -> bool {
    match p {
        Some(q) => inside(c, q),
        None => false,
    }
}

/// Classifies each point against a closed curve of at least three points;
/// `None` stands for a pair that is not wholly valid and is never inside.
pub fn classify_containment(curve: &Curve, points: &Vec<Option<Point>>) -> (r: Result<Vec<bool>, CurveError>)
    ensures
        curve.points@.len() < 3 ==> r == Err::<Vec<bool>, CurveError>(CurveError::TooFewPoints),
        curve.points@.len() >= 3 && !curve.closed ==> r == Err::<Vec<bool>, CurveError>(CurveError::NotClosed),
        curve.points@.len() >= 3 && curve.closed ==> (r matches Ok(v) && v@.len() == points@.len()
            && forall|i: int| 0 <= i < points@.len() ==> v@[i] == classified(curve.points@, #[trigger] points@[i])),
{
    if curve.points.len() < 3 {
        return Err(CurveError::TooFewPoints);
    }
    if !curve.closed {
        return Err(CurveError::NotClosed);
    }
    let mut v: Vec<bool> = Vec::new();
    let mut i: usize = 0;
    while i < points.len()
        invariant
            curve.points@.len() >= 3,
            i <= points@.len(),
            v@.len() == i,
            forall|j: int| 0 <= j < i ==> v@[j] == classified(curve.points@, #[trigger] points@[j]),
        decreases points@.len() - i,
    {
        let b = match &points[i] {
            Some(p) => point_inside(&curve.points, p),
            None => false,
        };
        v.push(b);
        i += 1;
    }
    Ok(v)
}

/// The sample after the exclusion mask bit `m` with `reason`: a valid sample
/// becomes excluded, every other sample stays.
pub open spec fn masked(s: Sample, m: bool, reason: String) -> Sample {
    match s {
        Sample::Valid(v) => if m { Sample::Excluded(v, reason) } else { s },
        _ => s,
    }
}

/// Marks as excluded, with `reason`, each valid sample whose mask bit is set.
pub fn exclude_samples(data: &mut Vec<Sample>, mask: &Vec<bool>, reason: &String)
    requires
        old(data)@.len() == mask@.len(),
    ensures
        final(data)@.len() == old(data)@.len(),
        forall|i: int| 0 <= i < mask@.len() ==> (#[trigger] final(data)@[i]) == masked(old(data)@[i], mask@[i], *reason),
{
    let mut i: usize = 0;
    while i < mask.len()
        invariant
            data@.len() == mask@.len(),
            i <= mask@.len(),
            forall|j: int| 0 <= j < i ==> (#[trigger] data@[j]) == masked(old(data)@[j], mask@[j], *reason),
            forall|j: int| i <= j < mask@.len() ==> (#[trigger] data@[j]) == old(data)@[j],
        decreases mask@.len() - i,
    {
        if mask[i] {
            let v = match &data[i] {
                Sample::Valid(v) => Some(*v),
                _ => None,
            };
            match v {
                Some(v) => {
                    data.set(i, Sample::Excluded(v, reason.clone()));
                },
                None => {},
            }
        }
        i += 1;
    }
}

} // verus!
