use data_cleaner::containment::{check_inside_curve, point_inside};
use data_cleaner::geometry::{do_intersect, on_segment, orientation, Orientation, Point};

fn pt(x: i32, y: i32) -> Point {
    Point::new(x * 1000, y * 1000)
}

#[test]
fn test_on_segment() {
    let p = pt(0, 0);
    let q = pt(1, 1);
    let r = pt(2, 2);
    assert_eq!(on_segment(&p, &q, &r), true);

    let p = pt(0, 0);
    let q = pt(2, 2);
    let r = pt(1, 1);
    assert_eq!(on_segment(&p, &q, &r), false);
}

#[test]
fn test_do_intersect() {
    let p1 = pt(-1, 0);
    let q1 = pt(1, 0);
    let p2 = pt(0, 1);
    let q2 = pt(0, -1);
    assert_eq!(do_intersect(&p1, &q1, &p2, &q2), true);

    let p1 = pt(2, 0);
    let q1 = pt(3, 0);
    let p2 = pt(0, 1);
    let q2 = pt(0, -1);
    assert_eq!(do_intersect(&p1, &q1, &p2, &q2), false);

    let p1 = pt(0, 0);
    let q1 = pt(3, 0);
    let p2 = pt(0, 1);
    let q2 = pt(0, -1);
    assert_eq!(do_intersect(&p1, &q1, &p2, &q2), true);

    let p1 = pt(0, 0);
    let q1 = pt(3, 0);
    let p2 = pt(0, 0);
    let q2 = pt(0, -1);
    assert_eq!(do_intersect(&p1, &q1, &p2, &q2), true);
}

#[test]
fn orientation_signs() {
    assert_eq!(orientation(&pt(0, 0), &pt(1, 0), &pt(2, 0)), Orientation::Colinear);
    assert_eq!(orientation(&pt(0, 0), &pt(0, 1), &pt(1, 1)), Orientation::Clockwise);
    assert_eq!(orientation(&pt(0, 0), &pt(1, 0), &pt(1, 1)), Orientation::Counterclockwise);
}

#[test]
fn orientation_extreme_coordinates() {
    let a = Point::new(i32::MIN, i32::MIN);
    let b = Point::new(i32::MAX, i32::MAX);
    let c = Point::new(i32::MIN, i32::MAX);
    assert_eq!(orientation(&a, &b, &c), Orientation::Counterclockwise);
    assert_eq!(orientation(&b, &a, &c), Orientation::Clockwise);
}

#[test]
fn do_intersect_symmetric_in_segments() {
    let pts = [pt(-1, 0), pt(1, 0), pt(0, 1), pt(0, -1), pt(2, 0), pt(3, 0), pt(0, 0), pt(1, 1)];
    for a in pts.iter() {
        for b in pts.iter() {
            for c in pts.iter() {
                for d in pts.iter() {
                    assert_eq!(do_intersect(a, b, c, d), do_intersect(c, d, a, b));
                }
            }
        }
    }
}

#[test]
fn square_inside_outside_and_boundary() {
    let square = vec![pt(0, 0), pt(0, 10), pt(10, 10), pt(10, 0)];
    let r = check_inside_curve(square.clone(), vec![pt(5, 5), pt(15, 15), pt(0, 5)]);
    assert_eq!(r[0], true);
    assert_eq!(r[1], false);
    let again = check_inside_curve(square.clone(), vec![pt(0, 5)]);
    assert_eq!(again[0], r[2]);
}

#[test]
fn triangle_inside_outside() {
    let triangle = vec![pt(0, 0), pt(4, 0), pt(2, 4)];
    let r = check_inside_curve(triangle, vec![pt(2, 1), pt(5, 5)]);
    assert_eq!(r, vec![true, false]);
}

#[test]
fn vertex_at_query_height_counts_once() {
    // The ray from (1, 2) passes through the vertex (2, 2) of this diamond.
    let diamond = vec![pt(0, 0), pt(2, 2), pt(0, 4), pt(-2, 2)];
    let r = check_inside_curve(diamond, vec![pt(1, 2), pt(-3, 2), pt(3, 2)]);
    assert_eq!(r, vec![true, false, false]);
}

#[test]
fn reversed_curve_same_classification() {
    let curve = vec![pt(0, 0), pt(4, 0), pt(6, 3), pt(2, 4), pt(-1, 2)];
    let mut reversed = curve.clone();
    reversed.reverse();
    let queries = vec![pt(2, 1), pt(5, 5), pt(0, 2), pt(3, 3), pt(-2, -2), pt(4, 0)];
    assert_eq!(
        check_inside_curve(curve, queries.clone()),
        check_inside_curve(reversed, queries)
    );
}

#[test]
fn point_inside_fractional_coordinates() {
    let square = vec![Point::new(0, 0), Point::new(0, 500), Point::new(500, 500), Point::new(500, 0)];
    assert!(point_inside(&square, &Point::new(250, 200)));
    assert!(!point_inside(&square, &Point::new(750, 200)));
}
