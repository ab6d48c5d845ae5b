use std::rc::Rc;
use delaunay::point::Point;
use delaunay::triangle::Triangle;

const EP: f64 = 0.01;

#[test]
fn test_working() {
    assert_eq!(1, 1);
}

#[test]
fn test_circumcenter() {
    let mut points: Vec<Rc<Point>> = Vec::new();
    points.push(Rc::new(Point::new(10, 15)));
    points.push(Rc::new(Point::new(93, 10)));
    points.push(Rc::new(Point::new(-2, 6)));
    points.push(Rc::new(Point::new(0, 0)));

    let results = [(47.86, -47.98), (45.06, 18.35)];
    let mut i = 0;
    for tri_i in 0..(points.len() - 2) {
        let tri = Triangle::new(tri_i, tri_i + 1, tri_i + 2);
        let circumcenter = tri.find_circumcenter(&points);
        let x = circumcenter.x_num as f64 / circumcenter.den as f64;
        assert!(results[i].0 - EP <= x && x <= results[i].0 + EP);
        i += 1;
    }
}

#[test]
fn test_sorted_points() {
    let mut points: Vec<Point> = Vec::new();
    points.push(Point::new(0, 0));
    points.push(Point::new(10, 10));
    points.push(Point::new(20, 0));
    let t1 = Triangle::new_unsorted(0, 1, 2, &points);
    let t2 = Triangle::new_unsorted(0, 2, 1, &points);
    let t3 = Triangle::new_unsorted(1, 0, 2, &points);

    assert_eq!(t1.p1, 1);
    assert_eq!(t2.p1, 1);
    assert_eq!(t3.p1, 1);
    assert_eq!(t1.p2, 2);
    assert_eq!(t2.p2, 2);
    assert_eq!(t3.p2, 2);
    assert_eq!(t1.p3, 0);
    assert_eq!(t2.p3, 0);
    assert_eq!(t3.p3, 0);

    // now add a point with negative y
    points.push(Point::new(100, -10));
    let t4 = Triangle::new_unsorted(0, 2, 3, &points);
    assert_eq!(t4.p1, 2);
    assert_eq!(t4.p2, 3);
    assert_eq!(t4.p3, 0);
}

#[test]
fn test_point_inside() {
    let mut points: Vec<Point> = Vec::new();
    points.push(Point::new(0, 0));
    points.push(Point::new(10, 10));
    points.push(Point::new(20, 0));

    let tri = Triangle::new_unsorted(0, 1, 2, &points);
    let p1 = Point::new(5, 5);
    let p2 = Point::new(10, 5);
    let p3 = Point::new(20, 5);
    let p4 = Point::new(-1, 0);

    assert_eq!(tri.is_point_inside_or_in_border(&p1, &points), true);
    assert_eq!(tri.is_point_inside_or_in_border(&p2, &points), true);
    assert_eq!(tri.is_point_inside_or_in_border(&p3, &points), false);
    assert_eq!(tri.is_point_inside_or_in_border(&p4, &points), false);
}

#[test]
fn circumcenter_exact_values() {
    let points: Vec<Rc<Point>> = vec![
        Rc::new(Point::new(10, 15)),
        Rc::new(Point::new(93, 10)),
        Rc::new(Point::new(-2, 6)),
        Rc::new(Point::new(0, 0)),
    ];
    let c = Triangle::new(0, 1, 2).find_circumcenter(&points);
    assert_eq!((c.x_num, c.y_num, c.den), (-77241, 77433, -1614));
    let c = Triangle::new(1, 2, 3).find_circumcenter(&points);
    assert_eq!((c.x_num, c.y_num, c.den), (52094, 21218, 1156));
    let y = c.y_num as f64 / c.den as f64;
    assert!(18.35 - EP <= y && y <= 18.35 + EP);
}

#[test]
fn circumcenter_of_collinear_points_has_zero_denominator() {
    let points: Vec<Rc<Point>> = vec![
        Rc::new(Point::new(0, 0)),
        Rc::new(Point::new(1, 1)),
        Rc::new(Point::new(2, 2)),
    ];
    let c = Triangle::new(0, 1, 2).find_circumcenter(&points);
    assert_eq!(c.den, 0);
}

#[test]
fn circumcenter_at_extreme_coordinates() {
    let points: Vec<Rc<Point>> = vec![
        Rc::new(Point::new(i32::MIN, i32::MAX)),
        Rc::new(Point::new(i32::MAX, i32::MAX)),
        Rc::new(Point::new(0, i32::MIN)),
    ];
    let c = Triangle::new(0, 1, 2).find_circumcenter(&points);
    assert!(c.den != 0);
}

#[test]
fn canonical_order_ignores_argument_order() {
    let points = vec![Point::new(3, 9), Point::new(-4, 1), Point::new(8, 1), Point::new(5, -2)];
    let expected = Triangle::new(0, 2, 1);
    for (a, b, c) in [(0, 1, 2), (0, 2, 1), (1, 0, 2), (1, 2, 0), (2, 0, 1), (2, 1, 0)] {
        assert_eq!(Triangle::new_unsorted(a, b, c, &points), expected);
    }
}

#[test]
fn canonical_order_breaks_ties() {
    // equal y: the greater x is on top; equal x below: the greater y comes second
    let points = vec![Point::new(0, 5), Point::new(4, 5), Point::new(0, 1)];
    let t = Triangle::new_unsorted(0, 1, 2, &points);
    assert_eq!((t.p1, t.p2, t.p3), (1, 0, 2));
    let points = vec![Point::new(2, 0), Point::new(2, 3), Point::new(0, 9)];
    let t = Triangle::new_unsorted(0, 1, 2, &points);
    assert_eq!((t.p1, t.p2, t.p3), (2, 1, 0));
}

#[test]
fn canonical_order_keeps_argument_order_for_coincident_points() {
    let points = vec![Point::new(1, 1), Point::new(1, 1), Point::new(0, 0)];
    let t = Triangle::new_unsorted(0, 1, 2, &points);
    assert_eq!((t.p1, t.p2, t.p3), (0, 1, 2));
    let t = Triangle::new_unsorted(1, 0, 2, &points);
    assert_eq!((t.p1, t.p2, t.p3), (1, 0, 2));
}

#[test]
fn new_keeps_indices_as_given() {
    let t = Triangle::new(4, 1, 7);
    assert_eq!((t.p1, t.p2, t.p3), (4, 1, 7));
    assert_eq!((t.n12, t.n23, t.n31), (None, None, None));
}

#[test]
fn set_neighbors_overwrites_all_three() {
    let mut t = Triangle::new(0, 1, 2);
    t.set_neighbors(Some(3), None, Some(5));
    assert_eq!((t.p1, t.p2, t.p3), (0, 1, 2));
    assert_eq!((t.n12, t.n23, t.n31), (Some(3), None, Some(5)));
    t.set_neighbors(None, Some(1), None);
    assert_eq!((t.n12, t.n23, t.n31), (None, Some(1), None));
}

#[test]
fn point_on_a_vertex_or_edge_counts_as_inside() {
    let points = vec![Point::new(0, 0), Point::new(10, 10), Point::new(20, 0)];
    let tri = Triangle::new_unsorted(0, 1, 2, &points);
    assert!(tri.is_point_inside_or_in_border(&Point::new(0, 0), &points));
    assert!(tri.is_point_inside_or_in_border(&Point::new(10, 0), &points));
    assert!(!tri.is_point_inside_or_in_border(&Point::new(10, 11), &points));
}

#[test]
fn random_point_stays_in_its_box() {
    for _ in 0..200 {
        let p = Point::random(-5, 5, 10, 12);
        assert!(-5 <= p.x && p.x < 5);
        assert!(10 <= p.y && p.y < 12);
    }
    let p = Point::random(7, 8, -3, -2);
    assert_eq!((p.x, p.y), (7, -3));
}

#[test]
fn random_points_vary() {
    let first = Point::random(0, 1_000_000, 0, 1_000_000);
    let mut differs = false;
    for _ in 0..20 {
        if Point::random(0, 1_000_000, 0, 1_000_000) != first {
            differs = true;
        }
    }
    assert!(differs);
}
