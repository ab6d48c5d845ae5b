use vstd::prelude::*;
use std::rc::Rc;
use crate::point::Point;

verus! {

/// Three point indices and, for each edge, the index of the triangle that
/// shares it, if known. The indices refer to a point list and to a triangle
/// collection owned elsewhere; the neighbour relation is not owning.
#[derive(Debug, Clone, Copy, PartialEq, Eq, Structural)]
pub struct Triangle {
    pub p1: usize,
    pub p2: usize,
    pub p3: usize,
    /// Triangle across the edge `p1`-`p2`.
    pub n12: Option<usize>,
    /// Triangle across the edge `p2`-`p3`.
    pub n23: Option<usize>,
    /// Triangle across the edge `p3`-`p1`.
    pub n31: Option<usize>,
}

/// The circumcenter `(x_num / den, y_num / den)` of a triangle, kept exact.
/// `den` is zero exactly when the three vertices are collinear.
#[derive(Debug, Clone, Copy, PartialEq, Eq, Structural)]
pub struct Circumcenter {
    pub x_num: i128,
    pub y_num: i128,
    pub den: i128,
}

/// `a` ranks at least as high as `b`: greater y, or equal y and x at least as great.
pub open spec fn ranks_higher(a: Point, b: Point) -> bool {
    a.y > b.y || (a.y == b.y && a.x >= b.x)
}

/// `a` lies at least as far right as `b`: greater x, or equal x and y at least as great.
pub open spec fn lies_righter(a: Point, b: Point) -> bool {
    a.x > b.x || (a.x == b.x && a.y >= b.y)
}

/// The canonical order of three point indices: first the highest point (the
/// earliest argument among equals), then the remaining two, rightmost first
/// (keeping their argument order when they coincide).
pub open spec fn canonical_order(a: usize, b: usize, c: usize, pts: Seq<Point>) -> (usize, usize, usize) {
    let (top, r1, r2) = if ranks_higher(pts[a as int], pts[b as int]) && ranks_higher(pts[a as int], pts[c as int]) {
        (a, b, c)
    } else if ranks_higher(pts[b as int], pts[c as int]) {
        (b, a, c)
    } else {
        (c, a, b)
    };
    if lies_righter(pts[r1 as int], pts[r2 as int]) {
        (top, r1, r2)
    } else {
        (top, r2, r1)
    }
}

/// A triangle over the given vertices with no neighbours recorded.
pub open spec fn bare_triangle(a: usize, b: usize, c: usize) -> Triangle {
    Triangle { p1: a, p2: b, p3: c, n12: None, n23: None, n31: None }
}

/// The triangle over `a`, `b`, `c` in canonical order.
pub open spec fn canonical_triangle(a: usize, b: usize, c: usize, pts: Seq<Point>) -> Triangle {
    let (t, u, v) = canonical_order(a, b, c, pts);
    bare_triangle(t, u, v)
}

/// Twice the signed area spanned by `q` against the directed edge `a -> b`,
/// with the sign convention of the containment test: it is non-negative when
/// `q` lies on the right of the edge or on its line.
pub open spec fn edge_side(q: Point, a: Point, b: Point) -> int {
    (q.x - a.x) * (b.y - a.y) - (q.y - a.y) * (b.x - a.x)
}

/// Whether `q` is inside the triangle `a, b, c` or on its border: it lies on
/// the lines of two edges at once, or on the non-negative side of all three.
pub open spec fn inside_or_on_border(q: Point, a: Point, b: Point, c: Point) -> bool {
    let d1 = edge_side(q, a, b);
    let d2 = edge_side(q, b, c);
    let d3 = edge_side(q, c, a);
    (d1 == 0 && d2 == 0) || (d2 == 0 && d3 == 0) || (d3 == 0 && d1 == 0)
        || (d1 >= 0 && d2 >= 0 && d3 >= 0)
}

/// Whether the triangle `t` over the point list `pts` contains `q` (border included).
pub open spec fn contains_point(t: Triangle, q: Point, pts: Seq<Point>) -> bool {
    inside_or_on_border(q, pts[t.p1 as int], pts[t.p2 as int], pts[t.p3 as int])
}

/// The squared distance of `p` from the origin.
pub open spec fn norm2(p: Point) -> int {
    p.x * p.x + p.y * p.y
}

/// The determinant `d` of the circumcenter formula.
pub open spec fn circum_den(a: Point, b: Point, c: Point) -> int {
    2 * (a.x * (b.y - c.y) + b.x * (c.y - a.y) + c.x * (a.y - b.y))
}

/// The numerator of the circumcenter's x-coordinate.
pub open spec fn circum_x_num(a: Point, b: Point, c: Point) -> int {
    norm2(a) * (b.y - c.y) + norm2(b) * (c.y - a.y) + norm2(c) * (a.y - b.y)
}

/// The numerator of the circumcenter's y-coordinate.
pub open spec fn circum_y_num(a: Point, b: Point, c: Point) -> int {
    norm2(a) * (c.x - b.x) + norm2(b) * (a.x - c.x) + norm2(c) * (b.x - a.x)
}

/// Three points at pairwise different positions.
pub open spec fn distinct_positions(a: usize, b: usize, c: usize, pts: Seq<Point>) -> bool {
    pts[a as int] != pts[b as int] && pts[b as int] != pts[c as int] && pts[a as int] != pts[c as int]
}

/// The canonical order rearranges its three arguments.
pub proof fn lemma_canonical_order_rearranges(a: usize, b: usize, c: usize, pts: Seq<Point>)
    ensures
        ({
            let (t, u, v) = canonical_order(a, b, c, pts);
            (t == a && u == b && v == c) || (t == a && u == c && v == b)
                || (t == b && u == a && v == c) || (t == b && u == c && v == a)
                || (t == c && u == a && v == b) || (t == c && u == b && v == a)
        }),
{
}

/// The canonical order of three points at distinct positions puts first the
/// point with the greatest y (the greatest x among equal y), then the other two
/// by descending x (descending y among equal x); it rearranges the arguments
/// and does not depend on the order in which they are given.
pub proof fn lemma_canonical_order(a: usize, b: usize, c: usize, pts: Seq<Point>)
    requires
        distinct_positions(a, b, c, pts),
    ensures
        ({
            let (t, u, v) = canonical_order(a, b, c, pts);
            &&& ranks_higher(pts[t as int], pts[u as int])
            &&& ranks_higher(pts[t as int], pts[v as int])
            &&& lies_righter(pts[u as int], pts[v as int])
            &&& (t == a && u == b && v == c) || (t == a && u == c && v == b)
                || (t == b && u == a && v == c) || (t == b && u == c && v == a)
                || (t == c && u == a && v == b) || (t == c && u == b && v == a)
        }),
        canonical_order(a, c, b, pts) == canonical_order(a, b, c, pts),
        canonical_order(b, a, c, pts) == canonical_order(a, b, c, pts),
        canonical_order(b, c, a, pts) == canonical_order(a, b, c, pts),
        canonical_order(c, a, b, pts) == canonical_order(a, b, c, pts),
        canonical_order(c, b, a, pts) == canonical_order(a, b, c, pts),
{
}

/// Building a triangle in canonical order from three points at distinct
/// positions gives the same triangle for every order of the arguments.
pub proof fn lemma_new_unsorted_permutation_invariant(a: usize, b: usize, c: usize, pts: Seq<Point>)
    requires
        distinct_positions(a, b, c, pts),
    ensures
        canonical_triangle(a, c, b, pts) == canonical_triangle(a, b, c, pts),
        canonical_triangle(b, a, c, pts) == canonical_triangle(a, b, c, pts),
        canonical_triangle(b, c, a, pts) == canonical_triangle(a, b, c, pts),
        canonical_triangle(c, a, b, pts) == canonical_triangle(a, b, c, pts),
        canonical_triangle(c, b, a, pts) == canonical_triangle(a, b, c, pts),
{
    lemma_canonical_order(a, b, c, pts);
}

fn ranks_higher_exec(a: &Point, b: &Point) -> (r: bool)
    ensures
        r == ranks_higher(*a, *b),
{
    a.y > b.y || (a.y == b.y && a.x >= b.x)
}

fn lies_righter_exec(a: &Point, b: &Point) -> (r: bool)
    ensures
        r == lies_righter(*a, *b),
{
    a.x > b.x || (a.x == b.x && a.y >= b.y)
}

/// `edge_side` computed without overflow.
fn edge_side_exec(q: &Point, a: &Point, b: &Point) -> (r: i128)
    ensures
        r == edge_side(*q, *a, *b),
{
    let qx: i128 = q.x as i128 - a.x as i128;
    let qy: i128 = q.y as i128 - a.y as i128;
    let ex: i128 = b.x as i128 - a.x as i128;
    let ey: i128 = b.y as i128 - a.y as i128;
    proof {
        let bound: int = 0x1_0000_0000;
        assert(-bound <= qx <= bound && -bound <= qy <= bound);
        assert(-bound <= ex <= bound && -bound <= ey <= bound);
        assert(-bound * bound <= qx * ey <= bound * bound) by (nonlinear_arith)
            requires -bound <= qx <= bound, -bound <= ey <= bound, bound > 0;
        assert(-bound * bound <= qy * ex <= bound * bound) by (nonlinear_arith)
            requires -bound <= qy <= bound, -bound <= ex <= bound, bound > 0;
    }
    qx * ey - qy * ex
}

impl Triangle {
    /// A triangle over the given indices, stored as given, with no neighbours.
    pub fn new(p1: usize, p2: usize, p3: usize) -> (r: Self)
        ensures
            r == bare_triangle(p1, p2, p3),
    {
        Triangle { p1, p2, p3, n12: None, n23: None, n31: None }
    }

    /// A triangle over the given indices in canonical order (see `canonical_order`).
    pub fn new_unsorted(p1: usize, p2: usize, p3: usize, points: &Vec<Point>) -> (r: Self)
        requires
            p1 < points@.len(),
            p2 < points@.len(),
            p3 < points@.len(),
        ensures
            r == canonical_triangle(p1, p2, p3, points@),
            distinct_positions(p1, p2, p3, points@) ==> {
                let (a, b, c) = (points@[r.p1 as int], points@[r.p2 as int], points@[r.p3 as int]);
                &&& ranks_higher(a, b) && ranks_higher(a, c)
                &&& lies_righter(b, c)
                &&& (r.p1 == p1 || r.p1 == p2 || r.p1 == p3)
                &&& (r.p2 == p1 || r.p2 == p2 || r.p2 == p3)
                &&& (r.p3 == p1 || r.p3 == p2 || r.p3 == p3)
                &&& r.p1 != r.p2 && r.p2 != r.p3 && r.p1 != r.p3
            },
    {
        proof {
            if distinct_positions(p1, p2, p3, points@) {
                lemma_canonical_order(p1, p2, p3, points@);
            }
        }
        let sorted = Triangle::get_sorted(p1, p2, p3, points);
        Triangle::new(sorted.0, sorted.1, sorted.2)
    }

    /// The circumcenter of the triangle, as exact numerators over a common
    /// denominator.
    pub fn find_circumcenter(&self, points: &Vec<Rc<Point>>) -> (r: Circumcenter)
        requires
            self.p1 < points@.len(),
            self.p2 < points@.len(),
            self.p3 < points@.len(),
        ensures
            ({
                let a = *points@[self.p1 as int];
                let b = *points@[self.p2 as int];
                let c = *points@[self.p3 as int];
                r.x_num == circum_x_num(a, b, c) && r.y_num == circum_y_num(a, b, c)
                    && r.den == circum_den(a, b, c)
            }),
    {
        let a: &Point = &points[self.p1];
        let b: &Point = &points[self.p2];
        let c: &Point = &points[self.p3];
        let (ax, ay): (i128, i128) = (a.x as i128, a.y as i128);
        let (bx, by): (i128, i128) = (b.x as i128, b.y as i128);
        let (cx, cy): (i128, i128) = (c.x as i128, c.y as i128);
        proof {
            let m: int = 0x8000_0000;
            assert(0 <= ax * ax <= m * m) by (nonlinear_arith) requires -m <= ax <= m;
            assert(0 <= ay * ay <= m * m) by (nonlinear_arith) requires -m <= ay <= m;
            assert(0 <= bx * bx <= m * m) by (nonlinear_arith) requires -m <= bx <= m;
            assert(0 <= by * by <= m * m) by (nonlinear_arith) requires -m <= by <= m;
            assert(0 <= cx * cx <= m * m) by (nonlinear_arith) requires -m <= cx <= m;
            assert(0 <= cy * cy <= m * m) by (nonlinear_arith) requires -m <= cy <= m;
        }
        let na: i128 = ax * ax + ay * ay;
        let nb: i128 = bx * bx + by * by;
        let nc: i128 = cx * cx + cy * cy;
        let (dyb, dyc, dya): (i128, i128, i128) = (by - cy, cy - ay, ay - by);
        let (dxb, dxc, dxa): (i128, i128, i128) = (cx - bx, ax - cx, bx - ax);
        proof {
            let m: int = 0x8000_0000;
            let n: int = 0x8000_0000_0000_0000;
            let e: int = 0x1_0000_0000;
            assert(n == 2 * m * m && e == 2 * m);
            assert(forall|u: int, v: int| 0 <= u <= n && -e <= v <= e ==> -n * e <= #[trigger] (u * v) <= n * e)
                by (nonlinear_arith);
            assert(forall|u: int, v: int| -m <= u <= m && -e <= v <= e ==> -m * e <= #[trigger] (u * v) <= m * e)
                by (nonlinear_arith);
        }
        let x_num: i128 = na * dyb + nb * dyc + nc * dya;
        let y_num: i128 = na * dxb + nb * dxc + nc * dxa;
        let den: i128 = 2 * (ax * dyb + bx * dyc + cx * dya);
        Circumcenter { x_num, y_num, den }
    }

    /// Whether `point` lies inside this triangle or on its border (see
    /// `inside_or_on_border`). The test assumes the vertices run clockwise
    /// (with the y axis pointing up), which the canonical order does not
    /// guarantee: for a triangle wound the other way only points on two edge
    /// lines at once are reported.
    pub fn is_point_inside_or_in_border(&self, point: &Point, points: &Vec<Point>) -> (r: bool)
        requires
            self.p1 < points@.len(),
            self.p2 < points@.len(),
            self.p3 < points@.len(),
        ensures
            r == contains_point(*self, *point, points@),
    {
        let p1 = &points[self.p1];
        let p2 = &points[self.p2];
        let p3 = &points[self.p3];
        let d1 = edge_side_exec(point, p1, p2);
        let d2 = edge_side_exec(point, p2, p3);
        let d3 = edge_side_exec(point, p3, p1);
        if (d1 == 0 && d2 == 0) || (d2 == 0 && d3 == 0) || (d3 == 0 && d1 == 0) {
            return true;
        }
        d1 >= 0 && d2 >= 0 && d3 >= 0
    }

    /// Overwrites the three neighbour relations, keeping the vertices.
    pub fn set_neighbors(&mut self, n12: Option<usize>, n23: Option<usize>, n31: Option<usize>)
        ensures
            *final(self) == (Triangle { p1: old(self).p1, p2: old(self).p2, p3: old(self).p3, n12, n23, n31 }),
    {
        self.n12 = n12;
        self.n23 = n23;
        self.n31 = n31;
    }

    fn get_sorted(p1: usize, p2: usize, p3: usize, points: &Vec<Point>) -> (r: (usize, usize, usize))
        requires
            p1 < points@.len(),
            p2 < points@.len(),
            p3 < points@.len(),
        ensures
            r == canonical_order(p1, p2, p3, points@),
    {
        let a = &points[p1];
        let b = &points[p2];
        let c = &points[p3];
        let (top, r1, r2) = if ranks_higher_exec(a, b) && ranks_higher_exec(a, c) {
            (p1, p2, p3)
        } else if ranks_higher_exec(b, c) {
            (p2, p1, p3)
        } else {
            (p3, p1, p2)
        };
        if lies_righter_exec(&points[r1], &points[r2]) {
            (top, r1, r2)
        } else {
            (top, r2, r1)
        }
    }
}

} // verus!
