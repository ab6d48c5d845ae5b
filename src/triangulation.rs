use vstd::prelude::*;
use crate::bin_order::{bin_side, bin_sorted, ceil_sqrt, ceil_sqrt_from, sort_by_bins};
use crate::point::Point;
use crate::triangle::{canonical_triangle, contains_point, lemma_canonical_order_rearranges, Triangle};

verus! {

/// Half the extent of the bootstrap triangle's bounding box.
pub const SUPER_EXTENT: i32 = 1000000;

/// The three bootstrap points, in the order in which they are appended.
pub open spec fn super_points() -> Seq<Point> {
    seq![
        Point { x: (-SUPER_EXTENT) as i32, y: SUPER_EXTENT },
        Point { x: SUPER_EXTENT, y: SUPER_EXTENT },
        Point { x: 0, y: (-SUPER_EXTENT) as i32 },
    ]
}

/// Every triangle refers to points of the list.
pub open spec fn indices_valid(tris: Seq<Triangle>, n_points: int) -> bool {
    forall|k: int| 0 <= k < tris.len() ==> {
        let t = #[trigger] tris[k];
        t.p1 < n_points && t.p2 < n_points && t.p3 < n_points
    }
}

/// Every triangle's three vertices are pairwise different indices.
pub open spec fn vertices_distinct(tris: Seq<Triangle>) -> bool {
    forall|k: int| 0 <= k < tris.len() ==> {
        let t = #[trigger] tris[k];
        t.p1 != t.p2 && t.p2 != t.p3 && t.p1 != t.p3
    }
}

/// `i` is one of the vertices of `t`.
pub open spec fn has_vertex(t: Triangle, i: usize) -> bool {
    t.p1 == i || t.p2 == i || t.p3 == i
}

/// The first triangle at or after `from` that contains `q`.
pub open spec fn first_containing(tris: Seq<Triangle>, q: Point, pts: Seq<Point>, from: int) -> Option<int>
    decreases tris.len() - from,
{
    if from < 0 || from >= tris.len() {
        None
    } else if contains_point(tris[from], q, pts) {
        Some(from)
    } else {
        first_containing(tris, q, pts, from + 1)
    }
}

/// Point location: the first triangle of the collection that contains `q`.
pub open spec fn locate(tris: Seq<Triangle>, q: Point, pts: Seq<Point>) -> Option<int> {
    first_containing(tris, q, pts, 0)
}

/// The collection after splitting triangle `t` at point `p`: `t` is removed
/// and the three triangles joining `p` to its edges are appended, each in
/// canonical order.
pub open spec fn subdivide(tris: Seq<Triangle>, t: int, p: usize, pts: Seq<Point>) -> Seq<Triangle> {
    let old_t = tris[t];
    tris.remove(t)
        .push(canonical_triangle(old_t.p1, old_t.p2, p, pts))
        .push(canonical_triangle(old_t.p2, old_t.p3, p, pts))
        .push(canonical_triangle(old_t.p3, old_t.p1, p, pts))
}

/// Inserting the points with indices `from .. to` one after the other: the
/// final collection, or the index of the first point that no triangle contains.
pub open spec fn insertion_run(tris: Seq<Triangle>, pts: Seq<Point>, from: int, to: int) -> Result<Seq<Triangle>, int>
    decreases to - from,
{
    if from >= to {
        Ok(tris)
    } else {
        match locate(tris, pts[from], pts) {
            None => Err(from),
            Some(t) => insertion_run(subdivide(tris, t, from as usize, pts), pts, from + 1, to),
        }
    }
}

/// A run of insertions that succeeds adds two triangles per inserted point
/// and keeps every triangle's indices valid into the point list.
pub proof fn lemma_insertion_run_growth(tris: Seq<Triangle>, pts: Seq<Point>, from: int, to: int)
    requires
        indices_valid(tris, pts.len() as int),
        0 <= from <= to,
        to <= pts.len() <= usize::MAX,
    ensures
        insertion_run(tris, pts, from, to) is Ok ==> {
            let r = insertion_run(tris, pts, from, to)->Ok_0;
            &&& r.len() == tris.len() + 2 * (to - from)
            &&& indices_valid(r, pts.len() as int)
        },
    decreases to - from,
{
    if from < to {
        if let Some(t) = locate(tris, pts[from], pts) {
            lemma_first_containing_in_range(tris, pts[from], pts, 0);
            let next = subdivide(tris, t, from as usize, pts);
            let old_t = tris[t];
            lemma_canonical_order_rearranges(old_t.p1, old_t.p2, from as usize, pts);
            lemma_canonical_order_rearranges(old_t.p2, old_t.p3, from as usize, pts);
            lemma_canonical_order_rearranges(old_t.p3, old_t.p1, from as usize, pts);
            assert(indices_valid(next, pts.len() as int)) by {
                assert forall|k: int| 0 <= k < next.len() implies {
                    let u = #[trigger] next[k];
                    u.p1 < pts.len() && u.p2 < pts.len() && u.p3 < pts.len()
                } by {
                    if k < tris.len() - 1 {
                        if k < t {
                            assert(next[k] == tris[k]);
                        } else {
                            assert(next[k] == tris[k + 1]);
                        }
                    }
                }
            }
            lemma_insertion_run_growth(next, pts, from + 1, to);
            assert(next.len() == tris.len() + 2);
            assert(insertion_run(tris, pts, from, to) == insertion_run(next, pts, from + 1, to));
        }
    }
}

proof fn lemma_first_containing_in_range(tris: Seq<Triangle>, q: Point, pts: Seq<Point>, from: int)
    ensures
        first_containing(tris, q, pts, from) matches Some(i) ==> 0 <= i < tris.len(),
    decreases tris.len() - from,
{
    if 0 <= from < tris.len() && !contains_point(tris[from], q, pts) {
        lemma_first_containing_in_range(tris, q, pts, from + 1);
    }
}

/// The point list that triangulating `pts` works on: the points in walk order
/// over the bin grid, followed by the bootstrap points.
pub open spec fn prepared_points(pts: Seq<Point>) -> Seq<Point> {
    bin_sorted(pts, ceil_sqrt(pts.len()) as int) + super_points()
}

/// The result of triangulating `pts`: starting from the bootstrap triangle,
/// insert every original point in walk order.
pub open spec fn triangulation_of(pts: Seq<Point>) -> Result<Seq<Triangle>, int> {
    let n = pts.len() as int;
    let prepared = prepared_points(pts);
    insertion_run(
        seq![canonical_triangle(n as usize, (n + 1) as usize, (n + 2) as usize, prepared)],
        prepared,
        0,
        n,
    )
}

/// Every vertex of every triangle is below `low` or at least `high`.
pub open spec fn vertices_outside(tris: Seq<Triangle>, low: int, high: int) -> bool {
    forall|k: int| 0 <= k < tris.len() ==> {
        let t = #[trigger] tris[k];
        (t.p1 < low || t.p1 >= high) && (t.p2 < low || t.p2 >= high) && (t.p3 < low || t.p3 >= high)
    }
}

proof fn lemma_ceil_sqrt_from_at_least(n: nat, from: nat)
    ensures
        ceil_sqrt_from(n, from) >= from,
    decreases n - from,
{
    if !(from * from >= n || from >= n) {
        lemma_ceil_sqrt_from_at_least(n, from + 1);
    }
}

/// Why a triangulation stopped.
#[derive(Debug, Clone, Copy, PartialEq, Eq, Structural)]
pub enum TriangulateError {
    /// No triangle of the mesh contained the point at this index.
    PointNotLocated { index: usize },
}

/// A point list and the triangles over it.
pub struct Triangulation {
    pub points: Vec<Point>,
    pub triangles: Vec<Triangle>,
}

impl Triangulation {
    /// Every triangle refers to points of the list by three different indices.
    pub open spec fn well_formed(&self) -> bool {
        indices_valid(self.triangles@, self.points@.len() as int) && vertices_distinct(self.triangles@)
    }

    /// A mesh over `points` with no triangles yet.
    pub fn new(points: Vec<Point>) -> (r: Self)
        ensures
            r.points@ == points@,
            r.triangles@.len() == 0,
            r.well_formed(),
    {
        Triangulation { points, triangles: Vec::new() }
    }

    /// Runs the whole triangulation: orders the points along the bin walk,
    /// appends the bootstrap triangle, and inserts every original point in
    /// turn. It stops at the first point that no triangle contains, leaving
    /// no triangles behind.
    pub fn triangulate(&mut self) -> (r: Result<(), TriangulateError>)
        requires
            old(self).triangles@.len() == 0,
            2 * old(self).points@.len() + 3 <= usize::MAX,
        ensures
            final(self).points@ == prepared_points(old(self).points@),
            match r {
                Ok(()) => {
                    &&& triangulation_of(old(self).points@) == Ok::<Seq<Triangle>, int>(final(self).triangles@)
                    &&& final(self).well_formed()
                    &&& final(self).triangles@.len() == 2 * old(self).points@.len() + 1
                },
                Err(TriangulateError::PointNotLocated { index }) => {
                    &&& triangulation_of(old(self).points@) == Err::<Seq<Triangle>, int>(index as int)
                    &&& final(self).triangles@.len() == 0
                },
            },
    {
        let n = self.points.len();
        self.sort_points_by_bins();
        self.create_giant_super_triangle();
        let ghost pts = self.points@;
        proof {
            assert(pts == prepared_points(old(self).points@));
            lemma_canonical_order_rearranges(n, (n + 1) as usize, (n + 2) as usize, pts);
            assert(self.triangles@ =~= seq![canonical_triangle(n, (n + 1) as usize, (n + 2) as usize, pts)]);
        }
        let mut i: usize = 0;
        while i < n
            invariant
                n == old(self).points@.len(),
                2 * n + 3 <= usize::MAX,
                self.points@ == pts,
                pts == prepared_points(old(self).points@),
                pts.len() == n + 3,
                i <= n,
                self.triangles@.len() == 2 * i + 1,
                self.well_formed(),
                vertices_outside(self.triangles@, i as int, n as int),
                triangulation_of(old(self).points@) == insertion_run(self.triangles@, pts, i as int, n as int),
            decreases n - i,
        {
            let q = self.points[i];
            match self.get_triangle_containing_point(&q) {
                None => {
                    self.triangles.clear();
                    return Err(TriangulateError::PointNotLocated { index: i });
                },
                Some(t) => {
                    proof {
                        let tri = self.triangles@[t as int];
                        assert(!has_vertex(tri, i));
                    }
                    self.insert_point_in_triangle(i, t);
                    proof {
                        assert(vertices_outside(self.triangles@, i + 1, n as int));
                    }
                },
            }
            i = i + 1;
        }
        Ok(())
    }

    /// Appends the three bootstrap points and the triangle over them, in
    /// canonical order.
    pub fn create_giant_super_triangle(&mut self)
        requires
            old(self).points@.len() + 3 <= usize::MAX,
        ensures
            final(self).points@ == old(self).points@ + super_points(),
            final(self).triangles@ == old(self).triangles@.push(
                canonical_triangle(
                    old(self).points.len(),
                    (old(self).points.len() + 1) as usize,
                    (old(self).points.len() + 2) as usize,
                    final(self).points@,
                ),
            ),
    {
        self.points.push(Point::new(-SUPER_EXTENT, SUPER_EXTENT));
        self.points.push(Point::new(SUPER_EXTENT, SUPER_EXTENT));
        self.points.push(Point::new(0, -SUPER_EXTENT));
        let p1 = self.points.len() - 3;
        let p2 = self.points.len() - 2;
        let p3 = self.points.len() - 1;
        let triangle = Triangle::new_unsorted(p1, p2, p3, &self.points);
        self.triangles.push(triangle);
        proof {
            assert(self.points@ =~= old(self).points@ + super_points());
        }
    }

    /// Reorders the points along the serpentine walk over a grid of bins whose
    /// side is the ceiling of the square root of the number of points.
    fn sort_points_by_bins(&mut self)
        ensures
            final(self).points@ == bin_sorted(old(self).points@, ceil_sqrt(old(self).points@.len()) as int),
            final(self).points@.len() == old(self).points@.len(),
            final(self).triangles@ == old(self).triangles@,
    {
        let n = self.points.len();
        if n == 0 {
            proof {
                assert(bin_sorted(self.points@, ceil_sqrt(0) as int) == self.points@);
            }
            return;
        }
        let side = bin_side(n);
        proof {
            lemma_ceil_sqrt_from_at_least(n as nat, 1);
            assert(ceil_sqrt_from(n as nat, 0) == ceil_sqrt_from(n as nat, 1));
        }
        self.points = sort_by_bins(&self.points, side);
    }

    /// The index of the first triangle that contains `point`, border included.
    pub fn get_triangle_containing_point(&self, point: &Point) -> (r: Option<usize>)
        requires
            indices_valid(self.triangles@, self.points@.len() as int),
        ensures
            match r {
                Some(i) => {
                    &&& locate(self.triangles@, *point, self.points@) == Some(i as int)
                    &&& i < self.triangles@.len()
                    &&& contains_point(self.triangles@[i as int], *point, self.points@)
                    &&& forall|j: int| 0 <= j < i ==> !contains_point(#[trigger] self.triangles@[j], *point, self.points@)
                },
                None => {
                    &&& locate(self.triangles@, *point, self.points@) == None::<int>
                    &&& forall|j: int| 0 <= j < self.triangles@.len() ==> !contains_point(#[trigger] self.triangles@[j], *point, self.points@)
                },
            },
    {
        let mut i: usize = 0;
        while i < self.triangles.len()
            invariant
                indices_valid(self.triangles@, self.points@.len() as int),
                i <= self.triangles@.len(),
                forall|j: int| 0 <= j < i ==> !contains_point(#[trigger] self.triangles@[j], *point, self.points@),
                locate(self.triangles@, *point, self.points@) == first_containing(self.triangles@, *point, self.points@, i as int),
            decreases self.triangles@.len() - i,
        {
            if self.triangles[i].is_point_inside_or_in_border(point, &self.points) {
                return Some(i);
            }
            i = i + 1;
        }
        None
    }

    /// Replaces the triangle at `triangle_index` by the three triangles that
    /// join point `point` to its edges, each in canonical order, appended at
    /// the end. The collection grows by two and keeps referring to points of
    /// the list.
    #[verifier::rlimit(40)]
    pub fn insert_point_in_triangle(&mut self, point: usize, triangle_index: usize)
        requires
            point < old(self).points@.len(),
            triangle_index < old(self).triangles@.len(),
            indices_valid(old(self).triangles@, old(self).points@.len() as int),
        ensures
            final(self).points@ == old(self).points@,
            final(self).triangles@ == subdivide(old(self).triangles@, triangle_index as int, point, old(self).points@),
            final(self).triangles@.len() == old(self).triangles@.len() + 2,
            indices_valid(final(self).triangles@, final(self).points@.len() as int),
            vertices_distinct(old(self).triangles@) && !has_vertex(old(self).triangles@[triangle_index as int], point)
                ==> vertices_distinct(final(self).triangles@),
            forall|high: int| #[trigger] vertices_outside(old(self).triangles@, point as int, high)
                ==> vertices_outside(final(self).triangles@, point + 1, high),
    {
        let triangle = self.triangles[triangle_index];
        let p1 = triangle.p1;
        let p2 = triangle.p2;
        let p3 = triangle.p3;
        let t1 = Triangle::new_unsorted(p1, p2, point, &self.points);
        let t2 = Triangle::new_unsorted(p2, p3, point, &self.points);
        let t3 = Triangle::new_unsorted(p3, p1, point, &self.points);
        proof {
            lemma_canonical_order_rearranges(p1, p2, point, self.points@);
            lemma_canonical_order_rearranges(p2, p3, point, self.points@);
            lemma_canonical_order_rearranges(p3, p1, point, self.points@);
        }
        self.triangles.remove(triangle_index);
        self.triangles.push(t1);
        self.triangles.push(t2);
        self.triangles.push(t3);
    }
}

} // verus!
