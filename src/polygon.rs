//! Scan-line filling and outlining of polygons.
use vstd::prelude::*;
use vstd::relations::{sorted_by, total_ordering};
use crate::canvas::{Canvas, Color, lemma_painted_nothing, lemma_painted_union, lemma_painted_same_region};
use crate::error::{Error, Kind};
use crate::point::Point;
use crate::raster::{in_span, on_line};

verus! {

/// `n / d` rounded to the nearest integer, halves away from zero (`d > 0`).
pub open spec fn round_div(n: int, d: int) -> int {
    if n >= 0 {
        (2 * n + d) / (2 * d)
    } else {
        -((-2 * n + d) / (2 * d))
    }
}

/// Where the edge from `p0` to `p1` meets scan line `y`. A horizontal edge on
/// the line gives both endpoints; a vertex on the line counts for the edge
/// only when the edge's other end lies below it; otherwise the crossing is
/// the edge's x at `y`, rounded to the nearest pixel.
pub open spec fn edge_crossings(p0: Point<i32>, p1: Point<i32>, y: int) -> Seq<int> {
    let (x0, y0, x1, y1) = (p0.x as int, p0.y as int, p1.x as int, p1.y as int);
    if (y0 <= y && y1 >= y) || (y1 <= y && y0 >= y) {
        if y0 == y1 {
            seq![x0, x1]
        } else if y0 == y || y1 == y {
            (if y1 > y { seq![x0] } else { Seq::empty() }) + (if y0 > y { seq![x1] } else { Seq::empty() })
        } else {
            let n = x0 * (y1 - y0) + (y - y0) * (x1 - x0);
            let d = y1 - y0;
            if d > 0 {
                seq![round_div(n, d)]
            } else {
                seq![round_div(-n, -d)]
            }
        }
    } else {
        Seq::empty()
    }
}

/// The `i`-th edge of the closed polygon: from vertex `i` to the next one,
/// the last vertex joining back to the first.
pub open spec fn edge_end(poly: Seq<Point<i32>>, i: int) -> Point<i32> {
    if i + 1 < poly.len() {
        poly[i + 1]
    } else {
        poly[0]
    }
}

/// Crossings of scan line `y` with the first `m` edges, edge by edge.
pub open spec fn crossings_upto(poly: Seq<Point<i32>>, y: int, m: nat) -> Seq<int>
    decreases m,
{
    if m == 0 {
        Seq::empty()
    } else {
        crossings_upto(poly, y, (m - 1) as nat) + edge_crossings(poly[m - 1], edge_end(poly, m - 1), y)
    }
}

pub open spec fn int_leq() -> spec_fn(int, int) -> bool {
    |a: int, b: int| a <= b
}

/// Crossings of scan line `y` with every edge, in increasing order.
pub open spec fn sorted_crossings(poly: Seq<Point<i32>>, y: int) -> Seq<int> {
    crossings_upto(poly, y, poly.len()).sort_by(int_leq())
}

/// Pixels of the even-odd fill: those between the first and second crossing
/// of their row, between the third and fourth, and so on.
pub open spec fn in_polygon_fill(poly: Seq<Point<i32>>, a: int, b: int) -> bool {
    let s = sorted_crossings(poly, b);
    exists|i: int| 0 <= i && 2 * i + 1 < s.len() && #[trigger] s[2 * i] <= a <= s[2 * i + 1]
}

/// Pixels of the outline: the lines of every edge.
pub open spec fn on_polygon_outline(poly: Seq<Point<i32>>, a: int, b: int) -> bool {
    exists|i: int|
        0 <= i < poly.len() && #[trigger] on_line(
            poly[i].x as int,
            poly[i].y as int,
            edge_end(poly, i).x as int,
            edge_end(poly, i).y as int,
            a,
            b,
        )
}

/// Pixels of an outlined polygon: lines between consecutive vertices and
/// one from the first vertex to the last.
pub open spec fn on_hallow_polygon(poly: Seq<Point<i32>>, a: int, b: int) -> bool {
    ||| exists|i: int|
        0 <= i < poly.len() - 1 && #[trigger] on_line(
            poly[i].x as int,
            poly[i].y as int,
            poly[i + 1].x as int,
            poly[i + 1].y as int,
            a,
            b,
        )
    ||| on_line(poly[0].x as int, poly[0].y as int, poly.last().x as int, poly.last().y as int, a, b)
}

proof fn lemma_round_div_between(n: int, d: int, lo: int, hi: int)
    requires
        d > 0,
        lo * d <= n <= hi * d,
    ensures
        lo <= round_div(n, d) <= hi,
{
    if n >= 0 {
        assert(lo <= (2 * n + d) / (2 * d) <= hi) by (nonlinear_arith)
            requires
                d > 0,
                lo * d <= n <= hi * d,
                n >= 0,
        {
            vstd::arithmetic::div_mod::lemma_div_is_ordered(2 * lo * d, 2 * n + d, 2 * d);
            vstd::arithmetic::div_mod::lemma_div_is_ordered(2 * n + d, 2 * hi * d + d, 2 * d);
            vstd::arithmetic::div_mod::lemma_div_multiples_vanish(lo, 2 * d);
            vstd::arithmetic::div_mod::lemma_fundamental_div_mod_converse(2 * hi * d + d, 2 * d, hi, d);
            assert(2 * lo * d == lo * (2 * d));
        }
    } else {
        assert(-hi <= (-2 * n + d) / (2 * d) <= -lo) by (nonlinear_arith)
            requires
                d > 0,
                lo * d <= n <= hi * d,
                n < 0,
        {
            vstd::arithmetic::div_mod::lemma_div_is_ordered(-2 * hi * d, -2 * n + d, 2 * d);
            vstd::arithmetic::div_mod::lemma_div_is_ordered(-2 * n + d, -2 * lo * d + d, 2 * d);
            vstd::arithmetic::div_mod::lemma_div_multiples_vanish(-hi, 2 * d);
            vstd::arithmetic::div_mod::lemma_fundamental_div_mod_converse(-2 * lo * d + d, 2 * d, -lo, d);
            assert(-2 * hi * d == (-hi) * (2 * d));
        }
    }
}

/// Appends the crossings of one edge with scan line `y`.
fn push_edge_crossings(p0: Point<i32>, p1: Point<i32>, y: i64, out: &mut Vec<i64>)
    ensures
        final(out)@.map_values(|v: i64| v as int) == old(out)@.map_values(|v: i64| v as int) + edge_crossings(p0, p1, y as int),
        final(out)@.len() == old(out)@.len() + edge_crossings(p0, p1, y as int).len(),
{
    let ghost before = out@;
    let (x0, y0, x1, y1) = (p0.x as i64, p0.y as i64, p1.x as i64, p1.y as i64);
    if (y0 <= y && y1 >= y) || (y1 <= y && y0 >= y) {
        if y0 == y1 {
            out.push(x0);
            out.push(x1);
        } else if y0 == y || y1 == y {
            if y1 > y {
                out.push(x0);
            }
            if y0 > y {
                out.push(x1);
            }
        } else {
            let dy = y1 as i128 - y0 as i128;
            let dx = x1 as i128 - x0 as i128;
            let ty = y as i128 - y0 as i128;
            assert(-0x1_0000_0000_0000_0000 <= x0 * dy <= 0x1_0000_0000_0000_0000) by (nonlinear_arith)
                requires
                    -0x8000_0000 <= x0 <= 0x8000_0000,
                    -0x1_0000_0000 <= dy <= 0x1_0000_0000,
            ;
            assert(-0x1_0000_0000_0000_0000 <= ty * dx <= 0x1_0000_0000_0000_0000) by (nonlinear_arith)
                requires
                    -0x1_0000_0000 <= ty <= 0x1_0000_0000,
                    -0x1_0000_0000 <= dx <= 0x1_0000_0000,
            ;
            let n = x0 as i128 * dy + ty * dx;
            let d = y1 as i128 - y0 as i128;
            let (n, d) = if d > 0 { (n, d) } else { (-n, -d) };
            let ghost lo: int = if x0 <= x1 { x0 as int } else { x1 as int };
            let ghost hi: int = if x0 <= x1 { x1 as int } else { x0 as int };
            proof {
                assert(lo * d <= n <= hi * d) by (nonlinear_arith)
                    requires
                        (d == y1 - y0 && n == x0 * (y1 - y0) + (y - y0) * (x1 - x0)) || (d == y0 - y1 && n == -(x0 * (y1 - y0) + (y - y0) * (x1 - x0))),
                        d > 0,
                        (y0 < y < y1) || (y1 < y < y0),
                        lo == x0 || lo == x1,
                        hi == x0 || hi == x1,
                        lo <= x0 <= hi,
                        lo <= x1 <= hi,
                ;
                lemma_round_div_between(n as int, d as int, lo, hi);
            }
            let v: i128 = if n >= 0 {
                (2 * n + d) / (2 * d)
            } else {
                -((-2 * n + d) / (2 * d))
            };
            assert(v == round_div(n as int, d as int));
            out.push(v as i64);
        }
    }
    proof {
        assert(out@.map_values(|v: i64| v as int) =~= before.map_values(|v: i64| v as int) + edge_crossings(p0, p1, y as int));
    }
}

/// Sorts in increasing order by inserting each value at its place.
fn sort_values(v: Vec<i64>) -> (r: Vec<i64>)
    ensures
        sorted_by(r@.map_values(|x: i64| x as int), int_leq()),
        r@.map_values(|x: i64| x as int).to_multiset() == v@.map_values(|x: i64| x as int).to_multiset(),
        r@.len() == v@.len(),
{
    broadcast use vstd::seq_lib::to_multiset_insert, vstd::seq_lib::to_multiset_build;

    let mut r: Vec<i64> = Vec::new();
    let mut i: usize = 0;
    assert(r@.map_values(|x: i64| x as int) =~= v@.subrange(0, 0).map_values(|x: i64| x as int));
    while i < v.len()
        invariant
            i <= v@.len(),
            r@.len() == i,
            sorted_by(r@.map_values(|x: i64| x as int), int_leq()),
            r@.map_values(|x: i64| x as int).to_multiset() == v@.subrange(0, i as int).map_values(|x: i64| x as int).to_multiset(),
        decreases v@.len() - i,
    {
        let e = v[i];
        let mut j: usize = 0;
        while j < r.len() && r[j] <= e
            invariant
                j <= r@.len(),
                forall|k: int| 0 <= k < j ==> r@[k] <= e,
            decreases r@.len() - j,
        {
            j = j + 1;
        }
        let ghost old_r = r@;
        r.insert(j, e);
        proof {
            let m = |x: i64| x as int;
            assert(r@.map_values(m) =~= old_r.map_values(m).insert(j as int, e as int));
            assert(v@.subrange(0, i + 1).map_values(m) =~= v@.subrange(0, i as int).map_values(m).push(e as int));
            vstd::seq_lib::to_multiset_insert(old_r.map_values(m), j as int, e as int);
            vstd::seq_lib::to_multiset_build(v@.subrange(0, i as int).map_values(m), e as int);
            assert forall|a: int, b: int| 0 <= a < b < r@.len() implies #[trigger] int_leq()(r@.map_values(m)[a], r@.map_values(m)[b]) by {
                if b < j {
                    assert(int_leq()(old_r.map_values(m)[a], old_r.map_values(m)[b]));
                } else if a < j && b == j {
                } else if a < j {
                    assert(int_leq()(old_r.map_values(m)[a], old_r.map_values(m)[b - 1]));
                } else if a == j {
                    assert(j < old_r.len());
                    assert(e < old_r[j as int]);
                    if b - 1 > j {
                        assert(int_leq()(old_r.map_values(m)[j as int], old_r.map_values(m)[b - 1]));
                    }
                } else {
                    assert(int_leq()(old_r.map_values(m)[a - 1], old_r.map_values(m)[b - 1]));
                }
            }
        }
        i = i + 1;
    }
    proof {
        assert(v@.subrange(0, i as int) =~= v@);
    }
    r
}

/// Rows above or below every vertex meet no edge, so nothing is filled there.
proof fn lemma_no_crossings(poly: Seq<Point<i32>>, y: int, m: nat)
    requires
        m <= poly.len(),
        (forall|j: int| 0 <= j < poly.len() ==> #[trigger] poly[j].y > y) || (forall|j: int| 0 <= j < poly.len() ==> #[trigger] poly[j].y < y),
    ensures
        crossings_upto(poly, y, m) == Seq::<int>::empty(),
        m == poly.len() ==> forall|a: int| !in_polygon_fill(poly, a, y),
    decreases m,
{
    if m > 0 {
        lemma_no_crossings(poly, y, (m - 1) as nat);
        assert(poly[m - 1].y > y || poly[m - 1].y < y);
        assert(edge_end(poly, m - 1).y > y || edge_end(poly, m - 1).y < y);
        assert(crossings_upto(poly, y, m) =~= Seq::<int>::empty());
    }
    if m == poly.len() {
        Seq::<int>::empty().lemma_sort_by_ensures(int_leq());
        assert(sorted_crossings(poly, y).len() == 0) by {
            if sorted_crossings(poly, y).len() > 0 {
                assert(sorted_crossings(poly, y).contains(sorted_crossings(poly, y)[0]));
            }
        }
    }
}

proof fn lemma_int_leq_total()
    ensures
        total_ordering(int_leq()),
{
}

impl Canvas {
    /// Fills a polygon by scan lines with the even-odd rule, then outlines
    /// each edge with a line. The vertex list is an open ring: the last
    /// vertex joins back to the first. An empty list, or one whose last
    /// vertex repeats the first, is refused and nothing is drawn.
    pub fn draw_polygon_mut(&mut self, poly: &Vec<Point<i32>>, color: Color) -> (r: Result<(), Error>)
        requires
            old(self).wf(),
            poly@.len() < 0x1000_0000,
        ensures
            r is Err <==> poly@.len() == 0 || poly@[0] == poly@.last(),
            r matches Err(e) ==> e.kind == Kind::Other,
            r is Err ==> *final(self) == *old(self),
            r is Ok ==> Canvas::painted(*old(self), *final(self),
                |a: int, b: int| in_polygon_fill(poly@, a, b) || on_polygon_outline(poly@, a, b), color),
    {
        if poly.len() == 0 {
            return Err(Error::from_message(Kind::Other, "empty polygon"));
        }
        if poly[0] == poly[poly.len() - 1] {
            return Err(Error::from_message(Kind::Other, "first point equals last point"));
        }
        let ghost c0 = *self;
        self.fill_polygon(poly, color);
        let ghost c1 = *self;
        self.outline_polygon(poly, color);
        proof {
            lemma_painted_union(c0, c1, *self, |a: int, b: int| in_polygon_fill(poly@, a, b),
                |a: int, b: int| on_polygon_outline(poly@, a, b), color);
        }
        Ok(())
    }

    /// Draws the line of every edge of the closed polygon.
    fn outline_polygon(&mut self, poly: &Vec<Point<i32>>, color: Color)
        requires
            old(self).wf(),
            poly@.len() > 0,
        ensures
            Canvas::painted(*old(self), *final(self), |a: int, b: int| on_polygon_outline(poly@, a, b), color),
    {
        let ghost c0 = *self;
        let ghost p = poly@;
        let n = poly.len();
        let mut i: usize = 0;
        proof {
            lemma_painted_nothing(c0, color);
            lemma_painted_same_region(c0, *self, |a: int, b: int| false, |a: int, b: int|
                exists|k: int| 0 <= k < i && #[trigger] on_line(p[k].x as int, p[k].y as int, edge_end(p, k).x as int, edge_end(p, k).y as int, a, b), color);
        }
        while i < n
            invariant
                n == p.len(),
                p == poly@,
                i <= n,
                self.width == c0.width,
                self.height == c0.height,
                Canvas::painted(c0, *self, |a: int, b: int|
                    exists|k: int| 0 <= k < i && #[trigger] on_line(p[k].x as int, p[k].y as int, edge_end(p, k).x as int, edge_end(p, k).y as int, a, b), color),
            decreases n - i,
        {
            let start = poly[i];
            let end = if i + 1 < n { poly[i + 1] } else { poly[0] };
            let ghost c1 = *self;
            self.draw_line_segment_mut((start.x, start.y), (end.x, end.y), color);
            proof {
                let r0 = |a: int, b: int| exists|k: int| 0 <= k < i && #[trigger] on_line(p[k].x as int, p[k].y as int, edge_end(p, k).x as int, edge_end(p, k).y as int, a, b);
                let r1 = |a: int, b: int| on_line(start.x as int, start.y as int, end.x as int, end.y as int, a, b);
                lemma_painted_union(c0, c1, *self, r0, r1, color);
                assert forall|a: int, b: int| #![trigger self.in_bounds(a, b)] self.in_bounds(a, b) implies (r0(a, b) || r1(a, b)) ==
                    (exists|k: int| 0 <= k < i + 1 && #[trigger] on_line(p[k].x as int, p[k].y as int, edge_end(p, k).x as int, edge_end(p, k).y as int, a, b)) by {
                    if r1(a, b) {
                        assert(on_line(p[i as int].x as int, p[i as int].y as int, edge_end(p, i as int).x as int, edge_end(p, i as int).y as int, a, b));
                    }
                }
                lemma_painted_same_region(c0, *self, |a: int, b: int| r0(a, b) || r1(a, b), |a: int, b: int|
                    exists|k: int| 0 <= k < i + 1 && #[trigger] on_line(p[k].x as int, p[k].y as int, edge_end(p, k).x as int, edge_end(p, k).y as int, a, b), color);
            }
            i = i + 1;
        }
        proof {
            lemma_painted_same_region(c0, *self, |a: int, b: int|
                exists|k: int| 0 <= k < i && #[trigger] on_line(p[k].x as int, p[k].y as int, edge_end(p, k).x as int, edge_end(p, k).y as int, a, b),
                |a: int, b: int| on_polygon_outline(poly@, a, b), color);
        }
    }

    /// Fills the polygon row by row over its vertical extent, clipped to the canvas.
    fn fill_polygon(&mut self, poly: &Vec<Point<i32>>, color: Color)
        requires
            old(self).wf(),
            poly@.len() > 0,
            poly@.len() < 0x1000_0000,
        ensures
            Canvas::painted(*old(self), *final(self), |a: int, b: int| in_polygon_fill(poly@, a, b), color),
    {
        let ghost c0 = *self;
        let ghost p = poly@;
        let n = poly.len();
        let mut y_min: i64 = poly[0].y as i64;
        let mut y_max: i64 = poly[0].y as i64;
        let mut k: usize = 1;
        while k < n
            invariant
                n == p.len(),
                p == poly@,
                1 <= k <= n,
                exists|j: int| 0 <= j < k && p[j].y == y_min,
                exists|j: int| 0 <= j < k && p[j].y == y_max,
                forall|j: int| 0 <= j < k ==> y_min <= #[trigger] p[j].y <= y_max,
            decreases n - k,
        {
            let v = poly[k].y as i64;
            if v < y_min {
                y_min = v;
            }
            if v > y_max {
                y_max = v;
            }
            k = k + 1;
        }
        let mut y: i64 = if y_min < 0 { 0 } else { y_min };
        let y_end: i64 = if y_max >= self.height as i64 { self.height as i64 - 1 } else { y_max };
        proof {
            lemma_painted_nothing(c0, color);
            assert forall|a: int, b: int| #![trigger self.in_bounds(a, b)] self.in_bounds(a, b) implies
                false == (in_polygon_fill(p, a, b) && b < y) by {
                if b < y {
                    lemma_no_crossings(p, b, p.len());
                }
            }
            lemma_painted_same_region(c0, *self, |a: int, b: int| false, |a: int, b: int| in_polygon_fill(p, a, b) && b < y, color);
        }
        while y <= y_end
            invariant
                n == p.len(),
                p == poly@,
                n < 0x1000_0000,
                forall|j: int| 0 <= j < n ==> y_min <= #[trigger] p[j].y <= y_max,
                y_min <= y,
                0 <= y,
                y_end < self.height,
                self.width == c0.width,
                self.height == c0.height,
                Canvas::painted(c0, *self, |a: int, b: int| in_polygon_fill(p, a, b) && b < y, color),
            decreases y_end + 1 - y,
        {
            let mut xs: Vec<i64> = Vec::new();
            let mut e: usize = 0;
            while e < n
                invariant
                    n == p.len(),
                    p == poly@,
                    n < 0x1000_0000,
                    e <= n,
                    xs@.len() <= 2 * e,
                    xs@.map_values(|v: i64| v as int) == crossings_upto(p, y as int, e as nat),
                decreases n - e,
            {
                let end = if e + 1 < n { poly[e + 1] } else { poly[0] };
                push_edge_crossings(poly[e], end, y, &mut xs);
                e = e + 1;
            }
            let sorted = sort_values(xs);
            let ghost sc = sorted_crossings(p, y as int);
            proof {
                lemma_int_leq_total();
                crossings_upto(p, y as int, p.len()).lemma_sort_by_ensures(int_leq());
                vstd::seq_lib::lemma_sorted_unique(sorted@.map_values(|v: i64| v as int), sc, int_leq());
            }
            let ghost row0 = *self;
            let mut j: usize = 0;
            proof {
                lemma_painted_nothing(row0, color);
                lemma_painted_same_region(row0, *self, |a: int, b: int| false,
                    |a: int, b: int| b == y && exists|i: int| 0 <= i < j && 2 * i + 1 < sc.len() && #[trigger] sc[2 * i] <= a <= sc[2 * i + 1], color);
            }
            while j + 1 < sorted.len()
                invariant
                    sorted@.map_values(|v: i64| v as int) == sc,
                    sorted@.len() < 0x4000_0000,
                    j % 2 == 0,
                    j <= sorted@.len(),
                    0 <= y < self.height,
                    self.width == row0.width,
                    self.height == row0.height,
                    Canvas::painted(row0, *self,
                        |a: int, b: int| b == y && exists|i: int| 0 <= i && 2 * i < j && 2 * i + 1 < sc.len() && #[trigger] sc[2 * i] <= a <= sc[2 * i + 1], color),
                decreases sorted@.len() - j,
            {
                let ghost c1 = *self;
                self.fill_span(sorted[j], sorted[j + 1], y, color);
                proof {
                    let r0 = |a: int, b: int| b == y && exists|i: int| 0 <= i && 2 * i < j && 2 * i + 1 < sc.len() && #[trigger] sc[2 * i] <= a <= sc[2 * i + 1];
                    let r1 = |a: int, b: int| in_span(sorted@[j as int] as int, sorted@[j + 1] as int, y as int, a, b);
                    lemma_painted_union(row0, c1, *self, r0, r1, color);
                    assert(sc[j as int] == sorted@[j as int] as int);
                    assert(sc[j + 1] == sorted@[j + 1] as int);
                    assert forall|a: int, b: int| #![trigger self.in_bounds(a, b)] self.in_bounds(a, b) implies (r0(a, b) || r1(a, b)) ==
                        (b == y && exists|i: int| 0 <= i && 2 * i < j + 2 && 2 * i + 1 < sc.len() && #[trigger] sc[2 * i] <= a <= sc[2 * i + 1]) by {
                        let h = (j / 2) as int;
                        assert(2 * h == j);
                        if r1(a, b) {
                            assert(sc[2 * h] <= a <= sc[2 * h + 1]);
                        }
                        if b == y && exists|i: int| 0 <= i && 2 * i < j + 2 && 2 * i + 1 < sc.len() && #[trigger] sc[2 * i] <= a <= sc[2 * i + 1] {
                            let i = choose|i: int| 0 <= i && 2 * i < j + 2 && 2 * i + 1 < sc.len() && #[trigger] sc[2 * i] <= a <= sc[2 * i + 1];
                            if 2 * i >= j {
                                assert(i == h);
                            }
                        }
                    }
                    lemma_painted_same_region(row0, *self, |a: int, b: int| r0(a, b) || r1(a, b),
                        |a: int, b: int| b == y && exists|i: int| 0 <= i && 2 * i < j + 2 && 2 * i + 1 < sc.len() && #[trigger] sc[2 * i] <= a <= sc[2 * i + 1], color);
                }
                j = j + 2;
            }
            proof {
                let r0 = |a: int, b: int| in_polygon_fill(p, a, b) && b < y;
                let r1 = |a: int, b: int| b == y && exists|i: int| 0 <= i && 2 * i < j && 2 * i + 1 < sc.len() && #[trigger] sc[2 * i] <= a <= sc[2 * i + 1];
                lemma_painted_union(c0, row0, *self, r0, r1, color);
                assert forall|a: int, b: int| #![trigger self.in_bounds(a, b)] self.in_bounds(a, b) implies (r0(a, b) || r1(a, b)) ==
                    (in_polygon_fill(p, a, b) && b < y + 1) by {
                    if b == y && in_polygon_fill(p, a, b) {
                        let i = choose|i: int| 0 <= i && 2 * i + 1 < sc.len() && #[trigger] sc[2 * i] <= a <= sc[2 * i + 1];
                        assert(2 * i < j);
                    }
                }
                lemma_painted_same_region(c0, *self, |a: int, b: int| r0(a, b) || r1(a, b),
                    |a: int, b: int| in_polygon_fill(p, a, b) && b < y + 1, color);
            }
            y = y + 1;
        }
        proof {
            assert forall|a: int, b: int| #![trigger self.in_bounds(a, b)] self.in_bounds(a, b) implies
                (in_polygon_fill(p, a, b) && b < y) == in_polygon_fill(poly@, a, b) by {
                if b >= y {
                    lemma_no_crossings(p, b, p.len());
                }
            }
            lemma_painted_same_region(c0, *self, |a: int, b: int| in_polygon_fill(p, a, b) && b < y,
                |a: int, b: int| in_polygon_fill(poly@, a, b), color);
        }
    }

    /// Outlines a polygon: a line between each pair of consecutive vertices,
    /// then one from the first vertex to the last. A list of fewer than two
    /// vertices, or one whose last vertex repeats the first, is refused and
    /// nothing is drawn.
    pub fn draw_hallow_polygon_mut(&mut self, poly: &Vec<Point<i32>>, color: Color) -> (r: Result<(), Error>)
        requires
            old(self).wf(),
        ensures
            r is Err <==> poly@.len() < 2 || poly@[0] == poly@.last(),
            r matches Err(e) ==> e.kind == Kind::Other,
            r is Err ==> *final(self) == *old(self),
            r is Ok ==> Canvas::painted(*old(self), *final(self), |a: int, b: int| on_hallow_polygon(poly@, a, b), color),
    {
        let n = poly.len();
        if n < 2 {
            return Err(Error::from_message(Kind::Other, "polygon needs at least two points"));
        }
        if poly[0] == poly[n - 1] {
            return Err(Error::from_message(Kind::Other, "first point equals last point"));
        }
        let ghost c0 = *self;
        let ghost p = poly@;
        let mut i: usize = 0;
        proof {
            lemma_painted_nothing(c0, color);
            lemma_painted_same_region(c0, *self, |a: int, b: int| false, |a: int, b: int|
                exists|k: int| 0 <= k < i && #[trigger] on_line(p[k].x as int, p[k].y as int, p[k + 1].x as int, p[k + 1].y as int, a, b), color);
        }
        while i + 1 < n
            invariant
                n == p.len(),
                p == poly@,
                n >= 2,
                i + 1 <= n,
                self.width == c0.width,
                self.height == c0.height,
                Canvas::painted(c0, *self, |a: int, b: int|
                    exists|k: int| 0 <= k < i && #[trigger] on_line(p[k].x as int, p[k].y as int, p[k + 1].x as int, p[k + 1].y as int, a, b), color),
            decreases n - i,
        {
            let start = poly[i];
            let end = poly[i + 1];
            let ghost c1 = *self;
            self.draw_line_segment_mut((start.x, start.y), (end.x, end.y), color);
            proof {
                let r0 = |a: int, b: int| exists|k: int| 0 <= k < i && #[trigger] on_line(p[k].x as int, p[k].y as int, p[k + 1].x as int, p[k + 1].y as int, a, b);
                let r1 = |a: int, b: int| on_line(start.x as int, start.y as int, end.x as int, end.y as int, a, b);
                lemma_painted_union(c0, c1, *self, r0, r1, color);
                assert forall|a: int, b: int| #![trigger self.in_bounds(a, b)] self.in_bounds(a, b) implies (r0(a, b) || r1(a, b)) ==
                    (exists|k: int| 0 <= k < i + 1 && #[trigger] on_line(p[k].x as int, p[k].y as int, p[k + 1].x as int, p[k + 1].y as int, a, b)) by {
                    if r1(a, b) {
                        assert(on_line(p[i as int].x as int, p[i as int].y as int, p[i + 1].x as int, p[i + 1].y as int, a, b));
                    }
                }
                lemma_painted_same_region(c0, *self, |a: int, b: int| r0(a, b) || r1(a, b), |a: int, b: int|
                    exists|k: int| 0 <= k < i + 1 && #[trigger] on_line(p[k].x as int, p[k].y as int, p[k + 1].x as int, p[k + 1].y as int, a, b), color);
            }
            i = i + 1;
        }
        let first = poly[0];
        let last = poly[n - 1];
        let ghost c2 = *self;
        self.draw_line_segment_mut((first.x, first.y), (last.x, last.y), color);
        proof {
            lemma_painted_union(c0, c2, *self, |a: int, b: int|
                exists|k: int| 0 <= k < i && #[trigger] on_line(p[k].x as int, p[k].y as int, p[k + 1].x as int, p[k + 1].y as int, a, b),
                |a: int, b: int| on_line(first.x as int, first.y as int, last.x as int, last.y as int, a, b), color);
            lemma_painted_same_region(c0, *self, |a: int, b: int|
                (exists|k: int| 0 <= k < i && #[trigger] on_line(p[k].x as int, p[k].y as int, p[k + 1].x as int, p[k + 1].y as int, a, b))
                || on_line(first.x as int, first.y as int, last.x as int, last.y as int, a, b),
                |a: int, b: int| on_hallow_polygon(poly@, a, b), color);
        }
        Ok(())
    }
}

} // verus!
