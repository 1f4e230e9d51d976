//! Midpoint ellipses: the flat region stepping x, then the steep region stepping y.
use vstd::prelude::*;
use crate::canvas::{Canvas, Color, lemma_painted_nothing, lemma_painted_union, lemma_painted_same_region};
use crate::raster::{in_span, in_filled_circle, on_hollow_circle};

verus! {

/// Largest radius an ellipse may have, so that its decision values fit in `i128`.
pub const MAX_ELLIPSE_RADIUS: i32 = 0x4000_0000;

/// Four times the flat-region decision value at `(x, y)`: positive when the
/// midpoint `(x + 1, y - 1/2)` lies outside the ellipse.
pub open spec fn flat_decision(w2: int, h2: int, x: int, y: int) -> int {
    4 * h2 * (x + 1) * (x + 1) + w2 * (2 * y - 1) * (2 * y - 1) - 4 * w2 * h2
}

/// Four times the steep-region decision value at `(x, y)`: positive when the
/// midpoint `(x + 1/2, y - 1)` lies outside the ellipse.
pub open spec fn steep_decision(w2: int, h2: int, x: int, y: int) -> int {
    h2 * (2 * x + 1) * (2 * x + 1) + 4 * w2 * (y - 1) * (y - 1) - 4 * w2 * h2
}

/// The curve is still flatter than a diagonal at `(x, y)`.
pub open spec fn is_flat(w2: int, h2: int, x: int, y: int) -> bool {
    h2 * x < w2 * y
}

/// Row offset at column offset `k` in the flat region: it starts at `hr` and
/// steps down by one exactly when the flat decision at the previous column is
/// not negative.
pub open spec fn flat_y(w2: int, h2: int, hr: int, k: nat) -> int
    decreases k,
{
    if k == 0 {
        hr
    } else {
        let y = flat_y(w2, h2, hr, (k - 1) as nat);
        if flat_decision(w2, h2, k - 1, y) < 0 {
            y
        } else {
            y - 1
        }
    }
}

/// Step `k` of the flat region is drawn: the first one, or one reached from a flat step.
pub open spec fn flat_drawn(w2: int, h2: int, hr: int, k: nat) -> bool {
    k == 0 || is_flat(w2, h2, k - 1, flat_y(w2, h2, hr, (k - 1) as nat))
}

/// Step `k` is the last of the flat region.
pub open spec fn flat_exit(w2: int, h2: int, hr: int, k: nat) -> bool {
    flat_drawn(w2, h2, hr, k) && !is_flat(w2, h2, k as int, flat_y(w2, h2, hr, k))
}

/// Column offset after `j` steps of the steep region started at `(xs, ys)`:
/// each step lowers the row by one and moves right by one exactly when the
/// steep decision is not positive.
pub open spec fn steep_x(w2: int, h2: int, xs: int, ys: int, j: nat) -> int
    decreases j,
{
    if j == 0 {
        xs
    } else {
        let x = steep_x(w2, h2, xs, ys, (j - 1) as nat);
        if steep_decision(w2, h2, x, ys - (j - 1)) > 0 {
            x
        } else {
            x + 1
        }
    }
}

/// What one step `(x, y)` draws around `(cx, cy)`: the two spans between the
/// symmetric points for a filled ellipse, the four symmetric points otherwise.
pub open spec fn ellipse_mark(filled: bool, cx: int, cy: int, x: int, y: int, a: int, b: int) -> bool {
    if filled {
        in_span(cx - x, cx + x, cy + y, a, b) || in_span(cx - x, cx + x, cy - y, a, b)
    } else {
        ||| (a == cx + x && b == cy + y)
        ||| (a == cx - x && b == cy + y)
        ||| (a == cx + x && b == cy - y)
        ||| (a == cx - x && b == cy - y)
    }
}

/// Pixels of the midpoint ellipse with radii `wr` and `hr` around `(cx, cy)`:
/// the marks of every flat step, then of every steep step down to row offset 0.
pub open spec fn on_ellipse(filled: bool, cx: int, cy: int, wr: int, hr: int, a: int, b: int) -> bool {
    ||| exists|k: nat|
        #[trigger] flat_drawn(wr * wr, hr * hr, hr, k) && ellipse_mark(filled, cx, cy, k as int, flat_y(wr * wr, hr * hr, hr, k), a, b)
    ||| exists|k: nat, j: nat|
        #[trigger] flat_exit(wr * wr, hr * hr, hr, k) && 1 <= j <= flat_y(wr * wr, hr * hr, hr, k) && #[trigger] ellipse_mark(
            filled,
            cx,
            cy,
            steep_x(wr * wr, hr * hr, k as int, flat_y(wr * wr, hr * hr, hr, k), j),
            flat_y(wr * wr, hr * hr, hr, k) - j,
            a,
            b,
        )
}

proof fn lemma_flat_stays_left(w2: int, h2: int, hr: int, k: nat, m: nat)
    requires
        w2 >= 0,
        h2 >= 0,
        !is_flat(w2, h2, k as int, flat_y(w2, h2, hr, k)),
        k <= m,
    ensures
        !is_flat(w2, h2, m as int, flat_y(w2, h2, hr, m)),
        m > k ==> !flat_drawn(w2, h2, hr, m),
    decreases m - k,
{
    if k < m {
        let y0 = flat_y(w2, h2, hr, k);
        let y1 = flat_y(w2, h2, hr, (k + 1) as nat);
        assert(y1 <= y0);
        assert(h2 * (k + 1) >= w2 * y1) by (nonlinear_arith)
            requires
                h2 * k >= w2 * y0,
                y1 <= y0,
                w2 >= 0,
                h2 >= 0,
        ;
        lemma_flat_stays_left(w2, h2, hr, (k + 1) as nat, m);
        if m == k + 1 {
        }
    }
}

proof fn lemma_below_radius(w2: int, r: int, v: int)
    requires
        r >= 0,
        w2 == r * r,
        v * v < w2,
        v >= 0,
    ensures
        v < r,
{
    if v >= r {
        assert(v * v >= r * r) by (nonlinear_arith)
            requires
                v >= r,
                r >= 0,
        ;
    }
}

proof fn lemma_flat_step_x(w2: int, h2: int, x: int, y: int)
    ensures
        flat_decision(w2, h2, x + 1, y) == flat_decision(w2, h2, x, y) + 8 * (h2 * x) + 12 * h2,
{
    assert(flat_decision(w2, h2, x + 1, y) == flat_decision(w2, h2, x, y) + 8 * (h2 * x) + 12 * h2) by (nonlinear_arith);
}

proof fn lemma_flat_step_y(w2: int, h2: int, x: int, y: int)
    ensures
        flat_decision(w2, h2, x, y - 1) == flat_decision(w2, h2, x, y) - 8 * (w2 * y) + 8 * w2,
{
    assert(flat_decision(w2, h2, x, y - 1) == flat_decision(w2, h2, x, y) - 8 * (w2 * y) + 8 * w2) by (nonlinear_arith);
}

proof fn lemma_flat_negative(w2: int, h2: int, x: int, y: int)
    requires
        flat_decision(w2, h2, x, y) < 0,
        h2 > 0,
        w2 >= 0,
    ensures
        (x + 1) * (x + 1) < w2,
{
    let a = (x + 1) * (x + 1);
    let b = (2 * y - 1) * (2 * y - 1);
    assert(b >= 0) by (nonlinear_arith)
        requires
            b == (2 * y - 1) * (2 * y - 1),
    ;
    assert(w2 * b >= 0) by (nonlinear_arith)
        requires
            w2 >= 0,
            b >= 0,
    ;
    assert(flat_decision(w2, h2, x, y) == 4 * (h2 * a) + w2 * b - 4 * (w2 * h2)) by (nonlinear_arith)
        requires
            a == (x + 1) * (x + 1),
            b == (2 * y - 1) * (2 * y - 1),
    ;
    assert(h2 * a < h2 * w2) by (nonlinear_arith)
        requires
            4 * (h2 * a) + w2 * b - 4 * (w2 * h2) < 0,
            w2 * b >= 0,
    ;
    assert(a < w2) by (nonlinear_arith)
        requires
            h2 * a < h2 * w2,
            h2 > 0,
    ;
}

proof fn lemma_steep_step_y(w2: int, h2: int, x: int, y: int)
    ensures
        steep_decision(w2, h2, x, y - 1) == steep_decision(w2, h2, x, y) - 8 * (w2 * y) + 12 * w2,
{
    assert(steep_decision(w2, h2, x, y - 1) == steep_decision(w2, h2, x, y) - 8 * (w2 * y) + 12 * w2) by (nonlinear_arith);
}

proof fn lemma_steep_step_x(w2: int, h2: int, x: int, y: int)
    ensures
        steep_decision(w2, h2, x + 1, y) == steep_decision(w2, h2, x, y) + 8 * (h2 * x) + 8 * h2,
{
    assert(steep_decision(w2, h2, x + 1, y) == steep_decision(w2, h2, x, y) + 8 * (h2 * x) + 8 * h2) by (nonlinear_arith);
}

proof fn lemma_steep_not_positive(w2: int, h2: int, x: int, y: int)
    requires
        steep_decision(w2, h2, x, y) <= 0,
        h2 > 0,
        w2 >= 0,
    ensures
        (2 * x + 1) * (2 * x + 1) <= 4 * w2,
{
    let a = (2 * x + 1) * (2 * x + 1);
    let b = (y - 1) * (y - 1);
    assert(b >= 0) by (nonlinear_arith)
        requires
            b == (y - 1) * (y - 1),
    ;
    assert(w2 * b >= 0) by (nonlinear_arith)
        requires
            w2 >= 0,
            b >= 0,
    ;
    assert(steep_decision(w2, h2, x, y) == h2 * a + 4 * (w2 * b) - 4 * (w2 * h2)) by (nonlinear_arith)
        requires
            a == (2 * x + 1) * (2 * x + 1),
            b == (y - 1) * (y - 1),
    ;
    assert(h2 * a <= h2 * (4 * w2)) by (nonlinear_arith)
        requires
            h2 * a + 4 * (w2 * b) - 4 * (w2 * h2) <= 0,
            w2 * b >= 0,
    ;
    assert(a <= 4 * w2) by (nonlinear_arith)
        requires
            h2 * a <= h2 * (4 * w2),
            h2 > 0,
    ;
}

proof fn lemma_below_radius_half(w2: int, r: int, x: int)
    requires
        r >= 0,
        w2 == r * r,
        (2 * x + 1) * (2 * x + 1) <= 4 * w2,
        x >= 0,
    ensures
        x + 1 <= r,
{
    if x + 1 > r {
        assert((2 * x + 1) * (2 * x + 1) > 4 * (r * r)) by (nonlinear_arith)
            requires
                x + 1 > r,
                r >= 0,
                x >= 0,
        ;
    }
}

proof fn lemma_steep_bounds(w2: int, h2: int, x: int, y: int)
    requires
        0 <= w2 <= 0x1000_0000_0000_0000,
        0 <= h2 <= 0x1000_0000_0000_0000,
        0 <= x <= 0x8000_0001,
        -0x4000_0001 <= y <= 0x4000_0000,
    ensures
        -0x4000_0000_0000_0000_0000_0000_0000_0000 <= steep_decision(w2, h2, x, y) <= 0x4000_0000_0000_0000_0000_0000_0000_0000,
        0 <= 2 * h2 * x <= 0x1_0000_0000_0000_0000_0000_0000,
        -0x1_0000_0000_0000_0000_0000_0000 <= 2 * w2 * y <= 0x1_0000_0000_0000_0000_0000_0000,
        0 <= h2 * (2 * x + 1) * (2 * x + 1) <= 0x1000_0000_0000_0000 * 0x1_0000_0006_0000_0009,
        0 <= 4 * w2 * (y - 1) * (y - 1) <= 0x4000_0000_0000_0000 * 0x1000_0002_0000_0004,
        0 <= h2 * (2 * x + 1) <= 0x1000_0000_0000_0000 * 0x1_0000_0003,
        -0x4000_0000_0000_0000 * 0x4000_0002 <= 4 * w2 * (y - 1) <= 0x4000_0000_0000_0000 * 0x4000_0002,
{
    assert(0 <= h2 * (2 * x + 1) <= 0x1000_0000_0000_0000 * 0x1_0000_0003) by (nonlinear_arith)
        requires
            0 <= h2 <= 0x1000_0000_0000_0000,
            0 <= x <= 0x8000_0001,
    ;
    assert(-0x4000_0000_0000_0000 * 0x4000_0002 <= 4 * w2 * (y - 1) <= 0x4000_0000_0000_0000 * 0x4000_0002) by (nonlinear_arith)
        requires
            0 <= w2 <= 0x1000_0000_0000_0000,
            -0x4000_0001 <= y <= 0x4000_0000,
    ;
    let a = (2 * x + 1) * (2 * x + 1);
    let b = (y - 1) * (y - 1);
    assert(0 <= a <= 0x1_0000_0006_0000_0009) by (nonlinear_arith)
        requires
            0 <= x <= 0x8000_0001,
            a == (2 * x + 1) * (2 * x + 1),
    ;
    assert(0 <= b <= 0x1000_0002_0000_0004) by (nonlinear_arith)
        requires
            -0x4000_0001 <= y <= 0x4000_0000,
            b == (y - 1) * (y - 1),
    ;
    assert(0 <= h2 * a <= 0x1000_0000_0000_0000 * 0x1_0000_0006_0000_0009) by (nonlinear_arith)
        requires
            0 <= h2 <= 0x1000_0000_0000_0000,
            0 <= a <= 0x1_0000_0006_0000_0009,
    ;
    assert(0 <= w2 * b <= 0x1000_0000_0000_0000 * 0x1000_0002_0000_0004) by (nonlinear_arith)
        requires
            0 <= w2 <= 0x1000_0000_0000_0000,
            0 <= b <= 0x1000_0002_0000_0004,
    ;
    assert(0 <= w2 * h2 <= 0x1000_0000_0000_0000 * 0x1000_0000_0000_0000) by (nonlinear_arith)
        requires
            0 <= w2 <= 0x1000_0000_0000_0000,
            0 <= h2 <= 0x1000_0000_0000_0000,
    ;
    assert(steep_decision(w2, h2, x, y) == h2 * a + 4 * (w2 * b) - 4 * (w2 * h2)) by (nonlinear_arith)
        requires
            a == (2 * x + 1) * (2 * x + 1),
            b == (y - 1) * (y - 1),
    ;
    assert(h2 * (2 * x + 1) * (2 * x + 1) == h2 * a) by (nonlinear_arith)
        requires
            a == (2 * x + 1) * (2 * x + 1),
    ;
    assert(4 * w2 * (y - 1) * (y - 1) == 4 * (w2 * b)) by (nonlinear_arith)
        requires
            b == (y - 1) * (y - 1),
    ;
    assert(0 <= h2 * x <= 0x1000_0000_0000_0000 * 0x8000_0001) by (nonlinear_arith)
        requires
            0 <= h2 <= 0x1000_0000_0000_0000,
            0 <= x <= 0x8000_0001,
    ;
    assert(-0x1000_0000_0000_0000 * 0x4000_0001 <= w2 * y <= 0x1000_0000_0000_0000 * 0x4000_0001) by (nonlinear_arith)
        requires
            0 <= w2 <= 0x1000_0000_0000_0000,
            -0x4000_0001 <= y <= 0x4000_0000,
    ;
    assert(2 * h2 * x == 2 * (h2 * x)) by (nonlinear_arith);
    assert(2 * w2 * y == 2 * (w2 * y)) by (nonlinear_arith);
}

proof fn lemma_square_bound(r: int)
    requires
        -0x4000_0000 <= r <= 0x4000_0000,
    ensures
        0 <= r * r <= 0x1000_0000_0000_0000,
{
    assert(0 <= r * r <= 0x1000_0000_0000_0000) by (nonlinear_arith)
        requires
            -0x4000_0000 <= r <= 0x4000_0000,
    ;
}

proof fn lemma_flat_bounds(w2: int, h2: int, x: int, y: int)
    requires
        0 <= w2 <= 0x1000_0000_0000_0000,
        0 <= h2 <= 0x1000_0000_0000_0000,
        0 <= x <= 0x8000_0001,
        -0x4000_0001 <= y <= 0x4000_0000,
    ensures
        -0x4000_0000_0000_0000_0000_0000_0000_0000 <= flat_decision(w2, h2, x, y) <= 0x4000_0000_0000_0000_0000_0000_0000_0000,
        0 <= 2 * h2 * x <= 0x1_0000_0000_0000_0000_0000_0000,
        -0x1_0000_0000_0000_0000_0000_0000 <= 2 * w2 * y <= 0x1_0000_0000_0000_0000_0000_0000,
{
    let a = (x + 1) * (x + 1);
    let b = (2 * y - 1) * (2 * y - 1);
    assert(0 <= a <= 0x4000_0004_0000_0010) by (nonlinear_arith)
        requires
            0 <= x <= 0x8000_0001,
            a == (x + 1) * (x + 1),
    ;
    assert(0 <= b <= 0x4000_0004_0000_0010) by (nonlinear_arith)
        requires
            -0x4000_0001 <= y <= 0x4000_0000,
            b == (2 * y - 1) * (2 * y - 1),
    ;
    assert(0 <= h2 * a <= 0x1000_0000_0000_0000 * 0x4000_0004_0000_0010) by (nonlinear_arith)
        requires
            0 <= h2 <= 0x1000_0000_0000_0000,
            0 <= a <= 0x4000_0004_0000_0010,
    ;
    assert(0 <= w2 * b <= 0x1000_0000_0000_0000 * 0x4000_0004_0000_0010) by (nonlinear_arith)
        requires
            0 <= w2 <= 0x1000_0000_0000_0000,
            0 <= b <= 0x4000_0004_0000_0010,
    ;
    assert(0 <= w2 * h2 <= 0x1000_0000_0000_0000 * 0x1000_0000_0000_0000) by (nonlinear_arith)
        requires
            0 <= w2 <= 0x1000_0000_0000_0000,
            0 <= h2 <= 0x1000_0000_0000_0000,
    ;
    assert(flat_decision(w2, h2, x, y) == 4 * (h2 * a) + w2 * b - 4 * (w2 * h2)) by (nonlinear_arith)
        requires
            a == (x + 1) * (x + 1),
            b == (2 * y - 1) * (2 * y - 1),
    ;
    assert(0 <= h2 * x <= 0x1000_0000_0000_0000 * 0x8000_0001) by (nonlinear_arith)
        requires
            0 <= h2 <= 0x1000_0000_0000_0000,
            0 <= x <= 0x8000_0001,
    ;
    assert(-0x1000_0000_0000_0000 * 0x4000_0001 <= w2 * y <= 0x1000_0000_0000_0000 * 0x4000_0001) by (nonlinear_arith)
        requires
            0 <= w2 <= 0x1000_0000_0000_0000,
            -0x4000_0001 <= y <= 0x4000_0000,
    ;
    assert(2 * h2 * x == 2 * (h2 * x)) by (nonlinear_arith);
    assert(2 * w2 * y == 2 * (w2 * y)) by (nonlinear_arith);
}

impl Canvas {
    fn draw_ellipse_mark(&mut self, filled: bool, cx: i64, cy: i64, x: i64, y: i64, color: Color)
        requires
            old(self).wf(),
            -0x2_0000_0000 <= cx <= 0x2_0000_0000,
            -0x2_0000_0000 <= cy <= 0x2_0000_0000,
            -0x2_0000_0000 <= x <= 0x2_0000_0000,
            -0x2_0000_0000 <= y <= 0x2_0000_0000,
        ensures
            Canvas::painted(*old(self), *final(self), |a: int, b: int| ellipse_mark(filled, cx as int, cy as int, x as int, y as int, a, b), color),
    {
        let ghost c0 = *self;
        if filled {
            self.fill_span(cx - x, cx + x, cy + y, color);
            let ghost c1 = *self;
            self.fill_span(cx - x, cx + x, cy - y, color);
            proof {
                lemma_painted_union(c0, c1, *self, |a: int, b: int| in_span(cx - x, cx + x, cy + y, a, b),
                    |a: int, b: int| in_span(cx - x, cx + x, cy - y, a, b), color);
                lemma_painted_same_region(c0, *self,
                    |a: int, b: int| in_span(cx - x, cx + x, cy + y, a, b) || in_span(cx - x, cx + x, cy - y, a, b),
                    |a: int, b: int| ellipse_mark(filled, cx as int, cy as int, x as int, y as int, a, b), color);
            }
        } else {
            self.draw_if_in_bounds(cx + x, cy + y, color);
            let ghost c1 = *self;
            self.draw_if_in_bounds(cx - x, cy + y, color);
            let ghost c2 = *self;
            self.draw_if_in_bounds(cx + x, cy - y, color);
            let ghost c3 = *self;
            self.draw_if_in_bounds(cx - x, cy - y, color);
            proof {
                let q1 = |a: int, b: int| a == cx + x && b == cy + y;
                let q2 = |a: int, b: int| a == cx - x && b == cy + y;
                let q3 = |a: int, b: int| a == cx + x && b == cy - y;
                let q4 = |a: int, b: int| a == cx - x && b == cy - y;
                lemma_painted_union(c0, c1, c2, q1, q2, color);
                lemma_painted_union(c0, c2, c3, |a: int, b: int| q1(a, b) || q2(a, b), q3, color);
                lemma_painted_union(c0, c3, *self, |a: int, b: int| (q1(a, b) || q2(a, b)) || q3(a, b), q4, color);
                lemma_painted_same_region(c0, *self, |a: int, b: int| ((q1(a, b) || q2(a, b)) || q3(a, b)) || q4(a, b),
                    |a: int, b: int| ellipse_mark(filled, cx as int, cy as int, x as int, y as int, a, b), color);
            }
        }
    }

    /// The midpoint ellipse algorithm: marks the first step `(0, hr)`, steps
    /// x through the flat region while `h2 * x < w2 * y`, then steps y down
    /// to 0 through the steep region, marking each step.
    fn draw_ellipse(&mut self, filled: bool, center: (i32, i32), width_radius: i32, height_radius: i32, color: Color)
        requires
            old(self).wf(),
            -MAX_ELLIPSE_RADIUS <= width_radius <= MAX_ELLIPSE_RADIUS,
            -MAX_ELLIPSE_RADIUS <= height_radius <= MAX_ELLIPSE_RADIUS,
        ensures
            Canvas::painted(*old(self), *final(self), |a: int, b: int|
                on_ellipse(filled, center.0 as int, center.1 as int, width_radius as int, height_radius as int, a, b), color),
    {
        let ghost c0 = *self;
        let (x0, y0) = (center.0 as i64, center.1 as i64);
        let wr: i128 = if width_radius < 0 { -(width_radius as i128) } else { width_radius as i128 };
        let hr = height_radius as i128;
        proof {
            lemma_square_bound(wr as int);
            lemma_square_bound(hr as int);
        }
        let w2: i128 = wr * wr;
        let h2: i128 = hr * hr;
        let ghost (gw2, gh2, ghr) = (w2 as int, h2 as int, hr as int);
        assert(gw2 == (width_radius as int) * (width_radius as int)) by (nonlinear_arith)
            requires
                wr == width_radius || wr == -width_radius,
                gw2 == wr * wr,
        ;
        let mut x: i128 = 0;
        let mut y: i128 = hr;
        let mut px: i128 = 0;
        proof {
            lemma_flat_bounds(w2 as int, h2 as int, 0, hr as int);
            assert(-0x2_0000_0000_0000_0000_0000_0000 <= 4 * w2 * hr <= 0x2_0000_0000_0000_0000_0000_0000) by (nonlinear_arith)
                requires
                    -0x1_0000_0000_0000_0000_0000_0000 <= 2 * w2 * hr <= 0x1_0000_0000_0000_0000_0000_0000,
            ;
            assert(4 * h2 - 4 * w2 * hr + w2 == flat_decision(w2 as int, h2 as int, 0, hr as int)) by (nonlinear_arith)
                requires
                    h2 == hr * hr,
            ;
        }
        let mut py: i128 = 2 * w2 * y;
        self.draw_ellipse_mark(filled, x0, y0, 0, y as i64, color);
        proof {
            assert forall|a: int, b: int| #![trigger self.in_bounds(a, b)] self.in_bounds(a, b) implies
                ellipse_mark(filled, x0 as int, y0 as int, 0, y as int, a, b)
                == (exists|k: nat| k <= 0 && #[trigger] flat_drawn(gw2, gh2, ghr, k)
                    && ellipse_mark(filled, x0 as int, y0 as int, k as int, flat_y(gw2, gh2, ghr, k), a, b)) by {
                assert(flat_drawn(gw2, gh2, ghr, 0));
            }
            lemma_painted_same_region(c0, *self, |a: int, b: int| ellipse_mark(filled, x0 as int, y0 as int, 0, y as int, a, b),
                |a: int, b: int| exists|k: nat| k <= 0 && #[trigger] flat_drawn(gw2, gh2, ghr, k)
                    && ellipse_mark(filled, x0 as int, y0 as int, k as int, flat_y(gw2, gh2, ghr, k), a, b), color);
        }
        let mut p: i128 = 4 * h2 - 4 * w2 * hr + w2;
        while px < py
            invariant
                -0x1_0000_0000 <= x0 <= 0x1_0000_0000,
                -0x1_0000_0000 <= y0 <= 0x1_0000_0000,
                0 <= wr <= 0x4000_0000,
                -0x4000_0000 <= hr <= 0x4000_0000,
                w2 == wr * wr,
                h2 == hr * hr,
                0 <= w2 <= 0x1000_0000_0000_0000,
                0 <= h2 <= 0x1000_0000_0000_0000,
                x <= 0x8000_0000,
                -0x4000_0000 <= y,
                gw2 == w2,
                gh2 == h2,
                ghr == hr,
                0 <= x,
                x + y <= wr + hr,
                y <= hr,
                x > 0 ==> y >= 0,
                y == flat_y(gw2, gh2, ghr, x as nat),
                flat_drawn(gw2, gh2, ghr, x as nat),
                px == 2 * h2 * x,
                py == 2 * w2 * y,
                p == flat_decision(w2 as int, h2 as int, x as int, y as int),
                self.width == c0.width,
                self.height == c0.height,
                Canvas::painted(c0, *self, |a: int, b: int| exists|k: nat| k <= x && #[trigger] flat_drawn(gw2, gh2, ghr, k)
                    && ellipse_mark(filled, x0 as int, y0 as int, k as int, flat_y(gw2, gh2, ghr, k), a, b), color),
            decreases py - px + 2 * h2 + 2 * w2,
        {
            proof {
                assert(w2 * y - h2 * x > 0) by (nonlinear_arith)
                    requires
                        px == 2 * h2 * x,
                        py == 2 * w2 * y,
                        px < py,
                ;
                assert(is_flat(gw2, gh2, x as int, y as int)) by (nonlinear_arith)
                    requires
                        px == 2 * h2 * x,
                        py == 2 * w2 * y,
                        px < py,
                        gw2 == w2,
                        gh2 == h2,
                ;
                assert(y > 0 && h2 > 0 && w2 > 0) by (nonlinear_arith)
                    requires
                        h2 * x < w2 * y,
                        x >= 0,
                        w2 >= 0,
                        h2 >= 0,
                        y <= hr,
                        h2 == hr * hr,
                ;
            }
            let ghost (ox, oy, op) = (x as int, y as int, p as int);
            proof {
                lemma_flat_bounds(w2 as int, h2 as int, x as int, y as int);
                lemma_flat_bounds(w2 as int, h2 as int, x + 1, y as int);
                lemma_flat_bounds(w2 as int, h2 as int, x + 1, y - 1);
            }
            proof {
                lemma_flat_step_x(w2 as int, h2 as int, ox, oy);
                lemma_flat_step_y(w2 as int, h2 as int, ox + 1, oy);
                assert(2 * h2 * (ox + 1) == px + 2 * h2) by (nonlinear_arith)
                    requires
                        px == 2 * h2 * ox,
                ;
                assert(2 * w2 * (oy - 1) == py - 2 * w2) by (nonlinear_arith)
                    requires
                        py == 2 * w2 * oy,
                ;
                assert(8 * (h2 * ox) == 4 * px) by (nonlinear_arith)
                    requires
                        px == 2 * h2 * ox,
                ;
                assert(8 * (w2 * oy) == 4 * py) by (nonlinear_arith)
                    requires
                        py == 2 * w2 * oy,
                ;
                if op < 0 {
                    lemma_flat_negative(w2 as int, h2 as int, ox, oy);
                    lemma_below_radius(w2 as int, wr as int, ox + 1);
                }
            }
            x = x + 1;
            px = px + 2 * h2;
            if p < 0 {
                p = p + 4 * (h2 + px);
            } else {
                y = y - 1;
                py = py - 2 * w2;
                p = p + 4 * (h2 + px - py);
            }
            let ghost before = *self;
            self.draw_ellipse_mark(filled, x0, y0, x as i64, y as i64, color);
            proof {
                assert(flat_drawn(gw2, gh2, ghr, x as nat));
                let prev = |a: int, b: int| exists|k: nat| k <= ox && #[trigger] flat_drawn(gw2, gh2, ghr, k)
                    && ellipse_mark(filled, x0 as int, y0 as int, k as int, flat_y(gw2, gh2, ghr, k), a, b);
                let cur = |a: int, b: int| ellipse_mark(filled, x0 as int, y0 as int, x as int, y as int, a, b);
                lemma_painted_union(c0, before, *self, prev, cur, color);
                assert forall|a: int, b: int| #![trigger self.in_bounds(a, b)] self.in_bounds(a, b) implies (prev(a, b) || cur(a, b))
                    == (exists|k: nat| k <= x && #[trigger] flat_drawn(gw2, gh2, ghr, k)
                    && ellipse_mark(filled, x0 as int, y0 as int, k as int, flat_y(gw2, gh2, ghr, k), a, b)) by {
                    if exists|k: nat| k <= x && #[trigger] flat_drawn(gw2, gh2, ghr, k)
                        && ellipse_mark(filled, x0 as int, y0 as int, k as int, flat_y(gw2, gh2, ghr, k), a, b) {
                        let k = choose|k: nat| k <= x && #[trigger] flat_drawn(gw2, gh2, ghr, k)
                            && ellipse_mark(filled, x0 as int, y0 as int, k as int, flat_y(gw2, gh2, ghr, k), a, b);
                        if k <= ox {
                            assert(prev(a, b));
                        }
                    }
                }
                lemma_painted_same_region(c0, *self, |a: int, b: int| prev(a, b) || cur(a, b),
                    |a: int, b: int| exists|k: nat| k <= x && #[trigger] flat_drawn(gw2, gh2, ghr, k)
                    && ellipse_mark(filled, x0 as int, y0 as int, k as int, flat_y(gw2, gh2, ghr, k), a, b), color);
            }
        }
        let ghost xe = x as int;
        let ghost ye = y as int;
        proof {
            assert(!is_flat(gw2, gh2, x as int, y as int)) by (nonlinear_arith)
                requires
                    px == 2 * h2 * x,
                    py == 2 * w2 * y,
                    px >= py,
                    gw2 == w2,
                    gh2 == h2,
            ;
            assert(flat_exit(gw2, gh2, ghr, x as nat));
            lemma_steep_bounds(w2 as int, h2 as int, x as int, y as int);
            assert(h2 * (2 * x + 1) * (2 * x + 1) + 4 * w2 * (y - 1) * (y - 1) - 4 * w2 * h2 == steep_decision(w2 as int, h2 as int, x as int, y as int));
        }
        let mut q: i128 = h2 * (2 * x + 1) * (2 * x + 1) + 4 * w2 * (y - 1) * (y - 1) - 4 * w2 * h2;
        let ghost mut j: nat = 0;
        proof {
            lemma_painted_same_region(c0, *self, |a: int, b: int| exists|k: nat| k <= xe && #[trigger] flat_drawn(gw2, gh2, ghr, k)
                && ellipse_mark(filled, x0 as int, y0 as int, k as int, flat_y(gw2, gh2, ghr, k), a, b),
                |a: int, b: int| (exists|k: nat| k <= xe && #[trigger] flat_drawn(gw2, gh2, ghr, k)
                && ellipse_mark(filled, x0 as int, y0 as int, k as int, flat_y(gw2, gh2, ghr, k), a, b))
                || (exists|i: nat| 1 <= i <= 0 && #[trigger] ellipse_mark(filled, x0 as int, y0 as int, steep_x(gw2, gh2, xe, ye, i), ye - i, a, b)), color);
        }
        while y > 0
            invariant
                -0x1_0000_0000 <= x0 <= 0x1_0000_0000,
                -0x1_0000_0000 <= y0 <= 0x1_0000_0000,
                0 <= wr <= 0x4000_0000,
                -0x4000_0000 <= hr <= 0x4000_0000,
                w2 == wr * wr,
                h2 == hr * hr,
                0 <= w2 <= 0x1000_0000_0000_0000,
                0 <= h2 <= 0x1000_0000_0000_0000,
                gw2 == w2,
                gh2 == h2,
                ghr == hr,
                0 <= x <= 0x8000_0000,
                -0x4000_0000 <= y <= hr,
                y == ye - j,
                y >= 0 || (j == 0 && y == ye),
                ye == flat_y(gw2, gh2, ghr, xe as nat),
                !is_flat(gw2, gh2, xe, ye),
                flat_drawn(gw2, gh2, ghr, xe as nat),
                0 <= xe,
                x == steep_x(gw2, gh2, xe, ye, j),
                px == 2 * h2 * x,
                py == 2 * w2 * y,
                q == steep_decision(w2 as int, h2 as int, x as int, y as int),
                self.width == c0.width,
                self.height == c0.height,
                Canvas::painted(c0, *self, |a: int, b: int| (exists|k: nat| k <= xe && #[trigger] flat_drawn(gw2, gh2, ghr, k)
                    && ellipse_mark(filled, x0 as int, y0 as int, k as int, flat_y(gw2, gh2, ghr, k), a, b))
                    || (exists|i: nat| 1 <= i <= j && #[trigger] ellipse_mark(filled, x0 as int, y0 as int, steep_x(gw2, gh2, xe, ye, i), ye - i, a, b)), color),
            decreases y,
        {
            let ghost (ox, oy, oq) = (x as int, y as int, q as int);
            proof {
                assert(h2 > 0) by (nonlinear_arith)
                    requires
                        y > 0,
                        y <= hr,
                        h2 == hr * hr,
                ;
                lemma_steep_bounds(w2 as int, h2 as int, ox, oy);
                lemma_steep_bounds(w2 as int, h2 as int, ox, oy - 1);
                lemma_steep_bounds(w2 as int, h2 as int, ox + 1, oy - 1);
                lemma_steep_step_y(w2 as int, h2 as int, ox, oy);
                lemma_steep_step_x(w2 as int, h2 as int, ox, oy - 1);
                assert(2 * h2 * (ox + 1) == px + 2 * h2) by (nonlinear_arith)
                    requires
                        px == 2 * h2 * ox,
                ;
                assert(2 * w2 * (oy - 1) == py - 2 * w2) by (nonlinear_arith)
                    requires
                        py == 2 * w2 * oy,
                ;
                assert(8 * (h2 * ox) == 4 * px) by (nonlinear_arith)
                    requires
                        px == 2 * h2 * ox,
                ;
                assert(8 * (w2 * oy) == 4 * py) by (nonlinear_arith)
                    requires
                        py == 2 * w2 * oy,
                ;
                if oq <= 0 {
                    lemma_steep_not_positive(w2 as int, h2 as int, ox, oy);
                    lemma_below_radius_half(w2 as int, wr as int, ox);
                }
            }
            y = y - 1;
            py = py - 2 * w2;
            if q > 0 {
                q = q + 4 * (w2 - py);
            } else {
                x = x + 1;
                px = px + 2 * h2;
                q = q + 4 * (w2 - py + px);
            }
            proof {
                j = j + 1;
            }
            let ghost before = *self;
            self.draw_ellipse_mark(filled, x0, y0, x as i64, y as i64, color);
            proof {
                let prev = |a: int, b: int| (exists|k: nat| k <= xe && #[trigger] flat_drawn(gw2, gh2, ghr, k)
                    && ellipse_mark(filled, x0 as int, y0 as int, k as int, flat_y(gw2, gh2, ghr, k), a, b))
                    || (exists|i: nat| 1 <= i <= j - 1 && #[trigger] ellipse_mark(filled, x0 as int, y0 as int, steep_x(gw2, gh2, xe, ye, i), ye - i, a, b));
                let cur = |a: int, b: int| ellipse_mark(filled, x0 as int, y0 as int, x as int, y as int, a, b);
                lemma_painted_union(c0, before, *self, prev, cur, color);
                assert forall|a: int, b: int| #![trigger self.in_bounds(a, b)] self.in_bounds(a, b) implies (prev(a, b) || cur(a, b))
                    == ((exists|k: nat| k <= xe && #[trigger] flat_drawn(gw2, gh2, ghr, k)
                    && ellipse_mark(filled, x0 as int, y0 as int, k as int, flat_y(gw2, gh2, ghr, k), a, b))
                    || (exists|i: nat| 1 <= i <= j && #[trigger] ellipse_mark(filled, x0 as int, y0 as int, steep_x(gw2, gh2, xe, ye, i), ye - i, a, b))) by {
                    if cur(a, b) {
                        assert(ellipse_mark(filled, x0 as int, y0 as int, steep_x(gw2, gh2, xe, ye, j), ye - j, a, b));
                    }
                    if exists|i: nat| 1 <= i <= j && #[trigger] ellipse_mark(filled, x0 as int, y0 as int, steep_x(gw2, gh2, xe, ye, i), ye - i, a, b) {
                        let i = choose|i: nat| 1 <= i <= j && #[trigger] ellipse_mark(filled, x0 as int, y0 as int, steep_x(gw2, gh2, xe, ye, i), ye - i, a, b);
                        if i < j {
                            assert(prev(a, b));
                        }
                    }
                }
                lemma_painted_same_region(c0, *self, |a: int, b: int| prev(a, b) || cur(a, b),
                    |a: int, b: int| (exists|k: nat| k <= xe && #[trigger] flat_drawn(gw2, gh2, ghr, k)
                    && ellipse_mark(filled, x0 as int, y0 as int, k as int, flat_y(gw2, gh2, ghr, k), a, b))
                    || (exists|i: nat| 1 <= i <= j && #[trigger] ellipse_mark(filled, x0 as int, y0 as int, steep_x(gw2, gh2, xe, ye, i), ye - i, a, b)), color);
            }
        }
        proof {
            let wr0 = width_radius as int;
            let hr0 = height_radius as int;
            assert(gw2 == wr0 * wr0);
            assert(j <= ye || j == 0);
            assert(ye >= 0 ==> j == ye);
            assert forall|a: int, b: int| #![trigger self.in_bounds(a, b)] self.in_bounds(a, b) implies
                ((exists|k: nat| k <= xe && #[trigger] flat_drawn(gw2, gh2, ghr, k)
                    && ellipse_mark(filled, x0 as int, y0 as int, k as int, flat_y(gw2, gh2, ghr, k), a, b))
                || (exists|i: nat| 1 <= i <= j && #[trigger] ellipse_mark(filled, x0 as int, y0 as int, steep_x(gw2, gh2, xe, ye, i), ye - i, a, b)))
                == on_ellipse(filled, center.0 as int, center.1 as int, wr0, hr0, a, b) by {
                let w2s = wr0 * wr0;
                let h2s = hr0 * hr0;
                if exists|k: nat| k <= xe && #[trigger] flat_drawn(gw2, gh2, ghr, k) && ellipse_mark(filled, x0 as int, y0 as int, k as int, flat_y(gw2, gh2, ghr, k), a, b) {
                    let k = choose|k: nat| k <= xe && #[trigger] flat_drawn(gw2, gh2, ghr, k) && ellipse_mark(filled, x0 as int, y0 as int, k as int, flat_y(gw2, gh2, ghr, k), a, b);
                    assert(flat_drawn(w2s, h2s, hr0, k) && ellipse_mark(filled, center.0 as int, center.1 as int, k as int, flat_y(w2s, h2s, hr0, k), a, b));
                }
                if exists|k: nat| #[trigger] flat_drawn(gw2, gh2, ghr, k) && ellipse_mark(filled, x0 as int, y0 as int, k as int, flat_y(gw2, gh2, ghr, k), a, b) {
                    let k = choose|k: nat| #[trigger] flat_drawn(gw2, gh2, ghr, k) && ellipse_mark(filled, x0 as int, y0 as int, k as int, flat_y(gw2, gh2, ghr, k), a, b);
                    if k > xe {
                        lemma_flat_stays_left(gw2, gh2, ghr, xe as nat, k);
                    }
                }
                if exists|k: nat, i: nat| #[trigger] flat_exit(gw2, gh2, ghr, k) && 1 <= i <= flat_y(gw2, gh2, ghr, k) && #[trigger] ellipse_mark(
                    filled, x0 as int, y0 as int, steep_x(gw2, gh2, k as int, flat_y(gw2, gh2, ghr, k), i), flat_y(gw2, gh2, ghr, k) - i, a, b) {
                    let (k, i) = choose|k: nat, i: nat| #[trigger] flat_exit(gw2, gh2, ghr, k) && 1 <= i <= flat_y(gw2, gh2, ghr, k) && #[trigger] ellipse_mark(
                        filled, x0 as int, y0 as int, steep_x(gw2, gh2, k as int, flat_y(gw2, gh2, ghr, k), i), flat_y(gw2, gh2, ghr, k) - i, a, b);
                    if k > xe {
                        lemma_flat_stays_left(gw2, gh2, ghr, xe as nat, k);
                    }
                    if k < xe {
                        lemma_flat_stays_left(gw2, gh2, ghr, k, xe as nat);
                    }
                    assert(k == xe);
                    assert(ellipse_mark(filled, x0 as int, y0 as int, steep_x(gw2, gh2, xe, ye, i), ye - i, a, b));
                }
                if exists|i: nat| 1 <= i <= j && #[trigger] ellipse_mark(filled, x0 as int, y0 as int, steep_x(gw2, gh2, xe, ye, i), ye - i, a, b) {
                    let i = choose|i: nat| 1 <= i <= j && #[trigger] ellipse_mark(filled, x0 as int, y0 as int, steep_x(gw2, gh2, xe, ye, i), ye - i, a, b);
                    assert(flat_exit(w2s, h2s, hr0, xe as nat));
                    assert(1 <= i <= flat_y(w2s, h2s, hr0, xe as nat));
                    assert(ellipse_mark(filled, center.0 as int, center.1 as int, steep_x(w2s, h2s, xe, flat_y(w2s, h2s, hr0, xe as nat), i),
                        flat_y(w2s, h2s, hr0, xe as nat) - i, a, b));
                }
            }
            lemma_painted_same_region(c0, *self,
                |a: int, b: int| (exists|k: nat| k <= xe && #[trigger] flat_drawn(gw2, gh2, ghr, k)
                    && ellipse_mark(filled, x0 as int, y0 as int, k as int, flat_y(gw2, gh2, ghr, k), a, b))
                || (exists|i: nat| 1 <= i <= j && #[trigger] ellipse_mark(filled, x0 as int, y0 as int, steep_x(gw2, gh2, xe, ye, i), ye - i, a, b)),
                |a: int, b: int| on_ellipse(filled, center.0 as int, center.1 as int, width_radius as int, height_radius as int, a, b), color);
        }
    }

    /// Paints a filled midpoint ellipse with radii `width_radius` and
    /// `height_radius`: a filled circle when the two are equal.
    pub fn draw_filled_ellipse_mut(&mut self, center: (i32, i32), width_radius: i32, height_radius: i32, color: Color)
        requires
            old(self).wf(),
            -MAX_ELLIPSE_RADIUS <= width_radius <= MAX_ELLIPSE_RADIUS,
            -MAX_ELLIPSE_RADIUS <= height_radius <= MAX_ELLIPSE_RADIUS,
        ensures
            width_radius == height_radius ==> Canvas::painted(*old(self), *final(self), |a: int, b: int|
                in_filled_circle(center.0 as int, center.1 as int, width_radius as int, a, b), color),
            width_radius != height_radius ==> Canvas::painted(*old(self), *final(self), |a: int, b: int|
                on_ellipse(true, center.0 as int, center.1 as int, width_radius as int, height_radius as int, a, b), color),
    {
        if width_radius == height_radius {
            self.draw_filled_circle_mut(center, width_radius, color);
            return;
        }
        self.draw_ellipse(true, center, width_radius, height_radius, color);
    }

    /// Paints the outline of a midpoint ellipse with radii `width_radius` and
    /// `height_radius`: a hollow circle when the two are equal.
    pub fn draw_hollow_ellipse_mut(&mut self, center: (i32, i32), width_radius: i32, height_radius: i32, color: Color)
        requires
            old(self).wf(),
            -MAX_ELLIPSE_RADIUS <= width_radius <= MAX_ELLIPSE_RADIUS,
            -MAX_ELLIPSE_RADIUS <= height_radius <= MAX_ELLIPSE_RADIUS,
        ensures
            width_radius == height_radius ==> Canvas::painted(*old(self), *final(self), |a: int, b: int|
                on_hollow_circle(center.0 as int, center.1 as int, width_radius as int, a, b), color),
            width_radius != height_radius ==> Canvas::painted(*old(self), *final(self), |a: int, b: int|
                on_ellipse(false, center.0 as int, center.1 as int, width_radius as int, height_radius as int, a, b), color),
    {
        if width_radius == height_radius {
            self.draw_hollow_circle_mut(center, width_radius, color);
            return;
        }
        self.draw_ellipse(false, center, width_radius, height_radius, color);
    }
}

} // verus!
