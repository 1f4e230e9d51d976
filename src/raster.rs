//! Rasterization of lines, circles and rectangles onto a [`Canvas`].
//! Every operation clips to the canvas: pixels outside it are never written.
use vstd::prelude::*;
use crate::canvas::{Canvas, Color, lemma_painted_nothing, lemma_painted_union, lemma_painted_same_region};
use crate::rect::Rect;

verus! {

/// Pixels `(x, y)` with `x0 <= x <= x1` on row `y`.
pub open spec fn in_span(x0: int, x1: int, y0: int, x: int, y: int) -> bool {
    y == y0 && x0 <= x <= x1
}

/// Pixels `(x, y)` with `left <= x < right` and `top <= y < bottom`.
pub open spec fn in_area(left: int, top: int, right: int, bottom: int, x: int, y: int) -> bool {
    left <= x < right && top <= y < bottom
}

/// Secondary-axis offset of the `i`-th pixel of a Bresenham line whose driving
/// axis spans `dx` and secondary axis `dy`: `i * dy / dx` rounded to the
/// nearest integer, halves rounded down.
pub open spec fn line_offset(i: int, dx: int, dy: int) -> int {
    if dx == 0 {
        0
    } else {
        (2 * i * dy + dx - 1) / (2 * dx)
    }
}

/// The absolute value of `v`.
pub open spec fn abs(v: int) -> int {
    if v < 0 {
        -v
    } else {
        v
    }
}

/// Whether the segment from `(x0, y0)` to `(x1, y1)` is driven by the y axis.
pub open spec fn is_steep(x0: int, y0: int, x1: int, y1: int) -> bool {
    abs(y1 - y0) > abs(x1 - x0)
}

/// The endpoints in driving-axis coordinates `(a0, b0, a1, b1)`, ordered so
/// that `a0 <= a1`.
pub open spec fn driving_ends(x0: int, y0: int, x1: int, y1: int) -> (int, int, int, int) {
    let (a0, b0, a1, b1) = if is_steep(x0, y0, x1, y1) {
        (y0, x0, y1, x1)
    } else {
        (x0, y0, x1, y1)
    };
    if a0 > a1 {
        (a1, b1, a0, b0)
    } else {
        (a0, b0, a1, b1)
    }
}

/// The pixels of the Bresenham line from `(x0, y0)` to `(x1, y1)`, in order
/// along the driving axis: one pixel per driving coordinate from `a0` to `a1`.
pub open spec fn line_points(x0: int, y0: int, x1: int, y1: int) -> Seq<(int, int)> {
    let (a0, b0, a1, b1) = driving_ends(x0, y0, x1, y1);
    let dx = a1 - a0;
    let dy = abs(b1 - b0);
    let b_step: int = if b0 < b1 {
        1
    } else {
        -1
    };
    Seq::new(
        (dx + 1) as nat,
        |i: int|
            {
                let a = a0 + i;
                let b = b0 + b_step * line_offset(i, dx, dy);
                if is_steep(x0, y0, x1, y1) {
                    (b, a)
                } else {
                    (a, b)
                }
            },
    )
}

/// Whether `(x, y)` is a pixel of the line.
pub open spec fn on_line(x0: int, y0: int, x1: int, y1: int, x: int, y: int) -> bool {
    line_points(x0, y0, x1, y1).contains((x, y))
}

proof fn lemma_line_offset(i: int, dx: int, dy: int, j: int)
    requires
        dx > 0,
        0 <= dx + 2 * j * dx - 2 * i * dy < 2 * dx,
    ensures
        line_offset(i, dx, dy) == j,
{
    let n = 2 * i * dy + dx - 1;
    let r = n - j * (2 * dx);
    assert(0 <= r < 2 * dx) by (nonlinear_arith)
        requires
            r == n - j * (2 * dx),
            n == 2 * i * dy + dx - 1,
            0 <= dx + 2 * j * dx - 2 * i * dy < 2 * dx,
    ;
    vstd::arithmetic::div_mod::lemma_fundamental_div_mod_converse(n, 2 * dx, j, r);
}

/// A line from a point to itself is that one pixel.
pub proof fn lemma_line_to_itself(x: int, y: int)
    ensures
        line_points(x, y, x, y) =~= seq![(x, y)],
        forall|a: int, b: int| #[trigger] on_line(x, y, x, y, a, b) <==> a == x && b == y,
{
    assert(line_points(x, y, x, y)[0] == (x, y));
    assert forall|a: int, b: int| #[trigger] on_line(x, y, x, y, a, b) <==> a == x && b == y by {
        if a == x && b == y {
            assert(line_points(x, y, x, y)[0] == (a, b));
        }
    }
}

/// Drawing a line from a point to itself writes at most that one pixel:
/// every other pixel of the canvas keeps its color.
pub proof fn lemma_degenerate_line_paints_one_pixel(before: Canvas, after: Canvas, x: int, y: int, color: Color)
    requires
        Canvas::painted(before, after, |a: int, b: int| on_line(x, y, x, y, a, b), color),
    ensures
        forall|a: int, b: int|
            #![trigger after.at(a, b)]
            after.in_bounds(a, b) && (a != x || b != y) ==> after.at(a, b) == before.at(a, b),
{
    lemma_line_to_itself(x, y);
}

/// Row offset of the midpoint circle of radius `r` at column offset `k`. It
/// starts at `r` and steps down by one exactly when the midpoint
/// `(k, y - 1/2)` lies on or outside the circle.
pub open spec fn circle_y(r: int, k: nat) -> int
    decreases k,
{
    if k == 0 {
        r
    } else {
        let y = circle_y(r, (k - 1) as nat);
        if k * k + y * y - y - r * r < 0 {
            y
        } else {
            y - 1
        }
    }
}

/// Step `k` of the midpoint circle is drawn: it lies in the first octant.
pub open spec fn circle_step(r: int, k: nat) -> bool {
    k <= circle_y(r, k)
}

/// The four horizontal spans drawn at step `(x, y)` of a filled circle.
pub open spec fn circle_spans(cx: int, cy: int, x: int, y: int, a: int, b: int) -> bool {
    ||| in_span(cx - x, cx + x, cy + y, a, b)
    ||| in_span(cx - y, cx + y, cy + x, a, b)
    ||| in_span(cx - x, cx + x, cy - y, a, b)
    ||| in_span(cx - y, cx + y, cy - x, a, b)
}

/// The eight symmetric points drawn at step `(x, y)` of a hollow circle.
pub open spec fn circle_octants(cx: int, cy: int, x: int, y: int, a: int, b: int) -> bool {
    ||| (a == cx + x && b == cy + y)
    ||| (a == cx + y && b == cy + x)
    ||| (a == cx - y && b == cy + x)
    ||| (a == cx - x && b == cy + y)
    ||| (a == cx - x && b == cy - y)
    ||| (a == cx - y && b == cy - x)
    ||| (a == cx + y && b == cy - x)
    ||| (a == cx + x && b == cy - y)
}

/// Pixels of the filled circle: the spans of every drawn step.
pub open spec fn in_filled_circle(cx: int, cy: int, r: int, a: int, b: int) -> bool {
    exists|k: nat| #[trigger] circle_step(r, k) && circle_spans(cx, cy, k as int, circle_y(r, k), a, b)
}

/// Pixels of the hollow circle: the eight points of every drawn step.
pub open spec fn on_hollow_circle(cx: int, cy: int, r: int, a: int, b: int) -> bool {
    exists|k: nat| #[trigger] circle_step(r, k) && circle_octants(cx, cy, k as int, circle_y(r, k), a, b)
}

proof fn lemma_circle_y_bounds(r: int, k: nat)
    requires
        r >= 0,
    ensures
        r - k <= circle_y(r, k) <= r,
    decreases k,
{
    if k > 0 {
        lemma_circle_y_bounds(r, (k - 1) as nat);
    }
}

/// Once a step leaves the first octant, every later step does too.
proof fn lemma_circle_stops(r: int, k: nat, m: nat)
    requires
        !circle_step(r, k),
        k <= m,
    ensures
        !circle_step(r, m),
    decreases m - k,
{
    if k < m {
        assert(circle_y(r, (k + 1) as nat) <= circle_y(r, k));
        lemma_circle_stops(r, (k + 1) as nat, m);
    }
}

/// Pixels of a filled rectangle whose corners are rounded with `radius`.
pub open spec fn in_rounded_rect(rect: Rect, radius: int, a: int, b: int) -> bool {
    in_rounded_area(rect.spec_left(), rect.spec_top(), rect.spec_width(), rect.spec_height(), radius, a, b)
}

/// Pixels of the rounded rectangle at `(l, t)` of size `w` by `h`.
pub open spec fn in_rounded_area(l: int, t: int, w: int, h: int, radius: int, a: int, b: int) -> bool {
    let (r, bt) = (l + w, t + h);
    ||| in_filled_circle(l + radius, t + radius, radius, a, b)
    ||| in_filled_circle(l + radius, bt - radius, radius, a, b)
    ||| in_filled_circle(r - radius, t + radius, radius, a, b)
    ||| in_filled_circle(r - radius, bt - radius, radius, a, b)
    ||| (l <= a < r && t + radius <= b < bt - radius)
    ||| (l + radius <= a < r - radius && t <= b < bt)
}

/// Pixels of the four lines that outline `rect`.
pub open spec fn on_rect_outline(rect: Rect, a: int, b: int) -> bool {
    let (l, t) = (rect.spec_left(), rect.spec_top());
    let (r, bt) = (l + rect.spec_width(), t + rect.spec_height());
    ||| on_line(l, t, r, t, a, b)
    ||| on_line(l, bt, r, bt, a, b)
    ||| on_line(l, t, l, bt, a, b)
    ||| on_line(r, t, r, bt, a, b)
}

/// Pixels of a plus sign centred on `(x, y)`.
pub open spec fn on_cross(x: int, y: int, a: int, b: int) -> bool {
    (a == x && y - 1 <= b <= y + 1) || (b == y && x - 1 <= a <= x + 1)
}

impl Canvas {
    /// Paints the pixels `x0 <= x <= x1` of row `y` that lie on the canvas.
    pub fn fill_span(&mut self, x0: i64, x1: i64, y: i64, color: Color)
        requires
            old(self).wf(),
        ensures
            Canvas::painted(*old(self), *final(self), |a: int, b: int| in_span(x0 as int, x1 as int, y as int, a, b), color),
    {
        let ghost c0 = *self;
        proof {
            lemma_painted_nothing(c0, color);
        }
        if y < 0 || y >= self.height as i64 || x1 < 0 || x0 >= self.width as i64 || x0 > x1 {
            proof {
                lemma_painted_same_region(c0, *self, |a: int, b: int| false, |a: int, b: int| in_span(x0 as int, x1 as int, y as int, a, b), color);
            }
            return;
        }
        let start: i64 = if x0 < 0 {
            0
        } else {
            x0
        };
        let end: i64 = if x1 >= self.width as i64 {
            self.width as i64 - 1
        } else {
            x1
        };
        let mut x: i64 = start;
        while x <= end
            invariant
                0 <= start <= x <= end + 1,
                end < self.width,
                0 <= y < self.height,
                self.width == c0.width,
                self.height == c0.height,
                Canvas::painted(c0, *self, |a: int, b: int| in_span(start as int, (x - 1) as int, y as int, a, b), color),
            decreases end + 1 - x,
        {
            let ghost c1 = *self;
            self.draw_pixel(x as u32, y as u32, color);
            proof {
                lemma_painted_union(c0, c1, *self, |a: int, b: int| in_span(start as int, (x - 1) as int, y as int, a, b),
                    |a: int, b: int| a == x && b == y, color);
                lemma_painted_same_region(c0, *self, |a: int, b: int| in_span(start as int, (x - 1) as int, y as int, a, b) || (a == x && b == y),
                    |a: int, b: int| in_span(start as int, x as int, y as int, a, b), color);
            }
            x = x + 1;
        }
        proof {
            lemma_painted_same_region(c0, *self, |a: int, b: int| in_span(start as int, (x - 1) as int, y as int, a, b),
                |a: int, b: int| in_span(x0 as int, x1 as int, y as int, a, b), color);
        }
    }

    /// Paints the on-canvas pixels of `[left, right) x [top, bottom)`. Only
    /// rows and columns inside the canvas are visited.
    fn fill_area(&mut self, left: i64, top: i64, right: i64, bottom: i64, color: Color)
        requires
            old(self).wf(),
            -0x4_0000_0000 <= left <= 0x4_0000_0000,
            -0x4_0000_0000 <= right <= 0x4_0000_0000,
            -0x4_0000_0000 <= top <= 0x4_0000_0000,
            -0x4_0000_0000 <= bottom <= 0x4_0000_0000,
        ensures
            Canvas::painted(*old(self), *final(self), |x: int, y: int| in_area(left as int, top as int, right as int, bottom as int, x, y), color),
    {
        let ghost c0 = *self;
        proof {
            lemma_painted_nothing(c0, color);
        }
        let mut y: i64 = if top < 0 {
            0
        } else {
            top
        };
        let y_end: i64 = if bottom > self.height as i64 {
            self.height as i64
        } else {
            bottom
        };
        proof {
            lemma_painted_same_region(c0, *self, |a: int, b: int| false,
                |a: int, b: int| in_area(left as int, top as int, right as int, bottom as int, a, b) && b < y, color);
        }
        while y < y_end
            invariant
                0 <= y,
                y_end <= self.height,
                self.width == c0.width,
                self.height == c0.height,
                top <= y,
                y_end <= bottom,
                -0x4_0000_0000 <= left <= 0x4_0000_0000,
                -0x4_0000_0000 <= right <= 0x4_0000_0000,
                Canvas::painted(c0, *self, |a: int, b: int| in_area(left as int, top as int, right as int, bottom as int, a, b) && b < y, color),
            decreases y_end - y,
        {
            let ghost c1 = *self;
            self.fill_span(left, right - 1, y, color);
            proof {
                lemma_painted_union(c0, c1, *self, |a: int, b: int| in_area(left as int, top as int, right as int, bottom as int, a, b) && b < y,
                    |a: int, b: int| in_span(left as int, (right - 1) as int, y as int, a, b), color);
                lemma_painted_same_region(c0, *self,
                    |a: int, b: int| (in_area(left as int, top as int, right as int, bottom as int, a, b) && b < y) || in_span(left as int, (right - 1) as int, y as int, a, b),
                    |a: int, b: int| in_area(left as int, top as int, right as int, bottom as int, a, b) && b < y + 1, color);
            }
            y = y + 1;
        }
        proof {
            lemma_painted_same_region(c0, *self, |a: int, b: int| in_area(left as int, top as int, right as int, bottom as int, a, b) && b < y,
                |a: int, b: int| in_area(left as int, top as int, right as int, bottom as int, a, b), color);
        }
    }

    /// Paints every on-canvas pixel of `rect`. Only rows and columns inside
    /// the canvas are visited, whatever the rectangle's position and size.
    pub fn draw_filled_rect_mut(&mut self, rect: Rect, color: Color)
        requires
            old(self).wf(),
        ensures
            Canvas::painted(*old(self), *final(self), |x: int, y: int| rect.contains(x, y), color),
            final(self).pixels@.len() == old(self).pixels@.len(),
            forall|x: int, y: int|
                #![trigger final(self).at(x, y)]
                final(self).in_bounds(x, y) && !rect.contains(x, y) ==> final(self).at(x, y) == old(self).at(x, y),
    {
        let ghost c0 = *self;
        let left = rect.left() as i64;
        let top = rect.top() as i64;
        let right = rect.right();
        let bottom = rect.bottom();
        proof {
            rect.lemma_bounds();
        }
        self.fill_area(left, top, right, bottom, color);
        proof {
            lemma_painted_same_region(c0, *self, |a: int, b: int| in_area(left as int, top as int, right as int, bottom as int, a, b),
                |a: int, b: int| rect.contains(a, b), color);
        }
    }

    /// Paints the on-canvas pixels of the Bresenham line from `start` to `end`,
    /// both endpoints included.
    pub fn draw_line_segment_mut(&mut self, start: (i32, i32), end: (i32, i32), color: Color)
        requires
            old(self).wf(),
        ensures
            Canvas::painted(*old(self), *final(self), |x: int, y: int| on_line(start.0 as int, start.1 as int, end.0 as int, end.1 as int, x, y), color),
    {
        self.line((start.0 as i64, start.1 as i64), (end.0 as i64, end.1 as i64), color);
    }

    fn line(&mut self, start: (i64, i64), end: (i64, i64), color: Color)
        requires
            old(self).wf(),
            -0x4_0000_0000 <= start.0 <= 0x4_0000_0000,
            -0x4_0000_0000 <= start.1 <= 0x4_0000_0000,
            -0x4_0000_0000 <= end.0 <= 0x4_0000_0000,
            -0x4_0000_0000 <= end.1 <= 0x4_0000_0000,
        ensures
            Canvas::painted(*old(self), *final(self), |x: int, y: int| on_line(start.0 as int, start.1 as int, end.0 as int, end.1 as int, x, y), color),
    {
        let ghost c0 = *self;
        let ghost pts = line_points(start.0 as int, start.1 as int, end.0 as int, end.1 as int);
        let x0 = start.0;
        let y0 = start.1;
        let x1 = end.0;
        let y1 = end.1;
        let adx = if x1 >= x0 { x1 - x0 } else { x0 - x1 };
        let ady = if y1 >= y0 { y1 - y0 } else { y0 - y1 };
        let steep = ady > adx;
        let (p0, q0, p1, q1) = if steep { (y0, x0, y1, x1) } else { (x0, y0, x1, y1) };
        let (a0, b0, a1, b1) = if p0 > p1 { (p1, q1, p0, q0) } else { (p0, q0, p1, q1) };
        let dx = a1 - a0;
        let dy = if b1 >= b0 { b1 - b0 } else { b0 - b1 };
        let b_step: i64 = if b0 < b1 { 1 } else { -1 };
        assert(driving_ends(start.0 as int, start.1 as int, end.0 as int, end.1 as int) == (a0 as int, b0 as int, a1 as int, b1 as int));
        assert(steep == is_steep(start.0 as int, start.1 as int, end.0 as int, end.1 as int));
        let mut i: i64 = 0;
        let mut b: i64 = b0;
        let mut err: i64 = dx;
        let ghost mut j: int = 0;
        proof {
            lemma_painted_nothing(c0, color);
            lemma_painted_same_region(c0, *self, |x: int, y: int| false, |x: int, y: int| exists|k: int| 0 <= k < i && pts[k] == (x, y), color);
            assert(dx + 2 * 0 * dx - 2 * 0 * dy == dx) by (nonlinear_arith);
            if dx > 0 {
                assert(0 <= dx + 2 * 0 * dx - 2 * 0 * dy < 2 * dx) by (nonlinear_arith)
                    requires
                        dx > 0,
                ;
                lemma_line_offset(0, dx as int, dy as int, 0);
            }
        }
        while i <= dx
            invariant
                0 <= dy <= dx,
                dx <= 0x8_0000_0000,
                -0x4_0000_0000 <= a0 <= 0x4_0000_0000,
                -0x4_0000_0000 <= b0 <= 0x4_0000_0000,
                dx == a1 - a0,
                pts.len() == dx + 1,
                b_step == 1 || b_step == -1,
                forall|k: int| 0 <= k <= dx ==> #[trigger] pts[k] == (if steep {
                    (b0 + b_step * line_offset(k, dx as int, dy as int), a0 + k)
                } else {
                    (a0 + k, b0 + b_step * line_offset(k, dx as int, dy as int))
                }),
                0 <= i <= dx + 1,
                0 <= j <= i,
                b_step == 1 ==> b == b0 + j,
                b_step == -1 ==> b == b0 - j,
                i <= dx ==> j == line_offset(i as int, dx as int, dy as int),
                err == dx + 2 * j * dx - 2 * i * dy,
                dx > 0 ==> 0 <= err < 2 * dx,
                dx == 0 ==> err == 0 && j == 0,
                self.width == c0.width,
                self.height == c0.height,
                Canvas::painted(c0, *self, |x: int, y: int| exists|k: int| 0 <= k < i && pts[k] == (x, y), color),
            decreases dx + 1 - i,
        {
            let a = a0 + i;
            let ghost c1 = *self;
            if steep {
                self.draw_if_in_bounds(b, a, color);
            } else {
                self.draw_if_in_bounds(a, b, color);
            }
            proof {
                assert(pts[i as int] == (if steep { (b as int, a as int) } else { (a as int, b as int) }));
                lemma_painted_union(c0, c1, *self, |x: int, y: int| exists|k: int| 0 <= k < i && pts[k] == (x, y),
                    |x: int, y: int| (if steep { x == b && y == a } else { x == a && y == b }), color);
                assert forall|x: int, y: int| #![trigger pts.contains((x, y))] self.in_bounds(x, y) implies
                    ((exists|k: int| 0 <= k < i && pts[k] == (x, y)) || (if steep { x == b && y == a } else { x == a && y == b }))
                    == (exists|k: int| 0 <= k < i + 1 && pts[k] == (x, y)) by {
                    if exists|k: int| 0 <= k < i + 1 && pts[k] == (x, y) {
                        let k = choose|k: int| 0 <= k < i + 1 && pts[k] == (x, y);
                        if k < i {
                        } else {
                        }
                    }
                }
                lemma_painted_same_region(c0, *self,
                    |x: int, y: int| (exists|k: int| 0 <= k < i && pts[k] == (x, y)) || (if steep { x == b && y == a } else { x == a && y == b }),
                    |x: int, y: int| exists|k: int| 0 <= k < i + 1 && pts[k] == (x, y), color);
            }
            let ghost (pi, pj, perr) = (i as int, j, err as int);
            i = i + 1;
            err = err - 2 * dy;
            if err < 0 {
                b = b + b_step;
                err = err + 2 * dx;
                proof {
                    j = j + 1;
                }
            }
            proof {
                assert(err == dx + 2 * j * dx - 2 * i * dy) by (nonlinear_arith)
                    requires
                        perr == dx + 2 * pj * dx - 2 * pi * dy,
                        i == pi + 1,
                        (j == pj && err == perr - 2 * dy) || (j == pj + 1 && err == perr - 2 * dy + 2 * dx),
                ;
                if i <= dx && dx > 0 {
                    lemma_line_offset(i as int, dx as int, dy as int, j);
                }
            }
        }
        proof {
            lemma_painted_same_region(c0, *self, |x: int, y: int| exists|k: int| 0 <= k < i && pts[k] == (x, y),
                |x: int, y: int| on_line(start.0 as int, start.1 as int, end.0 as int, end.1 as int, x, y), color);
        }
    }

    /// Paints the on-canvas pixels of a filled midpoint circle. A negative
    /// radius paints nothing.
    pub fn draw_filled_circle_mut(&mut self, center: (i32, i32), radius: i32, color: Color)
        requires
            old(self).wf(),
        ensures
            Canvas::painted(*old(self), *final(self), |a: int, b: int| in_filled_circle(center.0 as int, center.1 as int, radius as int, a, b), color),
    {
        self.fill_circle(center.0 as i64, center.1 as i64, radius, color);
    }

    fn fill_circle(&mut self, x0: i64, y0: i64, radius: i32, color: Color)
        requires
            old(self).wf(),
            -0x4_0000_0000 <= x0 <= 0x4_0000_0000,
            -0x4_0000_0000 <= y0 <= 0x4_0000_0000,
        ensures
            Canvas::painted(*old(self), *final(self), |a: int, b: int| in_filled_circle(x0 as int, y0 as int, radius as int, a, b), color),
    {
        let ghost c0 = *self;
        let ghost (cx, cy, r) = (x0 as int, y0 as int, radius as int);
        let mut x: i64 = 0;
        let mut y: i64 = radius as i64;
        let mut p: i128 = 1 - radius as i128;
        proof {
            lemma_painted_nothing(c0, color);
            lemma_painted_same_region(c0, *self, |a: int, b: int| false,
                |a: int, b: int| exists|k: nat| k < x && #[trigger] circle_step(r, k) && circle_spans(cx, cy, k as int, circle_y(r, k), a, b), color);
        }
        while x <= y
            invariant
                x0 == cx,
                y0 == cy,
                -0x4_0000_0000 <= cx <= 0x4_0000_0000,
                -0x4_0000_0000 <= cy <= 0x4_0000_0000,
                r == radius,
                0 <= x,
                x <= y + 2 || (x == 0 && r < 0),
                r >= 0 ==> -1 <= y,
                y <= r,
                y == circle_y(r, x as nat),
                -0x10_0000_0000_0000_0000 <= p <= 0x10_0000_0000_0000_0000,
                p == (x + 1) * (x + 1) + y * y - y - r * r,
                self.width == c0.width,
                self.height == c0.height,
                Canvas::painted(c0, *self, |a: int, b: int| exists|k: nat| k < x && #[trigger] circle_step(r, k) && circle_spans(cx, cy, k as int, circle_y(r, k), a, b), color),
            decreases y - x + 2,
        {
            let ghost c1 = *self;
            self.fill_span(x0 - x, x0 + x, y0 + y, color);
            let ghost c2 = *self;
            self.fill_span(x0 - y, x0 + y, y0 + x, color);
            let ghost c3 = *self;
            self.fill_span(x0 - x, x0 + x, y0 - y, color);
            let ghost c4 = *self;
            self.fill_span(x0 - y, x0 + y, y0 - x, color);
            proof {
                let r0 = |a: int, b: int| exists|k: nat| k < x && #[trigger] circle_step(r, k) && circle_spans(cx, cy, k as int, circle_y(r, k), a, b);
                let s1 = |a: int, b: int| in_span(cx - x, cx + x, cy + y, a, b);
                let s2 = |a: int, b: int| in_span(cx - y, cx + y, cy + x, a, b);
                let s3 = |a: int, b: int| in_span(cx - x, cx + x, cy - y, a, b);
                let s4 = |a: int, b: int| in_span(cx - y, cx + y, cy - x, a, b);
                lemma_painted_union(c0, c1, c2, r0, s1, color);
                lemma_painted_union(c0, c2, c3, |a: int, b: int| r0(a, b) || s1(a, b), s2, color);
                lemma_painted_union(c0, c3, c4, |a: int, b: int| (r0(a, b) || s1(a, b)) || s2(a, b), s3, color);
                lemma_painted_union(c0, c4, *self, |a: int, b: int| ((r0(a, b) || s1(a, b)) || s2(a, b)) || s3(a, b), s4, color);
                assert forall|a: int, b: int| #![trigger self.in_bounds(a, b)] self.in_bounds(a, b) implies
                    ((((r0(a, b) || s1(a, b)) || s2(a, b)) || s3(a, b)) || s4(a, b))
                    == (exists|k: nat| k < x + 1 && #[trigger] circle_step(r, k) && circle_spans(cx, cy, k as int, circle_y(r, k), a, b)) by {
                    assert(circle_step(r, x as nat));
                    if exists|k: nat| k < x + 1 && #[trigger] circle_step(r, k) && circle_spans(cx, cy, k as int, circle_y(r, k), a, b) {
                        let k = choose|k: nat| k < x + 1 && #[trigger] circle_step(r, k) && circle_spans(cx, cy, k as int, circle_y(r, k), a, b);
                        if k < x {
                            assert(r0(a, b));
                        }
                    }
                }
                lemma_painted_same_region(c0, *self, |a: int, b: int| ((((r0(a, b) || s1(a, b)) || s2(a, b)) || s3(a, b)) || s4(a, b)),
                    |a: int, b: int| exists|k: nat| k < x + 1 && #[trigger] circle_step(r, k) && circle_spans(cx, cy, k as int, circle_y(r, k), a, b), color);
            }
            let ghost (px, py, pp) = (x as int, y as int, p as int);
            x = x + 1;
            if p < 0 {
                p = p + 2 * x as i128 + 1;
            } else {
                y = y - 1;
                p = p + 2 * (x as i128 - y as i128) + 1;
            }
            proof {
                assert(p == (x + 1) * (x + 1) + y * y - y - r * r) by (nonlinear_arith)
                    requires
                        pp == (px + 1) * (px + 1) + py * py - py - r * r,
                        x == px + 1,
                        (pp < 0 && y == py && p == pp + 2 * x + 1) || (pp >= 0 && y == py - 1 && p == pp + 2 * (x - y) + 1),
                ;
                assert(pp == x * x + py * py - py - r * r) by (nonlinear_arith)
                    requires
                        pp == (px + 1) * (px + 1) + py * py - py - r * r,
                        x == px + 1,
                ;
                lemma_circle_y_bounds(r, x as nat);
                assert(-0x10_0000_0000_0000_0000 <= p <= 0x10_0000_0000_0000_0000) by (nonlinear_arith)
                    requires
                        p == (x + 1) * (x + 1) + y * y - y - r * r,
                        0 <= x <= 0x1_0000_0000,
                        -2 <= y <= 0x1_0000_0000,
                        0 <= r <= 0x1_0000_0000,
                ;
            }
        }
        proof {
            assert forall|a: int, b: int| #![trigger self.in_bounds(a, b)] self.in_bounds(a, b) implies
                (exists|k: nat| k < x && #[trigger] circle_step(r, k) && circle_spans(cx, cy, k as int, circle_y(r, k), a, b))
                == in_filled_circle(cx, cy, r, a, b) by {
                if in_filled_circle(cx, cy, r, a, b) {
                    let k = choose|k: nat| #[trigger] circle_step(r, k) && circle_spans(cx, cy, k as int, circle_y(r, k), a, b);
                    if k >= x {
                        lemma_circle_stops(r, x as nat, k);
                    }
                }
            }
            lemma_painted_same_region(c0, *self, |a: int, b: int| exists|k: nat| k < x && #[trigger] circle_step(r, k) && circle_spans(cx, cy, k as int, circle_y(r, k), a, b),
                |a: int, b: int| in_filled_circle(cx, cy, r, a, b), color);
        }
    }

    /// Paints the eight points symmetric to `(x, y)` around `(cx, cy)`.
    fn draw_octants(&mut self, cx: i64, cy: i64, x: i64, y: i64, color: Color)
        requires
            old(self).wf(),
            -0x1_0000_0000 <= cx <= 0x1_0000_0000,
            -0x1_0000_0000 <= cy <= 0x1_0000_0000,
            -0x1_0000_0000 <= x <= 0x1_0000_0000,
            -0x1_0000_0000 <= y <= 0x1_0000_0000,
        ensures
            Canvas::painted(*old(self), *final(self), |a: int, b: int| circle_octants(cx as int, cy as int, x as int, y as int, a, b), color),
    {
        let ghost c0 = *self;
        self.draw_if_in_bounds(cx + x, cy + y, color);
        let ghost c1 = *self;
        self.draw_if_in_bounds(cx + y, cy + x, color);
        let ghost c2 = *self;
        self.draw_if_in_bounds(cx - y, cy + x, color);
        let ghost c3 = *self;
        self.draw_if_in_bounds(cx - x, cy + y, color);
        let ghost c4 = *self;
        self.draw_if_in_bounds(cx - x, cy - y, color);
        let ghost c5 = *self;
        self.draw_if_in_bounds(cx - y, cy - x, color);
        let ghost c6 = *self;
        self.draw_if_in_bounds(cx + y, cy - x, color);
        let ghost c7 = *self;
        self.draw_if_in_bounds(cx + x, cy - y, color);
        proof {
            let q1 = |a: int, b: int| a == cx + x && b == cy + y;
            let q2 = |a: int, b: int| a == cx + y && b == cy + x;
            let q3 = |a: int, b: int| a == cx - y && b == cy + x;
            let q4 = |a: int, b: int| a == cx - x && b == cy + y;
            let q5 = |a: int, b: int| a == cx - x && b == cy - y;
            let q6 = |a: int, b: int| a == cx - y && b == cy - x;
            let q7 = |a: int, b: int| a == cx + y && b == cy - x;
            let q8 = |a: int, b: int| a == cx + x && b == cy - y;
            lemma_painted_union(c0, c1, c2, q1, q2, color);
            let u2 = |a: int, b: int| q1(a, b) || q2(a, b);
            lemma_painted_union(c0, c2, c3, u2, q3, color);
            let u3 = |a: int, b: int| u2(a, b) || q3(a, b);
            lemma_painted_union(c0, c3, c4, u3, q4, color);
            let u4 = |a: int, b: int| u3(a, b) || q4(a, b);
            lemma_painted_union(c0, c4, c5, u4, q5, color);
            let u5 = |a: int, b: int| u4(a, b) || q5(a, b);
            lemma_painted_union(c0, c5, c6, u5, q6, color);
            let u6 = |a: int, b: int| u5(a, b) || q6(a, b);
            lemma_painted_union(c0, c6, c7, u6, q7, color);
            let u7 = |a: int, b: int| u6(a, b) || q7(a, b);
            lemma_painted_union(c0, c7, *self, u7, q8, color);
            lemma_painted_same_region(c0, *self, |a: int, b: int| u7(a, b) || q8(a, b),
                |a: int, b: int| circle_octants(cx as int, cy as int, x as int, y as int, a, b), color);
        }
    }

    /// Paints the on-canvas pixels of a hollow midpoint circle. A negative
    /// radius paints nothing.
    pub fn draw_hollow_circle_mut(&mut self, center: (i32, i32), radius: i32, color: Color)
        requires
            old(self).wf(),
        ensures
            Canvas::painted(*old(self), *final(self), |a: int, b: int| on_hollow_circle(center.0 as int, center.1 as int, radius as int, a, b), color),
    {
        let ghost c0 = *self;
        let ghost (cx, cy, r) = (center.0 as int, center.1 as int, radius as int);
        let x0 = center.0 as i64;
        let y0 = center.1 as i64;
        let mut x: i64 = 0;
        let mut y: i64 = radius as i64;
        let mut p: i128 = 1 - radius as i128;
        proof {
            lemma_painted_nothing(c0, color);
            lemma_painted_same_region(c0, *self, |a: int, b: int| false,
                |a: int, b: int| exists|k: nat| k < x && #[trigger] circle_step(r, k) && circle_octants(cx, cy, k as int, circle_y(r, k), a, b), color);
        }
        while x <= y
            invariant
                x0 == cx,
                y0 == cy,
                i32::MIN <= cx <= i32::MAX,
                i32::MIN <= cy <= i32::MAX,
                r == radius,
                0 <= x,
                x <= y + 2 || (x == 0 && r < 0),
                r >= 0 ==> -1 <= y,
                y <= r,
                y == circle_y(r, x as nat),
                -0x10_0000_0000_0000_0000 <= p <= 0x10_0000_0000_0000_0000,
                p == (x + 1) * (x + 1) + y * y - y - r * r,
                self.width == c0.width,
                self.height == c0.height,
                Canvas::painted(c0, *self, |a: int, b: int| exists|k: nat| k < x && #[trigger] circle_step(r, k) && circle_octants(cx, cy, k as int, circle_y(r, k), a, b), color),
            decreases y - x + 2,
        {
            let ghost c1 = *self;
            self.draw_octants(x0, y0, x, y, color);
            proof {
                let r0 = |a: int, b: int| exists|k: nat| k < x && #[trigger] circle_step(r, k) && circle_octants(cx, cy, k as int, circle_y(r, k), a, b);
                let s1 = |a: int, b: int| circle_octants(cx, cy, x as int, y as int, a, b);
                lemma_painted_union(c0, c1, *self, r0, s1, color);
                assert forall|a: int, b: int| #![trigger self.in_bounds(a, b)] self.in_bounds(a, b) implies
                    (r0(a, b) || s1(a, b))
                    == (exists|k: nat| k < x + 1 && #[trigger] circle_step(r, k) && circle_octants(cx, cy, k as int, circle_y(r, k), a, b)) by {
                    assert(circle_step(r, x as nat));
                    if exists|k: nat| k < x + 1 && #[trigger] circle_step(r, k) && circle_octants(cx, cy, k as int, circle_y(r, k), a, b) {
                        let k = choose|k: nat| k < x + 1 && #[trigger] circle_step(r, k) && circle_octants(cx, cy, k as int, circle_y(r, k), a, b);
                        if k < x {
                            assert(r0(a, b));
                        }
                    }
                }
                lemma_painted_same_region(c0, *self, |a: int, b: int| r0(a, b) || s1(a, b),
                    |a: int, b: int| exists|k: nat| k < x + 1 && #[trigger] circle_step(r, k) && circle_octants(cx, cy, k as int, circle_y(r, k), a, b), color);
            }
            let ghost (px, py, pp) = (x as int, y as int, p as int);
            x = x + 1;
            if p < 0 {
                p = p + 2 * x as i128 + 1;
            } else {
                y = y - 1;
                p = p + 2 * (x as i128 - y as i128) + 1;
            }
            proof {
                assert(p == (x + 1) * (x + 1) + y * y - y - r * r) by (nonlinear_arith)
                    requires
                        pp == (px + 1) * (px + 1) + py * py - py - r * r,
                        x == px + 1,
                        (pp < 0 && y == py && p == pp + 2 * x + 1) || (pp >= 0 && y == py - 1 && p == pp + 2 * (x - y) + 1),
                ;
                assert(pp == x * x + py * py - py - r * r) by (nonlinear_arith)
                    requires
                        pp == (px + 1) * (px + 1) + py * py - py - r * r,
                        x == px + 1,
                ;
                lemma_circle_y_bounds(r, x as nat);
                assert(-0x10_0000_0000_0000_0000 <= p <= 0x10_0000_0000_0000_0000) by (nonlinear_arith)
                    requires
                        p == (x + 1) * (x + 1) + y * y - y - r * r,
                        0 <= x <= 0x1_0000_0000,
                        -2 <= y <= 0x1_0000_0000,
                        0 <= r <= 0x1_0000_0000,
                ;
            }
        }
        proof {
            assert forall|a: int, b: int| #![trigger self.in_bounds(a, b)] self.in_bounds(a, b) implies
                (exists|k: nat| k < x && #[trigger] circle_step(r, k) && circle_octants(cx, cy, k as int, circle_y(r, k), a, b))
                == on_hollow_circle(cx, cy, r, a, b) by {
                if on_hollow_circle(cx, cy, r, a, b) {
                    let k = choose|k: nat| #[trigger] circle_step(r, k) && circle_octants(cx, cy, k as int, circle_y(r, k), a, b);
                    if k >= x {
                        lemma_circle_stops(r, x as nat, k);
                    }
                }
            }
            lemma_painted_same_region(c0, *self, |a: int, b: int| exists|k: nat| k < x && #[trigger] circle_step(r, k) && circle_octants(cx, cy, k as int, circle_y(r, k), a, b),
                |a: int, b: int| on_hollow_circle(cx, cy, r, a, b), color);
        }
    }

    /// Paints a filled rectangle with rounded corners: a filled circle of
    /// `radius` inside each corner, the full-width band between the top and
    /// bottom caps, and the full-height band between the left and right caps.
    pub fn draw_filled_rounded_rect_mut(&mut self, rect: Rect, radius: i32, color: Color)
        requires
            old(self).wf(),
            0 <= radius,
            2 * radius <= rect.spec_width(),
            2 * radius <= rect.spec_height(),
        ensures
            Canvas::painted(*old(self), *final(self), |a: int, b: int| in_rounded_rect(rect, radius as int, a, b), color),
    {
        let ghost c0 = *self;
        let left = rect.left();
        let top = rect.top();
        let right = rect.right();
        let bottom = rect.bottom();
        proof {
            rect.lemma_bounds();
        }
        let inner_left = left as i64 + radius as i64;
        let inner_top = top as i64 + radius as i64;
        let inner_right = right - radius as i64;
        let inner_bottom = bottom - radius as i64;
        self.fill_circle(inner_left, inner_top, radius, color);
        let ghost c1 = *self;
        self.fill_circle(inner_left, inner_bottom, radius, color);
        let ghost c2 = *self;
        self.fill_circle(inner_right, inner_top, radius, color);
        let ghost c3 = *self;
        self.fill_circle(inner_right, inner_bottom, radius, color);
        let ghost c4 = *self;
        self.fill_area(left as i64, inner_top, right, inner_bottom, color);
        let ghost c5 = *self;
        self.fill_area(inner_left, top as i64, inner_right, bottom, color);
        proof {
            let q1 = |a: int, b: int| in_filled_circle(inner_left as int, inner_top as int, radius as int, a, b);
            let q2 = |a: int, b: int| in_filled_circle(inner_left as int, inner_bottom as int, radius as int, a, b);
            let q3 = |a: int, b: int| in_filled_circle(inner_right as int, inner_top as int, radius as int, a, b);
            let q4 = |a: int, b: int| in_filled_circle(inner_right as int, inner_bottom as int, radius as int, a, b);
            let q5 = |a: int, b: int| in_area(left as int, inner_top as int, right as int, inner_bottom as int, a, b);
            let q6 = |a: int, b: int| in_area(inner_left as int, top as int, inner_right as int, bottom as int, a, b);
            lemma_painted_union(c0, c1, c2, q1, q2, color);
            let u2 = |a: int, b: int| q1(a, b) || q2(a, b);
            lemma_painted_union(c0, c2, c3, u2, q3, color);
            let u3 = |a: int, b: int| u2(a, b) || q3(a, b);
            lemma_painted_union(c0, c3, c4, u3, q4, color);
            let u4 = |a: int, b: int| u3(a, b) || q4(a, b);
            lemma_painted_union(c0, c4, c5, u4, q5, color);
            let u5 = |a: int, b: int| u4(a, b) || q5(a, b);
            lemma_painted_union(c0, c5, *self, u5, q6, color);
            lemma_painted_same_region(c0, *self, |a: int, b: int| u5(a, b) || q6(a, b),
                |a: int, b: int| in_rounded_rect(rect, radius as int, a, b), color);
        }
    }

    /// Outlines `rect` with four lines joining its corners `(left, top)`,
    /// `(right, top)`, `(left, bottom)` and `(right, bottom)`.
    pub fn draw_hollow_rect_mut(&mut self, rect: Rect, color: Color)
        requires
            old(self).wf(),
        ensures
            Canvas::painted(*old(self), *final(self), |a: int, b: int| on_rect_outline(rect, a, b), color),
    {
        let ghost c0 = *self;
        let left = rect.left() as i64;
        let top = rect.top() as i64;
        let right = rect.right();
        let bottom = rect.bottom();
        proof {
            rect.lemma_bounds();
        }
        self.line((left, top), (right, top), color);
        let ghost c1 = *self;
        self.line((left, bottom), (right, bottom), color);
        let ghost c2 = *self;
        self.line((left, top), (left, bottom), color);
        let ghost c3 = *self;
        self.line((right, top), (right, bottom), color);
        proof {
            let q1 = |a: int, b: int| on_line(left as int, top as int, right as int, top as int, a, b);
            let q2 = |a: int, b: int| on_line(left as int, bottom as int, right as int, bottom as int, a, b);
            let q3 = |a: int, b: int| on_line(left as int, top as int, left as int, bottom as int, a, b);
            let q4 = |a: int, b: int| on_line(right as int, top as int, right as int, bottom as int, a, b);
            lemma_painted_union(c0, c1, c2, q1, q2, color);
            lemma_painted_union(c0, c2, c3, |a: int, b: int| q1(a, b) || q2(a, b), q3, color);
            lemma_painted_union(c0, c3, *self, |a: int, b: int| (q1(a, b) || q2(a, b)) || q3(a, b), q4, color);
            lemma_painted_same_region(c0, *self, |a: int, b: int| ((q1(a, b) || q2(a, b)) || q3(a, b)) || q4(a, b),
                |a: int, b: int| on_rect_outline(rect, a, b), color);
        }
    }

    /// Paints a plus sign: `(x, y)` and its four direct neighbours.
    pub fn draw_cross_mut(&mut self, color: Color, x: i32, y: i32)
        requires
            old(self).wf(),
        ensures
            Canvas::painted(*old(self), *final(self), |a: int, b: int| on_cross(x as int, y as int, a, b), color),
    {
        let ghost c0 = *self;
        let (cx, cy) = (x as i64, y as i64);
        self.draw_if_in_bounds(cx, cy - 1, color);
        let ghost c1 = *self;
        self.draw_if_in_bounds(cx - 1, cy, color);
        let ghost c2 = *self;
        self.draw_if_in_bounds(cx, cy, color);
        let ghost c3 = *self;
        self.draw_if_in_bounds(cx + 1, cy, color);
        let ghost c4 = *self;
        self.draw_if_in_bounds(cx, cy + 1, color);
        proof {
            let q1 = |a: int, b: int| a == cx && b == cy - 1;
            let q2 = |a: int, b: int| a == cx - 1 && b == cy;
            let q3 = |a: int, b: int| a == cx && b == cy;
            let q4 = |a: int, b: int| a == cx + 1 && b == cy;
            let q5 = |a: int, b: int| a == cx && b == cy + 1;
            lemma_painted_union(c0, c1, c2, q1, q2, color);
            lemma_painted_union(c0, c2, c3, |a: int, b: int| q1(a, b) || q2(a, b), q3, color);
            lemma_painted_union(c0, c3, c4, |a: int, b: int| (q1(a, b) || q2(a, b)) || q3(a, b), q4, color);
            lemma_painted_union(c0, c4, *self, |a: int, b: int| ((q1(a, b) || q2(a, b)) || q3(a, b)) || q4(a, b), q5, color);
            lemma_painted_same_region(c0, *self, |a: int, b: int| (((q1(a, b) || q2(a, b)) || q3(a, b)) || q4(a, b)) || q5(a, b),
                |a: int, b: int| on_cross(x as int, y as int, a, b), color);
        }
    }
}

} // verus!
