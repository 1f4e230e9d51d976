//! Stepping through the pixels of a Bresenham line one at a time.
use vstd::prelude::*;
use crate::raster::{driving_ends, is_steep, line_offset, line_points};

verus! {

/// Yields the pixels of a Bresenham line in order along its driving axis;
/// the same pixels `Canvas::draw_line_segment_mut` paints.
pub struct BresenhamLineIter {
    dx: i64,
    dy: i64,
    x: i64,
    y: i64,
    error: i64,
    end_x: i64,
    is_steep: bool,
    y_step: i64,
    points: Ghost<Seq<(int, int)>>,
    a0: Ghost<int>,
    b0: Ghost<int>,
    steps: Ghost<int>,
}

proof fn lemma_offset_step(i: int, dx: int, dy: int, j: int)
    requires
        dx > 0,
        0 <= dx + 2 * j * dx - 2 * i * dy < 2 * dx,
    ensures
        line_offset(i, dx, dy) == j,
{
    let n = 2 * i * dy + dx - 1;
    let r = n - j * (2 * dx);
    assert(0 <= r < 2 * dx) by (nonlinear_arith)
        requires
            r == n - j * (2 * dx),
            n == 2 * i * dy + dx - 1,
            0 <= dx + 2 * j * dx - 2 * i * dy < 2 * dx,
    ;
    vstd::arithmetic::div_mod::lemma_fundamental_div_mod_converse(n, 2 * dx, j, r);
}

proof fn lemma_offset_at_most(i: int, dx: int, dy: int)
    requires
        0 <= dy <= dx,
        0 <= i <= dx,
    ensures
        0 <= line_offset(i, dx, dy) <= dy,
{
    if dx > 0 {
        assert(0 <= (2 * i * dy + dx - 1) / (2 * dx) <= dy) by (nonlinear_arith)
            requires
                0 <= dy <= dx,
                0 <= i <= dx,
                dx > 0,
        {
            assert(2 * i * dy + dx - 1 < (dy + 1) * (2 * dx));
            vstd::arithmetic::div_mod::lemma_div_is_ordered(2 * i * dy + dx - 1, (dy + 1) * (2 * dx) - 1, 2 * dx);
            vstd::arithmetic::div_mod::lemma_fundamental_div_mod_converse((dy + 1) * (2 * dx) - 1, 2 * dx, dy, 2 * dx - 1);
            vstd::arithmetic::div_mod::lemma_div_pos_is_pos(2 * i * dy + dx - 1, 2 * dx);
        }
    }
}

impl BresenhamLineIter {
    /// The pixels of the whole line.
    pub closed spec fn points(&self) -> Seq<(int, int)> {
        self.points@
    }

    /// How many pixels have been yielded.
    pub closed spec fn yielded(&self) -> int {
        self.x - self.a0@
    }

    pub closed spec fn inv(&self) -> bool {
        let (dx, dy, i, j) = (self.dx as int, self.dy as int, self.x - self.a0@, self.steps@);
        &&& 0 <= dy <= dx
        &&& dx <= 0x1_0000_0000
        &&& i32::MIN <= self.a0@ <= i32::MAX
        &&& i32::MIN <= self.b0@ <= i32::MAX
        &&& self.end_x == self.a0@ + dx
        &&& self.points@.len() == dx + 1
        &&& self.y_step == 1 || self.y_step == -1
        &&& forall|k: int| 0 <= k <= dx ==> #[trigger] self.points@[k] == (if self.is_steep {
            (self.b0@ + self.y_step * line_offset(k, dx, dy), self.a0@ + k)
        } else {
            (self.a0@ + k, self.b0@ + self.y_step * line_offset(k, dx, dy))
        })
        &&& 0 <= i <= dx + 1
        &&& 0 <= j <= i
        &&& j <= dy + 1
        &&& self.end_x <= i32::MAX
        &&& self.y_step == 1 ==> self.b0@ + dy <= i32::MAX
        &&& self.y_step == -1 ==> self.b0@ - dy >= i32::MIN
        &&& self.y_step == 1 ==> self.y == self.b0@ + j
        &&& self.y_step == -1 ==> self.y == self.b0@ - j
        &&& i <= dx ==> j == line_offset(i, dx, dy)
        &&& self.error == dx + 2 * j * dx - 2 * i * dy
        &&& dx > 0 ==> 0 <= self.error < 2 * dx
        &&& dx == 0 ==> self.error == 0 && j == 0
    }

    /// An iterator over the pixels of the line from `start` to `end`.
    pub fn new(start: (i32, i32), end: (i32, i32)) -> (it: BresenhamLineIter)
        ensures
            it.inv(),
            it.points() == line_points(start.0 as int, start.1 as int, end.0 as int, end.1 as int),
            it.yielded() == 0,
    {
        let ghost pts = line_points(start.0 as int, start.1 as int, end.0 as int, end.1 as int);
        let (x0, y0, x1, y1) = (start.0 as i64, start.1 as i64, end.0 as i64, end.1 as i64);
        let adx = if x1 >= x0 { x1 - x0 } else { x0 - x1 };
        let ady = if y1 >= y0 { y1 - y0 } else { y0 - y1 };
        let steep = ady > adx;
        let (p0, q0, p1, q1) = if steep { (y0, x0, y1, x1) } else { (x0, y0, x1, y1) };
        let (a0, b0, a1, b1) = if p0 > p1 { (p1, q1, p0, q0) } else { (p0, q0, p1, q1) };
        let dx = a1 - a0;
        let dy = if b1 >= b0 { b1 - b0 } else { b0 - b1 };
        assert(driving_ends(start.0 as int, start.1 as int, end.0 as int, end.1 as int) == (a0 as int, b0 as int, a1 as int, b1 as int));
        assert(steep == is_steep(start.0 as int, start.1 as int, end.0 as int, end.1 as int));
        proof {
            assert(dx + 2 * 0 * dx - 2 * 0 * dy == dx) by (nonlinear_arith);
            if dx > 0 {
                assert(0 <= dx + 2 * 0 * dx - 2 * 0 * dy < 2 * dx) by (nonlinear_arith)
                    requires
                        dx > 0,
                ;
                lemma_offset_step(0, dx as int, dy as int, 0);
            }
        }
        BresenhamLineIter {
            dx,
            dy,
            x: a0,
            y: b0,
            error: dx,
            end_x: a1,
            is_steep: steep,
            y_step: if b0 < b1 { 1 } else { -1 },
            points: Ghost(pts),
            a0: Ghost(a0 as int),
            b0: Ghost(b0 as int),
            steps: Ghost(0),
        }
    }

    /// The next pixel of the line, `None` once all have been yielded.
    pub fn next(&mut self) -> (r: Option<(i32, i32)>)
        requires
            old(self).inv(),
        ensures
            final(self).inv(),
            final(self).points() == old(self).points(),
            old(self).yielded() < old(self).points().len() ==> r is Some && final(self).yielded() == old(self).yielded() + 1
                && r->Some_0.0 == old(self).points()[old(self).yielded()].0
                && r->Some_0.1 == old(self).points()[old(self).yielded()].1,
            old(self).yielded() >= old(self).points().len() ==> r is None && final(self).yielded() == old(self).yielded(),
    {
        if self.x > self.end_x {
            return None;
        }
        let ghost (i, j, perr) = (self.x - self.a0@, self.steps@, self.error as int);
        proof {
            lemma_offset_at_most(i, self.dx as int, self.dy as int);
            assert(j <= self.dy);
        }
        let ret = if self.is_steep { (self.y as i32, self.x as i32) } else { (self.x as i32, self.y as i32) };
        assert(self.points@[i] == (if self.is_steep { (self.y as int, self.x as int) } else { (self.x as int, self.y as int) }));
        self.x = self.x + 1;
        self.error = self.error - 2 * self.dy;
        if self.error < 0 {
            self.y = self.y + self.y_step;
            self.error = self.error + 2 * self.dx;
            self.steps = Ghost(self.steps@ + 1);
        }
        proof {
            let (dx, dy) = (self.dx as int, self.dy as int);
            let nj = self.steps@;
            assert(self.error == dx + 2 * nj * dx - 2 * (i + 1) * dy) by (nonlinear_arith)
                requires
                    perr == dx + 2 * j * dx - 2 * i * dy,
                    (nj == j && self.error == perr - 2 * dy) || (nj == j + 1 && self.error == perr - 2 * dy + 2 * dx),
            ;
            if i + 1 <= dx && dx > 0 {
                lemma_offset_step(i + 1, dx, dy, nj);
                lemma_offset_at_most(i + 1, dx, dy);
            }
        }
        Some(ret)
    }
}

} // verus!
