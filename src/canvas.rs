//! A rectangular grid of RGBA pixels that every drawing operation writes through.
use vstd::prelude::*;

verus! {

/// A color with four 8-bit channels.
#[derive(Clone, Copy, Debug, PartialEq, Eq, Structural)]
pub struct Color {
    pub r: u8,
    pub g: u8,
    pub b: u8,
    pub a: u8,
}

impl Color {
    pub fn new(r: u8, g: u8, b: u8, a: u8) -> (c: Color)
        ensures
            c == (Color { r, g, b, a }),
    {
        Color { r, g, b, a }
    }
}

/// Row-major pixel buffer of `width * height` colors.
#[derive(Clone, Debug)]
pub struct Canvas {
    pub width: u32,
    pub height: u32,
    pub pixels: Vec<Color>,
}

/// Offset of pixel `(x, y)` in a row-major buffer `w` pixels wide.
pub open spec fn offset(w: int, x: int, y: int) -> int {
    y * w + x
}

proof fn lemma_offset(w: int, h: int, x: int, y: int)
    requires
        0 <= x < w,
        0 <= y < h,
    ensures
        0 <= offset(w, x, y) < w * h,
{
    assert(0 <= y * w + x < w * h) by (nonlinear_arith)
        requires
            0 <= x < w,
            0 <= y < h,
    ;
}

proof fn lemma_offset_injective(w: int, x1: int, y1: int, x2: int, y2: int)
    requires
        0 <= x1 < w,
        0 <= x2 < w,
        0 <= y1,
        0 <= y2,
        offset(w, x1, y1) == offset(w, x2, y2),
    ensures
        x1 == x2 && y1 == y2,
{
    assert(y1 == y2) by (nonlinear_arith)
        requires
            0 <= x1 < w,
            0 <= x2 < w,
            0 <= y1,
            0 <= y2,
            y1 * w + x1 == y2 * w + x2,
    {
        if y1 < y2 {
            assert(y1 * w + w <= y2 * w);
        }
        if y2 < y1 {
            assert(y2 * w + w <= y1 * w);
        }
    }
}

/// Painting nothing leaves a canvas as it is.
pub proof fn lemma_painted_nothing(c: Canvas, color: Color)
    requires
        c.wf(),
    ensures
        Canvas::painted(c, c, |x: int, y: int| false, color),
{
}

/// Painting two regions one after the other paints their union.
pub proof fn lemma_painted_union(
    c0: Canvas,
    c1: Canvas,
    c2: Canvas,
    r1: spec_fn(int, int) -> bool,
    r2: spec_fn(int, int) -> bool,
    color: Color,
)
    requires
        Canvas::painted(c0, c1, r1, color),
        Canvas::painted(c1, c2, r2, color),
    ensures
        Canvas::painted(c0, c2, |x: int, y: int| r1(x, y) || r2(x, y), color),
{
    assert forall|x: int, y: int| #![trigger c2.at(x, y)] c2.in_bounds(x, y) implies c2.at(x, y) == if r1(x, y)
        || r2(x, y) {
        color
    } else {
        c0.at(x, y)
    } by {
        assert(c1.at(x, y) == if r1(x, y) {
            color
        } else {
            c0.at(x, y)
        });
    }
}

/// Only the on-canvas part of a painted region matters.
pub proof fn lemma_painted_same_region(
    c0: Canvas,
    c1: Canvas,
    r1: spec_fn(int, int) -> bool,
    r2: spec_fn(int, int) -> bool,
    color: Color,
)
    requires
        Canvas::painted(c0, c1, r1, color),
        forall|x: int, y: int| #![trigger r2(x, y)] c1.in_bounds(x, y) ==> r1(x, y) == r2(x, y),
    ensures
        Canvas::painted(c0, c1, r2, color),
{
    assert forall|x: int, y: int| #![trigger c1.at(x, y)] c1.in_bounds(x, y) implies c1.at(x, y) == if r2(x, y) {
        color
    } else {
        c0.at(x, y)
    } by {
        assert(r1(x, y) == r2(x, y));
    }
}

impl Canvas {
    /// The buffer holds exactly one color per pixel.
    pub open spec fn wf(&self) -> bool {
        self.pixels@.len() == self.width as int * self.height as int
    }

    /// Whether `(x, y)` lies on the canvas.
    pub open spec fn in_bounds(&self, x: int, y: int) -> bool {
        0 <= x < self.width && 0 <= y < self.height
    }

    /// The color of pixel `(x, y)`.
    pub open spec fn at(&self, x: int, y: int) -> Color {
        self.pixels@[offset(self.width as int, x, y)]
    }

    /// `new` is `old` with every on-canvas pixel of `region` set to `color`.
    pub open spec fn painted(old: Canvas, new: Canvas, region: spec_fn(int, int) -> bool, color: Color) -> bool {
        &&& new.width == old.width
        &&& new.height == old.height
        &&& new.wf()
        &&& forall|x: int, y: int|
            #![trigger new.at(x, y)]
            new.in_bounds(x, y) ==> new.at(x, y) == if region(x, y) {
                color
            } else {
                old.at(x, y)
            }
    }

    /// A canvas of the given size with every pixel set to `fill`.
    pub fn new(width: u32, height: u32, fill: Color) -> (c: Canvas)
        requires
            width as int * height as int <= usize::MAX,
        ensures
            c.wf(),
            c.width == width,
            c.height == height,
            forall|x: int, y: int| #![trigger c.at(x, y)] c.in_bounds(x, y) ==> c.at(x, y) == fill,
    {
        let n = width as usize * height as usize;
        let mut pixels: Vec<Color> = Vec::with_capacity(n);
        let mut i: usize = 0;
        while i < n
            invariant
                i <= n,
                pixels@.len() == i,
                forall|j: int| 0 <= j < i ==> pixels@[j] == fill,
            decreases n - i,
        {
            pixels.push(fill);
            i = i + 1;
        }
        let c = Canvas { width, height, pixels };
        assert forall|x: int, y: int| #![trigger c.at(x, y)] c.in_bounds(x, y) implies c.at(x, y) == fill by {
            lemma_offset(width as int, height as int, x, y);
        }
        c
    }

    pub fn width(&self) -> (r: u32)
        ensures
            r == self.width,
    {
        self.width
    }

    pub fn height(&self) -> (r: u32)
        ensures
            r == self.height,
    {
        self.height
    }

    /// `(width, height)`.
    pub fn dimensions(&self) -> (r: (u32, u32))
        ensures
            r == (self.width, self.height),
    {
        (self.width, self.height)
    }

    /// The color of an on-canvas pixel.
    pub fn get_pixel(&self, x: u32, y: u32) -> (c: Color)
        requires
            self.wf(),
            self.in_bounds(x as int, y as int),
        ensures
            c == self.at(x as int, y as int),
    {
        let n = self.pixels.len();
        proof {
            lemma_offset(self.width as int, self.height as int, x as int, y as int);
            assert(y as int * self.width as int + (x as int) < n);
        }
        self.pixels[y as usize * self.width as usize + x as usize]
    }

    /// Sets one on-canvas pixel.
    pub fn draw_pixel(&mut self, x: u32, y: u32, color: Color)
        requires
            old(self).wf(),
            old(self).in_bounds(x as int, y as int),
        ensures
            Canvas::painted(*old(self), *final(self), |a: int, b: int| a == x && b == y, color),
    {
        let n = self.pixels.len();
        proof {
            lemma_offset(self.width as int, self.height as int, x as int, y as int);
            assert(y as int * self.width as int + (x as int) < n);
        }
        let i = y as usize * self.width as usize + x as usize;
        self.pixels.set(i, color);
        proof {
            assert forall|a: int, b: int| #![trigger self.at(a, b)] self.in_bounds(a, b) implies self.at(a, b)
                == if a == x && b == y {
                color
            } else {
                old(self).at(a, b)
            } by {
                lemma_offset(self.width as int, self.height as int, a, b);
                if offset(self.width as int, a, b) == i {
                    lemma_offset_injective(self.width as int, a, b, x as int, y as int);
                }
            }
        }
    }

    /// Sets pixel `(x, y)` if it lies on the canvas; does nothing otherwise.
    pub fn draw_if_in_bounds(&mut self, x: i64, y: i64, color: Color)
        requires
            old(self).wf(),
        ensures
            Canvas::painted(*old(self), *final(self), |a: int, b: int| a == x && b == y, color),
    {
        if x >= 0 && x < self.width as i64 && y >= 0 && y < self.height as i64 {
            self.draw_pixel(x as u32, y as u32, color);
        }
    }
}

} // verus!
