//! Axis-aligned rectangles with a signed origin and an unsigned size.
use vstd::prelude::*;

verus! {

/// A rectangle whose left/top edges are inclusive and right/bottom edges exclusive.
#[derive(Clone, Copy, Debug, PartialEq, Eq, Structural)]
pub struct Rect {
    left: i32,
    top: i32,
    width: u32,
    height: u32,
}

/// The origin of a rectangle whose size is not given yet.
#[derive(Clone, Copy, Debug, PartialEq, Eq, Structural)]
pub struct RectPosition {
    pub left: i32,
    pub top: i32,
}

impl Rect {
    pub closed spec fn spec_left(&self) -> int {
        self.left as int
    }

    pub closed spec fn spec_top(&self) -> int {
        self.top as int
    }

    pub closed spec fn spec_width(&self) -> int {
        self.width as int
    }

    pub closed spec fn spec_height(&self) -> int {
        self.height as int
    }

    /// The origin fits `i32` and the size `u32`.
    pub proof fn lemma_bounds(&self)
        ensures
            i32::MIN <= self.spec_left() <= i32::MAX,
            i32::MIN <= self.spec_top() <= i32::MAX,
            0 <= self.spec_width() <= u32::MAX,
            0 <= self.spec_height() <= u32::MAX,
    {
    }

    /// Whether `(x, y)` lies inside the rectangle.
    pub open spec fn contains(&self, x: int, y: int) -> bool {
        self.spec_left() <= x < self.spec_left() + self.spec_width() && self.spec_top() <= y
            < self.spec_top() + self.spec_height()
    }

    /// Starts a rectangle at `(left, top)`.
    pub fn at(left: i32, top: i32) -> (p: RectPosition)
        ensures
            p == (RectPosition { left, top }),
    {
        RectPosition { left, top }
    }

    pub fn new(left: i32, top: i32, width: u32, height: u32) -> (r: Rect)
        ensures
            r.spec_left() == left,
            r.spec_top() == top,
            r.spec_width() == width,
            r.spec_height() == height,
    {
        Rect { left, top, width, height }
    }

    pub fn left(&self) -> (r: i32)
        ensures
            r == self.spec_left(),
    {
        self.left
    }

    pub fn top(&self) -> (r: i32)
        ensures
            r == self.spec_top(),
    {
        self.top
    }

    pub fn width(&self) -> (r: u32)
        ensures
            r == self.spec_width(),
    {
        self.width
    }

    pub fn height(&self) -> (r: u32)
        ensures
            r == self.spec_height(),
    {
        self.height
    }

    /// The exclusive right edge, `left + width`.
    pub fn right(&self) -> (r: i64)
        ensures
            r == self.spec_left() + self.spec_width(),
    {
        self.left as i64 + self.width as i64
    }

    /// The exclusive bottom edge, `top + height`.
    pub fn bottom(&self) -> (r: i64)
        ensures
            r == self.spec_top() + self.spec_height(),
    {
        self.top as i64 + self.height as i64
    }
}

impl RectPosition {
    /// Completes the rectangle with its size.
    pub fn of_size(self, width: u32, height: u32) -> (r: Rect)
        ensures
            r.spec_left() == self.left,
            r.spec_top() == self.top,
            r.spec_width() == width,
            r.spec_height() == height,
    {
        Rect { left: self.left, top: self.top, width, height }
    }
}

} // verus!
