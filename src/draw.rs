//! Drawing onto a copy: each operation leaves the canvas as it is and
//! returns a new one with the shape drawn.
use vstd::prelude::*;
use crate::canvas::{Canvas, Color};
use crate::compose::copied;
use crate::ellipse::{MAX_ELLIPSE_RADIUS, on_ellipse};
use crate::error::Error;
use crate::point::Point;
use crate::polygon::{in_polygon_fill, on_hallow_polygon, on_polygon_outline};
use crate::raster::{in_filled_circle, in_rounded_rect, on_cross, on_hollow_circle, on_line, on_rect_outline};
use crate::rect::Rect;

verus! {

impl Canvas {
    /// A canvas of the same size with the same pixels.
    pub fn duplicate(&self) -> (c: Canvas)
        requires
            self.wf(),
        ensures
            c.wf(),
            c.width == self.width,
            c.height == self.height,
            forall|x: int, y: int| #![trigger c.at(x, y)] c.in_bounds(x, y) ==> c.at(x, y) == self.at(x, y),
    {
        let n = self.pixels.len();
        let mut c = Canvas::new(self.width, self.height, Color::new(0, 0, 0, 0));
        let ghost blank = c;
        let placed = c.copy_from(self, 0, 0);
        assert(placed);
        assert forall|x: int, y: int| #![trigger c.at(x, y)] c.in_bounds(x, y) implies c.at(x, y) == self.at(x, y) by {
            assert(copied(blank, c, *self, 0, 0));
        }
        c
    }

    /// A copy with a filled circle drawn; see `draw_filled_circle_mut`.
    pub fn draw_filled_circle(&self, center: (i32, i32), radius: i32, color: Color) -> (out: Canvas)
        requires
            self.wf(),
        ensures
            Canvas::painted(*self, out, |a: int, b: int| in_filled_circle(center.0 as int, center.1 as int, radius as int, a, b), color),
    {
        let mut out = self.duplicate();
        out.draw_filled_circle_mut(center, radius, color);
        out
    }

    /// A copy with a hollow circle drawn; see `draw_hollow_circle_mut`.
    pub fn draw_hollow_circle(&self, center: (i32, i32), radius: i32, color: Color) -> (out: Canvas)
        requires
            self.wf(),
        ensures
            Canvas::painted(*self, out, |a: int, b: int| on_hollow_circle(center.0 as int, center.1 as int, radius as int, a, b), color),
    {
        let mut out = self.duplicate();
        out.draw_hollow_circle_mut(center, radius, color);
        out
    }

    /// A copy with a plus sign drawn; see `draw_cross_mut`.
    pub fn draw_cross(&self, color: Color, x: i32, y: i32) -> (out: Canvas)
        requires
            self.wf(),
        ensures
            Canvas::painted(*self, out, |a: int, b: int| on_cross(x as int, y as int, a, b), color),
    {
        let mut out = self.duplicate();
        out.draw_cross_mut(color, x, y);
        out
    }

    /// A copy with a line drawn; see `draw_line_segment_mut`.
    pub fn draw_line_segment(&self, start: (i32, i32), end: (i32, i32), color: Color) -> (out: Canvas)
        requires
            self.wf(),
        ensures
            Canvas::painted(*self, out, |a: int, b: int| on_line(start.0 as int, start.1 as int, end.0 as int, end.1 as int, a, b), color),
    {
        let mut out = self.duplicate();
        out.draw_line_segment_mut(start, end, color);
        out
    }

    /// A copy with a filled rectangle drawn; see `draw_filled_rect_mut`.
    pub fn draw_filled_rect(&self, rect: Rect, color: Color) -> (out: Canvas)
        requires
            self.wf(),
        ensures
            Canvas::painted(*self, out, |a: int, b: int| rect.contains(a, b), color),
    {
        let mut out = self.duplicate();
        out.draw_filled_rect_mut(rect, color);
        out
    }

    /// A copy with a rectangle outlined; see `draw_hollow_rect_mut`.
    pub fn draw_hollow_rect(&self, rect: Rect, color: Color) -> (out: Canvas)
        requires
            self.wf(),
        ensures
            Canvas::painted(*self, out, |a: int, b: int| on_rect_outline(rect, a, b), color),
    {
        let mut out = self.duplicate();
        out.draw_hollow_rect_mut(rect, color);
        out
    }

    /// A copy with a filled rounded rectangle drawn; see `draw_filled_rounded_rect_mut`.
    pub fn draw_filled_rounded_rect(&self, rect: Rect, radius: i32, color: Color) -> (out: Canvas)
        requires
            self.wf(),
            0 <= radius,
            2 * radius <= rect.spec_width(),
            2 * radius <= rect.spec_height(),
        ensures
            Canvas::painted(*self, out, |a: int, b: int| in_rounded_rect(rect, radius as int, a, b), color),
    {
        let mut out = self.duplicate();
        out.draw_filled_rounded_rect_mut(rect, radius, color);
        out
    }

    /// A copy with an ellipse drawn; see `draw_filled_ellipse_mut`.
    pub fn draw_filled_ellipse(&self, center: (i32, i32), width_radius: i32, height_radius: i32, color: Color) -> (out: Canvas)
        requires
            self.wf(),
            -MAX_ELLIPSE_RADIUS <= width_radius <= MAX_ELLIPSE_RADIUS,
            -MAX_ELLIPSE_RADIUS <= height_radius <= MAX_ELLIPSE_RADIUS,
        ensures
            width_radius == height_radius ==> Canvas::painted(*self, out, |a: int, b: int|
                in_filled_circle(center.0 as int, center.1 as int, width_radius as int, a, b), color),
            width_radius != height_radius ==> Canvas::painted(*self, out, |a: int, b: int|
                on_ellipse(true, center.0 as int, center.1 as int, width_radius as int, height_radius as int, a, b), color),
    {
        let mut out = self.duplicate();
        out.draw_filled_ellipse_mut(center, width_radius, height_radius, color);
        out
    }

    /// A copy with an ellipse drawn; see `draw_hollow_ellipse_mut`.
    pub fn draw_hollow_ellipse(&self, center: (i32, i32), width_radius: i32, height_radius: i32, color: Color) -> (out: Canvas)
        requires
            self.wf(),
            -MAX_ELLIPSE_RADIUS <= width_radius <= MAX_ELLIPSE_RADIUS,
            -MAX_ELLIPSE_RADIUS <= height_radius <= MAX_ELLIPSE_RADIUS,
        ensures
            width_radius == height_radius ==> Canvas::painted(*self, out, |a: int, b: int|
                on_hollow_circle(center.0 as int, center.1 as int, width_radius as int, a, b), color),
            width_radius != height_radius ==> Canvas::painted(*self, out, |a: int, b: int|
                on_ellipse(false, center.0 as int, center.1 as int, width_radius as int, height_radius as int, a, b), color),
    {
        let mut out = self.duplicate();
        out.draw_hollow_ellipse_mut(center, width_radius, height_radius, color);
        out
    }

    /// A copy with a polygon filled and outlined; see `draw_polygon_mut`.
    pub fn draw_polygon(&self, poly: &Vec<Point<i32>>, color: Color) -> (r: Result<Canvas, Error>)
        requires
            self.wf(),
            poly@.len() < 0x1000_0000,
        ensures
            r is Err <==> poly@.len() == 0 || poly@[0] == poly@.last(),
            r matches Ok(out) ==> Canvas::painted(*self, out,
                |a: int, b: int| in_polygon_fill(poly@, a, b) || on_polygon_outline(poly@, a, b), color),
    {
        let mut out = self.duplicate();
        match out.draw_polygon_mut(poly, color) {
            Ok(()) => Ok(out),
            Err(e) => Err(e),
        }
    }

    /// A copy with a polygon outlined; see `draw_hallow_polygon_mut`.
    pub fn draw_hallow_polygon(&self, poly: &Vec<Point<i32>>, color: Color) -> (r: Result<Canvas, Error>)
        requires
            self.wf(),
        ensures
            r is Err <==> poly@.len() < 2 || poly@[0] == poly@.last(),
            r matches Ok(out) ==> Canvas::painted(*self, out, |a: int, b: int| on_hallow_polygon(poly@, a, b), color),
    {
        let mut out = self.duplicate();
        match out.draw_hallow_polygon_mut(poly, color) {
            Ok(()) => Ok(out),
            Err(e) => Err(e),
        }
    }
}

} // verus!
