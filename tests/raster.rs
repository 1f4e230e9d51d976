use swipe_video::canvas::{Canvas, Color};
use swipe_video::point::Point;
use swipe_video::rect::Rect;

const BLANK: Color = Color { r: 0, g: 0, b: 0, a: 0 };
const RED: Color = Color { r: 255, g: 0, b: 0, a: 255 };

fn painted(c: &Canvas) -> Vec<(u32, u32)> {
    let mut v = Vec::new();
    for y in 0..c.height {
        for x in 0..c.width {
            if c.get_pixel(x, y) == RED {
                v.push((x, y));
            }
        }
    }
    v
}

#[test]
fn filled_rect_covering_everything() {
    let mut c = Canvas::new(4, 3, BLANK);
    c.draw_filled_rect_mut(Rect::at(-2, -2).of_size(100, 100), RED);
    assert_eq!(painted(&c).len(), 12);
    assert_eq!(c.pixels.len(), 12);
}

#[test]
fn filled_rect_outside_or_empty_changes_nothing() {
    let mut c = Canvas::new(4, 3, BLANK);
    c.draw_filled_rect_mut(Rect::at(10, 10).of_size(5, 5), RED);
    c.draw_filled_rect_mut(Rect::at(-10, 0).of_size(5, 5), RED);
    c.draw_filled_rect_mut(Rect::at(1, 1).of_size(0, 2), RED);
    c.draw_filled_rect_mut(Rect::at(i32::MIN, i32::MAX).of_size(u32::MAX, u32::MAX), RED);
    assert!(painted(&c).is_empty());
    assert_eq!(c.pixels.len(), 12);
}

#[test]
fn filled_rect_partly_outside() {
    let mut c = Canvas::new(4, 3, BLANK);
    c.draw_filled_rect_mut(Rect::at(2, 1).of_size(5, 5), RED);
    assert_eq!(painted(&c), vec![(2, 1), (3, 1), (2, 2), (3, 2)]);
}

#[test]
fn line_from_a_point_to_itself() {
    let mut c = Canvas::new(5, 5, BLANK);
    c.draw_line_segment_mut((2, 3), (2, 3), RED);
    assert_eq!(painted(&c), vec![(2, 3)]);
    let mut d = Canvas::new(5, 5, BLANK);
    d.draw_line_segment_mut((7, 7), (7, 7), RED);
    assert!(painted(&d).is_empty());
}

#[test]
fn bresenham_shallow_line() {
    let mut c = Canvas::new(6, 3, BLANK);
    c.draw_line_segment_mut((0, 0), (4, 2), RED);
    assert_eq!(painted(&c), vec![(0, 0), (1, 0), (2, 1), (3, 1), (4, 2)]);
}

#[test]
fn bresenham_steep_reversed_line() {
    let mut c = Canvas::new(3, 5, BLANK);
    c.draw_line_segment_mut((1, 4), (1, 0), RED);
    assert_eq!(painted(&c), vec![(1, 0), (1, 1), (1, 2), (1, 3), (1, 4)]);
}

#[test]
fn filled_circle_radius_one() {
    let mut c = Canvas::new(5, 5, BLANK);
    c.draw_filled_circle_mut((2, 2), 1, RED);
    assert_eq!(painted(&c), vec![(2, 1), (1, 2), (2, 2), (3, 2), (2, 3)]);
}

#[test]
fn hollow_circle_radius_two() {
    let mut c = Canvas::new(5, 5, BLANK);
    c.draw_hollow_circle_mut((2, 2), 2, RED);
    let p = painted(&c);
    assert!(p.contains(&(2, 0)) && p.contains(&(0, 2)) && p.contains(&(4, 2)) && p.contains(&(2, 4)));
    assert!(!p.contains(&(2, 2)));
}

#[test]
fn negative_radius_draws_nothing() {
    let mut c = Canvas::new(5, 5, BLANK);
    c.draw_filled_circle_mut((2, 2), -3, RED);
    c.draw_hollow_circle_mut((2, 2), -3, RED);
    assert!(painted(&c).is_empty());
}

#[test]
fn rounded_rect_leaves_corners() {
    let mut c = Canvas::new(20, 20, BLANK);
    c.draw_filled_rounded_rect_mut(Rect::at(0, 0).of_size(20, 20), 5, RED);
    assert_ne!(c.get_pixel(0, 0), RED);
    assert_eq!(c.get_pixel(10, 10), RED);
    assert_eq!(c.get_pixel(0, 10), RED);
    assert_eq!(c.get_pixel(10, 0), RED);
}

#[test]
fn cross_is_clipped() {
    let mut c = Canvas::new(3, 3, BLANK);
    c.draw_cross_mut(RED, 0, 0);
    assert_eq!(painted(&c), vec![(0, 0), (1, 0), (0, 1)]);
}

#[test]
fn hollow_rect_outline() {
    let mut c = Canvas::new(6, 6, BLANK);
    c.draw_hollow_rect_mut(Rect::at(1, 1).of_size(3, 3), RED);
    let p = painted(&c);
    assert!(p.contains(&(1, 1)) && p.contains(&(4, 1)) && p.contains(&(1, 4)) && p.contains(&(4, 4)));
    assert!(!p.contains(&(2, 2)));
}

#[test]
fn polygon_fill_square() {
    let mut c = Canvas::new(6, 6, BLANK);
    let poly = vec![Point::new(1, 1), Point::new(4, 1), Point::new(4, 4), Point::new(1, 4)];
    c.draw_polygon_mut(&poly, RED).unwrap();
    assert_eq!(painted(&c).len(), 16);
    assert_eq!(c.get_pixel(0, 0), BLANK);
    assert_eq!(c.get_pixel(2, 2), RED);
}

#[test]
fn polygon_fill_triangle_rounds_crossings() {
    let mut c = Canvas::new(8, 8, BLANK);
    let poly = vec![Point::new(0, 0), Point::new(6, 0), Point::new(0, 6)];
    c.draw_polygon_mut(&poly, RED).unwrap();
    for y in 0..=6u32 {
        for x in 0..8u32 {
            let inside = x + y <= 6;
            assert_eq!(c.get_pixel(x, y) == RED, inside, "pixel ({x}, {y})");
        }
    }
}

#[test]
fn polygon_partly_off_canvas() {
    let mut c = Canvas::new(4, 4, BLANK);
    let poly = vec![Point::new(-5, -5), Point::new(10, -5), Point::new(10, 10), Point::new(-5, 10)];
    c.draw_polygon_mut(&poly, RED).unwrap();
    assert_eq!(painted(&c).len(), 16);
}

#[test]
fn malformed_polygons_are_refused() {
    let mut c = Canvas::new(4, 4, BLANK);
    assert!(c.draw_polygon_mut(&Vec::new(), RED).is_err());
    assert!(c.draw_hallow_polygon_mut(&Vec::new(), RED).is_err());
    assert!(c.draw_hallow_polygon_mut(&vec![Point::new(1, 1)], RED).is_err());
    let closed = vec![Point::new(0, 0), Point::new(3, 0), Point::new(0, 0)];
    assert!(c.draw_polygon_mut(&closed, RED).is_err());
    assert!(c.draw_hallow_polygon_mut(&closed, RED).is_err());
    assert!(painted(&c).is_empty());
}

#[test]
fn hallow_polygon_closes_the_ring() {
    let mut c = Canvas::new(6, 6, BLANK);
    let poly = vec![Point::new(0, 0), Point::new(4, 0), Point::new(4, 4)];
    c.draw_hallow_polygon_mut(&poly, RED).unwrap();
    let p = painted(&c);
    assert!(p.contains(&(2, 0)) && p.contains(&(4, 2)) && p.contains(&(2, 2)));
    assert!(!p.contains(&(0, 4)));
}

#[test]
fn draw_if_in_bounds_ignores_outside() {
    let mut c = Canvas::new(2, 2, BLANK);
    c.draw_if_in_bounds(-1, 0, RED);
    c.draw_if_in_bounds(2, 1, RED);
    c.draw_if_in_bounds(1, 1, RED);
    assert_eq!(painted(&c), vec![(1, 1)]);
}
