use swipe_video::canvas::{Canvas, Color};
use swipe_video::rect::Rect;
use swipe_video::text::{blend, text_block_origins};

const BLANK: Color = Color { r: 0, g: 0, b: 0, a: 0 };
const RED: Color = Color { r: 255, g: 0, b: 0, a: 255 };

fn painted(c: &Canvas) -> Vec<(u32, u32)> {
    let mut v = Vec::new();
    for y in 0..c.height {
        for x in 0..c.width {
            if c.get_pixel(x, y) == RED {
                v.push((x, y));
            }
        }
    }
    v
}

#[test]
fn filled_ellipse_flat() {
    let mut c = Canvas::new(11, 11, BLANK);
    c.draw_filled_ellipse_mut((5, 5), 3, 1, RED);
    let mut expected = Vec::new();
    for x in 3..=7 {
        expected.push((x, 4));
    }
    for x in 2..=8 {
        expected.push((x, 5));
    }
    for x in 3..=7 {
        expected.push((x, 6));
    }
    assert_eq!(painted(&c), expected);
}

#[test]
fn hollow_ellipse_points() {
    let mut c = Canvas::new(11, 11, BLANK);
    c.draw_hollow_ellipse_mut((5, 5), 3, 1, RED);
    let p = painted(&c);
    assert!(p.contains(&(5, 4)) && p.contains(&(5, 6)) && p.contains(&(2, 5)) && p.contains(&(8, 5)));
    assert!(!p.contains(&(5, 5)));
}

#[test]
fn equal_radii_draw_a_circle() {
    let mut a = Canvas::new(9, 9, BLANK);
    a.draw_filled_ellipse_mut((4, 4), 3, 3, RED);
    let mut b = Canvas::new(9, 9, BLANK);
    b.draw_filled_circle_mut((4, 4), 3, RED);
    assert_eq!(painted(&a), painted(&b));
}

#[test]
fn tall_ellipse_reaches_its_radii() {
    let mut c = Canvas::new(11, 11, BLANK);
    c.draw_hollow_ellipse_mut((5, 5), 2, 4, RED);
    let p = painted(&c);
    assert!(p.contains(&(5, 1)) && p.contains(&(5, 9)) && p.contains(&(3, 5)) && p.contains(&(7, 5)));
}

#[test]
fn centred_text_origins() {
    let rect = Rect::at(10, 20).of_size(100, 50);
    let o = text_block_origins(rect, &vec![40, 100, 120], 10);
    // Block of 30 rows centred in 50: starts 10 below the top.
    assert_eq!(o, vec![(40, 30), (10, 40), (0, 50)]);
}

#[test]
fn coverage_blending() {
    let white = Color::new(255, 255, 255, 255);
    assert_eq!(blend(white, RED, 255), RED);
    assert_eq!(blend(white, RED, 0), white);
    assert_eq!(blend(white, RED, 128), Color::new(255, 127, 127, 255));
    let mut c = Canvas::new(2, 1, white);
    c.blend_pixel(1, 0, RED, 255);
    c.blend_pixel(5, 0, RED, 255);
    assert_eq!(c.get_pixel(1, 0), RED);
    assert_eq!(c.get_pixel(0, 0), white);
}

#[test]
fn drawing_onto_a_copy_keeps_the_original() {
    let c = Canvas::new(6, 6, BLANK);
    let d = c.draw_filled_rect(Rect::at(1, 1).of_size(2, 2), RED);
    assert!(painted(&c).is_empty());
    assert_eq!(painted(&d), vec![(1, 1), (2, 1), (1, 2), (2, 2)]);
    let e = d.draw_line_segment((0, 5), (5, 5), RED);
    assert_eq!(painted(&e).len(), 10);
    assert_eq!(painted(&d).len(), 4);
    assert!(c.draw_polygon(&Vec::new(), RED).is_err());
    let dup = e.duplicate();
    assert_eq!(dup.pixels, e.pixels);
}

#[test]
fn bresenham_iterator_yields_the_line() {
    let mut it = swipe_video::bresenham::BresenhamLineIter::new((0, 0), (4, 2));
    let mut pts = Vec::new();
    while let Some(p) = it.next() {
        pts.push(p);
    }
    assert_eq!(pts, vec![(0, 0), (1, 0), (2, 1), (3, 1), (4, 2)]);
    assert_eq!(it.next(), None);
    let mut steep = swipe_video::bresenham::BresenhamLineIter::new((1, 4), (1, 0));
    let mut v = Vec::new();
    while let Some(p) = steep.next() {
        v.push(p);
    }
    assert_eq!(v, vec![(1, 0), (1, 1), (1, 2), (1, 3), (1, 4)]);
}
