//! Composition of tiles into frame images: copying and cropping canvases,
//! drawing one tile's picture and caption backgrounds, and joining tiles.
use vstd::prelude::*;
use crate::canvas::{Canvas, Color};
use crate::config::BigImg;
use crate::error::{Error, Kind};
use crate::raster::{in_rounded_area, on_line};
use crate::rect::Rect;
use crate::tile::Chunk;

verus! {

/// `after` is `before` with `src` copied so that its top-left corner lands on `(x, y)`.
pub open spec fn copied(before: Canvas, after: Canvas, src: Canvas, x: int, y: int) -> bool {
    &&& after.width == before.width
    &&& after.height == before.height
    &&& after.wf()
    &&& forall|a: int, b: int|
        #![trigger after.at(a, b)]
        after.in_bounds(a, b) ==> after.at(a, b) == if x <= a < x + src.width && y <= b < y + src.height {
            src.at(a - x, b - y)
        } else {
            before.at(a, b)
        }
}

impl Canvas {
    /// Copies `src` onto this canvas with its top-left corner at `(x, y)`.
    /// Returns `false`, changing nothing, when `src` does not fit there.
    pub fn copy_from(&mut self, src: &Canvas, x: u32, y: u32) -> (ok: bool)
        requires
            old(self).wf(),
            src.wf(),
        ensures
            ok == (x + src.width <= old(self).width && y + src.height <= old(self).height),
            ok ==> copied(*old(self), *final(self), *src, x as int, y as int),
            !ok ==> *final(self) == *old(self),
    {
        if x as u64 + src.width as u64 > self.width as u64 || y as u64 + src.height as u64 > self.height as u64 {
            return false;
        }
        let ghost c0 = *self;
        let mut b: u32 = 0;
        while b < src.height
            invariant
                src.wf(),
                self.wf(),
                self.width == c0.width,
                self.height == c0.height,
                x + src.width <= self.width,
                y + src.height <= self.height,
                b <= src.height,
                forall|p: int, q: int|
                    #![trigger self.at(p, q)]
                    self.in_bounds(p, q) ==> self.at(p, q) == if x <= p < x + src.width && y <= q < y + b {
                        src.at(p - x, q - y)
                    } else {
                        c0.at(p, q)
                    },
            decreases src.height - b,
        {
            let mut a: u32 = 0;
            while a < src.width
                invariant
                    src.wf(),
                    self.wf(),
                    self.width == c0.width,
                    self.height == c0.height,
                    x + src.width <= self.width,
                    y + src.height <= self.height,
                    b < src.height,
                    a <= src.width,
                    forall|p: int, q: int|
                        #![trigger self.at(p, q)]
                        self.in_bounds(p, q) ==> self.at(p, q) == if x <= p < x + src.width && y <= q < y + b {
                            src.at(p - x, q - y)
                        } else if x <= p < x + a && q == y + b {
                            src.at(p - x, q - y)
                        } else {
                            c0.at(p, q)
                        },
                decreases src.width - a,
            {
                let color = src.get_pixel(a, b);
                self.draw_pixel(x + a, y + b, color);
                a = a + 1;
            }
            b = b + 1;
        }
        true
    }

    /// The part of this canvas `w` wide and `h` high whose top-left corner is
    /// `(x, y)`, cut down to what lies on the canvas.
    pub fn crop(&self, x: u32, y: u32, w: u32, h: u32) -> (c: Canvas)
        requires
            self.wf(),
        ensures
            c.wf(),
            c.width == crop_len(self.width as int, x as int, w as int),
            c.height == crop_len(self.height as int, y as int, h as int),
            forall|a: int, b: int|
                #![trigger c.at(a, b)]
                c.in_bounds(a, b) ==> c.at(a, b) == self.at(crop_start(self.width as int, x as int) + a, crop_start(self.height as int, y as int) + b),
    {
        let x0 = if x > self.width { self.width } else { x };
        let y0 = if y > self.height { self.height } else { y };
        let cw = if w > self.width - x0 { self.width - x0 } else { w };
        let ch = if h > self.height - y0 { self.height - y0 } else { h };
        let total = self.pixels.len();
        proof {
            assert(cw as int * ch as int <= self.width as int * self.height as int) by (nonlinear_arith)
                requires
                    cw <= self.width,
                    ch <= self.height,
            ;
        }
        let mut c = Canvas::new(cw, ch, Color::new(0, 0, 0, 0));
        let mut b: u32 = 0;
        while b < ch
            invariant
                self.wf(),
                c.wf(),
                c.width == cw,
                c.height == ch,
                x0 + cw <= self.width,
                y0 + ch <= self.height,
                b <= ch,
                forall|p: int, q: int|
                    #![trigger c.at(p, q)]
                    c.in_bounds(p, q) && q < b ==> c.at(p, q) == self.at(x0 + p, y0 + q),
            decreases ch - b,
        {
            let mut a: u32 = 0;
            while a < cw
                invariant
                    self.wf(),
                    c.wf(),
                    c.width == cw,
                    c.height == ch,
                    x0 + cw <= self.width,
                    y0 + ch <= self.height,
                    b < ch,
                    a <= cw,
                    forall|p: int, q: int|
                        #![trigger c.at(p, q)]
                        c.in_bounds(p, q) && (q < b || (q == b && p < a)) ==> c.at(p, q) == self.at(x0 + p, y0 + q),
                decreases cw - a,
            {
                let color = self.get_pixel(x0 + a, y0 + b);
                c.draw_pixel(a, b, color);
                a = a + 1;
            }
            b = b + 1;
        }
        c
    }
}

/// Where a crop starting at `x` begins on an axis of length `len`.
pub open spec fn crop_start(len: int, x: int) -> int {
    if x > len { len } else { x }
}

/// Length of a crop of `w` starting at `x` on an axis of length `len`.
pub open spec fn crop_len(len: int, x: int, w: int) -> int {
    let s = crop_start(len, x);
    if w > len - s { len - s } else { w }
}

/// A tile drawn without its caption text: the image, and the box of each
/// caption line, upper lines first, in which the text is to be centred.
#[derive(Debug)]
pub struct DrawnChunk {
    pub image: Canvas,
    pub text_up_boxes: Vec<Rect>,
    pub text_down_boxes: Vec<Rect>,
}

/// Corner radius of the caption backgrounds: 10 pixels, less where the box is
/// too small for it.
pub open spec fn caption_radius(w: int, h: int) -> int {
    let r = if w / 2 < 10 { w / 2 } else { 10 };
    if h / 2 < r { h / 2 } else { r }
}

/// Height of each caption line box of a region `region_h` high holding `n` lines.
pub open spec fn line_box_height(region_h: int, n: int) -> int {
    region_h / n
}

/// Margin kept free at the bottom of the lower caption region.
pub const BOTTOM_MARGIN: u32 = 30;

/// Why drawing a tile fails, if it does: the image would not fit in memory or
/// its rows not in `i32`, the picture is larger than its region, a caption
/// list is empty, or the tile is too narrow or the lower region too short
/// for the caption boxes.
pub open spec fn draw_failure(si: &BigImg, n_up: int, n_down: int, pw: int, ph: int) -> Option<Kind> {
    if si.width_chunk as int * si.screen.1 as int > usize::MAX || si.screen.1 > i32::MAX {
        Some(Kind::TryFromIntError)
    } else if pw > si.width_chunk || ph > si.pic_h {
        Some(Kind::ImageError)
    } else if n_up == 0 || n_down == 0 || si.text_down_h < BOTTOM_MARGIN || si.width_chunk < 20 {
        Some(Kind::Other)
    } else {
        None
    }
}

/// The color of pixel `(x, y)` of a drawn tile: the separator line at `x = 0`
/// over the lower caption background over the upper one over the picture,
/// centred in its region, over transparent black.
pub open spec fn tile_pixel(si: &BigImg, picture: Canvas, x: int, y: int) -> Color {
    let w = si.width_chunk as int;
    let (pic_h, up_h, down_h) = (si.pic_h as int, si.text_up_h as int, si.text_down_h as int);
    let ox = (w - picture.width) / 2;
    let oy = (pic_h - picture.height) / 2;
    if on_line(0, 10, 0, si.screen.1 as int, x, y) {
        si.text_color
    } else if in_rounded_area(1, pic_h + up_h, w - 1, down_h, caption_radius(w - 1, down_h), x, y) {
        si.text_background_color.1
    } else if in_rounded_area(1, pic_h, w - 1, up_h, caption_radius(w - 1, up_h), x, y) {
        si.text_background_color.0
    } else if ox <= x < ox + picture.width && oy <= y < oy + picture.height {
        picture.at(x - ox, y - oy)
    } else {
        Color { r: 0, g: 0, b: 0, a: 0 }
    }
}

/// The boxes of `n` caption lines stacked from row `top`, each `h` high,
/// 10 pixels in from both sides of a tile `w` wide.
pub open spec fn line_boxes_ok(boxes: Seq<Rect>, n: int, top: int, w: int, h: int) -> bool {
    &&& boxes.len() == n
    &&& forall|i: int|
        0 <= i < n ==> (#[trigger] boxes[i]).spec_left() == 10 && boxes[i].spec_top() == top + i * h
            && boxes[i].spec_width() == w - 20 && boxes[i].spec_height() == h
}

proof fn lemma_boxes_fit(region_h: int, n: int, i: int)
    requires
        n > 0,
        0 <= i < n,
        region_h >= 0,
    ensures
        0 <= i * (region_h / n) <= region_h,
        i * (region_h / n) + region_h / n <= region_h,
{
    assert(0 <= i * (region_h / n) + region_h / n <= region_h) by (nonlinear_arith)
        requires
            n > 0,
            0 <= i < n,
            region_h >= 0,
    {
        vstd::arithmetic::div_mod::lemma_fundamental_div_mod(region_h, n);
        assert((i + 1) * (region_h / n) <= n * (region_h / n));
    }
    assert(0 <= i * (region_h / n)) by (nonlinear_arith)
        requires
            n > 0,
            0 <= i,
            region_h >= 0,
    ;
}

/// The boxes of `n` caption lines stacked from row `top`.
fn line_boxes(n: usize, top: u32, w: u32, region_h: u32) -> (boxes: Vec<Rect>)
    requires
        n > 0,
        top as int + region_h as int <= i32::MAX,
        w >= 20,
    ensures
        line_boxes_ok(boxes@, n as int, top as int, w as int, line_box_height(region_h as int, n as int)),
{
    let h: u32 = if n as u64 > region_h as u64 { 0 } else { (region_h as u64 / n as u64) as u32 };
    assert(h == region_h as int / n as int) by (nonlinear_arith)
        requires
            n > 0,
            (n > region_h && h == 0) || (n <= region_h && h == region_h as int / n as int),
    {
        if n > region_h {
            vstd::arithmetic::div_mod::lemma_basic_div(region_h as int, n as int);
        }
    }
    let mut boxes: Vec<Rect> = Vec::new();
    let mut i: usize = 0;
    while i < n
        invariant
            n > 0,
            i <= n,
            top as int + region_h as int <= i32::MAX,
            w >= 20,
            h == region_h as int / n as int,
            line_boxes_ok(boxes@, i as int, top as int, w as int, h as int),
        decreases n - i,
    {
        proof {
            lemma_boxes_fit(region_h as int, n as int, i as int);
        }
        let y = top as u64 + i as u64 * h as u64;
        boxes.push(Rect::at(10, y as i32).of_size(w - 20, h));
        i = i + 1;
    }
    boxes
}

impl Chunk {
    /// Draws this tile's picture, already scaled to fit its region, centred in
    /// the picture region of a tile image `width_chunk` wide and as high as the
    /// screen; then the rounded backgrounds of the upper and lower caption
    /// regions and a separator line at `x = 0`. Returns the image with the
    /// boxes in which each caption line is to be written: the upper region
    /// split evenly among the upper lines, the lower one, less a bottom
    /// margin, among the lower lines.
    pub fn draw_data(&self, si: &BigImg, picture: &Canvas) -> (r: Result<DrawnChunk, Error>)
        requires
            si.wf(),
            picture.wf(),
        ensures
            r is Err <==> draw_failure(si, self.spec_text_up().len() as int, self.spec_text_down().len() as int,
                picture.width as int, picture.height as int) is Some,
            r matches Err(e) ==> Some(e.kind) == draw_failure(si, self.spec_text_up().len() as int,
                self.spec_text_down().len() as int, picture.width as int, picture.height as int),
            r matches Ok(d) ==> {
                &&& d.image.wf()
                &&& d.image.width == si.width_chunk
                &&& d.image.height == si.screen.1
                &&& forall|x: int, y: int| #![trigger d.image.at(x, y)]
                    d.image.in_bounds(x, y) ==> d.image.at(x, y) == tile_pixel(si, *picture, x, y)
                &&& line_boxes_ok(d.text_up_boxes@, self.spec_text_up().len() as int, si.pic_h as int,
                    si.width_chunk as int, line_box_height(si.text_up_h as int, self.spec_text_up().len() as int))
                &&& line_boxes_ok(d.text_down_boxes@, self.spec_text_down().len() as int,
                    si.pic_h + si.text_up_h, si.width_chunk as int,
                    line_box_height(si.text_down_h - BOTTOM_MARGIN, self.spec_text_down().len() as int))
            },
    {
        let w = si.width_chunk;
        let h = si.screen.1;
        assert(w as u64 * h as u64 <= 0xffff_ffff_ffff_ffff) by (nonlinear_arith)
            requires
                w <= 0xffff_ffff,
                h <= 0xffff_ffff,
        ;
        if w as u64 * h as u64 > usize::MAX as u64 || h > i32::MAX as u32 {
            return Err(Error::from_message(Kind::TryFromIntError, "tile image too large"));
        }
        if picture.width > w || picture.height > si.pic_h {
            return Err(Error::from_message(Kind::ImageError, "picture larger than its region"));
        }
        let n_up = self.text_up().len();
        let n_down = self.text_down().len();
        if n_up == 0 || n_down == 0 || si.text_down_h < BOTTOM_MARGIN || w < 20 {
            return Err(Error::from_message(Kind::Other, "no room for the captions"));
        }
        let mut image = Canvas::new(w, h, Color::new(0, 0, 0, 0));
        let ghost c0 = image;
        let placed = image.copy_from(picture, (w - picture.width) / 2, (si.pic_h - picture.height) / 2);
        assert(placed);
        let ghost c1 = image;
        let (pic_h, up_h, down_h) = (si.pic_h, si.text_up_h, si.text_down_h);
        let up_r: u32 = if (w - 1) / 2 < 10 { (w - 1) / 2 } else { 10 };
        let up_r: u32 = if up_h / 2 < up_r { up_h / 2 } else { up_r };
        let down_r: u32 = if (w - 1) / 2 < 10 { (w - 1) / 2 } else { 10 };
        let down_r: u32 = if down_h / 2 < down_r { down_h / 2 } else { down_r };
        image.draw_filled_rounded_rect_mut(Rect::at(1, pic_h as i32).of_size(w - 1, up_h), up_r as i32, si.text_background_color.0);
        let ghost c2 = image;
        image.draw_filled_rounded_rect_mut(Rect::at(1, (pic_h + up_h) as i32).of_size(w - 1, down_h), down_r as i32, si.text_background_color.1);
        let ghost c3 = image;
        image.draw_line_segment_mut((0, 10), (0, h as i32), si.text_color);
        proof {
            assert forall|x: int, y: int| #![trigger image.at(x, y)] image.in_bounds(x, y) implies image.at(x, y) == tile_pixel(si, *picture, x, y) by {
                assert(c3.at(x, y) == c2.at(x, y) || in_rounded_area(1, (pic_h + up_h) as int, w - 1, down_h as int, down_r as int, x, y));
                assert(c2.at(x, y) == c1.at(x, y) || in_rounded_area(1, pic_h as int, w - 1, up_h as int, up_r as int, x, y));
                assert(c0.at(x, y) == Color { r: 0, g: 0, b: 0, a: 0 });
            }
        }
        let up_boxes = line_boxes(n_up, pic_h, w, up_h);
        let down_boxes = line_boxes(n_down, pic_h + up_h, w, down_h - BOTTOM_MARGIN);
        Ok(DrawnChunk { image, text_up_boxes: up_boxes, text_down_boxes: down_boxes })
    }
}

/// Why joining tile images fails, if it does: there are none, the frame
/// would be too wide or too large, or a tile is larger than its slot.
pub open spec fn join_failure(tiles: Seq<Canvas>, w: int, h: int) -> Option<Kind> {
    if tiles.len() == 0 {
        Some(Kind::Other)
    } else if tiles.len() * w > u32::MAX || tiles.len() * w * h > usize::MAX {
        Some(Kind::TryFromIntError)
    } else if exists|i: int| 0 <= i < tiles.len() && (#[trigger] tiles[i].width > w || tiles[i].height > h) {
        Some(Kind::ImageError)
    } else {
        None
    }
}

/// Pixel `(x, y)` of tiles joined side by side in slots `w` wide: that of the
/// tile whose slot holds column `x`, transparent black where the tile is smaller.
pub open spec fn joined_pixel(tiles: Seq<Canvas>, w: int, x: int, y: int) -> Color {
    let t = tiles[x / w];
    if x % w < t.width && y < t.height {
        t.at(x % w, y)
    } else {
        Color { r: 0, g: 0, b: 0, a: 0 }
    }
}

proof fn lemma_slot(x: int, w: int, i: int)
    requires
        w > 0,
        i * w <= x < i * w + w,
    ensures
        x / w == i,
        x % w == x - i * w,
{
    vstd::arithmetic::div_mod::lemma_fundamental_div_mod_converse(x, w, i, x - i * w);
}

/// Joins tile images side by side in slots `w` wide, tile `i` at `x = i * w`,
/// into one image `h` high.
pub fn join_tiles(tiles: &Vec<Canvas>, w: u32, h: u32) -> (r: Result<Canvas, Error>)
    requires
        w > 0,
        forall|i: int| 0 <= i < tiles@.len() ==> (#[trigger] tiles@[i]).wf(),
    ensures
        r is Err <==> join_failure(tiles@, w as int, h as int) is Some,
        r matches Err(e) ==> Some(e.kind) == join_failure(tiles@, w as int, h as int),
        r matches Ok(c) ==> {
            &&& c.wf()
            &&& c.width == tiles@.len() * w
            &&& c.height == h
            &&& forall|x: int, y: int| #![trigger c.at(x, y)]
                c.in_bounds(x, y) ==> c.at(x, y) == joined_pixel(tiles@, w as int, x, y)
        },
{
    let n = tiles.len();
    if n == 0 {
        return Err(Error::from_message(Kind::Other, "Empty chunk"));
    }
    if n as u64 > u32::MAX as u64 / w as u64 {
        proof {
            assert(n * w > u32::MAX) by (nonlinear_arith)
                requires
                    n > u32::MAX as int / w as int,
                    w > 0,
            ;
        }
        return Err(Error::from_message(Kind::TryFromIntError, "frame too wide"));
    }
    proof {
        assert(n * w <= u32::MAX) by (nonlinear_arith)
            requires
                n <= u32::MAX as int / w as int,
                w > 0,
        ;
    }
    let width = n as u32 * w;
    assert(width as u64 * h as u64 <= 0xffff_ffff_ffff_ffff) by (nonlinear_arith)
        requires
            width <= 0xffff_ffff,
            h <= 0xffff_ffff,
    ;
    if width as u64 * h as u64 > usize::MAX as u64 {
        return Err(Error::from_message(Kind::TryFromIntError, "frame too large"));
    }
    let mut k: usize = 0;
    while k < n
        invariant
            k <= n,
            n == tiles@.len(),
            n > 0,
            width == n * w,
            width <= u32::MAX,
            width * h <= usize::MAX,
            forall|j: int| 0 <= j < k ==> !(#[trigger] tiles@[j].width > w || tiles@[j].height > h),
        decreases n - k,
    {
        if tiles[k].width > w || tiles[k].height > h {
            proof {
                assert(tiles@[k as int].width > w || tiles@[k as int].height > h);
            }
            return Err(Error::from_message(Kind::ImageError, "tile larger than its slot"));
        }
        k = k + 1;
    }
    let mut c = Canvas::new(width, h, Color::new(0, 0, 0, 0));
    let mut i: usize = 0;
    while i < n
        invariant
            i <= n,
            n == tiles@.len(),
            w > 0,
            width == n * w,
            c.wf(),
            c.width == width,
            c.height == h,
            forall|j: int| 0 <= j < tiles@.len() ==> (#[trigger] tiles@[j]).wf(),
            forall|j: int| 0 <= j < n ==> !(#[trigger] tiles@[j].width > w || tiles@[j].height > h),
            forall|x: int, y: int| #![trigger c.at(x, y)]
                c.in_bounds(x, y) ==> c.at(x, y) == if x < i * w {
                    joined_pixel(tiles@, w as int, x, y)
                } else {
                    Color { r: 0, g: 0, b: 0, a: 0 }
                },
        decreases n - i,
    {
        proof {
            assert(i * w + w <= n * w) by (nonlinear_arith)
                requires
                    i < n,
            ;
        }
        let ghost before = c;
        let x0 = (i as u64 * w as u64) as u32;
        assert(x0 == i * w);
        let placed = c.copy_from(&tiles[i], x0, 0);
        proof {
            assert(tiles@[i as int].width <= w && tiles@[i as int].height <= h);
            assert(placed);
            assert forall|x: int, y: int| #![trigger c.at(x, y)] c.in_bounds(x, y) implies c.at(x, y) == if x < (i + 1) * w {
                joined_pixel(tiles@, w as int, x, y)
            } else {
                Color { r: 0, g: 0, b: 0, a: 0 }
            } by {
                assert((i + 1) * w == i * w + w) by (nonlinear_arith);
                if i * w <= x < i * w + w {
                    lemma_slot(x, w as int, i as int);
                }
                assert(before.at(x, y) == if x < i * w {
                    joined_pixel(tiles@, w as int, x, y)
                } else {
                    Color { r: 0, g: 0, b: 0, a: 0 }
                });
            }
        }
        i = i + 1;
    }
    proof {
        assert forall|x: int, y: int| #![trigger c.at(x, y)] c.in_bounds(x, y) implies c.at(x, y) == joined_pixel(tiles@, w as int, x, y) by {
            assert(x < n * w);
        }
    }
    Ok(c)
}

impl<'a> BigImg<'a> {
    /// Joins the drawn tiles of one frame side by side, tile `i` at
    /// `x = i * width_chunk`, into one image as high as the screen.
    pub fn combain_chunk(&self, tiles: &Vec<Canvas>) -> (r: Result<Canvas, Error>)
        requires
            self.wf(),
            forall|i: int| 0 <= i < tiles@.len() ==> (#[trigger] tiles@[i]).wf(),
        ensures
            r is Err <==> join_failure(tiles@, self.width_chunk as int, self.screen.1 as int) is Some,
            r matches Err(e) ==> Some(e.kind) == join_failure(tiles@, self.width_chunk as int, self.screen.1 as int),
            r matches Ok(c) ==> {
                &&& c.wf()
                &&& c.width == tiles@.len() * self.width_chunk
                &&& c.height == self.screen.1
                &&& forall|x: int, y: int| #![trigger c.at(x, y)]
                    c.in_bounds(x, y) ==> c.at(x, y) == joined_pixel(tiles@, self.width_chunk as int, x, y)
            },
    {
        join_tiles(tiles, self.width_chunk, self.screen.1)
    }
}

} // verus!
