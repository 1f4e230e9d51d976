//! The integer side of text rendering: where each centred line starts, and
//! how a glyph's coverage blends a color over the canvas.
use vstd::prelude::*;
use crate::canvas::{Canvas, Color};
use crate::rect::Rect;

verus! {

/// Half of what is left of `total` after `part`, rounded toward zero; negative
/// when `part` is the larger.
pub open spec fn half_gap(total: int, part: int) -> int {
    if total >= part {
        (total - part) / 2
    } else {
        -((part - total) / 2)
    }
}

/// Where line `i` of a block of lines `line_height` high starts when each
/// line is centred across `rect` and the block is centred down it.
pub open spec fn line_origin(rect: Rect, widths: Seq<u32>, line_height: int, i: int) -> (int, int) {
    let block = line_height * widths.len();
    (
        rect.spec_left() + half_gap(rect.spec_width(), widths[i] as int),
        rect.spec_top() + half_gap(rect.spec_height(), block) + line_height * i,
    )
}

fn half_gap_exec(total: i64, part: i64) -> (r: i64)
    requires
        -0x1_0000_0000_0000 <= total <= 0x1_0000_0000_0000,
        -0x1_0000_0000_0000 <= part <= 0x1_0000_0000_0000,
    ensures
        r == half_gap(total as int, part as int),
{
    if total >= part {
        (total - part) / 2
    } else {
        -((part - total) / 2)
    }
}

/// The start of each line of a block of lines of the given widths, each
/// `line_height` high, centred in `rect`: every line across on its own, the
/// block down as a whole.
pub fn text_block_origins(rect: Rect, widths: &Vec<u32>, line_height: u32) -> (origins: Vec<(i64, i64)>)
    requires
        line_height as int * widths@.len() <= u32::MAX,
    ensures
        origins@.len() == widths@.len(),
        forall|i: int| 0 <= i < widths@.len() ==> origins@[i].0 == line_origin(rect, widths@, line_height as int, i).0
            && origins@[i].1 == line_origin(rect, widths@, line_height as int, i).1,
{
    let n = widths.len();
    let block: u64 = if line_height == 0 { 0 } else { line_height as u64 * n as u64 };
    proof {
        if line_height > 0 {
            assert(n <= line_height * n) by (nonlinear_arith)
                requires
                    line_height >= 1,
            ;
        }
    }
    let left = rect.left() as i64;
    let top = rect.top() as i64;
    let down = half_gap_exec(rect.height() as i64, block as i64);
    let mut origins: Vec<(i64, i64)> = Vec::new();
    let mut i: usize = 0;
    while i < n
        invariant
            n == widths@.len(),
            line_height as int * n <= u32::MAX,
            i <= n,
            i32::MIN <= left <= i32::MAX,
            i32::MIN <= top <= i32::MAX,
            -0x1_0000_0000 <= down <= 0x1_0000_0000,
            down == half_gap(rect.spec_height(), block as int),
            origins@.len() == i,
            left == rect.spec_left(),
            top == rect.spec_top(),
            block == line_height * n,
            forall|k: int| 0 <= k < i ==> origins@[k].0 == line_origin(rect, widths@, line_height as int, k).0
                && origins@[k].1 == line_origin(rect, widths@, line_height as int, k).1,
        decreases n - i,
    {
        let x = left + half_gap_exec(rect.width() as i64, widths[i] as i64);
        proof {
            assert(line_height * i <= line_height * n) by (nonlinear_arith)
                requires
                    i <= n,
            ;
            if line_height > 0 {
                assert(n <= line_height * n) by (nonlinear_arith)
                    requires
                        line_height >= 1,
                ;
            }
        }
        let dy: u64 = if line_height == 0 { 0 } else { line_height as u64 * i as u64 };
        let y = top + down + dy as i64;
        origins.push((x, y));
        i = i + 1;
    }
    origins
}

/// One channel of `src` laid over `dst` with weight `coverage / 255`, rounded
/// to the nearest value.
pub open spec fn blend_channel(dst: int, src: int, coverage: int) -> int {
    (src * coverage + dst * (255 - coverage) + 127) / 255
}

/// `src` laid over `dst` with weight `coverage / 255` on every channel.
pub open spec fn blended(dst: Color, src: Color, coverage: int) -> Color {
    Color {
        r: blend_channel(dst.r as int, src.r as int, coverage) as u8,
        g: blend_channel(dst.g as int, src.g as int, coverage) as u8,
        b: blend_channel(dst.b as int, src.b as int, coverage) as u8,
        a: blend_channel(dst.a as int, src.a as int, coverage) as u8,
    }
}

fn blend_channel_exec(dst: u8, src: u8, coverage: u8) -> (r: u8)
    ensures
        r == blend_channel(dst as int, src as int, coverage as int),
{
    let (s, d, c) = (src as u32, dst as u32, coverage as u32);
    assert(s * c <= 255 * 255 && d * (255 - c) <= 255 * 255 && s * c + d * (255 - c) <= 255 * 255) by (nonlinear_arith)
        requires
            s <= 255,
            d <= 255,
            c <= 255,
    ;
    let v: u32 = s * c + d * (255 - c) + 127;
    (v / 255) as u8
}

/// `src` laid over `dst` with weight `coverage / 255`.
pub fn blend(dst: Color, src: Color, coverage: u8) -> (c: Color)
    ensures
        c == blended(dst, src, coverage as int),
{
    Color {
        r: blend_channel_exec(dst.r, src.r, coverage),
        g: blend_channel_exec(dst.g, src.g, coverage),
        b: blend_channel_exec(dst.b, src.b, coverage),
        a: blend_channel_exec(dst.a, src.a, coverage),
    }
}

impl Canvas {
    /// Lays `color` over pixel `(x, y)` with weight `coverage / 255`, if the
    /// pixel lies on the canvas; does nothing otherwise.
    pub fn blend_pixel(&mut self, x: i64, y: i64, color: Color, coverage: u8)
        requires
            old(self).wf(),
        ensures
            final(self).wf(),
            final(self).width == old(self).width,
            final(self).height == old(self).height,
            forall|a: int, b: int|
                #![trigger final(self).at(a, b)]
                final(self).in_bounds(a, b) ==> final(self).at(a, b) == if a == x && b == y {
                    blended(old(self).at(a, b), color, coverage as int)
                } else {
                    old(self).at(a, b)
                },
    {
        if x >= 0 && x < self.width as i64 && y >= 0 && y < self.height as i64 {
            let dst = self.get_pixel(x as u32, y as u32);
            let c = blend(dst, color, coverage);
            self.draw_pixel(x as u32, y as u32, c);
        }
    }
}

} // verus!
