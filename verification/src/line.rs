//! Straight lines along the pixel grid.

use crate::framebuffer::Framebuffer;
use crate::tile::{lemma_cell_in_grid, pixel};
use vstd::prelude::*;

verus! {

/// Draws lines on a framebuffer.
#[derive(Default)]
pub struct LineRenderer;

impl LineRenderer {
    /// Lines need nothing from the viewport: nothing changes.
    pub fn update_viewport(&mut self, width: usize, height: usize)
        ensures
            *final(self) == *old(self),
    {
    }

    /// Draws `length` pixels from `(x, y)` to the right.  The depth plane
    /// stays as it is.
    pub fn draw_h_line<C: Copy, D: Copy>(
        &mut self,
        fb: &mut Framebuffer<C, D>,
        x: usize,
        y: usize,
        length: usize,
        colour: C,
    )
        requires
            old(fb).wf(),
            x < old(fb).spec_width(),
            y < old(fb).spec_height(),
            x + length <= old(fb).spec_width(),
        ensures
            final(fb).wf(),
            final(fb).spec_width() == old(fb).spec_width(),
            final(fb).spec_height() == old(fb).spec_height(),
            final(fb).depths() == old(fb).depths(),
            forall|px: int, py: int|
                0 <= px < old(fb).spec_width() && 0 <= py < old(fb).spec_height() ==> #[trigger] pixel(
                    final(fb),
                    px,
                    py,
                ).0 == (if py == y && x <= px < x + length {
                    colour
                } else {
                    pixel(old(fb), px, py).0
                }),
    {
        let width = fb.width();
        let len = fb.pixels().len();
        let ghost w = width as int;
        let ghost h = fb.spec_height() as int;
        proof {
            lemma_cell_in_grid(w, h, x as int, y as int);
            assert(0 <= y * width && y * w + w <= w * h) by (nonlinear_arith)
                requires
                    0 <= y < h,
                    0 <= w,
                    w == width,
            ;
        }
        let start = (y * width) + x;
        let end = start + length;
        let mut i = start;
        while i < end
            invariant
                start <= i <= end,
                start == y * w + x,
                end == start + length,
                x + length <= w,
                y < h,
                w == fb.spec_width(),
                h == fb.spec_height(),
                w == old(fb).spec_width(),
                h == old(fb).spec_height(),
                fb.wf(),
                len == w * h,
                fb.depths() == old(fb).depths(),
                forall|px: int, py: int|
                    0 <= px < w && 0 <= py < h ==> #[trigger] pixel(fb, px, py).0 == (if py == y
                        && x <= px < x + (i - start) {
                        colour
                    } else {
                        pixel(old(fb), px, py).0
                    }),
            decreases end - i,
        {
            let ghost before = *fb;
            proof {
                lemma_cell_in_grid(w, h, x + (i - start), y as int);
            }
            fb.set_pixel(i, colour);
            proof {
                assert forall|px: int, py: int| 0 <= px < w && 0 <= py < h implies #[trigger] pixel(
                    fb,
                    px,
                    py,
                ).0 == (if py == y && x <= px < x + (i + 1 - start) {
                    colour
                } else {
                    pixel(old(fb), px, py).0
                }) by {
                    lemma_cell_in_grid(w, h, px, py);
                    let _ = pixel(&before, px, py);
                }
            }
            i += 1;
        }
    }

    /// Draws `length` pixels from `(x, y)` downwards.  The depth plane stays
    /// as it is.
    pub fn draw_v_line<C: Copy, D: Copy>(
        &mut self,
        fb: &mut Framebuffer<C, D>,
        x: usize,
        y: usize,
        length: usize,
        colour: C,
    )
        requires
            old(fb).wf(),
            x < old(fb).spec_width(),
            y <= old(fb).spec_height(),
            y + length <= old(fb).spec_height(),
        ensures
            final(fb).wf(),
            final(fb).spec_width() == old(fb).spec_width(),
            final(fb).spec_height() == old(fb).spec_height(),
            final(fb).depths() == old(fb).depths(),
            forall|px: int, py: int|
                0 <= px < old(fb).spec_width() && 0 <= py < old(fb).spec_height() ==> #[trigger] pixel(
                    final(fb),
                    px,
                    py,
                ).0 == (if px == x && y <= py < y + length {
                    colour
                } else {
                    pixel(old(fb), px, py).0
                }),
    {
        let width = fb.width();
        let len = fb.pixels().len();
        let ghost w = width as int;
        let ghost h = fb.spec_height() as int;
        let mut row: usize = 0;
        while row < length
            invariant
                row <= length,
                x < w,
                y + length <= h,
                width == w,
                w == fb.spec_width(),
                h == fb.spec_height(),
                w == old(fb).spec_width(),
                h == old(fb).spec_height(),
                fb.wf(),
                len == w * h,
                fb.depths() == old(fb).depths(),
                forall|px: int, py: int|
                    0 <= px < w && 0 <= py < h ==> #[trigger] pixel(fb, px, py).0 == (if px == x
                        && y <= py < y + row {
                        colour
                    } else {
                        pixel(old(fb), px, py).0
                    }),
            decreases length - row,
        {
            let ghost before = *fb;
            proof {
                lemma_cell_in_grid(w, h, x as int, y + row);
                assert(0 <= (y + row) * width) by (nonlinear_arith);
            }
            let i = (y + row) * width + x;
            fb.set_pixel(i, colour);
            proof {
                assert forall|px: int, py: int| 0 <= px < w && 0 <= py < h implies #[trigger] pixel(
                    fb,
                    px,
                    py,
                ).0 == (if px == x && y <= py < y + row + 1 {
                    colour
                } else {
                    pixel(old(fb), px, py).0
                }) by {
                    lemma_cell_in_grid(w, h, px, py);
                    let _ = pixel(&before, px, py);
                }
            }
            row += 1;
        }
    }
}

} // verus!
