//! A software canvas: a pixel buffer that consumes a display list by
//! overwrite-painting each command's rectangle, clipped to the canvas bounds,
//! in list order — later commands occlude earlier ones where they overlap.

use vstd::prelude::*;

use crate::css::Color;
use crate::geometry::{clip, px_add, Rect};
use crate::layout::LayoutBox;
use crate::paint::{build_display_list, cmd_color, cmd_rect, display_list_spec, DisplayCommand};

verus! {

use vstd::arithmetic::div_mod::lemma_fundamental_div_mod_converse;

/// Clamp `v` into the interval from zero to `hi`.
pub open spec fn clamp_to(v: int, hi: int) -> int {
    if v < 0 {
        0
    } else if v > hi {
        hi
    } else {
        v
    }
}

/// Opaque white, the background every canvas starts from.
pub open spec fn white() -> Color {
    Color { r: 255, g: 255, b: 255, a: 255 }
}

/// A pixel buffer of `width * height` colours, row-major, top row first.
pub struct Canvas {
    pub pixels: Vec<Color>,
    pub width: usize,
    pub height: usize,
}

impl Canvas {
    /// The buffer holds one colour per pixel, and the sides fit in the pixel
    /// range.
    pub open spec fn wf(self) -> bool {
        self.pixels@.len() == self.width * self.height && self.width <= i64::MAX
            && self.height <= i64::MAX
    }

    /// Create a blank canvas, initialized to opaque white.
    pub fn new(width: usize, height: usize) -> (r: Canvas)
        requires
            width * height <= usize::MAX,
            width <= i64::MAX,
            height <= i64::MAX,
        ensures
            r.wf(),
            r.width == width,
            r.height == height,
            r.pixels@ == Seq::new((width * height) as nat, |k: int| white()),
    {
        let total = width * height;
        let mut pixels: Vec<Color> = Vec::new();
        let mut i: usize = 0;
        while i < total
            invariant
                i <= total,
                pixels@.len() == i,
                forall|k: int| 0 <= k < i ==> pixels@[k] == white(),
            decreases total - i,
        {
            pixels.push(Color::new(255, 255, 255, 255));
            i = i + 1;
        }
        let r = Canvas { pixels, width, height };
        proof {
            assert(r.pixels@ =~= Seq::new((width * height) as nat, |k: int| white()));
        }
        r
    }

    /// Whether the pixel at buffer index `k` lies inside the clipped
    /// rectangle with columns `x0..x1` and rows `y0..y1`.
    pub open spec fn covers(k: int, w: int, x0: int, x1: int, y0: int, y1: int) -> bool {
        w > 0 && x0 <= k % w < x1 && y0 <= k / w < y1
    }

    /// The buffer after one command: the command's rectangle is clipped to
    /// the canvas and every covered pixel is overwritten with its colour; no
    /// blending takes place.
    pub open spec fn apply_cmd(pix: Seq<Color>, w: int, h: int, cmd: DisplayCommand) -> Seq<
        Color,
    > {
        let r = cmd_rect(cmd);
        let x0 = clamp_to(r.x as int, w);
        let y0 = clamp_to(r.y as int, h);
        let x1 = clamp_to(clip(r.x + r.width), w);
        let y1 = clamp_to(clip(r.y + r.height), h);
        Seq::new(
            pix.len(),
            |k: int|
                if Self::covers(k, w, x0, x1, y0, y1) {
                    cmd_color(cmd)
                } else {
                    pix[k]
                },
        )
    }

    /// Paint one command onto the canvas.
    #[verifier::loop_isolation(false)]
    pub fn paint_item(&mut self, item: &DisplayCommand)
        requires
            old(self).wf(),
        ensures
            final(self).wf(),
            final(self).width == old(self).width,
            final(self).height == old(self).height,
            final(self).pixels@ == Canvas::apply_cmd(
                old(self).pixels@,
                old(self).width as int,
                old(self).height as int,
                *item,
            ),
    {
        let DisplayCommand::SolidColor(color, rect) = item;
        let w = self.width;
        let h = self.height;
        // Clip the rectangle to the canvas boundaries.
        let x0 = clamp_px(rect.x, w);
        let y0 = clamp_px(rect.y, h);
        let x1 = clamp_px(px_add(rect.x, rect.width), w);
        let y1 = clamp_px(px_add(rect.y, rect.height), h);
        let ghost x0i = x0 as int;
        let ghost x1i = x1 as int;
        let ghost y0i = y0 as int;
        let ghost y1i = y1 as int;
        let ghost pix0 = self.pixels@;
        let mut y = y0;
        while y < y1
            invariant
                y0 <= y <= y1 || y == y0,
                self.width == w,
                self.height == h,
                self.pixels@.len() == pix0.len(),
                forall|k: int|
                    0 <= k < pix0.len() ==> self.pixels@[k] == if Canvas::covers(
                        k,
                        w as int,
                        x0i,
                        x1i,
                        y0i,
                        y1i,
                    ) && k / (w as int) < y {
                        *color
                    } else {
                        pix0[k]
                    },
            decreases y1 - y,
        {
            let mut x = x0;
            while x < x1
                invariant
                    x0 <= x <= x1 || x == x0,
                    y0 <= y < y1,
                    self.width == w,
                    self.height == h,
                    self.pixels@.len() == pix0.len(),
                    forall|k: int|
                        0 <= k < pix0.len() ==> self.pixels@[k] == if Canvas::covers(
                            k,
                            w as int,
                            x0i,
                            x1i,
                            y0i,
                            y1i,
                        ) && (k / (w as int) < y || (k / (w as int) == y && k % (w as int) < x)) {
                            *color
                        } else {
                            pix0[k]
                        },
                decreases x1 - x,
            {
                proof {
                    assert(vstd::std_specs::vec::spec_vec_len(&self.pixels) == self.pixels@.len());
                    assert((y as int) * (w as int) + (x as int) < (w as int) * (h as int)
                        && 0 <= (y as int) * (w as int) + (x as int) && (y as int) * (w as int)
                        + (x as int) <= usize::MAX) by (nonlinear_arith)
                        requires
                            0 <= x < w,
                            0 <= y < h,
                            (w as int) * (h as int) <= usize::MAX,
                    {
                    }
                }
                let idx = x + y * w;
                proof {
                    lemma_fundamental_div_mod_converse(idx as int, w as int, y as int, x as int);
                }
                self.pixels[idx] = *color;
                proof {
                    let wi = w as int;
                    assert forall|k: int| 0 <= k < pix0.len() implies self.pixels@[k] == (
                    if Canvas::covers(k, wi, x0i, x1i, y0i, y1i) && (k / wi < y || (k / wi == y
                        && k % wi < x + 1)) {
                        *color
                    } else {
                        pix0[k]
                    }) by {
                        if k != idx as int && Canvas::covers(k, wi, x0i, x1i, y0i, y1i) && k / wi
                            == y && k % wi == x {
                            let q = k / wi;
                            let r = k % wi;
                            vstd::arithmetic::div_mod::lemma_fundamental_div_mod(k, wi);
                            assert(k == wi * q + r);
                            assert(wi * q == wi * (y as int));
                            assert(wi * (y as int) == (y as int) * wi) by (nonlinear_arith);
                            assert(k == idx as int);
                        }
                    }
                }
                x = x + 1;
            }
            y = y + 1;
        }
        proof {
            assert(self.pixels@ =~= Canvas::apply_cmd(pix0, w as int, h as int, *item));
        }
    }
}

/// Clamp a pixel coordinate into the interval from zero to `hi`.
fn clamp_px(v: i64, hi: usize) -> (r: usize)
    requires
        hi <= i64::MAX,
    ensures
        r as int == clamp_to(v as int, hi as int),
{
    if v < 0 {
        0
    } else if v > hi as i64 {
        hi
    } else {
        v as usize
    }
}

/// The canvas buffer after painting the commands from index `i` on, in
/// order.
pub open spec fn painted_from(
    cmds: Seq<DisplayCommand>,
    i: int,
    pix: Seq<Color>,
    w: int,
    h: int,
) -> Seq<Color>
    decreases cmds.len() - i,
{
    if i < 0 || i >= cmds.len() {
        pix
    } else {
        painted_from(cmds, i + 1, Canvas::apply_cmd(pix, w, h, cmds[i]), w, h)
    }
}

/// Paint a laid-out tree onto a fresh white canvas sized to `bounds`: the
/// display list is built in paint order and each command overwrite-paints
/// its clipped rectangle.
#[verifier::loop_isolation(false)]
pub fn paint(layout_root: &LayoutBox, bounds: Rect) -> (canvas: Canvas)
    requires
        0 <= bounds.width,
        0 <= bounds.height,
        bounds.width * bounds.height <= usize::MAX,
        bounds.width <= usize::MAX,
        bounds.height <= usize::MAX,
    ensures
        canvas.wf(),
        canvas.width == bounds.width,
        canvas.height == bounds.height,
        canvas.pixels@ == painted_from(
            display_list_spec(layout_root@),
            0,
            Seq::new((bounds.width * bounds.height) as nat, |k: int| white()),
            bounds.width as int,
            bounds.height as int,
        ),
{
    let display_list = build_display_list(layout_root);
    let mut canvas = Canvas::new(bounds.width as usize, bounds.height as usize);
    let ghost cmds = display_list@;
    let ghost start = canvas.pixels@;
    let mut i: usize = 0;
    while i < display_list.len()
        invariant
            i <= cmds.len(),
            canvas.wf(),
            canvas.width == bounds.width,
            canvas.height == bounds.height,
            painted_from(cmds, i as int, canvas.pixels@, bounds.width as int, bounds.height as int)
                == painted_from(cmds, 0, start, bounds.width as int, bounds.height as int),
        decreases cmds.len() - i,
    {
        canvas.paint_item(&display_list[i]);
        i = i + 1;
    }
    canvas
}

} // verus!
