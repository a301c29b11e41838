//! Editor state: the canvas being edited, the selected color, and the
//! channel-selection cycle, with the grid arithmetic that maps pointer
//! positions to canvas cells. Input polling and rendering stay outside;
//! this module turns their plain values into canvas updates and draw
//! rectangles.

use vstd::prelude::*;

use crate::color::Pixel;
use crate::geometry::{constrain, spec_constrain, Size};
use crate::ppt::{dec_bytes, push_all, u32_to_dec};
use crate::sprite::Sprite;

verus! {

/// Which color channel of the selected color is being edited.
#[derive(Clone, Copy, PartialEq, Eq, Structural, Debug)]
pub enum Selection {
    R,
    G,
    B,
}

impl Selection {
    /// The next channel, wrapping from blue back to red.
    pub open spec fn next_spec(self) -> Selection {
        match self {
            Selection::R => Selection::G,
            Selection::G => Selection::B,
            Selection::B => Selection::R,
        }
    }

    /// The previous channel, wrapping from red back to blue.
    pub open spec fn prev_spec(self) -> Selection {
        match self {
            Selection::R => Selection::B,
            Selection::G => Selection::R,
            Selection::B => Selection::G,
        }
    }

    /// The next channel, wrapping from blue back to red.
    pub fn next(self) -> (r: Selection)
        ensures
            r == self.next_spec(),
    {
        match self {
            Selection::R => Selection::G,
            Selection::G => Selection::B,
            Selection::B => Selection::R,
        }
    }

    /// The previous channel, wrapping from red back to blue.
    pub fn prev(self) -> (r: Selection)
        ensures
            r == self.prev_spec(),
    {
        match self {
            Selection::R => Selection::B,
            Selection::G => Selection::R,
            Selection::B => Selection::G,
        }
    }
}

/// Adding ten to a channel, stopping at the top of the range.
pub open spec fn sat_add_ten(v: u8) -> u8 {
    if v + 10 > 255 {
        255
    } else {
        (v + 10) as u8
    }
}

/// Taking ten from a channel, stopping at zero.
pub open spec fn sat_sub_ten(v: u8) -> u8 {
    if v < 10 {
        0
    } else {
        (v - 10) as u8
    }
}

/// One grid cell drawn as a filled screen rectangle.
pub struct CellRect {
    pub x: u32,
    pub y: u32,
    pub width: u32,
    pub height: u32,
    pub color: Pixel,
}

/// The editor: a canvas, its screen scale, and the color being painted.
pub struct Editor {
    pub canvas: Sprite,
    pub scale: u32,
    pub size: Size,
    pub selected_color: Pixel,
    pub selection: Selection,
}

impl Editor {
    /// The canvas matches the requested grid exactly, and the grid and
    /// scale are non-degenerate.
    pub open spec fn wf(&self) -> bool {
        &&& self.canvas@.wf()
        &&& self.canvas.size == self.size
        &&& self.scale >= 1
        &&& self.size.width >= 1
        &&& self.size.height >= 1
    }

    /// The canvas the editor starts with: a loaded image kept only when
    /// its dimensions are exactly the requested grid, else a freshly
    /// blank canvas of that grid. Dimension mismatch discards the loaded
    /// content; nothing is resized.
    pub fn initial_canvas(loaded: Option<Sprite>, size: Size) -> (r: Sprite)
        requires
            size.width * size.height <= usize::MAX,
            loaded matches Some(c) ==> c@.wf(),
        ensures
            r@.wf(),
            r.size == size,
            match loaded {
                Some(c) => {
                    if c.size == size {
                        r == c
                    } else {
                        r.pixels@ == Seq::new(
                            (size.width * size.height) as nat,
                            |i: int| Pixel { r: 0u8, g: 0u8, b: 0u8, a: 0u8 },
                        )
                    }
                },
                None => r.pixels@ == Seq::new(
                    (size.width * size.height) as nat,
                    |i: int| Pixel { r: 0u8, g: 0u8, b: 0u8, a: 0u8 },
                ),
            },
    {
        match loaded {
            Some(c) => {
                if c.size.width == size.width && c.size.height == size.height {
                    c
                } else {
                    Sprite::blank(size)
                }
            },
            None => Sprite::blank(size),
        }
    }

    /// A fresh editor over the given canvas.
    pub fn new(canvas: Sprite, scale: u32, size: Size) -> (e: Editor)
        requires
            canvas@.wf(),
            canvas.size == size,
            scale >= 1,
            size.width >= 1,
            size.height >= 1,
        ensures
            e.wf(),
            e.canvas == canvas,
            e.scale == scale,
            e.size == size,
            e.selected_color == (Pixel { r: 100u8, g: 100u8, b: 100u8, a: 255u8 }),
            e.selection == Selection::R,
    {
        Editor {
            canvas,
            scale,
            size,
            selected_color: Pixel { r: 100, g: 100, b: 100, a: 255 },
            selection: Selection::R,
        }
    }

    /// Step the channel selection forward.
    pub fn selection_increase(&mut self)
        ensures
            final(self).selection == old(self).selection.next_spec(),
            final(self).canvas == old(self).canvas,
            final(self).scale == old(self).scale,
            final(self).size == old(self).size,
            final(self).selected_color == old(self).selected_color,
    {
        self.selection = self.selection.next();
    }

    /// Step the channel selection backward.
    pub fn selection_decrease(&mut self)
        ensures
            final(self).selection == old(self).selection.prev_spec(),
            final(self).canvas == old(self).canvas,
            final(self).scale == old(self).scale,
            final(self).size == old(self).size,
            final(self).selected_color == old(self).selected_color,
    {
        self.selection = self.selection.prev();
    }

    /// Raise the selected channel of the selected color by ten,
    /// saturating at the top of the range.
    pub fn color_increase(&mut self)
        ensures
            final(self).selected_color == (match old(self).selection {
                Selection::R => Pixel { r: sat_add_ten(old(self).selected_color.r), ..old(self).selected_color },
                Selection::G => Pixel { g: sat_add_ten(old(self).selected_color.g), ..old(self).selected_color },
                Selection::B => Pixel { b: sat_add_ten(old(self).selected_color.b), ..old(self).selected_color },
            }),
            final(self).selection == old(self).selection,
            final(self).canvas == old(self).canvas,
            final(self).scale == old(self).scale,
            final(self).size == old(self).size,
    {
        let c = self.selected_color;
        match self.selection {
            Selection::R => {
                let v = if c.r > 245 { 255 } else { c.r + 10 };
                self.selected_color = Pixel { r: v, g: c.g, b: c.b, a: c.a };
            },
            Selection::G => {
                let v = if c.g > 245 { 255 } else { c.g + 10 };
                self.selected_color = Pixel { r: c.r, g: v, b: c.b, a: c.a };
            },
            Selection::B => {
                let v = if c.b > 245 { 255 } else { c.b + 10 };
                self.selected_color = Pixel { r: c.r, g: c.g, b: v, a: c.a };
            },
        }
    }

    /// Lower the selected channel of the selected color by ten,
    /// saturating at zero.
    pub fn color_decrease(&mut self)
        ensures
            final(self).selected_color == (match old(self).selection {
                Selection::R => Pixel { r: sat_sub_ten(old(self).selected_color.r), ..old(self).selected_color },
                Selection::G => Pixel { g: sat_sub_ten(old(self).selected_color.g), ..old(self).selected_color },
                Selection::B => Pixel { b: sat_sub_ten(old(self).selected_color.b), ..old(self).selected_color },
            }),
            final(self).selection == old(self).selection,
            final(self).canvas == old(self).canvas,
            final(self).scale == old(self).scale,
            final(self).size == old(self).size,
    {
        let c = self.selected_color;
        match self.selection {
            Selection::R => {
                let v = if c.r < 10 { 0 } else { c.r - 10 };
                self.selected_color = Pixel { r: v, g: c.g, b: c.b, a: c.a };
            },
            Selection::G => {
                let v = if c.g < 10 { 0 } else { c.g - 10 };
                self.selected_color = Pixel { r: c.r, g: v, b: c.b, a: c.a };
            },
            Selection::B => {
                let v = if c.b < 10 { 0 } else { c.b - 10 };
                self.selected_color = Pixel { r: c.r, g: c.g, b: v, a: c.a };
            },
        }
    }

    /// The grid cell under a pointer at screen position `(mx, my)`: each
    /// coordinate is clamped to the canvas's screen footprint and divided
    /// by the scale, truncating toward zero.
    pub fn grid_cell(&self, mx: u32, my: u32) -> (cell: (u32, u32))
        requires
            self.wf(),
            self.size.width * self.scale <= u32::MAX,
            self.size.height * self.scale <= u32::MAX,
        ensures
            cell.0 == spec_constrain(mx as int, 0, (self.size.width - 1) * self.scale) / (
            self.scale as int),
            cell.1 == spec_constrain(my as int, 0, (self.size.height - 1) * self.scale) / (
            self.scale as int),
            cell.0 < self.size.width,
            cell.1 < self.size.height,
    {
        proof {
            assert(((self.size.width - 1) as int) * (self.scale as int)
                <= (self.size.width as int) * (self.scale as int)) by (nonlinear_arith)
                requires
                    self.size.width >= 1,
                    self.scale >= 0,
            ;
            assert(((self.size.height - 1) as int) * (self.scale as int)
                <= (self.size.height as int) * (self.scale as int)) by (nonlinear_arith)
                requires
                    self.size.height >= 1,
                    self.scale >= 0,
            ;
        }
        let lim_x = (self.size.width - 1) * self.scale;
        let lim_y = (self.size.height - 1) * self.scale;
        let gx = constrain(mx, 0, lim_x) / self.scale;
        let gy = constrain(my, 0, lim_y) / self.scale;
        proof {
            let s = self.scale as int;
            vstd::arithmetic::div_mod::lemma_div_is_ordered(
                spec_constrain(mx as int, 0, lim_x as int), lim_x as int, s);
            vstd::arithmetic::div_mod::lemma_div_is_ordered(
                spec_constrain(my as int, 0, lim_y as int), lim_y as int, s);
            vstd::arithmetic::div_mod::lemma_div_multiples_vanish(
                self.size.width - 1, s);
            vstd::arithmetic::div_mod::lemma_div_multiples_vanish(
                self.size.height - 1, s);
            assert(lim_x as int == s * (self.size.width - 1));
            assert(lim_y as int == s * (self.size.height - 1));
        }
        (gx, gy)
    }

    /// Apply the pointer to the canvas: the right button erases the cell
    /// under it, the left button paints it with the selected color, the
    /// left button winning when both are down. With neither button down
    /// the canvas is untouched.
    pub fn pointer_update(&mut self, mx: u32, my: u32, left: bool, right: bool)
        requires
            old(self).wf(),
            old(self).size.width * old(self).scale <= u32::MAX,
            old(self).size.height * old(self).scale <= u32::MAX,
        ensures
            final(self).wf(),
            final(self).scale == old(self).scale,
            final(self).size == old(self).size,
            final(self).selected_color == old(self).selected_color,
            final(self).selection == old(self).selection,
            final(self).canvas.origin == old(self).canvas.origin,
            final(self).canvas.size == old(self).canvas.size,
            ({
                let gx = spec_constrain(mx as int, 0, (old(self).size.width - 1) * old(self).scale)
                    / (old(self).scale as int);
                let gy = spec_constrain(my as int, 0, (old(self).size.height - 1) * old(
                    self,
                ).scale) / (old(self).scale as int);
                let idx = gy * old(self).size.width + gx;
                if left {
                    final(self).canvas.pixels@ == old(self).canvas.pixels@.update(
                        idx,
                        old(self).selected_color,
                    )
                } else if right {
                    final(self).canvas.pixels@ == old(self).canvas.pixels@.update(
                        idx,
                        Pixel { r: 0u8, g: 0u8, b: 0u8, a: 0u8 },
                    )
                } else {
                    final(self).canvas.pixels@ == old(self).canvas.pixels@
                }
            }),
    {
        let (gx, gy) = self.grid_cell(mx, my);
        let buf_len = self.canvas.pixels.len();
        proof {
            assert((gy as int) * (self.size.width as int) + (gx as int)
                < (self.size.height as int) * (self.size.width as int)) by (nonlinear_arith)
                requires
                    0 <= gy < self.size.height,
                    0 <= gx < self.size.width,
            ;
            assert((self.size.height as int) * (self.size.width as int)
                == (self.size.width as int) * (self.size.height as int)) by (nonlinear_arith);
            assert((gy as int) * (self.size.width as int) + (gx as int) < buf_len);
        }
        let index = (gy as usize) * (self.size.width as usize) + (gx as usize);
        if right {
            self.canvas.set_pixel(index, Pixel::zero());
        }
        if left {
            self.canvas.set_pixel(index, self.selected_color);
        }
        proof {
            if right && left {
                assert(old(self).canvas.pixels@.update(index as int, Pixel { r: 0u8, g: 0u8, b: 0u8, a: 0u8 })
                    .update(index as int, old(self).selected_color) =~= old(
                    self,
                ).canvas.pixels@.update(index as int, old(self).selected_color));
            }
        }
    }

    /// The screen rectangles that render the canvas: one scaled square
    /// per grid cell, row-major, each filled with its cell's pixel.
    pub fn draw(&self) -> (cells: Vec<CellRect>)
        requires
            self.wf(),
            self.size.width * self.scale <= u32::MAX,
            self.size.height * self.scale <= u32::MAX,
        ensures
            cells@.len() == self.size.width * self.size.height,
            forall|i: int| 0 <= i < cells@.len() ==> cells@[i] == (CellRect {
                x: (((i as int % self.size.width as int) * self.scale as int) as u32),
                y: (((i as int / self.size.width as int) * self.scale as int) as u32),
                width: self.scale,
                height: self.scale,
                color: self.canvas.pixels@[i],
            }),
    {
        let w = self.size.width;
        let h = self.size.height;
        let buf_len = self.canvas.pixels.len();
        let mut cells: Vec<CellRect> = Vec::new();
        let mut y: u32 = 0;
        while y < h
            invariant
                self.wf(),
                w == self.size.width,
                h == self.size.height,
                buf_len == self.canvas.pixels@.len(),
                self.size.width * self.scale <= u32::MAX,
                self.size.height * self.scale <= u32::MAX,
                y <= h,
                cells@.len() == y * w,
                forall|i: int| 0 <= i < cells@.len() ==> cells@[i] == (CellRect {
                    x: (((i as int % w as int) * self.scale as int) as u32),
                    y: (((i as int / w as int) * self.scale as int) as u32),
                    width: self.scale,
                    height: self.scale,
                    color: self.canvas.pixels@[i],
                }),
            decreases h - y,
        {
            let mut x: u32 = 0;
            while x < w
                invariant
                    self.wf(),
                    w == self.size.width,
                    h == self.size.height,
                    buf_len == self.canvas.pixels@.len(),
                    self.size.width * self.scale <= u32::MAX,
                    self.size.height * self.scale <= u32::MAX,
                    y < h,
                    x <= w,
                    cells@.len() == y * w + x,
                    forall|i: int| 0 <= i < cells@.len() ==> cells@[i] == (CellRect {
                        x: (((i as int % w as int) * self.scale as int) as u32),
                        y: (((i as int / w as int) * self.scale as int) as u32),
                        width: self.scale,
                        height: self.scale,
                        color: self.canvas.pixels@[i],
                    }),
                decreases w - x,
            {
                proof {
                    assert((y as int) * (w as int) + (x as int) < (h as int) * (w as int))
                        by (nonlinear_arith)
                        requires
                            0 <= y < h,
                            0 <= x < w,
                    ;
                    assert((h as int) * (w as int) == (w as int) * (h as int))
                        by (nonlinear_arith);
                    assert((y as int) * (w as int) + (x as int) < buf_len);
                    assert((x as int) * (self.scale as int) <= ((w - 1) as int) * (
                    self.scale as int)) by (nonlinear_arith)
                        requires
                            0 <= x < w,
                            self.scale >= 1,
                    ;
                    assert((y as int) * (self.scale as int) <= ((h - 1) as int) * (
                    self.scale as int)) by (nonlinear_arith)
                        requires
                            0 <= y < h,
                            self.scale >= 1,
                    ;
                    assert(((w - 1) as int) * (self.scale as int) <= (w as int) * (
                    self.scale as int)) by (nonlinear_arith)
                        requires
                            w >= 1,
                            self.scale >= 0,
                    ;
                    assert(((h - 1) as int) * (self.scale as int) <= (h as int) * (
                    self.scale as int)) by (nonlinear_arith)
                        requires
                            h >= 1,
                            self.scale >= 0,
                    ;
                }
                let idx = (y as usize) * (w as usize) + (x as usize);
                let rect = CellRect {
                    x: x * self.scale,
                    y: y * self.scale,
                    width: self.scale,
                    height: self.scale,
                    color: self.canvas.pixels[idx],
                };
                proof {
                    let i: int = (y as int) * (w as int) + (x as int);
                    vstd::arithmetic::div_mod::lemma_fundamental_div_mod_converse(
                        i, w as int, y as int, x as int);
                }
                cells.push(rect);
                x = x + 1;
            }
            y = y + 1;
            proof {
                assert((y - 1) * (w as int) + (w as int) == y * (w as int)) by (nonlinear_arith);
            }
        }
        proof {
            assert((h as int) * (w as int) == (w as int) * (h as int)) by (nonlinear_arith);
        }
        cells
    }

    /// The status line: the selected color's channels in decimal, the
    /// channel being edited marked with an arrow.
    pub fn status_text(&self) -> (out: Vec<u8>)
        ensures
            out@ == spec_status(self.selection, self.selected_color),
    {
        let mut out: Vec<u8> = Vec::new();
        out.push(99);
        out.push(111);
        out.push(108);
        out.push(111);
        out.push(114);
        out.push(58);
        out.push(marker(self.selection, Selection::R));
        out.push(114);
        out.push(58);
        let rd = u32_to_dec(self.selected_color.r as u32);
        push_all(&mut out, rd.as_slice());
        out.push(44);
        out.push(marker(self.selection, Selection::G));
        out.push(103);
        out.push(58);
        let gd = u32_to_dec(self.selected_color.g as u32);
        push_all(&mut out, gd.as_slice());
        out.push(44);
        out.push(marker(self.selection, Selection::B));
        out.push(98);
        out.push(58);
        let bd = u32_to_dec(self.selected_color.b as u32);
        push_all(&mut out, bd.as_slice());
        proof {
            assert(out@ =~= spec_status(self.selection, self.selected_color));
        }
        out
    }
}

/// The marker byte before a channel label: an arrow on the selected
/// channel, a space elsewhere.
pub open spec fn spec_marker(sel: Selection, ch: Selection) -> u8 {
    if sel == ch {
        62
    } else {
        32
    }
}

/// Executable mirror of [`spec_marker`].
fn marker(sel: Selection, ch: Selection) -> (r: u8)
    ensures
        r == spec_marker(sel, ch),
{
    if sel == ch {
        62
    } else {
        32
    }
}

/// The status line `color:{>}r:{r},{>}g:{g},{>}b:{b}`: each channel in
/// decimal, an arrow marking the one being edited.
pub open spec fn spec_status(sel: Selection, color: Pixel) -> Seq<u8> {
    seq![99u8, 111u8, 108u8, 111u8, 114u8, 58u8] + seq![spec_marker(sel, Selection::R)] + seq![
        114u8,
        58u8,
    ] + dec_bytes(color.r as nat) + seq![44u8] + seq![spec_marker(sel, Selection::G)] + seq![
        103u8,
        58u8,
    ] + dec_bytes(color.g as nat) + seq![44u8] + seq![spec_marker(sel, Selection::B)] + seq![
        98u8,
        58u8,
    ] + dec_bytes(color.b as nat)
}

} // verus!
