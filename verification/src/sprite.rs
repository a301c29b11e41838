//! The canvas/sprite entity and the viewport-clipped blit algorithm.
//!
//! A sprite owns an origin in destination space, a grid size, and a flat
//! row-major pixel buffer whose length equals `width * height`. Blitting
//! computes the visible intersection of the sprite with a viewport anchored
//! at `(0, 0)` and extracts a tightly packed sub-buffer for one draw call;
//! a sprite with an empty intersection contributes nothing.

use vstd::prelude::*;

use crate::color::Pixel;
use crate::geometry::{Size, Vec2};

verus! {

/// The mathematical content of a [`Sprite`]: its origin, grid size and
/// row-major pixel sequence.
pub struct SpriteModel {
    pub origin_x: int,
    pub origin_y: int,
    pub width: nat,
    pub height: nat,
    pub pixels: Seq<Pixel>,
}

impl SpriteModel {
    /// The buffer holds exactly one pixel per grid cell.
    pub open spec fn wf(self) -> bool {
        self.pixels.len() == self.width * self.height
    }

    /// The pixel of cell `(x, y)`, row-major.
    pub open spec fn pixel_at(self, x: int, y: int) -> Pixel {
        self.pixels[y * self.width + x]
    }
}

/// An origin-positioned rectangular buffer of pixels with a known grid size.
#[derive(Debug, PartialEq, Eq)]
pub struct Sprite {
    pub origin: Vec2,
    pub size: Size,
    pub pixels: Vec<Pixel>,
}

impl View for Sprite {
    type V = SpriteModel;

    open spec fn view(&self) -> SpriteModel {
        SpriteModel {
            origin_x: self.origin.x as int,
            origin_y: self.origin.y as int,
            width: self.size.width as nat,
            height: self.size.height as nat,
            pixels: self.pixels@,
        }
    }
}

/// One blit call: a destination anchor inside the viewport, the dimensions
/// of the visible rectangle, and a tightly packed row-major buffer of
/// exactly `width * height` pixels.
pub struct BlitCommand {
    pub x: u32,
    pub y: u32,
    pub width: u32,
    pub height: u32,
    pub pixels: Vec<Pixel>,
}

/// The mathematical content of a [`BlitCommand`].
pub struct BlitModel {
    pub x: int,
    pub y: int,
    pub width: int,
    pub height: int,
    pub pixels: Seq<Pixel>,
}

impl View for BlitCommand {
    type V = BlitModel;

    open spec fn view(&self) -> BlitModel {
        BlitModel {
            x: self.x as int,
            y: self.y as int,
            width: self.width as int,
            height: self.height as int,
            pixels: self.pixels@,
        }
    }
}

/// The contents of a sequence of blit commands.
pub open spec fn cmd_views(cmds: Seq<BlitCommand>) -> Seq<BlitModel> {
    cmds.map_values(|c: BlitCommand| c@)
}

/// The content of an optional blit command.
pub open spec fn blit_view(r: Option<BlitCommand>) -> Option<BlitModel> {
    match r {
        Some(cmd) => Some(cmd@),
        None => None,
    }
}

/// Left edge of the visible intersection, in destination space.
pub open spec fn visible_from_x(s: SpriteModel) -> int {
    if s.origin_x > 0 {
        s.origin_x
    } else {
        0
    }
}

/// Right edge (exclusive) of the visible intersection, in destination space.
pub open spec fn visible_to_x(s: SpriteModel, viewport: Size) -> int {
    if s.width + s.origin_x < viewport.width {
        s.width + s.origin_x
    } else {
        viewport.width as int
    }
}

/// Top edge of the visible intersection, in destination space.
pub open spec fn visible_from_y(s: SpriteModel) -> int {
    if s.origin_y > 0 {
        s.origin_y
    } else {
        0
    }
}

/// Bottom edge (exclusive) of the visible intersection, in destination space.
pub open spec fn visible_to_y(s: SpriteModel, viewport: Size) -> int {
    if s.height + s.origin_y < viewport.height {
        s.height + s.origin_y
    } else {
        viewport.height as int
    }
}

/// Width of the visible intersection; zero or negative when the sprite is
/// fully off-screen horizontally.
pub open spec fn visible_width(s: SpriteModel, viewport: Size) -> int {
    visible_to_x(s, viewport) - visible_from_x(s)
}

/// Height of the visible intersection; zero or negative when the sprite is
/// fully off-screen vertically.
pub open spec fn visible_height(s: SpriteModel, viewport: Size) -> int {
    visible_to_y(s, viewport) - visible_from_y(s)
}

/// Horizontal read offset into the source buffer: the magnitude of a
/// negative x-origin, otherwise zero.
pub open spec fn source_offset_x(s: SpriteModel) -> int {
    if s.origin_x < 0 {
        -s.origin_x
    } else {
        0
    }
}

/// Vertical read offset into the source buffer: the magnitude of a
/// negative y-origin, otherwise zero.
pub open spec fn source_offset_y(s: SpriteModel) -> int {
    if s.origin_y < 0 {
        -s.origin_y
    } else {
        0
    }
}

/// What blitting a sprite onto a viewport produces: `None` when the visible
/// intersection is empty, otherwise one blit call anchored at the clamped
/// origin whose packed buffer reads the visible sub-rectangle out of the
/// source buffer using the source's own stride.
pub open spec fn spec_blit(s: SpriteModel, viewport: Size) -> Option<BlitModel> {
    let vw = visible_width(s, viewport);
    let vh = visible_height(s, viewport);
    if vw <= 0 || vh <= 0 {
        None
    } else {
        Some(
            BlitModel {
                x: visible_from_x(s),
                y: visible_from_y(s),
                width: vw,
                height: vh,
                pixels: Seq::new(
                    (vw * vh) as nat,
                    |i: int|
                        s.pixel_at(i % vw + source_offset_x(s), i / vw + source_offset_y(s)),
                ),
            },
        )
    }
}

impl Sprite {
    pub fn new(pos: Vec2, size: Size, pixels: Vec<Pixel>) -> (s: Sprite)
        requires
            pixels@.len() == size.width * size.height,
        ensures
            s.origin == pos,
            s.size == size,
            s.pixels == pixels,
            s@.wf(),
    {
        Sprite { origin: pos, size, pixels }
    }

    /// A freshly blank canvas of the requested size: origin `(0, 0)` and a
    /// zero-filled buffer.
    pub fn blank(size: Size) -> (s: Sprite)
        requires
            size.width * size.height <= usize::MAX,
        ensures
            s@.wf(),
            s.size == size,
            s.origin == (Vec2 { x: 0i64, y: 0i64 }),
            s.pixels@ == Seq::new((size.width * size.height) as nat, |i: int| Pixel { r: 0u8, g: 0u8, b: 0u8, a: 0u8 }),
    {
        let area = size.area();
        let mut pixels: Vec<Pixel> = Vec::new();
        while pixels.len() < area
            invariant
                pixels@.len() <= area,
                forall|i: int| 0 <= i < pixels@.len() ==> pixels@[i] == (Pixel { r: 0u8, g: 0u8, b: 0u8, a: 0u8 }),
            decreases area - pixels@.len(),
        {
            pixels.push(Pixel::zero());
        }
        proof {
            assert(pixels@ =~= Seq::new((size.width * size.height) as nat, |i: int| Pixel { r: 0u8, g: 0u8, b: 0u8, a: 0u8 }));
        }
        Sprite { origin: Vec2 { x: 0, y: 0 }, size, pixels }
    }

    /// Overwrite the pixel at flat row-major index `index`.
    pub fn set_pixel(&mut self, index: usize, p: Pixel)
        requires
            index < old(self).pixels@.len(),
        ensures
            final(self).pixels@ == old(self).pixels@.update(index as int, p),
            final(self).origin == old(self).origin,
            final(self).size == old(self).size,
    {
        self.pixels.set(index, p);
    }

    /// Blit this sprite onto a viewport of the given size anchored at
    /// `(0, 0)`: compute the visible intersection and pack it into one draw
    /// call, or report that the sprite is entirely off-screen.
    pub fn draw(&self, viewport: Size) -> (r: Option<BlitCommand>)
        requires
            self@.wf(),
        ensures
            blit_view(r) == spec_blit(self@, viewport),
    {
        blit(&self.pixels, self.origin, self.size, viewport)
    }
}

/// Blit a row-major buffer with the given origin and grid size onto a
/// viewport anchored at `(0, 0)`. See [`spec_blit`] for the exact result.
pub fn blit(pixels_in: &Vec<Pixel>, origin: Vec2, size: Size, viewport: Size) -> (r: Option<
    BlitCommand,
>)
    requires
        pixels_in@.len() == size.width * size.height,
    ensures
        blit_view(r) == spec_blit(
            SpriteModel {
                origin_x: origin.x as int,
                origin_y: origin.y as int,
                width: size.width as nat,
                height: size.height as nat,
                pixels: pixels_in@,
            },
            viewport,
        ),
{
    let ghost sm = SpriteModel {
        origin_x: origin.x as int,
        origin_y: origin.y as int,
        width: size.width as nat,
        height: size.height as nat,
        pixels: pixels_in@,
    };
    let sw = size.width as i128;
    let sh = size.height as i128;
    let ox = origin.x as i128;
    let oy = origin.y as i128;
    let dw = viewport.width as i128;
    let dh = viewport.height as i128;

    let from_x: i128 = if ox > 0 { ox } else { 0 };
    let to_x: i128 = if sw + ox < dw { sw + ox } else { dw };
    let from_y: i128 = if oy > 0 { oy } else { 0 };
    let to_y: i128 = if sh + oy < dh { sh + oy } else { dh };
    let vw: i128 = to_x - from_x;
    let vh: i128 = to_y - from_y;
    if vw <= 0 || vh <= 0 {
        return None;
    }
    let off_x: i128 = if ox < 0 { -ox } else { 0 };
    let off_y: i128 = if oy < 0 { -oy } else { 0 };

    assert(off_x + vw <= sw);
    assert(off_y + vh <= sh);

    let vw_u = vw as usize;
    let vh_u = vh as usize;
    let off_xu = off_x as usize;
    let off_yu = off_y as usize;
    let stride = size.width as usize;

    let ghost gvw = visible_width(sm, viewport);
    let ghost gvh = visible_height(sm, viewport);
    let ghost packed = Seq::new(
        (gvw * gvh) as nat,
        |i: int|
            sm.pixel_at(
                i % gvw + source_offset_x(sm),
                i / gvw + source_offset_y(sm),
            ),
    );

    let buffer_len = pixels_in.len();
    let mut pixels: Vec<Pixel> = Vec::new();
    let mut row: usize = 0;
    while row < vh_u
        invariant
            sm.wf(),
            gvw == vw_u,
            gvh == vh_u,
            vw_u >= 1,
            vh_u >= 1,
            stride == sm.width,
            sm.height <= u32::MAX,
            sm.pixels == pixels_in@,
            buffer_len == sm.pixels.len(),
            off_xu + vw_u <= stride,
            off_yu + vh_u <= sm.height,
            gvw == visible_width(sm, viewport),
            gvh == visible_height(sm, viewport),
            off_xu == source_offset_x(sm),
            off_yu == source_offset_y(sm),
            packed == Seq::new(
                (gvw * gvh) as nat,
                |i: int|
                    sm.pixel_at(
                        i % gvw + source_offset_x(sm),
                        i / gvw + source_offset_y(sm),
                    ),
            ),
            packed.len() == vw_u * vh_u,
            row <= vh_u,
            pixels@.len() == row * vw_u,
            forall|i: int| 0 <= i < pixels@.len() ==> pixels@[i] == packed[i],
        decreases vh_u - row,
    {
        let mut col: usize = 0;
        while col < vw_u
            invariant
                sm.wf(),
                gvw == vw_u,
                gvh == vh_u,
                vw_u >= 1,
                vh_u >= 1,
                stride == sm.width,
                sm.height <= u32::MAX,
                sm.pixels == pixels_in@,
                buffer_len == sm.pixels.len(),
                off_xu + vw_u <= stride,
                off_yu + vh_u <= sm.height,
                gvw == visible_width(sm, viewport),
                gvh == visible_height(sm, viewport),
                off_xu == source_offset_x(sm),
                off_yu == source_offset_y(sm),
                packed == Seq::new(
                    (gvw * gvh) as nat,
                    |i: int|
                        sm.pixel_at(
                            i % gvw + source_offset_x(sm),
                            i / gvw + source_offset_y(sm),
                        ),
                ),
                packed.len() == vw_u * vh_u,
                row < vh_u,
                col <= vw_u,
                pixels@.len() == row * vw_u + col,
                forall|i: int| 0 <= i < pixels@.len() ==> pixels@[i] == packed[i],
            decreases vw_u - col,
        {
            let src_row = row + off_yu;
            let src_col = col + off_xu;
            proof {
                assert(src_row < sm.height);
                assert(src_col < stride);
                assert((src_row as int) * (stride as int) + (src_col as int)
                    < sm.pixels.len()) by (nonlinear_arith)
                    requires
                        0 <= src_row < sm.height,
                        0 <= src_col < stride,
                        stride == sm.width,
                        sm.pixels.len() == sm.width * sm.height,
                ;
            }
            let idx = src_row * stride + src_col;
            let p = pixels_in[idx];
            proof {
                let i: int = row * vw_u + col;
                assert(row * vw_u + col < vw_u * vh_u) by (nonlinear_arith)
                    requires
                        0 <= row < vh_u,
                        0 <= col < vw_u,
                ;
                vstd::arithmetic::div_mod::lemma_fundamental_div_mod_converse(
                    i, gvw as int, row as int, col as int);
                assert(i % gvw == col);
                assert(i / gvw == row);
                assert(0 <= i < packed.len());
                assert(packed[i] == sm.pixel_at(
                    i % gvw + source_offset_x(sm), i / gvw + source_offset_y(sm)));
                assert(packed[i] == sm.pixel_at(
                    col + source_offset_x(sm), row + source_offset_y(sm)));
                assert(sm.pixel_at(src_col as int, src_row as int)
                    == sm.pixels[(src_row as int) * (sm.width as int) + src_col]);
                assert(p == packed[i]);
            }
            pixels.push(p);
            col = col + 1;
        }
        row = row + 1;
        proof {
            assert(pixels@.len() == (row - 1) * vw_u + vw_u);
            assert((row - 1) * vw_u + vw_u == row * vw_u) by (nonlinear_arith);
        }
    }
    let cmd = BlitCommand {
        x: from_x as u32,
        y: from_y as u32,
        width: vw as u32,
        height: vh as u32,
        pixels,
    };
    proof {
        assert(pixels@.len() == vh_u * vw_u);
        assert(vh_u * vw_u == vw_u * vh_u) by (nonlinear_arith);
        assert(cmd@.pixels =~= packed);
        assert(spec_blit(sm, viewport)->Some_0.pixels =~= packed);
        assert(blit_view(Some(cmd)) == spec_blit(sm, viewport));
    }
    Some(cmd)
}

} // verus!
