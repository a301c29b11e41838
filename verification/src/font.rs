//! The glyph atlas and text layout.
//!
//! One fixed-size glyph (9 by 14 cells) exists per printable ASCII
//! character, codes 33 through 126. The atlas is built once from the
//! textual image of every glyph, keyed by the character itself except `/`,
//! which uses the word `slash` so the key never carries a path separator.
//! Text layout places line `r`, column `c` at
//! `(origin.x + c*9, origin.y + r*14)`, stops at the first line at or
//! below the viewport, skips single glyphs at or beyond its right edge,
//! skips whitespace, and blits every remaining glyph as a small sprite.

use vstd::prelude::*;

use crate::color::Pixel;
use crate::geometry::{Size, Vec2};
use crate::ppt::{
    byte_is_space, decode, first_newline, is_space, lemma_first_newline_props,
    lemma_first_newline_scan, spec_decode, DecodeError,
};
use crate::sprite::{blit, blit_view, cmd_views, spec_blit, BlitCommand, BlitModel, SpriteModel};

verus! {

/// Width of every glyph, in grid cells.
pub const CHAR_WIDTH: usize = 9;

/// Height of every glyph, in grid cells.
pub const CHAR_HEIGHT: usize = 14;

/// Why a glyph could not be built.
#[derive(Clone, Copy, PartialEq, Eq, Structural, Debug)]
pub enum GlyphError {
    /// The glyph's image did not decode.
    Invalid(DecodeError),
    /// The glyph's image decoded to a size other than 9 by 14.
    WrongSize,
}

/// What building a glyph from its textual image yields: the decoded
/// pixels if the image decodes to exactly 9 by 14 cells, a typed failure
/// otherwise.
pub open spec fn spec_glyph(s: Seq<u8>) -> Result<Seq<Pixel>, GlyphError> {
    match spec_decode(s) {
        Ok(m) => {
            if m.width == 9 && m.height == 14 {
                Ok(m.pixels)
            } else {
                Err(GlyphError::WrongSize)
            }
        },
        Err(e) => Err(GlyphError::Invalid(e)),
    }
}

/// One immutable 9-by-14 glyph image.
pub struct LetterSprite {
    pub pixels: Vec<Pixel>,
}

impl LetterSprite {
    /// The buffer holds exactly one pixel per glyph cell.
    pub open spec fn wf(&self) -> bool {
        self.pixels@.len() == 126
    }

    /// Build a glyph from the textual image bytes of its file.
    pub fn new(data: &[u8]) -> (r: Result<LetterSprite, GlyphError>)
        ensures
            match r {
                Ok(g) => g.wf() && spec_glyph(data@) == Ok::<Seq<Pixel>, GlyphError>(g.pixels@),
                Err(e) => spec_glyph(data@) == Err::<Seq<Pixel>, GlyphError>(e),
            },
    {
        match decode(data) {
            Ok(sprite) => {
                if sprite.size.width == 9 && sprite.size.height == 14 {
                    proof {
                        assert(sprite@.pixels.len() == 9 * 14);
                    }
                    Ok(LetterSprite { pixels: sprite.pixels })
                } else {
                    Err(GlyphError::WrongSize)
                }
            },
            Err(e) => Err(GlyphError::Invalid(e)),
        }
    }
}

/// The storage key of a glyph: the character itself, except `/`, which is
/// stored under the word `slash`.
pub open spec fn spec_glyph_key(ch: char) -> Seq<u8> {
    if ch == '/' {
        seq![115u8, 108u8, 97u8, 115u8, 104u8]
    } else {
        seq![ch as u8]
    }
}

/// The key under which a printable character's glyph image is stored.
pub fn glyph_key(ch: char) -> (k: Vec<u8>)
    requires
        33 <= ch as u32 <= 126,
    ensures
        k@ == spec_glyph_key(ch),
{
    let mut k: Vec<u8> = Vec::new();
    if ch == '/' {
        k.push(115);
        k.push(108);
        k.push(97);
        k.push(115);
        k.push(104);
        proof {
            assert(k@ =~= spec_glyph_key(ch));
        }
    } else {
        k.push(ch as u8);
        proof {
            assert(k@ =~= spec_glyph_key(ch));
        }
    }
    k
}

/// The atlas: one glyph per printable ASCII character, indexed by
/// `character code - 33`.
pub struct Font {
    pub letters: Vec<LetterSprite>,
}

impl Font {
    /// One glyph per printable character, each the right size.
    pub open spec fn wf(&self) -> bool {
        self.letters@.len() == 94 && forall|i: int|
            0 <= i < self.letters@.len() ==> self.letters@[i].wf()
    }

    /// The pixel content of every glyph, in character order.
    pub open spec fn atlas(&self) -> Seq<Seq<Pixel>> {
        self.letters@.map_values(|l: LetterSprite| l.pixels@)
    }

    /// Build the atlas from the textual image of every printable
    /// character, in character order (`!` first, `~` last). Succeeds
    /// exactly when every image is a valid 9-by-14 glyph.
    pub fn new(sources: &Vec<Vec<u8>>) -> (r: Result<Font, GlyphError>)
        requires
            sources@.len() == 94,
        ensures
            match r {
                Ok(f) => f.wf() && forall|i: int|
                    0 <= i < 94 ==> spec_glyph(sources@[i]@) == Ok::<Seq<Pixel>, GlyphError>(
                        f.letters@[i].pixels@,
                    ),
                Err(e) => exists|i: int|
                    0 <= i < 94 && spec_glyph(sources@[i]@) == Err::<Seq<Pixel>, GlyphError>(e),
            },
    {
        let mut letters: Vec<LetterSprite> = Vec::new();
        let mut i: usize = 0;
        while i < 94
            invariant
                sources@.len() == 94,
                i <= 94,
                letters@.len() == i,
                forall|j: int| 0 <= j < i ==> letters@[j].wf(),
                forall|j: int|
                    0 <= j < i ==> spec_glyph(sources@[j]@) == Ok::<Seq<Pixel>, GlyphError>(
                        letters@[j].pixels@,
                    ),
            decreases 94 - i,
        {
            match LetterSprite::new(sources[i].as_slice()) {
                Ok(g) => {
                    letters.push(g);
                },
                Err(e) => {
                    return Err(e);
                },
            }
            i = i + 1;
        }
        Ok(Font { letters })
    }

    /// The atlas slot of a printable character.
    pub fn index(&self, ch: char) -> (i: usize)
        requires
            33 <= ch as u32 <= 126,
        ensures
            i == ch as u32 - 33,
    {
        (ch as usize) - 33
    }

    /// The glyph of a printable character.
    pub fn letter(&self, ch: char) -> (g: &LetterSprite)
        requires
            self.wf(),
            33 <= ch as u32 <= 126,
        ensures
            g == self.letters@[ch as u32 - 33],
    {
        &self.letters[(ch as usize) - 33]
    }
}

/// What drawing one character at `(x, y)` yields: nothing for whitespace,
/// otherwise the glyph blitted as a 9-by-14 sprite at that position.
pub open spec fn spec_draw_char(
    atlas: Seq<Seq<Pixel>>,
    ch: u8,
    x: int,
    y: int,
    viewport: Size,
) -> Option<BlitModel> {
    if is_space(ch) {
        None
    } else {
        spec_blit(
            SpriteModel {
                origin_x: x,
                origin_y: y,
                width: 9,
                height: 14,
                pixels: atlas[ch - 33],
            },
            viewport,
        )
    }
}

/// A byte the layout accepts: whitespace, or a printable character.
pub open spec fn layout_byte(b: u8) -> bool {
    is_space(b) || 33 <= b <= 126
}

impl Font {
    /// Draw one character at the given position: whitespace draws
    /// nothing, a printable character's glyph is blitted as a sprite.
    pub fn draw_char(&self, ch: u8, pos: Vec2, viewport: Size) -> (r: Option<BlitCommand>)
        requires
            self.wf(),
            layout_byte(ch),
        ensures
            blit_view(r) == spec_draw_char(self.atlas(), ch, pos.x as int, pos.y as int, viewport),
    {
        if byte_is_space(ch) {
            return None;
        }
        let idx = (ch - 33) as usize;
        let g = &self.letters[idx];
        proof {
            assert(self.atlas()[ch - 33] == g.pixels@);
            assert(g.pixels@.len() == 9 * 14);
        }
        blit(&g.pixels, pos, Size { width: 9, height: 14 }, viewport)
    }
}


/// The lines of a text: maximal runs separated by line feeds.
pub open spec fn spec_lines(s: Seq<u8>) -> Seq<Seq<u8>>
    decreases s.len(),
    via spec_lines_decreases
{
    if first_newline(s) < 0 {
        seq![s]
    } else {
        seq![s.take(first_newline(s))] + spec_lines(s.skip(first_newline(s) + 1))
    }
}

#[via_fn]
proof fn spec_lines_decreases(s: Seq<u8>) {
    lemma_first_newline_props(s);
}

/// What laying out one line from column `c` on yields: each remaining
/// character at `(ox + c*9, y)`, glyphs at or beyond the viewport's right
/// edge skipped, the rest drawn as [`spec_draw_char`] says.
pub open spec fn spec_layout_line(
    atlas: Seq<Seq<Pixel>>,
    line: Seq<u8>,
    ox: int,
    y: int,
    c: int,
    viewport: Size,
) -> Seq<BlitModel>
    decreases line.len() - c,
{
    if c < 0 || c >= line.len() {
        Seq::empty()
    } else {
        let x = ox + c * 9;
        let rest = spec_layout_line(atlas, line, ox, y, c + 1, viewport);
        if x >= viewport.width {
            rest
        } else {
            match spec_draw_char(atlas, line[c], x, y, viewport) {
                Some(b) => seq![b] + rest,
                None => rest,
            }
        }
    }
}

/// What laying out the lines from row `r` on yields: line `r` at
/// `oy + r*14`, stopping entirely at the first row at or below the
/// viewport's bottom edge.
pub open spec fn spec_layout_rows(
    atlas: Seq<Seq<Pixel>>,
    lines: Seq<Seq<u8>>,
    ox: int,
    oy: int,
    r: int,
    viewport: Size,
) -> Seq<BlitModel>
    decreases lines.len() - r,
{
    if r < 0 || r >= lines.len() {
        Seq::empty()
    } else {
        let y = oy + r * 14;
        if y >= viewport.height {
            Seq::empty()
        } else {
            spec_layout_line(atlas, lines[r], ox, y, 0, viewport) + spec_layout_rows(
                atlas,
                lines,
                ox,
                oy,
                r + 1,
                viewport,
            )
        }
    }
}

/// What drawing a text at `origin` onto a viewport yields.
pub open spec fn spec_draw_text(
    atlas: Seq<Seq<Pixel>>,
    text: Seq<u8>,
    ox: int,
    oy: int,
    viewport: Size,
) -> Seq<BlitModel> {
    spec_layout_rows(atlas, spec_lines(text), ox, oy, 0, viewport)
}

impl Font {
    /// Lay out and draw a text whose origin is `origin`: one blit command
    /// per visible glyph, in reading order, exactly as
    /// [`spec_draw_text`] says.
    pub fn draw(&self, text: &[u8], origin: Vec2, viewport: Size) -> (cmds: Vec<BlitCommand>)
        requires
            self.wf(),
            forall|i: int| 0 <= i < text@.len() ==> layout_byte(text@[i]),
        ensures
            cmd_views(cmds@) == spec_draw_text(
                self.atlas(),
                text@,
                origin.x as int,
                origin.y as int,
                viewport,
            ),
    {
        let len = text.len();
        let ghost atlas = self.atlas();
        let ghost glines = spec_lines(text@);
        let ghost ox = origin.x as int;
        let ghost oy = origin.y as int;
        let ghost total = spec_draw_text(atlas, text@, ox, oy, viewport);
        let mut cmds: Vec<BlitCommand> = Vec::new();
        let mut pos: usize = 0;
        let mut row: usize = 0;
        proof {
            assert(text@.skip(0) =~= text@);
            assert(cmd_views(cmds@) + spec_layout_rows(atlas, glines, ox, oy, 0, viewport)
                =~= total);
        }
        loop
            invariant_except_break
                len == text@.len(),
                self.wf(),
                forall|i: int| 0 <= i < text@.len() ==> layout_byte(text@[i]),
                atlas == self.atlas(),
                glines == spec_lines(text@),
                ox == origin.x as int,
                oy == origin.y as int,
                pos <= len,
                row <= pos,
                glines.skip(row as int) == spec_lines(text@.skip(pos as int)),
                row <= glines.len(),
                total == cmd_views(cmds@) + spec_layout_rows(
                    atlas,
                    glines,
                    ox,
                    oy,
                    row as int,
                    viewport,
                ),
            ensures
                total == cmd_views(cmds@),
            decreases len - pos,
        {
            let mut e: usize = pos;
            while e < len && text[e] != 10
                invariant
                    len == text@.len(),
                    pos <= e <= len,
                    forall|j: int| pos <= j < e ==> text@[j] != 10,
                decreases len - e,
            {
                e = e + 1;
            }
            let ghost rem = text@.skip(pos as int);
            let ghost gline = text@.subrange(pos as int, e as int);
            proof {
                assert forall|j: int| 0 <= j < e - pos implies rem[j] != 10 by {
                    assert(rem[j] == text@[pos + j]);
                }
                if e < len {
                    assert(rem[e - pos] == text@[e as int]);
                }
                lemma_first_newline_scan(rem, e - pos);
                assert(glines.skip(row as int).len() >= 1);
                assert(row < glines.len());
                if e == len {
                    assert(first_newline(rem) == -1);
                    assert(spec_lines(rem) == seq![rem]);
                    assert(rem =~= gline);
                } else {
                    assert(first_newline(rem) == e - pos);
                    assert(rem.take(e - pos) =~= gline);
                }
                assert(glines[row as int] == glines.skip(row as int)[0]);
                assert(glines[row as int] == gline);
            }
            let y128: i128 = (origin.y as i128) + (row as i128) * 14;
            let ghost gy = oy + (row as int) * 14;
            if y128 >= viewport.height as i128 {
                proof {
                    assert(spec_layout_rows(atlas, glines, ox, oy, row as int, viewport)
                        =~= Seq::<BlitModel>::empty());
                    assert(cmd_views(cmds@) + Seq::<BlitModel>::empty() =~= cmd_views(cmds@));
                }
                break;
            }
            proof {
                assert(spec_layout_rows(atlas, glines, ox, oy, row as int, viewport)
                    == spec_layout_line(atlas, gline, ox, gy, 0, viewport) + spec_layout_rows(
                    atlas,
                    glines,
                    ox,
                    oy,
                    row + 1,
                    viewport,
                ));
                assert(cmd_views(cmds@) + (spec_layout_line(atlas, gline, ox, gy, 0, viewport)
                    + spec_layout_rows(atlas, glines, ox, oy, row + 1, viewport)) =~= (cmd_views(
                    cmds@,
                ) + spec_layout_line(atlas, gline, ox, gy, 0, viewport)) + spec_layout_rows(
                    atlas,
                    glines,
                    ox,
                    oy,
                    row + 1,
                    viewport,
                ));
            }
            let line_len = e - pos;
            let mut c: usize = 0;
            while c < line_len
                invariant
                    len == text@.len(),
                    self.wf(),
                    forall|i: int| 0 <= i < text@.len() ==> layout_byte(text@[i]),
                    atlas == self.atlas(),
                    ox == origin.x as int,
                    oy == origin.y as int,
                    pos <= e <= len,
                    line_len == e - pos,
                    c <= line_len,
                    gline == text@.subrange(pos as int, e as int),
                    gy == oy + (row as int) * 14,
                    y128 == gy,
                    total == (cmd_views(cmds@) + spec_layout_line(
                        atlas,
                        gline,
                        ox,
                        gy,
                        c as int,
                        viewport,
                    )) + spec_layout_rows(atlas, glines, ox, oy, row + 1, viewport),
                    oy <= gy < viewport.height,
                decreases line_len - c,
            {
                let ch = text[pos + c];
                proof {
                    assert(gline[c as int] == text@[pos + c]);
                }
                let x128: i128 = (origin.x as i128) + (c as i128) * 9;
                let ghost gx = ox + (c as int) * 9;
                if x128 < viewport.width as i128 {
                    let p = Vec2 { x: x128 as i64, y: y128 as i64 };
                    let r = self.draw_char(ch, p, viewport);
                    proof {
                        assert(p.x as int == gx && p.y as int == gy);
                    }
                    match r {
                        Some(cmd) => {
                            proof {
                                assert(spec_draw_char(atlas, gline[c as int], gx, gy, viewport)
                                    == Some(cmd@));
                                assert(spec_layout_line(atlas, gline, ox, gy, c as int, viewport)
                                    == seq![cmd@] + spec_layout_line(
                                    atlas,
                                    gline,
                                    ox,
                                    gy,
                                    c + 1,
                                    viewport,
                                ));
                                assert(cmd_views(cmds@.push(cmd)) =~= cmd_views(cmds@) + seq![
                                    cmd@,
                                ]);
                                assert((cmd_views(cmds@.push(cmd)) + spec_layout_line(
                                    atlas,
                                    gline,
                                    ox,
                                    gy,
                                    c + 1,
                                    viewport,
                                )) =~= (cmd_views(cmds@) + spec_layout_line(
                                    atlas,
                                    gline,
                                    ox,
                                    gy,
                                    c as int,
                                    viewport,
                                )));
                            }
                            cmds.push(cmd);
                        },
                        None => {
                            proof {
                                assert(spec_layout_line(atlas, gline, ox, gy, c as int, viewport)
                                    == spec_layout_line(atlas, gline, ox, gy, c + 1, viewport));
                            }
                        },
                    }
                } else {
                    proof {
                        assert(spec_layout_line(atlas, gline, ox, gy, c as int, viewport)
                            == spec_layout_line(atlas, gline, ox, gy, c + 1, viewport));
                    }
                }
                c = c + 1;
            }
            proof {
                assert(spec_layout_line(atlas, gline, ox, gy, line_len as int, viewport)
                    =~= Seq::<BlitModel>::empty());
                assert(cmd_views(cmds@) + Seq::<BlitModel>::empty() =~= cmd_views(cmds@));
            }
            if e == len {
                proof {
                    assert(glines.skip(row as int) =~= seq![gline]);
                    assert(glines.len() == row + 1);
                    assert(spec_layout_rows(atlas, glines, ox, oy, row + 1, viewport)
                        =~= Seq::<BlitModel>::empty());
                }
                break;
            }
            proof {
                assert(spec_lines(rem) == seq![gline] + spec_lines(rem.skip(e - pos + 1)));
                assert(rem.skip(e - pos + 1) =~= text@.skip(e + 1));
                assert(glines.skip(row as int).skip(1) =~= glines.skip(row + 1));
                assert(glines.skip(row + 1) == spec_lines(text@.skip(e + 1)));
            }
            pos = e + 1;
            row = row + 1;
        }
        cmds
    }
}

} // verus!
