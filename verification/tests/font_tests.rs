use pixel_editor::color::Pixel;
use pixel_editor::font::{glyph_key, Font, GlyphError, LetterSprite};
use pixel_editor::geometry::{Size, Vec2};
use pixel_editor::ppt::{encode, DecodeError};
use pixel_editor::sprite::Sprite;

fn glyph_source(tag: u8) -> Vec<u8> {
    let mut glyph = Sprite::blank(Size { width: 9, height: 14 });
    glyph.pixels[0] = Pixel { r: tag, g: 0, b: 0, a: 255 };
    encode(&glyph)
}

fn full_atlas() -> Font {
    let sources: Vec<Vec<u8>> = (0..94).map(|i| glyph_source(i as u8)).collect();
    Font::new(&sources).unwrap()
}

#[test]
fn index_spans_the_printable_range() {
    let font = full_atlas();
    assert_eq!(font.index('!'), 0);
    assert_eq!(font.index('~'), 93);
}

#[test]
fn slash_uses_a_distinct_storage_key() {
    assert_eq!(glyph_key('/'), b"slash".to_vec());
    assert_eq!(glyph_key('A'), b"A".to_vec());
    assert_eq!(glyph_key('!'), b"!".to_vec());
    assert_ne!(glyph_key('/'), vec![b'/']);
}

#[test]
fn atlas_is_fully_populated() {
    let font = full_atlas();
    assert_eq!(font.letters.len(), 94);
    for letter in &font.letters {
        assert_eq!(letter.pixels.len(), 9 * 14);
    }
}

#[test]
fn letter_returns_the_indexed_glyph() {
    let font = full_atlas();
    assert_eq!(font.letter('!').pixels[0].r, 0);
    assert_eq!(font.letter('A').pixels[0].r, 32);
    assert_eq!(font.letter('~').pixels[0].r, 93);
}

#[test]
fn glyph_of_wrong_size_is_rejected() {
    let bad = encode(&Sprite::blank(Size { width: 8, height: 14 }));
    assert!(matches!(LetterSprite::new(&bad), Err(GlyphError::WrongSize)));
}

#[test]
fn glyph_that_does_not_decode_is_rejected() {
    assert!(matches!(
        LetterSprite::new(b"P6 9 14 255\n0 0 0 "),
        Err(GlyphError::Invalid(DecodeError::UnsupportedFormat))
    ));
}

#[test]
fn atlas_build_fails_on_a_bad_source() {
    let mut sources: Vec<Vec<u8>> = (0..94).map(|i| glyph_source(i as u8)).collect();
    sources[40] = b"P3 9 14 255".to_vec();
    assert!(matches!(
        Font::new(&sources),
        Err(GlyphError::Invalid(DecodeError::MalformedFile))
    ));
}

#[test]
fn second_line_below_viewport_is_not_drawn() {
    let font = full_atlas();
    let cmds = font.draw(b"ab\ncd", Vec2 { x: 0, y: 0 }, Size { width: 50, height: 14 });
    // Only the first line's two glyphs are drawn.
    assert_eq!(cmds.len(), 2);
    assert_eq!((cmds[0].x, cmds[0].y), (0, 0));
    assert_eq!((cmds[1].x, cmds[1].y), (9, 0));
}

#[test]
fn both_lines_drawn_when_they_fit() {
    let font = full_atlas();
    let cmds = font.draw(b"ab\ncd", Vec2 { x: 0, y: 0 }, Size { width: 50, height: 30 });
    assert_eq!(cmds.len(), 4);
    assert_eq!((cmds[2].x, cmds[2].y), (0, 14));
    assert_eq!((cmds[3].x, cmds[3].y), (9, 14));
}

#[test]
fn whitespace_is_skipped_without_a_glyph() {
    let font = full_atlas();
    let cmds = font.draw(b"a b", Vec2 { x: 0, y: 0 }, Size { width: 50, height: 20 });
    assert_eq!(cmds.len(), 2);
    assert_eq!((cmds[0].x, cmds[0].y), (0, 0));
    assert_eq!((cmds[1].x, cmds[1].y), (18, 0));
}

#[test]
fn glyph_at_right_edge_is_skipped_but_line_continues() {
    let font = full_atlas();
    // Column 1 sits exactly on the right edge and is skipped; the line
    // would continue if later columns were visible again.
    let cmds = font.draw(b"ab", Vec2 { x: 0, y: 0 }, Size { width: 9, height: 20 });
    assert_eq!(cmds.len(), 1);
    assert_eq!((cmds[0].x, cmds[0].y), (0, 0));
    assert_eq!((cmds[0].width, cmds[0].height), (9, 14));
}

#[test]
fn partially_visible_glyph_is_clipped() {
    let font = full_atlas();
    let cmds = font.draw(b"ab", Vec2 { x: 0, y: 0 }, Size { width: 10, height: 20 });
    assert_eq!(cmds.len(), 2);
    assert_eq!((cmds[1].x, cmds[1].y), (9, 0));
    assert_eq!((cmds[1].width, cmds[1].height), (1, 14));
}

#[test]
fn negative_origin_clips_glyphs() {
    let font = full_atlas();
    let cmds = font.draw(b"a", Vec2 { x: -3, y: -4 }, Size { width: 50, height: 50 });
    assert_eq!(cmds.len(), 1);
    assert_eq!((cmds[0].x, cmds[0].y), (0, 0));
    assert_eq!((cmds[0].width, cmds[0].height), (6, 10));
}
