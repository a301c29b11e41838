use pixel_editor::color::Pixel;
use pixel_editor::geometry::{Size, Vec2};
use pixel_editor::ppt::{decode, encode, DecodeError};
use pixel_editor::sprite::Sprite;

fn px(r: u8, g: u8, b: u8, a: u8) -> Pixel {
    Pixel { r, g, b, a }
}

#[test]
fn decode_two_pixel_image() {
    let canvas = decode(b"P3 2 1 255\n10 20 30 40 50 60 ").unwrap();
    assert_eq!(canvas.size.width, 2);
    assert_eq!(canvas.size.height, 1);
    assert_eq!(canvas.origin, Vec2 { x: 0, y: 0 });
    assert_eq!(canvas.pixels, vec![px(10, 20, 30, 255), px(40, 50, 60, 255)]);
}

#[test]
fn decode_rejects_wrong_format_tag() {
    assert_eq!(
        decode(b"P6 2 1 255\n10 20 30 40 50 60 "),
        Err(DecodeError::UnsupportedFormat)
    );
}

#[test]
fn decode_rejects_wrong_depth() {
    assert_eq!(
        decode(b"P3 2 1 65535\n10 20 30 40 50 60 "),
        Err(DecodeError::UnsupportedDepth)
    );
}

#[test]
fn decode_depth_must_be_literal() {
    assert_eq!(
        decode(b"P3 1 1 0255\n10 20 30 "),
        Err(DecodeError::UnsupportedDepth)
    );
}

#[test]
fn decode_rejects_short_header() {
    assert_eq!(decode(b"P3 2 1\n10 20 30 "), Err(DecodeError::InvalidHeader));
}

#[test]
fn decode_rejects_long_header() {
    assert_eq!(
        decode(b"P3 2 1 255 extra\n10 20 30 40 50 60 "),
        Err(DecodeError::InvalidHeader)
    );
}

#[test]
fn decode_rejects_unparsable_dimension() {
    assert_eq!(decode(b"P3 two 1 255\n10 20 30 "), Err(DecodeError::InvalidHeader));
    assert_eq!(decode(b"P3 -2 1 255\n10 20 30 "), Err(DecodeError::InvalidHeader));
}

#[test]
fn decode_rejects_oversized_dimension() {
    assert_eq!(
        decode(b"P3 5000000000 1 255\n10 20 30 "),
        Err(DecodeError::InvalidHeader)
    );
}

#[test]
fn decode_rejects_truncated_body() {
    assert_eq!(
        decode(b"P3 2 2 255\n10 20 30 40 50 60 "),
        Err(DecodeError::TruncatedData)
    );
}

#[test]
fn decode_rejects_bad_pixel_token() {
    assert_eq!(
        decode(b"P3 1 1 255\n10 2x 30 "),
        Err(DecodeError::InvalidPixelValue)
    );
    assert_eq!(
        decode(b"P3 1 1 255\n10 20 300 "),
        Err(DecodeError::InvalidPixelValue)
    );
}

#[test]
fn decode_rejects_missing_line_break() {
    assert_eq!(decode(b"P3 2 1 255"), Err(DecodeError::MalformedFile));
}

#[test]
fn decode_ignores_surplus_tokens() {
    let canvas = decode(b"P3 1 1 255\n10 20 30 99 99 99 ").unwrap();
    assert_eq!(canvas.pixels, vec![px(10, 20, 30, 255)]);
}

#[test]
fn decode_accepts_plus_signed_numbers() {
    let canvas = decode(b"P3 +2 1 255\n10 +20 30 40 50 60 ").unwrap();
    assert_eq!(canvas.size.width, 2);
    assert_eq!(canvas.pixels[0].g, 20);
}

#[test]
fn decode_accepts_any_whitespace_between_tokens() {
    let canvas = decode(b"P3 2 1 255\n10\t20\n30\r\n40  50 60").unwrap();
    assert_eq!(canvas.pixels, vec![px(10, 20, 30, 255), px(40, 50, 60, 255)]);
}

#[test]
fn decode_zero_sized_image() {
    let canvas = decode(b"P3 0 0 255\n").unwrap();
    assert_eq!(canvas.size.width, 0);
    assert_eq!(canvas.size.height, 0);
    assert!(canvas.pixels.is_empty());
}

#[test]
fn encode_exact_text() {
    let sprite = Sprite::new(
        Vec2 { x: 0, y: 0 },
        Size { width: 2, height: 1 },
        vec![px(1, 2, 3, 7), px(255, 0, 100, 0)],
    );
    let out = encode(&sprite);
    assert_eq!(out, b"P3 2 1 255\n1 2 3 255 0 100 ".to_vec());
}

#[test]
fn round_trip_preserves_rgb_and_resets_alpha() {
    let pixels = vec![
        px(0, 0, 0, 0),
        px(255, 255, 255, 17),
        px(1, 128, 254, 90),
        px(42, 0, 9, 255),
        px(7, 6, 5, 4),
        px(200, 100, 50, 25),
    ];
    let sprite = Sprite::new(Vec2 { x: 3, y: -4 }, Size { width: 3, height: 2 }, pixels.clone());
    let reloaded = decode(&encode(&sprite)).unwrap();
    assert_eq!(reloaded.size, sprite.size);
    assert_eq!(reloaded.origin, Vec2 { x: 0, y: 0 });
    assert_eq!(reloaded.pixels.len(), pixels.len());
    for (got, want) in reloaded.pixels.iter().zip(pixels.iter()) {
        assert_eq!(got.r, want.r);
        assert_eq!(got.g, want.g);
        assert_eq!(got.b, want.b);
        assert_eq!(got.a, 255);
    }
}
