use pixel_editor::color::Pixel;
use pixel_editor::geometry::{Size, Vec2};
use pixel_editor::sprite::Sprite;

fn numbered(count: usize) -> Vec<Pixel> {
    (0..count)
        .map(|i| Pixel { r: i as u8, g: 0, b: 0, a: 255 })
        .collect()
}

#[test]
fn sprite_fully_left_of_viewport_is_a_no_op() {
    let sprite = Sprite::new(
        Vec2 { x: -100, y: 0 },
        Size { width: 10, height: 10 },
        numbered(100),
    );
    assert!(sprite.draw(Size { width: 50, height: 50 }).is_none());
}

#[test]
fn sprite_on_right_boundary_is_a_no_op() {
    let sprite = Sprite::new(
        Vec2 { x: 50, y: 0 },
        Size { width: 10, height: 10 },
        numbered(100),
    );
    assert!(sprite.draw(Size { width: 50, height: 50 }).is_none());
}

#[test]
fn sprite_straddling_top_left_corner_is_clipped() {
    let sprite = Sprite::new(
        Vec2 { x: -2, y: -3 },
        Size { width: 5, height: 5 },
        numbered(25),
    );
    let cmd = sprite.draw(Size { width: 10, height: 10 }).unwrap();
    assert_eq!(cmd.x, 0);
    assert_eq!(cmd.y, 0);
    assert_eq!(cmd.width, 3);
    assert_eq!(cmd.height, 2);
    // Rows 3 and 4 of the source, columns 2..5, with the source's stride.
    let expected: Vec<u8> = vec![17, 18, 19, 22, 23, 24];
    let got: Vec<u8> = cmd.pixels.iter().map(|p| p.r).collect();
    assert_eq!(got, expected);
}

#[test]
fn fully_visible_sprite_is_copied_whole() {
    let sprite = Sprite::new(
        Vec2 { x: 2, y: 3 },
        Size { width: 4, height: 2 },
        numbered(8),
    );
    let cmd = sprite.draw(Size { width: 10, height: 10 }).unwrap();
    assert_eq!((cmd.x, cmd.y), (2, 3));
    assert_eq!((cmd.width, cmd.height), (4, 2));
    let got: Vec<u8> = cmd.pixels.iter().map(|p| p.r).collect();
    assert_eq!(got, vec![0, 1, 2, 3, 4, 5, 6, 7]);
}

#[test]
fn sprite_larger_than_viewport_is_clipped_symmetrically() {
    let sprite = Sprite::new(
        Vec2 { x: -1, y: -1 },
        Size { width: 6, height: 6 },
        numbered(36),
    );
    let cmd = sprite.draw(Size { width: 3, height: 3 }).unwrap();
    assert_eq!((cmd.x, cmd.y), (0, 0));
    assert_eq!((cmd.width, cmd.height), (3, 3));
    let got: Vec<u8> = cmd.pixels.iter().map(|p| p.r).collect();
    assert_eq!(got, vec![7, 8, 9, 13, 14, 15, 19, 20, 21]);
}

#[test]
fn zero_area_sprite_is_a_no_op() {
    let sprite = Sprite::new(Vec2 { x: 1, y: 1 }, Size { width: 0, height: 5 }, vec![]);
    assert!(sprite.draw(Size { width: 10, height: 10 }).is_none());
}
