use pixel_editor::color::Pixel;
use pixel_editor::editor::{Editor, Selection};
use pixel_editor::geometry::{constrain, Size, Vec2};
use pixel_editor::sprite::Sprite;

fn editor(width: u32, height: u32, scale: u32) -> Editor {
    let size = Size { width, height };
    let canvas = Sprite::blank(size);
    Editor::new(canvas, scale, size)
}

#[test]
fn constrain_clamps_both_ends() {
    assert_eq!(constrain(5, 10, 20), 10);
    assert_eq!(constrain(15, 10, 20), 15);
    assert_eq!(constrain(25, 10, 20), 20);
}

#[test]
fn selection_cycles_forward_with_wrap_around() {
    let mut e = editor(4, 4, 10);
    assert_eq!(e.selection, Selection::R);
    e.selection_increase();
    assert_eq!(e.selection, Selection::G);
    e.selection_increase();
    assert_eq!(e.selection, Selection::B);
    e.selection_increase();
    assert_eq!(e.selection, Selection::R);
}

#[test]
fn selection_cycles_backward_with_wrap_around() {
    let mut e = editor(4, 4, 10);
    e.selection_decrease();
    assert_eq!(e.selection, Selection::B);
    e.selection_decrease();
    assert_eq!(e.selection, Selection::G);
    e.selection_decrease();
    assert_eq!(e.selection, Selection::R);
}

#[test]
fn color_increase_saturates_at_255() {
    let mut e = editor(4, 4, 10);
    for _ in 0..20 {
        e.color_increase();
    }
    assert_eq!(e.selected_color.r, 255);
    assert_eq!(e.selected_color.g, 100);
}

#[test]
fn color_decrease_saturates_at_zero() {
    let mut e = editor(4, 4, 10);
    e.selection_increase(); // edit green
    for _ in 0..20 {
        e.color_decrease();
    }
    assert_eq!(e.selected_color.g, 0);
    assert_eq!(e.selected_color.r, 100);
}

#[test]
fn grid_cell_maps_pointer_to_cell() {
    let e = editor(40, 30, 10);
    assert_eq!(e.grid_cell(125, 333), (12, 29));
    assert_eq!(e.grid_cell(0, 0), (0, 0));
    // Beyond the canvas footprint the pointer clamps to the last cell.
    assert_eq!(e.grid_cell(4000, 4000), (39, 29));
}

#[test]
fn pointer_paints_and_erases() {
    let mut e = editor(4, 4, 10);
    e.pointer_update(15, 25, true, false);
    // Cell (1, 2), index 2*4+1 = 9.
    assert_eq!(e.canvas.pixels[9], Pixel { r: 100, g: 100, b: 100, a: 255 });
    e.pointer_update(15, 25, false, true);
    assert_eq!(e.canvas.pixels[9], Pixel { r: 0, g: 0, b: 0, a: 0 });
}

#[test]
fn left_button_wins_when_both_are_down() {
    let mut e = editor(4, 4, 10);
    e.pointer_update(0, 0, true, true);
    assert_eq!(e.canvas.pixels[0], Pixel { r: 100, g: 100, b: 100, a: 255 });
}

#[test]
fn initial_canvas_keeps_matching_dimensions() {
    let size = Size { width: 3, height: 2 };
    let loaded = Sprite::new(
        Vec2 { x: 0, y: 0 },
        size,
        vec![Pixel { r: 9, g: 8, b: 7, a: 255 }; 6],
    );
    let canvas = Editor::initial_canvas(Some(loaded), size);
    assert_eq!(canvas.pixels[0].r, 9);
}

#[test]
fn initial_canvas_discards_mismatched_dimensions() {
    // Equal area, different shape: the loaded content is discarded.
    let loaded = Sprite::new(
        Vec2 { x: 0, y: 0 },
        Size { width: 2, height: 3 },
        vec![Pixel { r: 9, g: 8, b: 7, a: 255 }; 6],
    );
    let size = Size { width: 3, height: 2 };
    let canvas = Editor::initial_canvas(Some(loaded), size);
    assert_eq!(canvas.size, size);
    assert_eq!(canvas.pixels[0], Pixel { r: 0, g: 0, b: 0, a: 0 });
}

#[test]
fn initial_canvas_blank_on_no_image() {
    let size = Size { width: 2, height: 2 };
    let canvas = Editor::initial_canvas(None, size);
    assert_eq!(canvas.size, size);
    assert_eq!(canvas.pixels.len(), 4);
    assert!(canvas.pixels.iter().all(|p| *p == Pixel { r: 0, g: 0, b: 0, a: 0 }));
}

#[test]
fn draw_emits_one_scaled_rect_per_cell() {
    let mut e = editor(3, 2, 10);
    e.pointer_update(25, 15, true, false); // paint cell (2, 1), index 5
    let cells = e.draw();
    assert_eq!(cells.len(), 6);
    assert_eq!((cells[0].x, cells[0].y), (0, 0));
    assert_eq!((cells[4].x, cells[4].y), (10, 10));
    assert_eq!((cells[5].x, cells[5].y), (20, 10));
    assert_eq!((cells[5].width, cells[5].height), (10, 10));
    assert_eq!(cells[5].color, Pixel { r: 100, g: 100, b: 100, a: 255 });
    assert_eq!(cells[0].color, Pixel { r: 0, g: 0, b: 0, a: 0 });
}

#[test]
fn status_text_marks_the_selected_channel() {
    let mut e = editor(4, 4, 10);
    assert_eq!(
        String::from_utf8(e.status_text()).unwrap(),
        "color:>r:100, g:100, b:100"
    );
    e.selection_increase();
    e.color_increase();
    assert_eq!(
        String::from_utf8(e.status_text()).unwrap(),
        "color: r:100,>g:110, b:100"
    );
}
