use textedit::command::CharRange;
use textedit::editor::{TextInput, TextInputMode};
use textedit::layout::layout;
use textedit::scroll::{PointPx, RectPx};

/// Lays the current content out with uniform 1px-wide characters
/// and 1px-high lines and hands it back to the editor, as a paint
/// pass would.
fn paint(t: &mut TextInput, wrap: Option<u64>) {
    let chars = t.content.chars_vec();
    let widths: Vec<u64> = chars.iter().map(|_| 1).collect();
    let lines = layout(&chars, &widths, wrap, 1);
    t.store_layout(lines, RectPx::new(0, 0, 100, 100), PointPx::new(0, 0));
}

#[test]
fn vertical_movement_follows_visual_lines() {
    let mut t = TextInput::new(TextInputMode::Full);
    t.insert("abcd\nefgh\nij");
    paint(&mut t, None);
    t.move_to(7);
    t.up();
    assert_eq!(t.selected_range.start, 2);
    t.down();
    assert_eq!(t.selected_range.start, 7);
    t.down();
    assert_eq!(t.selected_range.start, 12);
}

#[test]
fn up_on_first_line_does_nothing() {
    let mut t = TextInput::new(TextInputMode::Full);
    t.insert("ab\ncd");
    paint(&mut t, None);
    t.move_to(1);
    t.up();
    assert_eq!(t.selected_range.start, 1);
}

#[test]
fn vertical_movement_crosses_wrap_rows() {
    let mut t = TextInput::new(TextInputMode::Full);
    t.insert("aaaa bbbb cccc");
    paint(&mut t, Some(9));
    // The cursor inside the second visual row moves up within the
    // same logical line.
    t.move_to(10);
    t.up();
    assert_eq!(t.selected_range.start, 1);
    t.down();
    assert_eq!(t.selected_range.start, 10);
}

#[test]
fn line_start_and_end_use_wrap_boundaries() {
    let mut t = TextInput::new(TextInputMode::Full);
    t.insert("aaaa bbbb cccc");
    paint(&mut t, Some(9));
    t.move_to(2);
    t.move_to_line_end();
    assert_eq!(t.selected_range.start, 9);
    t.move_to(11);
    t.move_to_line_start();
    assert_eq!(t.selected_range.start, 9);
}

#[test]
fn line_end_without_layout_stops_before_line_feed() {
    let mut t = TextInput::new(TextInputMode::Full);
    t.insert("ab\ncd");
    t.move_to(0);
    t.move_to_line_end();
    assert_eq!(t.selected_range.start, 2);
}

#[test]
fn mouse_click_places_the_cursor() {
    let mut t = TextInput::new(TextInputMode::Full);
    t.insert("abcd\nefgh");
    paint(&mut t, None);
    t.on_mouse_down(PointPx::new(2, 1), 1, false);
    assert_eq!(t.selected_range, CharRange { start: 7, end: 7 });
    // Above the text clamps to the start, below it to the end.
    t.on_mouse_down(PointPx::new(0, -5), 1, false);
    assert_eq!(t.selected_range.start, 0);
    t.on_mouse_down(PointPx::new(0, 99), 1, false);
    assert_eq!(t.selected_range.start, 9);
}

#[test]
fn double_click_selects_a_word() {
    let mut t = TextInput::new(TextInputMode::Full);
    t.insert("foo bar");
    paint(&mut t, None);
    t.on_mouse_down(PointPx::new(5, 0), 2, false);
    assert_eq!(t.selected_range, CharRange { start: 4, end: 7 });
}

#[test]
fn shift_click_extends_the_selection() {
    let mut t = TextInput::new(TextInputMode::Full);
    t.insert("abcdef");
    paint(&mut t, None);
    t.move_to(1);
    t.on_mouse_down(PointPx::new(4, 0), 1, true);
    assert_eq!(t.selected_range, CharRange { start: 1, end: 4 });
}

#[test]
fn drag_selects_while_mouse_moves() {
    let mut t = TextInput::new(TextInputMode::Full);
    t.insert("abcdef");
    paint(&mut t, None);
    t.on_mouse_down(PointPx::new(1, 0), 1, false);
    assert!(t.is_selecting);
    t.on_mouse_move(PointPx::new(4, 0));
    assert_eq!(t.selected_range, CharRange { start: 1, end: 4 });
    t.on_mouse_up();
    assert!(!t.is_selecting);
}

#[test]
fn selection_rects_cover_each_visual_row() {
    let mut t = TextInput::new(TextInputMode::Full);
    t.insert("aaaa bbbb cccc");
    paint(&mut t, Some(9));
    // A selection spanning the wrap produces one rect per row.
    let rects = t.selection_rects(CharRange { start: 2, end: 12 }).unwrap();
    assert_eq!(rects.len(), 2);
    assert_eq!(rects[0].origin.x, 2);
    assert_eq!(rects[0].origin.y, 0);
    assert_eq!(rects[0].width, 7);
    assert_eq!(rects[1].origin.x, 0);
    assert_eq!(rects[1].origin.y, 1);
    assert_eq!(rects[1].width, 3);
    for r in &rects {
        assert_eq!(r.height, 1);
    }
    // An empty range paints nothing.
    assert!(t.selection_rects(CharRange { start: 3, end: 3 }).is_none());
}

#[test]
fn pending_scroll_runs_on_paint() {
    let mut t = TextInput::new(TextInputMode::Full);
    t.insert("a\nb\nc");
    paint(&mut t, None);
    t.move_to(4);
    assert!(t.pending_scroll.is_some());
    t.notify_about_paint();
    assert!(t.pending_scroll.is_none());
}

#[test]
fn wheel_scroll_moves_the_viewport() {
    let mut t = TextInput::new(TextInputMode::Full);
    let text = "x\n".repeat(200);
    t.insert(&text);
    // A small viewport over 200 one-pixel lines.
    let chars = t.content.chars_vec();
    let widths: Vec<u64> = chars.iter().map(|_| 1).collect();
    let lines = layout(&chars, &widths, None, 1);
    t.store_layout(lines, RectPx::new(0, 0, 100, 50), PointPx::new(0, 0));
    t.on_scroll_wheel(PointPx::new(0, -30));
    assert_eq!(t.scroll_manager.offset.y, -30);
}
