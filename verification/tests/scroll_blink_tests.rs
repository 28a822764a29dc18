use textedit::blink::BlinkManager;
use textedit::layout::layout;
use textedit::scroll::{PointPx, RectPx, ScrollManager};

#[test]
fn blink_toggles_on_fresh_wakeups() {
    let mut b = BlinkManager::new();
    assert!(!b.show());
    let token = b.enable();
    // Enabling schedules the first toggle at once: the cursor is
    // shown and a wake-up token handed out.
    assert!(b.enabled);
    assert!(b.show());
    let token = token.unwrap();
    let next = b.blink(token).unwrap();
    assert!(!b.show());
    let _ = b.blink(next).unwrap();
    assert!(b.show());
}

#[test]
fn stale_blink_wakeup_is_ignored() {
    let mut b = BlinkManager::new();
    let t1 = b.enable().unwrap();
    let t2 = b.blink(t1).unwrap();
    // The old token no longer matches.
    assert_eq!(b.blink(t1), None);
    assert!(!b.show());
    let _ = b.blink(t2);
    assert!(b.show());
}

#[test]
fn pause_forces_visible_and_resume_continues() {
    let mut b = BlinkManager::new();
    let t = b.enable().unwrap();
    let _ = b.blink(t);
    assert!(!b.show());
    let resume_token = b.pause();
    assert!(b.show());
    assert!(b.paused);
    // A stale resume does nothing.
    assert_eq!(b.resume(resume_token + 1), None);
    assert!(b.paused);
    let _ = b.resume(resume_token);
    assert!(!b.paused);
}

#[test]
fn disable_hides_and_stops() {
    let mut b = BlinkManager::new();
    let _ = b.enable();
    b.disable();
    assert!(!b.show());
    assert!(!b.enabled);
    // Wake-ups while disabled change nothing.
    let e = b.epoch;
    assert_eq!(b.blink(e), None);
}

fn sample_lines(text: &str, wrap: Option<u64>) -> textedit::layout::Lines {
    let chars: Vec<char> = text.chars().collect();
    let widths: Vec<u64> = chars.iter().map(|_| 8u64).collect();
    layout(&chars, &widths, wrap, 16)
}

#[test]
fn wheel_scroll_clamps_to_content() {
    let mut sm = ScrollManager::new();
    let lines = sample_lines("one\ntwo\nthree\nfour", None);
    let bounds = RectPx::new(0, 0, 200, 32);
    // Content is 4 lines of 16px = 64px high plus the two-line
    // bottom padding; scrolling far down clamps there.
    let _ = sm.calc_offset_after_scroll(PointPx::new(0, -1000), &lines, &bounds);
    assert_eq!(sm.offset.y, -(64 + 32 - 32));
    // Scrolling up clamps at zero.
    let _ = sm.calc_offset_after_scroll(PointPx::new(0, 1000), &lines, &bounds);
    assert_eq!(sm.offset.y, 0);
    assert!(sm.show);
}

#[test]
fn horizontal_scroll_clamps_to_widest_row() {
    let mut sm = ScrollManager::new();
    let lines = sample_lines("abcdefghij", None);
    // 10 chars of 8px = 80px wide, viewport 40px.
    let bounds = RectPx::new(0, 0, 40, 100);
    let _ = sm.calc_offset_after_scroll(PointPx::new(-1000, 0), &lines, &bounds);
    assert_eq!(sm.offset.x, -40);
}

#[test]
fn move_into_view_scrolls_down() {
    let mut sm = ScrollManager::new();
    let lines = sample_lines("a\nb\nc\nd\ne\nf\ng\nh", None);
    let bounds = RectPx::new(0, 0, 200, 48);
    let epoch = sm.calc_epoch;
    // The cursor on the last line (y = 7*16) is far below the
    // 48px viewport: the offset moves negative.
    let _ = sm.calc_offset_after_move(epoch, 7, 0, &lines, &bounds);
    assert!(sm.offset.y < 0);
}

#[test]
fn stale_move_recalculation_is_ignored() {
    let mut sm = ScrollManager::new();
    let lines = sample_lines("a\nb\nc\nd\ne\nf\ng\nh", None);
    let bounds = RectPx::new(0, 0, 200, 48);
    let stale = sm.calc_epoch;
    let _ = sm.next_calc_epoch();
    let r = sm.calc_offset_after_move(stale, 7, 0, &lines, &bounds);
    assert_eq!(r, None);
    assert_eq!(sm.offset.y, 0);
}

#[test]
fn drag_maps_pointer_fraction() {
    let mut sm = ScrollManager::new();
    let lines = sample_lines("a\nb\nc\nd\ne\nf\ng\nh", None);
    let bounds = RectPx::new(0, 0, 200, 64);
    // Content 128px high; dragging to the middle of a 64px bar
    // scrolls half of (128 - 32).
    let _ = sm.scroll_to(PointPx::new(190, 32), &lines, &bounds);
    assert_eq!(sm.offset.y, -48);
    // Dragging to the top goes back to zero.
    let _ = sm.scroll_to(PointPx::new(190, 0), &lines, &bounds);
    assert_eq!(sm.offset.y, 0);
}

#[test]
fn scrollbar_hit_region() {
    let sm = ScrollManager::new();
    let bounds = RectPx::new(0, 0, 200, 100);
    assert!(sm.is_in_scrollbar(PointPx::new(190, 50), &bounds));
    assert!(!sm.is_in_scrollbar(PointPx::new(150, 50), &bounds));
    let strip = sm.bounds(&bounds);
    assert_eq!(strip.origin.x, 184);
    assert_eq!(strip.width, 16);
    assert_eq!(strip.height, 100);
}

#[test]
fn fade_tokens_invalidate() {
    let mut sm = ScrollManager::new();
    let token = sm.enable().unwrap();
    assert!(sm.show);
    // A stale fade does nothing; the fresh one hides the bar.
    sm.fade(token + 1);
    assert!(sm.show);
    sm.fade(token);
    assert!(!sm.show);
}

#[test]
fn paint_bar_geometry() {
    let mut sm = ScrollManager::new();
    let bounds = RectPx::new(0, 0, 200, 100);
    // Content fits: no bar.
    assert!(sm.paint_bar(&bounds, 80, 0).is_none());
    // Content taller than the viewport: track, thumb and marker.
    let (track, thumb, marker) = sm.paint_bar(&bounds, 400, 0).unwrap();
    assert_eq!(track.height, 100);
    assert!(thumb.height <= track.height);
    assert!(thumb.height >= 42);
    assert_eq!(marker.height, 2);
    // Hidden bar paints nothing.
    sm.fade(sm.show_epoch);
    assert!(sm.paint_bar(&bounds, 400, 0).is_none());
}
