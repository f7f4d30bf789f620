use kaku::scrollbar::{
    scrollbar_hover_hit, scrollbar_thumb_width, scrollbar_thumb_x, scrollbar_track, PaneDimensions,
    ScrollHit,
};
use kaku::splash::{splash_text, splash_text_with_spinner};

#[test]
fn thumb_width_is_capped_for_wide_tracks() {
    assert_eq!(scrollbar_thumb_width(12), 8);
    assert_eq!(scrollbar_thumb_width(16), 11);
    assert_eq!(scrollbar_thumb_width(20), 11);
}

#[test]
fn track_adds_visual_inset() {
    let track = scrollbar_track(300, 400, 20, 10, 20, 16, 6);
    assert_eq!(track.x, 278);
    assert_eq!(track.width, 16);
    assert_eq!(track.top, 28);
    assert_eq!(track.height, 354);
    assert_eq!(track.thumb_width, 11);
    assert_eq!(track.thumb_x, 280);
}

#[test]
fn thumb_sits_inside_right_edge_gap() {
    assert_eq!(scrollbar_thumb_x(100, 16, 11), 102);
}

#[test]
fn hover_hit_allows_nearby_pointer() {
    assert!(scrollbar_hover_hit(100, 40, 16, 100, 96, 36));
    assert!(!scrollbar_hover_hit(100, 40, 16, 100, 70, 36));
}

#[test]
fn zero_height_thumb_is_stable() {
    let thumb = ScrollHit { top: 0, height: 0 };
    assert_eq!(thumb.top, 0);
    assert_eq!(thumb.height, 0);
}

#[test]
fn narrow_tracks_fill_with_thumb() {
    assert_eq!(scrollbar_thumb_width(5), 5);
    assert_eq!(scrollbar_thumb_x(10, 5, 5), 10);
}

#[test]
fn hover_reaches_the_slop_and_no_further() {
    assert!(scrollbar_hover_hit(100, 40, 16, 100, 128, 152));
    assert!(!scrollbar_hover_hit(100, 40, 16, 100, 129, 152));
    assert!(!scrollbar_hover_hit(100, 40, 16, 100, 128, 153));
    assert!(scrollbar_hover_hit(0, 0, 4, 4, -12, -12));
    assert!(!scrollbar_hover_hit(0, 0, 4, 4, -13, 0));
}

#[test]
fn track_inset_is_capped() {
    let track = scrollbar_track(10, 10, 0, 0, 100, 16, 6);
    assert_eq!(track.x, 0);
    assert_eq!(track.top, 12);
    assert_eq!(track.height, 0);
}

fn dims() -> PaneDimensions {
    PaneDimensions {
        viewport_rows: 20,
        scrollback_rows: 100,
        physical_top: 80,
        scrollback_top: 0,
    }
}

#[test]
fn scrolling_is_measured_in_rows() {
    assert_eq!(dims().scroll_extent(), 80);
    assert_eq!(dims().scroll_distance(Some(30)), 50);
    assert_eq!(dims().scroll_distance(None), 0);
    assert_eq!(dims().scroll_size(), 100);
    let far = PaneDimensions { physical_top: isize::MAX, scrollback_top: -1, ..dims() };
    assert_eq!(far.scroll_extent(), isize::MAX);
}

#[test]
fn thumb_height_is_held_within_limits() {
    assert_eq!(ScrollHit::thumb_height(50, 16, 8, 100), 16);
    assert_eq!(ScrollHit::thumb_height(50, 16, 30, 100), 30);
    assert_eq!(ScrollHit::thumb_height(50, 200, 8, 40), 40);
    assert_eq!(ScrollHit::thumb_height(10, 16, 8, 100), 10);
}

#[test]
fn thumb_rests_where_nothing_scrolls() {
    assert_eq!(ScrollHit::thumb(&dims(), 0, 5, 3), ScrollHit { top: 0, height: 0 });
    assert_eq!(ScrollHit::thumb(&dims(), 5, 5, 3), ScrollHit { top: 0, height: 5 });
    assert_eq!(ScrollHit::thumb(&dims(), 50, 5, 3), ScrollHit { top: 3, height: 5 });
    let still = PaneDimensions { scrollback_top: 80, ..dims() };
    assert_eq!(ScrollHit::thumb(&still, 50, 5, 3), ScrollHit { top: 0, height: 5 });
}

#[test]
fn dragged_thumb_scrolls() {
    let thumb = ScrollHit { top: 3, height: 10 };
    assert_eq!(thumb.drag_position(95, 100), (90, 90));
    assert_eq!(thumb.drag_position(7, 100), (7, 90));
    assert_eq!(thumb.thumb_top_to_scroll_top(&dims(), 100, 40), 40);
    assert_eq!(thumb.thumb_top_to_scroll_top(&dims(), 10, 40), 0);
    let high = PaneDimensions { scrollback_top: isize::MAX - 1, ..dims() };
    assert_eq!(thumb.thumb_top_to_scroll_top(&high, 100, 40), isize::MAX);
}

#[test]
fn splash_shows_spinner_and_message() {
    assert_eq!(splash_text("Loading..."), "●  Loading...");
    assert_eq!(splash_text_with_spinner("x", '*'), "*  x");
}
