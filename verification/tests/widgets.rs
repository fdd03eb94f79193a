use fuide::devshot::{ShotClock, DEFAULT_SHOT_FRAME};
use fuide::shell::{idle_interval_micros, Glyph, IDLE_FPS};
use fuide::table::{TableResponse, TableState};
use fuide::widgets::{feed_order, Icon, LogOrder};

#[test]
fn icon_labels() {
    assert_eq!(Icon::Refresh.label(), "REFRESH");
    assert_eq!(Icon::ChevronLeft.label(), "BACK");
    assert_eq!(Icon::SkipForward.label(), "NEXT");
    assert_eq!(Icon::TriangleDown.label(), "DESCENDING");
}

#[test]
fn window_button_labels() {
    assert_eq!(Glyph::Close.label(), "CLOSE WINDOW");
    assert_eq!(Glyph::Max.label(), "MAXIMIZE");
    assert_eq!(Glyph::Min.label(), "MINIMIZE");
    assert_eq!(Glyph::Min.position(), 2);
}

#[test]
fn feeds_show_newest_first_or_in_order() {
    assert_eq!(feed_order(3, LogOrder::NewestFirst), vec![2, 1, 0]);
    assert_eq!(feed_order(3, LogOrder::Chronological), vec![0, 1, 2]);
    assert!(feed_order(0, LogOrder::NewestFirst).is_empty());
}

#[test]
fn header_clicks_sort_and_flip() {
    let mut s = TableState::default();
    let mut out = TableResponse::default();
    assert!(!out.sort_changed);
    s.header_clicked(&mut out, 2);
    assert_eq!((s.sort_col, s.sort_desc), (2, false));
    assert!(out.sort_changed);
    s.header_clicked(&mut out, 2);
    assert_eq!((s.sort_col, s.sort_desc), (2, true));
    s.header_clicked(&mut out, 0);
    assert_eq!((s.sort_col, s.sort_desc), (0, false));
    assert_eq!((out.clicked, out.double_clicked, out.secondary_clicked), (None, None, None));
}

#[test]
fn row_clicks_select_and_report() {
    let mut s = TableState::default();
    let mut out = TableResponse::default();
    s.row_input(&mut out, 4, true, false, false);
    assert_eq!((out.clicked, s.selected), (Some(4), Some(4)));
    s.row_input(&mut out, 5, true, true, false);
    assert_eq!((out.double_clicked, out.clicked, s.selected), (Some(5), Some(4), Some(4)));
    s.row_input(&mut out, 6, false, false, true);
    assert_eq!((out.secondary_clicked, s.selected), (Some(6), Some(6)));
    s.scroll_to_selected = true;
    assert_eq!(s.take_scroll_target(), Some(6));
    assert_eq!(s.take_scroll_target(), None);
}

#[test]
fn idle_repaints_at_the_configured_rate() {
    assert_eq!(idle_interval_micros(IDLE_FPS), 50_000);
    assert_eq!(idle_interval_micros(0), 0);
    assert_eq!(idle_interval_micros(3), 333_333);
}

#[test]
fn dev_screenshot_is_taken_once_after_the_warm_up() {
    let mut c = ShotClock::new(3);
    assert!(!c.tick(true));
    assert!(!c.tick(true));
    assert!(c.tick(true));
    assert!(!c.tick(true));
    let mut quiet = ShotClock::new(DEFAULT_SHOT_FRAME);
    for _ in 0..100 {
        assert!(!quiet.tick(false));
    }
    assert_eq!(quiet.frames, 100);
    let mut c = ShotClock::new(1);
    for _ in 0..29 {
        c.tick(false);
    }
    assert!(!c.log_due());
    c.tick(false);
    assert!(c.log_due());
}

#[test]
fn every_icon_has_its_own_label() {
    let all = [
        Icon::ChevronLeft,
        Icon::ChevronRight,
        Icon::ChevronUp,
        Icon::ChevronDown,
        Icon::ArrowUp,
        Icon::ArrowDown,
        Icon::TriangleUp,
        Icon::TriangleDown,
        Icon::Plus,
        Icon::Cross,
        Icon::Refresh,
        Icon::Settings,
        Icon::Play,
        Icon::Pause,
        Icon::Stop,
        Icon::SkipBack,
        Icon::SkipForward,
    ];
    for (i, a) in all.iter().enumerate() {
        for b in &all[i + 1..] {
            assert_ne!(a.label(), b.label(), "{a:?} / {b:?}");
        }
    }
}
