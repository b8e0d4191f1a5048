use secondbrain::capture::{capture_step, CaptureStep, hash_text, prepare_ocr_text, tick_pause, window_segment, SegmentTracker, MIN_TEXT_LEN};
use std::collections::hash_map::DefaultHasher;
use std::hash::{Hash, Hasher};

fn key(pid: i32, name: &str, monitor: u32) -> (i32, String, u32) {
    (pid, name.to_string(), monitor)
}

#[test]
fn tracker_opens_records_and_dedupes() {
    let mut t = SegmentTracker::new();
    let k = key(1, "Doc", 0);
    assert!(!t.is_open(&k));
    assert_eq!(t.record_text(&k, 5), None);
    t.open(k.clone(), 42);
    assert!(t.is_open(&k));
    assert_eq!(t.record_text(&k, 5), Some(42));
    assert_eq!(t.record_text(&k, 5), None);
    assert_eq!(t.record_text(&k, 6), Some(42));
    assert_eq!(t.record_text(&k, 5), Some(42));
}

#[test]
fn tracker_first_text_with_zero_hash_is_not_new() {
    let mut t = SegmentTracker::new();
    let k = key(1, "Doc", 0);
    t.open(k.clone(), 42);
    assert_eq!(t.record_text(&k, 0), None);
}

#[test]
fn tracker_closes_only_stale_windows_of_the_monitor() {
    let mut t = SegmentTracker::new();
    t.open(key(1, "Doc", 0), 42);
    t.open(key(2, "Term", 0), 43);
    t.open(key(3, "Mail", 1), 44);
    t.open(key(4, "Chat", 0), 45);
    let mut closed = t.close_stale(0, &vec![key(1, "Doc", 0), key(3, "Other", 1)]);
    closed.sort();
    assert_eq!(closed, vec![43, 45]);
    assert!(t.is_open(&key(1, "Doc", 0)));
    assert!(!t.is_open(&key(2, "Term", 0)));
    assert!(t.is_open(&key(3, "Mail", 1)));
    assert!(!t.is_open(&key(4, "Chat", 0)));
    assert!(t.close_stale(0, &vec![key(1, "Doc", 0)]).is_empty());
    assert_eq!(t.close_stale(1, &vec![]), vec![44]);
}

#[test]
fn tracker_reopen_after_close() {
    let mut t = SegmentTracker::new();
    let k = key(7, "W", 2);
    t.open(k.clone(), 1);
    assert_eq!(t.record_text(&k, 9), Some(1));
    assert_eq!(t.close_stale(2, &vec![]), vec![1]);
    t.open(k.clone(), 2);
    assert_eq!(t.record_text(&k, 9), Some(2));
}

#[test]
fn hash_text_matches_std_str_hash() {
    for s in ["", "hello world", "ünïcödé → text", "lorem ipsum dolor"] {
        let mut h = DefaultHasher::new();
        s.hash(&mut h);
        assert_eq!(hash_text(s), h.finish());
    }
    assert_ne!(hash_text("a"), hash_text("b"));
}

#[test]
fn ocr_text_is_trimmed_and_needs_eight_bytes() {
    assert_eq!(MIN_TEXT_LEN, 8);
    assert_eq!(prepare_ocr_text("  hello world \n").as_deref(), Some("hello world"));
    assert_eq!(prepare_ocr_text("  short  "), None);
    assert_eq!(prepare_ocr_text("\t12345678\r\n").as_deref(), Some("12345678"));
    assert_eq!(prepare_ocr_text("1234567"), None);
    assert_eq!(prepare_ocr_text("éééé").as_deref(), Some("éééé"));
    assert_eq!(prepare_ocr_text("\u{3000}abcdefgh\u{2003}").as_deref(), Some("abcdefgh"));
    assert_eq!(prepare_ocr_text("        "), None);
}

#[test]
fn window_segment_fields() {
    let seg = window_segment(1234, "Safari", "Apple", 2, true);
    assert_eq!(seg.started_at, 1234);
    assert_eq!(seg.app_bundle, "Safari");
    assert_eq!(seg.app_name, "Safari");
    assert_eq!(seg.window_title.as_deref(), Some("Apple"));
    assert_eq!(seg.url, None);
    assert_eq!(seg.monitor_id, Some(2));
    assert!(seg.focused);
}

#[test]
fn tick_pause_fills_the_interval() {
    assert_eq!(tick_pause(300, 1000), Some(700));
    assert_eq!(tick_pause(1000, 1000), None);
    assert_eq!(tick_pause(1500, 1000), None);
    assert_eq!(tick_pause(0, 1000), Some(1000));
}

#[test]
fn capture_step_holds_the_loop_while_paused() {
    assert!(matches!(capture_step(false, false), CaptureStep::Sleep { ms: 500 }));
    assert!(matches!(capture_step(false, true), CaptureStep::Sleep { ms: 500 }));
    assert!(matches!(capture_step(true, true), CaptureStep::Sleep { ms: 5000 }));
    assert!(matches!(capture_step(true, false), CaptureStep::Sweep));
}
