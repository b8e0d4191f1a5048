use secondbrain::whatsapp::{
    chat_day_segment, chat_day_segment_with_label, chat_url_string, day_bucket_in_range,
    day_bucket_ms, day_end_ms, is_group_chat, render_text, sync_summary, sync_summary_with_label,
    MessageStep, RawMessage, SyncReport, SyncState, APP_BUNDLE, APP_NAME, DAY_MS,
    EARLIEST_BUCKETED_MS,
};

fn message(text: Option<&str>, is_from_me: bool, push_name: Option<&str>, from_jid: Option<&str>, message_type: i64) -> RawMessage {
    RawMessage {
        apple_us: 0,
        unix_ms: 0,
        text: text.map(|t| t.to_string()),
        is_from_me,
        from_jid: from_jid.map(|t| t.to_string()),
        to_jid: None,
        push_name: push_name.map(|t| t.to_string()),
        message_type,
        stanza_id: None,
        chat_jid: None,
        chat_partner: None,
        is_group: false,
    }
}

fn dated(apple_us: i64, unix_ms: i64, chat_jid: Option<&str>) -> RawMessage {
    let mut m = message(Some("hi"), false, None, None, 0);
    m.apple_us = apple_us;
    m.unix_ms = unix_ms;
    m.chat_jid = chat_jid.map(|j| j.to_string());
    m
}

#[test]
fn day_bucket_finds_the_utc_day() {
    assert_eq!(day_bucket_ms(0), 0);
    assert_eq!(day_bucket_ms(86_399_999), 0);
    assert_eq!(day_bucket_ms(86_400_000), 86_400_000);
    assert_eq!(day_bucket_ms(1_700_000_000_000), 1_699_920_000_000);
    assert_eq!(day_bucket_ms(-1), -86_400_000);
    assert_eq!(day_bucket_ms(-86_400_000), -86_400_000);
    assert_eq!(day_bucket_ms(-86_400_001), -172_800_000);
    assert_eq!(day_bucket_ms(i64::MAX) % DAY_MS, 0);
    assert_eq!(day_bucket_ms(EARLIEST_BUCKETED_MS), EARLIEST_BUCKETED_MS);
}

#[test]
fn day_bucket_range() {
    assert!(day_bucket_in_range(0));
    assert!(day_bucket_in_range(i64::MAX));
    assert!(day_bucket_in_range(EARLIEST_BUCKETED_MS));
    assert!(!day_bucket_in_range(EARLIEST_BUCKETED_MS - 1));
    assert!(!day_bucket_in_range(i64::MIN));
    assert_eq!(EARLIEST_BUCKETED_MS % DAY_MS, 0);
}

#[test]
fn day_end_is_one_day_later() {
    assert_eq!(day_end_ms(1_699_920_000_000), 1_700_006_400_000);
}

#[test]
fn render_text_from_me() {
    let m = message(Some("hello"), true, Some("Bob"), Some("1@s.whatsapp.net"), 0);
    assert_eq!(render_text(&m), "→ me: hello");
}

#[test]
fn render_text_speaker_fallbacks() {
    let m = message(Some("hi"), false, Some("Bob"), Some("1@s.whatsapp.net"), 0);
    assert_eq!(render_text(&m), "← Bob: hi");
    let m = message(Some("hi"), false, None, Some("1@s.whatsapp.net"), 0);
    assert_eq!(render_text(&m), "← 1@s.whatsapp.net: hi");
    let m = message(Some("hi"), false, None, None, 0);
    assert_eq!(render_text(&m), "← ?: hi");
    let m = message(Some("hi"), false, Some(""), Some("1@s.whatsapp.net"), 0);
    assert_eq!(render_text(&m), "← : hi");
}

#[test]
fn render_text_media_placeholders() {
    let m = message(None, false, None, None, 1);
    assert_eq!(render_text(&m), "[image]");
    let m = message(Some(""), true, None, None, 0);
    assert_eq!(render_text(&m), "[text-empty]");
    let kinds = [
        (2, "[audio]"),
        (3, "[video]"),
        (4, "[contact]"),
        (5, "[location]"),
        (7, "[url]"),
        (8, "[document]"),
        (10, "[call]"),
        (11, "[gif]"),
        (14, "[deleted]"),
        (15, "[sticker]"),
    ];
    for (t, want) in kinds {
        assert_eq!(render_text(&message(None, false, None, None, t)), want);
    }
    assert_eq!(render_text(&message(None, false, None, None, 6)), "[media: type 6]");
    assert_eq!(render_text(&message(None, false, None, None, 99)), "[media: type 99]");
    assert_eq!(render_text(&message(None, false, None, None, -3)), "[media: type -3]");
}

#[test]
fn group_chat_detection() {
    assert!(is_group_chat(Some("12345@g.us"), None));
    assert!(!is_group_chat(Some("12345@s.whatsapp.net"), None));
    assert!(is_group_chat(Some("12345@s.whatsapp.net"), Some(1)));
    assert!(!is_group_chat(None, Some(0)));
    assert!(is_group_chat(None, Some(1)));
    assert!(!is_group_chat(Some("@g.u"), None));
}

#[test]
fn raw_message_from_columns() {
    let m = RawMessage::from_columns(
        5,
        6,
        Some("x".to_string()),
        Some(1),
        None,
        None,
        None,
        None,
        None,
        Some("99@g.us".to_string()),
        None,
        None,
    );
    assert!(m.is_from_me);
    assert_eq!(m.message_type, 0);
    assert!(m.is_group);
    let m = RawMessage::from_columns(5, 6, None, None, None, None, None, Some(3), None, None, None, Some(0));
    assert!(!m.is_from_me);
    assert_eq!(m.message_type, 3);
    assert!(!m.is_group);
}

#[test]
fn chat_url_format() {
    assert_eq!(chat_url_string("1@s.whatsapp.net"), "whatsapp://chat/1@s.whatsapp.net");
}

#[test]
fn chat_day_segment_uses_partner_and_utc_date() {
    let seg = chat_day_segment("1@s.whatsapp.net", Some("Alice"), 1_700_006_400_000);
    assert_eq!(seg.started_at, 1_700_006_400_000);
    assert_eq!(seg.app_bundle, APP_BUNDLE);
    assert_eq!(seg.app_name, APP_NAME);
    assert_eq!(seg.window_title.as_deref(), Some("Alice — 2023-11-15"));
    assert_eq!(seg.url.as_deref(), Some("whatsapp://chat/1@s.whatsapp.net"));
    assert_eq!(seg.monitor_id, None);
    assert!(!seg.focused);
}

#[test]
fn chat_day_segment_falls_back_to_jid() {
    let seg = chat_day_segment("1@s.whatsapp.net", Some(""), 0);
    assert_eq!(seg.window_title.as_deref(), Some("1@s.whatsapp.net — 1970-01-01"));
    let seg = chat_day_segment("1@s.whatsapp.net", None, -86_400_000);
    assert_eq!(seg.window_title.as_deref(), Some("1@s.whatsapp.net — 1969-12-31"));
}

#[test]
fn chat_day_segment_out_of_range_uses_millis() {
    let seg = chat_day_segment("j", Some("P"), i64::MAX);
    assert_eq!(seg.window_title.as_deref(), Some("P — 9223372036854775807"));
    let seg = chat_day_segment_with_label("j", None, -5, None);
    assert_eq!(seg.window_title.as_deref(), Some("j — -5"));
    let seg = chat_day_segment_with_label("j", None, 0, Some("label".to_string()));
    assert_eq!(seg.window_title.as_deref(), Some("j — label"));
}

#[test]
fn sync_caches_segments_and_advances_watermark() {
    let mut sync = SyncState::new(Some(100));
    match sync.observe(&dated(150, 1_000, Some("a"))) {
        MessageStep::NeedSegment { chat_jid, day_start_ms } => {
            assert_eq!(chat_jid, "a");
            assert_eq!(day_start_ms, 0);
        }
        other => panic!("unexpected step {other:?}"),
    }
    sync.segment_ready(7);
    assert!(matches!(sync.observe(&dated(120, 2_000, Some("a"))), MessageStep::Segment(7)));
    assert!(matches!(sync.observe(&dated(300, 3_000, None)), MessageStep::Skip));
    match sync.observe(&dated(200, DAY_MS + 5, Some("a"))) {
        MessageStep::NeedSegment { chat_jid, day_start_ms } => {
            assert_eq!(chat_jid, "a");
            assert_eq!(day_start_ms, DAY_MS);
        }
        other => panic!("unexpected step {other:?}"),
    }
    sync.segment_ready(8);
    match sync.observe(&dated(210, 10, Some("b"))) {
        MessageStep::NeedSegment { chat_jid, day_start_ms } => {
            assert_eq!(chat_jid, "b");
            assert_eq!(day_start_ms, 0);
        }
        other => panic!("unexpected step {other:?}"),
    }
    sync.segment_ready(9);
    assert!(matches!(sync.observe(&dated(220, DAY_MS + 50, Some("a"))), MessageStep::Segment(8)));
    let (watermark, report) = sync.finish();
    assert_eq!(watermark, Some(300));
    assert_eq!(report.messages_ingested, 6);
    assert_eq!(report.segments_touched, 3);
    assert_eq!(report.new_watermark_unix_ms, Some(DAY_MS + 50));
}

#[test]
fn sync_without_newer_messages_keeps_watermark() {
    let mut sync = SyncState::new(Some(500));
    assert!(matches!(sync.observe(&dated(400, 1, None)), MessageStep::Skip));
    assert!(matches!(sync.observe(&dated(500, 2, None)), MessageStep::Skip));
    let (watermark, report) = sync.finish();
    assert_eq!(watermark, None);
    assert_eq!(report.messages_ingested, 2);
    assert_eq!(report.segments_touched, 0);
    assert_eq!(report.new_watermark_unix_ms, Some(2));
}

#[test]
fn sync_of_nothing() {
    let sync = SyncState::new(None);
    let (watermark, report) = sync.finish();
    assert_eq!(watermark, None);
    assert_eq!(report.messages_ingested, 0);
    assert_eq!(report.segments_touched, 0);
    assert_eq!(report.new_watermark_unix_ms, None);
}

#[test]
fn first_sync_stores_first_watermark() {
    let mut sync = SyncState::new(None);
    assert!(matches!(sync.observe(&dated(-10, 1, None)), MessageStep::Skip));
    let (watermark, _) = sync.finish();
    assert_eq!(watermark, Some(-10));
}

#[test]
fn chat_day_segment_at_chrono_limits() {
    let first = -8_334_601_228_800_000i64;
    let seg = chat_day_segment("j", None, first);
    let title = seg.window_title.unwrap();
    assert!(title.ends_with("262143-01-01"), "{title}");
    let seg = chat_day_segment("j", None, first - 1);
    assert_eq!(seg.window_title.as_deref(), Some("j — -8334601228800001"));
    let last = 8_210_266_876_799_999i64;
    let title = chat_day_segment("j", None, last).window_title.unwrap();
    assert!(title.ends_with("262142-12-31"), "{title}");
    let seg = chat_day_segment("j", None, last + 1);
    assert_eq!(seg.window_title.as_deref(), Some("j — 8210266876800000"));
}

#[test]
fn sync_puts_negative_dates_in_their_utc_day() {
    let mut sync = SyncState::new(None);
    match sync.observe(&dated(1, -1, Some("a"))) {
        MessageStep::NeedSegment { day_start_ms, .. } => assert_eq!(day_start_ms, -DAY_MS),
        other => panic!("unexpected step {other:?}"),
    }
    sync.segment_ready(3);
    let seg = chat_day_segment("a", None, -DAY_MS);
    assert_eq!(seg.window_title.as_deref(), Some("a — 1969-12-31"));
}

#[test]
fn sync_summary_lines() {
    let report = SyncReport { messages_ingested: 3, segments_touched: 2, new_watermark_unix_ms: Some(1_500) };
    assert_eq!(
        sync_summary(&report),
        "ingested 3 messages across 2 segments (watermark: 1970-01-01T00:00:01.500+00:00)"
    );
    let report = SyncReport { messages_ingested: 0, segments_touched: 0, new_watermark_unix_ms: None };
    assert_eq!(sync_summary(&report), "ingested 0 messages across 0 segments (watermark: <none>)");
    let report = SyncReport { messages_ingested: 1, segments_touched: 1, new_watermark_unix_ms: Some(i64::MAX) };
    assert_eq!(sync_summary(&report), "ingested 1 messages across 1 segments (watermark: <none>)");
    let report = SyncReport { messages_ingested: 10, segments_touched: 4, new_watermark_unix_ms: Some(0) };
    assert_eq!(
        sync_summary_with_label(&report, Some("w".to_string())),
        "ingested 10 messages across 4 segments (watermark: w)"
    );
}
