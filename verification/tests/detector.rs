use cliphistory::{get_active_app_name_macos, AppState, WriteBack};

#[test]
fn unchanged_sample_is_captured_only_once() {
    let mut state = AppState::new();
    let first = state.detector_cycle(Some("abc".to_string()), "Mail".to_string(), 100);
    assert!(first);
    assert_eq!(state.db.len(), 1);
    let second = state.detector_cycle(Some("abc".to_string()), "Mail".to_string(), 200);
    assert!(!second);
    assert_eq!(state.db.len(), 1);
    let row = &state.db.get_all_clips(10).unwrap()[0];
    assert_eq!(row.timestamp, 100);
}

#[test]
fn select_clip_suppresses_its_own_detection() {
    let mut state = AppState::new();
    let r = state.update_clipboard_on_click("abc".to_string(), "Web".to_string(), 100);
    assert_eq!(r.unwrap(), WriteBack::Applied);
    assert_eq!(state.db.len(), 1);
    // The detector now reads "abc" back from the system clipboard.
    assert!(!state.should_capture(&Some("abc".to_string())));
    let captured = state.detector_cycle(Some("abc".to_string()), "Web".to_string(), 150);
    assert!(!captured);
    assert_eq!(state.db.len(), 1);
}

#[test]
fn blank_or_missing_sample_changes_nothing() {
    let mut state = AppState::new();
    state.initialize_snapshot(Some("seed".to_string()));
    assert_eq!(state.last_clipboard_content.as_deref(), Some("seed"));
    assert!(!state.detector_cycle(Some("   \t\n".to_string()), String::new(), 10));
    assert!(!state.detector_cycle(Some(String::new()), String::new(), 11));
    assert!(!state.detector_cycle(None, String::new(), 12));
    assert_eq!(state.db.len(), 0);
    assert_eq!(state.last_clipboard_content.as_deref(), Some("seed"));
}

#[test]
fn initialize_snapshot_ignores_blank_readings() {
    let mut state = AppState::new();
    state.initialize_snapshot(Some("   ".to_string()));
    assert_eq!(state.last_clipboard_content, None);
    state.initialize_snapshot(None);
    assert_eq!(state.last_clipboard_content, None);
    state.initialize_snapshot(Some("kept".to_string()));
    assert_eq!(state.last_clipboard_content.as_deref(), Some("kept"));
}

#[test]
fn seeded_snapshot_suppresses_the_first_sample() {
    let mut state = AppState::new();
    state.initialize_snapshot(Some("already there".to_string()));
    assert!(!state.detector_cycle(Some("already there".to_string()), String::new(), 5));
    assert_eq!(state.db.len(), 0);
    assert!(state.detector_cycle(Some("fresh".to_string()), String::new(), 6));
    assert_eq!(state.db.len(), 1);
}

#[test]
fn write_back_of_blank_text_is_a_no_op_success() {
    let mut state = AppState::new();
    let r = state.update_clipboard_on_click("  \t ".to_string(), String::new(), 10);
    assert_eq!(r.unwrap(), WriteBack::Skipped);
    assert_eq!(state.db.len(), 0);
    assert_eq!(state.last_clipboard_content, None);
}

#[test]
fn write_back_of_the_snapshot_text_is_skipped() {
    let mut state = AppState::new();
    assert!(state.detector_cycle(Some("abc".to_string()), "A".to_string(), 100));
    let r = state.update_clipboard_on_click("abc".to_string(), "B".to_string(), 200);
    assert_eq!(r.unwrap(), WriteBack::Skipped);
    assert_eq!(state.db.len(), 1);
    let row = &state.db.get_all_clips(10).unwrap()[0];
    assert_eq!(row.timestamp, 100);
    assert_eq!(row.source, "A");
}

#[test]
fn state_queries_mirror_the_store() {
    let mut state = AppState::new();
    assert!(state.detector_cycle(Some("Hello World".to_string()), "Mail".to_string(), 1));
    assert!(state.detector_cycle(Some("other".to_string()), "Web".to_string(), 2));
    let listed = state.get_all_clips().unwrap();
    assert_eq!(listed.len(), 2);
    assert_eq!(listed[0].value, "other");
    let searched = state.on_search("world".to_string(), String::new()).unwrap();
    assert_eq!(searched.len(), 1);
    assert_eq!(searched[0].value, "Hello World");
    let fallback = state.on_search("  ".to_string(), " ".to_string()).unwrap();
    assert_eq!(fallback.len(), 2);
    let mut sources = state.get_unique_source_apps().unwrap();
    sources.sort();
    assert_eq!(sources, ["Mail", "Web"]);
}

#[test]
fn state_listing_caps_at_one_thousand_rows() {
    let mut state = AppState::new();
    for i in 0..1001i64 {
        assert!(state.detector_cycle(Some(format!("value {i}")), String::new(), i));
    }
    assert_eq!(state.db.len(), 1001);
    let listed = state.get_all_clips().unwrap();
    assert_eq!(listed.len(), 1000);
    assert_eq!(listed[0].value, "value 1000");
}

#[test]
fn resolver_result_becomes_the_label_or_the_error() {
    assert_eq!(
        get_active_app_name_macos(Some("Safari".to_string())),
        Ok("Safari".to_string())
    );
    assert_eq!(
        get_active_app_name_macos(None),
        Err("Could not determine frontmost application.".to_string())
    );
}
