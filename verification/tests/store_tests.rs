use clipboard_history::context::{load_history, ClipboardApp};
use clipboard_history::entry::Entry;
use clipboard_history::errors::StoreError;

fn entry(ts: &str, text: &str) -> Entry {
    Entry { timestamp: ts.to_string(), text: text.to_string() }
}

#[test]
fn fresh_context_is_empty_and_enabled() {
    let app = ClipboardApp::new();
    assert!(app.get_monitoring_status());
    assert_eq!(app.get_history().len(), 0);
}

#[test]
fn add_returns_the_created_entry() {
    let mut app = ClipboardApp::new();
    let e = app.add_to_history_at("2024-01-01 12:00:00".to_string(), "hello".to_string()).unwrap();
    assert_eq!(e, entry("2024-01-01 12:00:00", "hello"));
    let all = app.get_history();
    assert_eq!(all.len(), 1);
    assert_eq!(all[0], entry("2024-01-01 12:00:00", "hello"));
}

#[test]
fn ordering_is_reverse_call_order() {
    let mut app = ClipboardApp::new();
    app.add_to_history_at("t1".to_string(), "one".to_string()).unwrap();
    app.add_to_history_at("t2".to_string(), "two".to_string()).unwrap();
    app.add_to_history_at("t3".to_string(), "three".to_string()).unwrap();
    let all = app.get_history();
    assert_eq!(all.len(), 3);
    assert_eq!(all[0].text, "three");
    assert_eq!(all[1].text, "two");
    assert_eq!(all[2].text, "one");
}

#[test]
fn disabled_gate_rejects_add_and_leaves_log_unchanged() {
    let mut app = ClipboardApp::new();
    app.add_to_history_at("t1".to_string(), "kept".to_string()).unwrap();
    let off = app.toggle_monitoring();
    assert!(!off);
    let r = app.add_to_history_at("t2".to_string(), "dropped".to_string());
    assert_eq!(r, Err(StoreError::MonitoringDisabled));
    let all = app.get_history();
    assert_eq!(all.len(), 1);
    assert_eq!(all[0].text, "kept");
}

#[test]
fn monitoring_disabled_message_matches() {
    assert_eq!(StoreError::MonitoringDisabled.message(), "Monitoring is disabled");
}

#[test]
fn toggle_twice_restores_and_status_tracks() {
    let mut app = ClipboardApp::new();
    assert!(app.get_monitoring_status());
    assert!(!app.toggle_monitoring());
    assert!(!app.get_monitoring_status());
    assert!(app.toggle_monitoring());
    assert!(app.get_monitoring_status());
}

#[test]
fn add_with_clock_stamps_a_plausible_timestamp() {
    let mut app = ClipboardApp::new();
    let e = app.add_to_history("hello".to_string()).unwrap();
    assert_eq!(e.text, "hello");
    // `YYYY-MM-DD HH:MM:SS`
    let ts: Vec<char> = e.timestamp.chars().collect();
    assert_eq!(ts.len(), 19);
    assert_eq!(ts[4], '-');
    assert_eq!(ts[7], '-');
    assert_eq!(ts[10], ' ');
    assert_eq!(ts[13], ':');
    assert_eq!(ts[16], ':');
}

#[test]
fn clear_empties_the_log_durably() {
    let mut app = ClipboardApp::new();
    app.add_to_history_at("t1".to_string(), "one".to_string()).unwrap();
    app.add_to_history_at("t2".to_string(), "two".to_string()).unwrap();
    app.clear_history();
    assert_eq!(app.get_history().len(), 0);
    let persisted = app.render_history();
    assert_eq!(persisted, "[]");
    let reloaded = load_history(Some(&persisted)).unwrap();
    assert_eq!(reloaded.len(), 0);
}

#[test]
fn example_scenario() {
    let mut app = ClipboardApp::new();
    let e1 = app.add_to_history_at("T1".to_string(), "hello".to_string()).unwrap();
    assert_eq!(e1, entry("T1", "hello"));
    let all = app.get_history();
    assert_eq!(all.len(), 1);
    assert_eq!(all[0], entry("T1", "hello"));

    assert!(!app.toggle_monitoring());
    let r = app.add_to_history_at("T2".to_string(), "world".to_string());
    assert_eq!(r, Err(StoreError::MonitoringDisabled));
    assert_eq!(app.get_history().len(), 1);

    assert!(app.toggle_monitoring());
    app.add_to_history_at("T2".to_string(), "world".to_string()).unwrap();
    let all = app.get_history();
    assert_eq!(all.len(), 2);
    assert_eq!(all[0], entry("T2", "world"));
    assert_eq!(all[1], entry("T1", "hello"));

    app.clear_history();
    assert_eq!(app.get_history().len(), 0);
}

#[test]
fn export_renders_blocks_in_log_order() {
    let mut app = ClipboardApp::new();
    app.add_to_history_at("2024-01-01 08:00:00".to_string(), "first".to_string()).unwrap();
    app.add_to_history_at("2024-01-01 09:00:00".to_string(), "second".to_string()).unwrap();
    let text = app.export_history();
    assert_eq!(
        text,
        "2024-01-01 09:00:00\nsecond\n\n2024-01-01 08:00:00\nfirst\n\n"
    );
}

#[test]
fn export_of_empty_log_is_empty() {
    let app = ClipboardApp::new();
    assert_eq!(app.export_history(), "");
}
