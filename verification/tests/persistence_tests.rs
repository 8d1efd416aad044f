use clipboard_history::context::{load_history, ClipboardApp};
use clipboard_history::entry::Entry;
use clipboard_history::errors::StoreError;

fn app_with(entries: &[(&str, &str)]) -> ClipboardApp {
    let mut app = ClipboardApp::new();
    for (ts, text) in entries {
        app.add_to_history_at(ts.to_string(), text.to_string()).unwrap();
    }
    app
}

fn assert_round_trips(app: &ClipboardApp) {
    let rendered = app.render_history();
    let reloaded = load_history(Some(&rendered)).unwrap();
    assert_eq!(reloaded, app.get_history());
}

#[test]
fn rendered_history_matches_the_documented_format() {
    let app = app_with(&[("2024-01-01 12:00:00", "example")]);
    assert_eq!(
        app.render_history(),
        "[\n  { \"timestamp\": \"2024-01-01 12:00:00\", \"text\": \"example\" }\n]"
    );
}

#[test]
fn round_trip_after_adds() {
    let app = app_with(&[("t1", "one"), ("t2", "two"), ("t3", "three")]);
    assert_round_trips(&app);
}

#[test]
fn round_trip_of_empty_log() {
    let app = ClipboardApp::new();
    assert_eq!(app.render_history(), "[]");
    assert_round_trips(&app);
}

#[test]
fn round_trip_with_special_characters() {
    let app = app_with(&[
        ("t1", "a \"quoted\" string"),
        ("t2", "back\\slash and\nnewline and\ttab"),
        ("t3", "control \u{0001} char and carriage\rreturn"),
        ("t4", "unicode: héllo wörld ☃ 你好"),
        ("t5", ""),
    ]);
    assert_round_trips(&app);
}

#[test]
fn install_after_load_restores_the_log() {
    let app = app_with(&[("t1", "one"), ("t2", "two")]);
    let rendered = app.render_history();

    let mut restarted = ClipboardApp::new();
    let loaded = load_history(Some(&rendered)).unwrap();
    restarted.install_history(loaded);
    assert_eq!(restarted.get_history(), app.get_history());
}

#[test]
fn missing_file_loads_as_empty_log() {
    let loaded = load_history(None).unwrap();
    assert_eq!(loaded.len(), 0);
}

#[test]
fn malformed_content_is_a_parse_failure() {
    for bad in [
        "not json",
        "{ \"timestamp\": \"t\", \"text\": \"x\" }",
        "[ { \"timestamp\": \"t\" } ]",
        "[ { \"text\": \"x\", \"timestamp\": \"t\" } ]",
        "[ { \"timestamp\": \"t\", \"text\": \"x\" }, ]",
        "[ { \"timestamp\": \"t\", \"text\": \"x\" } ] trailing",
        "[ { \"timestamp\": \"t\", \"text\": \"\\q\" } ]",
        "[ { \"timestamp\": \"t\", \"text\": \"\\uD800\" } ]",
        "[ { \"timestamp\": \"t\", \"text\": \"unterminated } ]",
        "[",
        "",
    ] {
        assert_eq!(load_history(Some(bad)), Err(StoreError::ParseFailure), "input: {}", bad);
    }
}

#[test]
fn loader_accepts_other_pretty_printings() {
    let nested = "[\n  {\n    \"timestamp\": \"2024-01-01 12:00:00\",\n    \"text\": \"example\"\n  },\n  {\n    \"timestamp\": \"2024-01-01 11:00:00\",\n    \"text\": \"older\"\n  }\n]";
    let loaded = load_history(Some(nested)).unwrap();
    assert_eq!(loaded.len(), 2);
    assert_eq!(
        loaded[0],
        Entry { timestamp: "2024-01-01 12:00:00".to_string(), text: "example".to_string() }
    );
    assert_eq!(loaded[1].text, "older");

    let compact = "[{\"timestamp\":\"t\",\"text\":\"x\"}]";
    assert_eq!(load_history(Some(compact)).unwrap().len(), 1);

    let spaced = "  [ ]  ";
    assert_eq!(load_history(Some(spaced)).unwrap().len(), 0);
}

#[test]
fn loader_decodes_escapes() {
    let content = "[{\"timestamp\":\"t\",\"text\":\"\\u0041\\n\\t\\\"\\\\\\/\\b\\f\\r\"}]";
    let loaded = load_history(Some(content)).unwrap();
    assert_eq!(loaded[0].text, "A\n\t\"\\/\u{0008}\u{000C}\r");
}

#[test]
fn control_characters_are_escaped_when_rendered() {
    let app = app_with(&[("t", "a\u{0001}b")]);
    let rendered = app.render_history();
    assert!(rendered.contains("\\u0001"));
    assert_round_trips(&app);
}
