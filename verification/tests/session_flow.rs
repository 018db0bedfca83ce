use json_diff::lines::LineStyle;
use json_diff::loader::compare_json_files;
use json_diff::session::{action_for_key, Action, DiffApp, FileSide, Shown};

fn original(app: &DiffApp, side: FileSide) -> String {
    match app.shown(side) {
        Shown::Original(text) => text.clone(),
        Shown::Lines(_) => panic!("the comparison is on screen"),
    }
}

fn lines(app: &DiffApp, side: FileSide) -> Vec<(String, LineStyle)> {
    match app.shown(side) {
        Shown::Lines(lines) => lines.iter().map(|l| (l.text.clone(), l.style)).collect(),
        Shown::Original(_) => panic!("the documents are on screen"),
    }
}

#[test]
fn keys_map_to_actions() {
    assert_eq!(action_for_key('a'), Action::Edit(FileSide::Left));
    assert_eq!(action_for_key('b'), Action::Edit(FileSide::Right));
    assert_eq!(action_for_key('c'), Action::Clear);
    assert_eq!(action_for_key('d'), Action::Diff);
    assert_eq!(action_for_key('q'), Action::Quit);
    assert_eq!(action_for_key('A'), Action::Ignore);
    assert_eq!(action_for_key('x'), Action::Ignore);
    assert_eq!(action_for_key('\n'), Action::Ignore);
}

#[test]
fn a_new_session_shows_two_empty_documents() {
    let app = DiffApp::new();
    assert!(!app.display_diff);
    assert_eq!(original(&app, FileSide::Left), "");
    assert_eq!(original(&app, FileSide::Right), "");
    assert!(app.left_diff_result.is_empty());
    assert!(app.right_diff_result.is_empty());
}

#[test]
fn a_changed_document_is_shown_pretty_printed() {
    let mut app = DiffApp::new();
    assert!(app.document_changed(FileSide::Left, r#"{"a":1}"#).is_ok());
    assert_eq!(original(&app, FileSide::Left), "{\n  \"a\": 1\n}");
    assert_eq!(original(&app, FileSide::Right), "");
    assert!(app.document_changed(FileSide::Right, "[true]").is_ok());
    assert_eq!(original(&app, FileSide::Left), "{\n  \"a\": 1\n}");
    assert_eq!(original(&app, FileSide::Right), "[\n  true\n]");
}

#[test]
fn a_malformed_document_leaves_the_screen_as_it_was() {
    let mut app = DiffApp::new();
    app.document_changed(FileSide::Left, "[1]").unwrap();
    assert!(app.document_changed(FileSide::Left, "{not json").is_err());
    assert_eq!(original(&app, FileSide::Left), "[\n  1\n]");
    assert_eq!(original(&app, FileSide::Right), "");
}

#[test]
fn clear_empties_both_documents() {
    let mut app = DiffApp::new();
    app.document_changed(FileSide::Left, "1").unwrap();
    app.document_changed(FileSide::Right, "2").unwrap();
    app.clear();
    assert_eq!(original(&app, FileSide::Left), "");
    assert_eq!(original(&app, FileSide::Right), "");
}

#[test]
fn a_finished_comparison_is_shown() {
    let mut app = DiffApp::new();
    app.diff_finished(compare_json_files(r#"{"a": 1}"#, r#"{"a": 2, "b": 3}"#));
    assert!(app.display_diff);
    assert_eq!(
        lines(&app, FileSide::Left),
        vec![("a: 1".to_string(), LineStyle::Unchanged), ("b: null".to_string(), LineStyle::Unchanged)]
    );
    assert_eq!(
        lines(&app, FileSide::Right),
        vec![("a: 2".to_string(), LineStyle::Changed), ("b: 3".to_string(), LineStyle::Changed)]
    );
}

#[test]
fn a_failed_comparison_changes_nothing() {
    let mut app = DiffApp::new();
    app.document_changed(FileSide::Left, "1").unwrap();
    app.diff_finished(compare_json_files("{not json", "{}"));
    assert!(!app.display_diff);
    assert_eq!(original(&app, FileSide::Left), "1");
    app.diff_finished(compare_json_files("[1]", "[2]"));
    app.diff_finished(compare_json_files("{}", "{not json"));
    assert!(app.display_diff);
    assert_eq!(lines(&app, FileSide::Left), vec![("[1]".to_string(), LineStyle::Unchanged)]);
    assert_eq!(lines(&app, FileSide::Right), vec![("[2]".to_string(), LineStyle::Changed)]);
}

#[test]
fn the_comparison_stays_on_screen_after_clear() {
    let mut app = DiffApp::new();
    app.diff_finished(compare_json_files("[1]", "[2]"));
    app.clear();
    assert!(app.display_diff);
    assert_eq!(lines(&app, FileSide::Right), vec![("[2]".to_string(), LineStyle::Changed)]);
}
