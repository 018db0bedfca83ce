use json_diff::diff::{diff_json_values, diff_members, diff_whole, render_line, union_keys, value_for};
use json_diff::json::Member;
use json_diff::lines::{DiffResult, LineStyle};
use json_diff::loader::parse_json;

fn value(text: &str) -> serde_json::Value {
    parse_json(text).expect("well-formed JSON")
}

fn column(lines: &[json_diff::lines::StyledLine]) -> Vec<(String, LineStyle)> {
    lines.iter().map(|l| (l.text.clone(), l.style)).collect()
}

fn diff(left: &str, right: &str) -> (Vec<(String, LineStyle)>, Vec<(String, LineStyle)>) {
    let d: DiffResult = diff_json_values(&value(left), &value(right));
    (column(&d.left), column(&d.right))
}

fn plain(text: &str) -> (String, LineStyle) {
    (text.to_string(), LineStyle::Unchanged)
}

fn marked(text: &str) -> (String, LineStyle) {
    (text.to_string(), LineStyle::Changed)
}

fn entries(text: &str) -> Vec<Member> {
    let v = value(text);
    v.as_object()
        .expect("a mapping")
        .iter()
        .map(|(k, x)| Member { key: k.clone(), value: x.clone() })
        .collect()
}

#[test]
fn three_keys_one_changed_one_missing() {
    let (left, right) = diff(r#"{"a": 1, "b": 2}"#, r#"{"a": 1, "b": 3, "c": 4}"#);
    assert_eq!(left, vec![plain("a: 1"), plain("b: 2"), plain("c: null")]);
    assert_eq!(right, vec![plain("a: 1"), marked("b: 3"), marked("c: 4")]);
}

#[test]
fn arrays_are_set_against_each_other_whole() {
    let (left, right) = diff("[1,2,3]", "[1,2,4]");
    assert_eq!(left, vec![plain("[1,2,3]")]);
    assert_eq!(right, vec![marked("[1,2,4]")]);
}

#[test]
fn equal_arrays_still_give_a_marked_right_line() {
    let (left, right) = diff("[1, 2]", "[1, 2]");
    assert_eq!(left, vec![plain("[1,2]")]);
    assert_eq!(right, vec![marked("[1,2]")]);
}

#[test]
fn mapping_against_scalar_falls_back() {
    let (left, right) = diff("1", r#"{"a": 1}"#);
    assert_eq!(left, vec![plain("1")]);
    assert_eq!(right, vec![marked(r#"{"a":1}"#)]);
    let (left, right) = diff(r#"{"a": 1}"#, r#""text""#);
    assert_eq!(left, vec![plain(r#"{"a":1}"#)]);
    assert_eq!(right, vec![marked(r#""text""#)]);
}

#[test]
fn keys_come_out_in_ascending_order() {
    let (left, right) = diff(r#"{"b": 1, "a": 2, "c": 3}"#, r#"{"a": 2}"#);
    assert_eq!(left, vec![plain("a: 2"), plain("b: 1"), plain("c: 3")]);
    assert_eq!(right, vec![plain("a: 2"), marked("b: null"), marked("c: null")]);
}

#[test]
fn keys_of_the_right_side_are_merged_in_order() {
    let (left, right) = diff(r#"{"m": 0}"#, r#"{"z": 1, "a": 2, "mm": 3}"#);
    assert_eq!(left, vec![plain("a: null"), plain("m: 0"), plain("mm: null"), plain("z: null")]);
    assert_eq!(right, vec![marked("a: 2"), marked("m: null"), marked("mm: 3"), marked("z: 1")]);
}

#[test]
fn a_missing_key_counts_as_null() {
    let absent = diff(r#"{"x": null}"#, "{}");
    let present = diff(r#"{"x": null}"#, r#"{"x": null}"#);
    assert_eq!(absent, present);
    assert_eq!(absent.0, vec![plain("x: null")]);
    assert_eq!(absent.1, vec![plain("x: null")]);
}

#[test]
fn empty_mappings_give_no_lines() {
    let (left, right) = diff("{}", "{}");
    assert!(left.is_empty());
    assert!(right.is_empty());
}

#[test]
fn a_key_on_one_side_only_is_a_changed_pair() {
    let (left, right) = diff(r#"{"only": true}"#, "{}");
    assert_eq!(left, vec![plain("only: true")]);
    assert_eq!(right, vec![marked("only: null")]);
    let (left, right) = diff("{}", r#"{"only": true}"#);
    assert_eq!(left, vec![plain("only: null")]);
    assert_eq!(right, vec![marked("only: true")]);
}

#[test]
fn nested_values_are_compared_whole_and_written_compact() {
    let (left, right) = diff(
        r#"{"n": {"x": 1, "y": [1, 2]}, "s": "hi"}"#,
        r#"{"n": {"y": [1, 2], "x": 1}, "s": "ho"}"#,
    );
    assert_eq!(left, vec![plain(r#"n: {"x":1,"y":[1,2]}"#), plain(r#"s: "hi""#)]);
    assert_eq!(right, vec![plain(r#"n: {"x":1,"y":[1,2]}"#), marked(r#"s: "ho""#)]);
}

#[test]
fn a_nested_difference_marks_the_whole_value() {
    let (left, right) = diff(r#"{"n": {"x": 1}}"#, r#"{"n": {"x": 2}}"#);
    assert_eq!(left, vec![plain(r#"n: {"x":1}"#)]);
    assert_eq!(right, vec![marked(r#"n: {"x":2}"#)]);
}

#[test]
fn integer_and_float_are_different_values() {
    let (left, right) = diff(r#"{"n": 1}"#, r#"{"n": 1.0}"#);
    assert_eq!(left, vec![plain("n: 1")]);
    assert_eq!(right, vec![marked("n: 1.0")]);
}

#[test]
fn equal_values_show_the_left_text_on_both_sides() {
    let (left, right) = diff(r#"{"z": 0.0}"#, r#"{"z": -0.0}"#);
    assert_eq!(left, vec![plain("z: 0.0")]);
    assert_eq!(right, vec![plain("z: 0.0")]);
    let (left, right) = diff(r#"{"z": -0.0}"#, r#"{"z": 0.0}"#);
    assert_eq!(left, vec![plain("z: -0.0")]);
    assert_eq!(right, vec![plain("z: -0.0")]);
}

#[test]
fn swapping_the_sides_mirrors_the_result() {
    let a = r#"{"a": 1, "b": 2, "d": [1]}"#;
    let b = r#"{"a": 1, "b": 3, "c": 4}"#;
    let (ab_left, ab_right) = diff(a, b);
    let (ba_left, ba_right) = diff(b, a);
    assert_eq!(ab_left.len(), 4);
    assert_eq!(ba_left.len(), 4);
    assert_eq!(ab_right.len(), ba_right.len());
    for i in 0..4 {
        assert_eq!(ab_right[i].1, ba_right[i].1);
        assert_eq!(ab_left[i].1, LineStyle::Unchanged);
        assert_eq!(ba_left[i].1, LineStyle::Unchanged);
        assert_eq!(ab_left[i].0, ba_right[i].0);
        assert_eq!(ab_right[i].0, ba_left[i].0);
    }
    assert_eq!(ba_left, vec![plain("a: 1"), plain("b: 3"), plain("c: 4"), plain("d: null")]);
    assert_eq!(ba_right, vec![plain("a: 1"), marked("b: 2"), marked("c: null"), marked("d: [1]")]);
}

#[test]
fn a_mapping_against_itself_is_unchanged_throughout() {
    let a = r#"{"k2": [1, {"x": null}], "k1": "v", "k10": 1.5e3}"#;
    let (left, right) = diff(a, a);
    assert_eq!(left, vec![plain(r#"k1: "v""#), plain("k10: 1500.0"), plain(r#"k2: [1,{"x":null}]"#)]);
    assert_eq!(left, right);
}

#[test]
fn the_columns_always_have_the_same_length() {
    let d = diff_json_values(&value(r#"{"a": 1}"#), &value(r#"{"b": 1, "c": 2}"#));
    assert_eq!(d.left.len(), 3);
    assert_eq!(d.right.len(), 3);
    assert_eq!(d.len(), 3);
    let d = diff_json_values(&value("true"), &value("null"));
    assert_eq!(d.len(), 1);
    assert_eq!(d.right.len(), 1);
    assert_eq!(DiffResult::empty().len(), 0);
}

#[test]
fn the_same_inputs_give_the_same_result() {
    let a = r#"{"q": 1, "p": {"r": [true, false]}}"#;
    let b = r#"{"p": {"r": [true]}, "s": "t"}"#;
    assert_eq!(diff(a, b), diff(a, b));
}

#[test]
fn diff_members_takes_entries_in_any_order() {
    let mut left = entries(r#"{"a": 1, "b": 2}"#);
    left.reverse();
    let right = entries(r#"{"b": 2, "c": 3}"#);
    let d = diff_members(&left, &right);
    assert_eq!(column(&d.left), vec![plain("a: 1"), plain("b: 2"), plain("c: null")]);
    assert_eq!(column(&d.right), vec![marked("a: null"), plain("b: 2"), marked("c: 3")]);
}

#[test]
fn diff_whole_never_looks_inside() {
    let d = diff_whole(&value(r#"{"a": 1}"#), &value(r#"{"a": 1}"#));
    assert_eq!(column(&d.left), vec![plain(r#"{"a":1}"#)]);
    assert_eq!(column(&d.right), vec![marked(r#"{"a":1}"#)]);
}

#[test]
fn union_keys_sorts_and_drops_repeats() {
    let left = entries(r#"{"pear": 1, "apple": 2}"#);
    let right = entries(r#"{"fig": 3, "apple": 4, "app": 5}"#);
    assert_eq!(union_keys(&left, &right), vec!["app", "apple", "fig", "pear"]);
    assert!(union_keys(&Vec::new(), &Vec::new()).is_empty());
}

#[test]
fn value_for_finds_the_entry_or_nothing() {
    let ms = entries(r#"{"a": 1, "b": [2]}"#);
    assert_eq!(value_for(&ms, &"b".to_string()), Some(&value("[2]")));
    assert_eq!(value_for(&ms, &"a".to_string()), Some(&value("1")));
    assert_eq!(value_for(&ms, &"c".to_string()), None);
    assert_eq!(value_for(&ms, &"".to_string()), None);
}

#[test]
fn render_line_joins_key_and_compact_value() {
    assert_eq!(render_line("k", &value(r#"{"a": [1, "x"]}"#)), r#"k: {"a":[1,"x"]}"#);
    assert_eq!(render_line("", &value("null")), ": null");
    assert_eq!(render_line("quote\"d", &value(r#""a\nb""#)), "quote\"d: \"a\\nb\"");
}

#[test]
fn keys_are_ordered_by_code_point() {
    let (left, right) = diff(r#"{"z": 1, "é": 2, "Z": 3, "a b": 4, "a": 5}"#, "{}");
    assert_eq!(
        left,
        vec![plain("Z: 3"), plain("a: 5"), plain("a b: 4"), plain("z: 1"), plain("\u{e9}: 2")]
    );
    assert_eq!(right.len(), 5);
    assert!(right.iter().all(|line| line.1 == LineStyle::Changed));
}
