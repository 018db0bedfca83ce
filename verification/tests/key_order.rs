use json_diff::order::{compare_keys, insert_key, KeyOrder};

#[test]
fn compare_keys_orders_by_first_difference() {
    assert_eq!(compare_keys("a", "b"), KeyOrder::Before);
    assert_eq!(compare_keys("b", "a"), KeyOrder::After);
    assert_eq!(compare_keys("abc", "abd"), KeyOrder::Before);
    assert_eq!(compare_keys("abd", "abc"), KeyOrder::After);
}

#[test]
fn compare_keys_puts_a_prefix_first() {
    assert_eq!(compare_keys("", "a"), KeyOrder::Before);
    assert_eq!(compare_keys("ab", "abc"), KeyOrder::Before);
    assert_eq!(compare_keys("abc", "ab"), KeyOrder::After);
}

#[test]
fn compare_keys_knows_equal_keys() {
    assert_eq!(compare_keys("", ""), KeyOrder::Same);
    assert_eq!(compare_keys("key", "key"), KeyOrder::Same);
}

#[test]
fn compare_keys_goes_by_code_point() {
    assert_eq!(compare_keys("Z", "a"), KeyOrder::Before);
    assert_eq!(compare_keys("10", "9"), KeyOrder::Before);
    assert_eq!(compare_keys("z", "\u{e9}"), KeyOrder::Before);
    assert_eq!(compare_keys("\u{ffff}", "\u{10000}"), KeyOrder::Before);
}

#[test]
fn compare_keys_agrees_with_the_order_of_strings() {
    let keys = ["", "a", "A", "ab", "b", "\u{e9}", "\u{10000}", "\u{ffff}", "a\u{e9}", "aa"];
    for x in keys {
        for y in keys {
            let expected = match x.cmp(y) {
                std::cmp::Ordering::Less => KeyOrder::Before,
                std::cmp::Ordering::Equal => KeyOrder::Same,
                std::cmp::Ordering::Greater => KeyOrder::After,
            };
            assert_eq!(compare_keys(x, y), expected);
        }
    }
}

#[test]
fn insert_key_keeps_the_order() {
    let mut keys: Vec<String> = Vec::new();
    insert_key(&mut keys, "m");
    insert_key(&mut keys, "a");
    insert_key(&mut keys, "z");
    insert_key(&mut keys, "mm");
    assert_eq!(keys, vec!["a", "m", "mm", "z"]);
}

#[test]
fn insert_key_leaves_a_present_key_alone() {
    let mut keys: Vec<String> = vec!["a".to_string(), "b".to_string()];
    insert_key(&mut keys, "b");
    insert_key(&mut keys, "a");
    assert_eq!(keys, vec!["a", "b"]);
}
