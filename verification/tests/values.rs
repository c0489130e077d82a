use json_walk::flatten::{flatten, join_path, walk};
use json_walk::value::JsonValue;

fn text(s: &str) -> JsonValue {
    JsonValue::String(s.to_string())
}

fn number(s: &str) -> JsonValue {
    JsonValue::Number(s.to_string())
}

fn object(members: Vec<(&str, JsonValue)>) -> JsonValue {
    JsonValue::Object(members.into_iter().map(|(k, v)| (k.to_string(), v)).collect())
}

fn entries(expected: Vec<(&str, bool)>) -> Vec<(String, bool)> {
    expected.into_iter().map(|(p, a)| (p.to_string(), a)).collect()
}

fn person() -> JsonValue {
    object(vec![
        ("name", text("John Doe")),
        ("age", number("43")),
        (
            "nested",
            object(vec![
                ("inside_key", text("inside_value")),
                ("inside_key_2", text("inside_value_2")),
                ("nested_nested", object(vec![("inner_key", text("inner_inside_value_2"))])),
            ]),
        ),
        ("phones", JsonValue::Array(vec![text("+44 1234567"), text("+44 2345678")])),
    ])
}

#[test]
fn flatten_follows_the_order_of_the_members() {
    assert_eq!(
        flatten(&person(), "d"),
        entries(vec![
            ("d.name", false),
            ("d.age", false),
            ("d.nested.inside_key", false),
            ("d.nested.inside_key_2", false),
            ("d.nested.nested_nested.inner_key", false),
            ("d.phones", true),
        ])
    );
}

#[test]
fn flatten_with_empty_label_puts_no_dot_in_front() {
    assert_eq!(
        flatten(&person(), ""),
        entries(vec![
            ("name", false),
            ("age", false),
            ("nested.inside_key", false),
            ("nested.inside_key_2", false),
            ("nested.nested_nested.inner_key", false),
            ("phones", true),
        ])
    );
}

#[test]
fn flatten_of_each_kind_of_leaf() {
    assert_eq!(flatten(&JsonValue::Null, "x"), entries(vec![("x", false)]));
    assert_eq!(flatten(&JsonValue::Bool(true), "x"), entries(vec![("x", false)]));
    assert_eq!(flatten(&number("42"), "x"), entries(vec![("x", false)]));
    assert_eq!(flatten(&text("s"), "x"), entries(vec![("x", false)]));
    assert_eq!(flatten(&JsonValue::Array(vec![]), "x"), entries(vec![("x", true)]));
    assert_eq!(flatten(&JsonValue::Object(vec![]), "x"), entries(vec![]));
    assert_eq!(flatten(&JsonValue::Null, ""), entries(vec![("", false)]));
    assert_eq!(flatten(&JsonValue::Array(vec![]), ""), entries(vec![("", true)]));
}

#[test]
fn flatten_stops_at_arrays() {
    let doc = object(vec![(
        "list",
        JsonValue::Array(vec![object(vec![("inner", number("1"))]), JsonValue::Array(vec![])]),
    )]);
    assert_eq!(flatten(&doc, "r"), entries(vec![("r.list", true)]));
}

#[test]
fn flatten_skips_empty_objects() {
    let with = object(vec![
        ("a", number("1")),
        ("gone", JsonValue::Object(vec![])),
        ("b", object(vec![("deep", JsonValue::Object(vec![]))])),
        ("c", JsonValue::Null),
    ]);
    let without = object(vec![("a", number("1")), ("c", JsonValue::Null)]);
    assert_eq!(flatten(&with, "r"), entries(vec![("r.a", false), ("r.c", false)]));
    assert_eq!(flatten(&with, "r"), flatten(&without, "r"));
}

#[test]
fn flatten_keeps_members_with_the_same_key() {
    let doc = object(vec![("k", number("1")), ("k", JsonValue::Array(vec![]))]);
    assert_eq!(flatten(&doc, ""), entries(vec![("k", false), ("k", true)]));
}

#[test]
fn flatten_twice_gives_the_same() {
    let doc = person();
    assert_eq!(flatten(&doc, "d"), flatten(&doc, "d"));
}

#[test]
fn flatten_counts_the_reached_values() {
    assert_eq!(flatten(&person(), "anything").len(), 6);
    assert_eq!(flatten(&person(), "").len(), 6);
}

#[test]
fn empty_keys_vanish_below_an_empty_prefix() {
    let doc = object(vec![("", object(vec![("a", number("1")), ("", JsonValue::Null)]))]);
    assert_eq!(flatten(&doc, ""), entries(vec![("a", false), ("", false)]));
    assert_eq!(flatten(&doc, "r"), entries(vec![("r..a", false), ("r..", false)]));
}

#[test]
fn dotted_key_heads_a_path_only_where_a_value_is_reached() {
    let reached = object(vec![(".hidden", number("1"))]);
    assert_eq!(flatten(&reached, ""), entries(vec![(".hidden", false)]));
    let unreached = object(vec![(".hidden", JsonValue::Object(vec![])), ("seen", number("1"))]);
    assert_eq!(flatten(&unreached, ""), entries(vec![("seen", false)]));
}

#[test]
fn walk_appends_to_what_is_there() {
    let mut array = entries(vec![("kept", true)]);
    walk(&person(), "d", &mut array);
    assert_eq!(array.len(), 7);
    assert_eq!(array[0], ("kept".to_string(), true));
    assert_eq!(array[1], ("d.name".to_string(), false));
    assert_eq!(array[6], ("d.phones".to_string(), true));
    walk(&JsonValue::Object(vec![]), "e", &mut array);
    assert_eq!(array.len(), 7);
    walk(&JsonValue::Null, "e", &mut array);
    assert_eq!(array[7], ("e".to_string(), false));
}

#[test]
fn join_path_puts_a_dot_between() {
    assert_eq!(join_path("a", "b"), "a.b");
    assert_eq!(join_path("", "b"), "b");
    assert_eq!(join_path("a", ""), "a.");
    assert_eq!(join_path("", ""), "");
    assert_eq!(join_path("a.b", "c.d"), "a.b.c.d");
}
