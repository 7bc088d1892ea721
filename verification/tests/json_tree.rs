use dbui_ui::json_tree::{
    copied_leaf, is_plain_key, render, rows, toggle_json_node, toggle_json_tree, Json, JsonPart,
    LeafStyle, TreeKind, MAX_ROWS,
};
use dbui_ui::domain::Status;

fn own(value: serde_json::Value) -> Json {
    match value {
        serde_json::Value::Null => Json::Null,
        serde_json::Value::Bool(flag) => Json::Bool(flag),
        serde_json::Value::Number(number) => Json::Number(number.to_string()),
        serde_json::Value::String(text) => Json::Text(text),
        serde_json::Value::Array(items) => Json::Array(items.into_iter().map(own).collect()),
        serde_json::Value::Object(members) => Json::Object(
            members
                .into_iter()
                .map(|(key, member)| (key, own(member)))
                .collect(),
        ),
    }
}

fn json(text: &str) -> Json {
    own(serde_json::from_str(text).unwrap())
}

#[test]
fn a_value_walks_in_order_with_paths() {
    let value = json(r#"{"name": "Ada", "tags": ["a", 2], "first name": null, "ok": true}"#);
    let rows = rows(&value, &Vec::new());
    let paths: Vec<&str> = rows.iter().map(|row| row.path.as_str()).collect();
    assert_eq!(
        paths,
        vec![
            "$",
            "$.name",
            "$.tags",
            "$.tags[0]",
            "$.tags[1]",
            "$[\"first name\"]",
            "$.ok"
        ]
    );
    assert_eq!(rows[3].depth, 2);
    assert!(matches!(
        &rows[4].kind,
        TreeKind::Leaf { text, style: LeafStyle::Number } if text == "2"
    ));
}

#[test]
fn a_closed_branch_hides_its_children_but_not_itself() {
    let value = json(r#"{"a": {"b": 1}, "c": 2}"#);
    let closed: Vec<String> = vec!["$.a".to_string()];
    let rows = rows(&value, &closed);
    let paths: Vec<&str> = rows.iter().map(|row| row.path.as_str()).collect();
    assert_eq!(paths, vec!["$", "$.a", "$.c"]);
    assert!(matches!(
        rows[1].kind,
        TreeKind::Branch {
            open: false,
            len: 1,
            ..
        }
    ));
}

#[test]
fn a_huge_value_stops_at_the_row_limit() {
    let items: Vec<u32> = (0..10_000).collect();
    let value = own(serde_json::to_value(items).unwrap());
    assert_eq!(rows(&value, &Vec::new()).len(), MAX_ROWS);
}

#[test]
fn the_root_is_always_open() {
    let value = json("[1]");
    assert_eq!(rows(&value, &vec!["$".to_string()]).len(), 2);
}

#[test]
fn keys_that_are_not_words_are_quoted() {
    let value = json("{\"a\\\"b\\\\\\n\\u0001é\": 1}");
    let rows = rows(&value, &Vec::new());
    assert_eq!(rows[1].path, "$[\"a\\\"b\\\\\\n\\u0001é\"]");
    assert_eq!(rows[1].label.as_deref(), Some("a\"b\\\n\u{1}é"));
    assert!(is_plain_key("_a1"));
    assert!(!is_plain_key("1a"));
    assert!(!is_plain_key(""));
    assert!(!is_plain_key("é"));
}

#[test]
fn a_field_draws_its_own_folds() {
    let mut closed: Vec<String> = Vec::new();
    toggle_json_node(&mut closed, "other\u{1f}$.a");
    let tree = render("meta", "{\"a\": [\"x\", 1.50], \"b\": {\"k\": false}}", &closed).unwrap();
    assert_eq!(tree.lines.len(), 6);
    assert_eq!(tree.more, None);
    assert_eq!(tree.lines[1].label.as_deref(), Some("a:"));
    match &tree.lines[1].part {
        JsonPart::Branch { key, open, glyph, summary } => {
            assert_eq!(glyph, if *open { "▾" } else { "▸" });
            assert_eq!(key, "meta\u{1f}$.a");
            assert!(*open);
            assert_eq!(summary, "[2 items]");
        }
        JsonPart::Leaf { .. } => panic!("a branch"),
    }
    match &tree.lines[2].part {
        JsonPart::Leaf { shown, copies, path, style } => {
            assert_eq!(shown, "\"x\"");
            assert_eq!(copies, "x");
            assert_eq!(path, "$.a[0]");
            assert_eq!(*style, LeafStyle::String);
        }
        JsonPart::Branch { .. } => panic!("a leaf"),
    }
    match &tree.lines[4].part {
        JsonPart::Branch { summary, .. } => assert_eq!(summary, "{1 key}"),
        JsonPart::Leaf { .. } => panic!("a branch"),
    }
    toggle_json_node(&mut closed, "meta\u{1f}$.a");
    let folded = render("meta", "{\"a\": [\"x\", 1.50], \"b\": {\"k\": false}}", &closed).unwrap();
    assert_eq!(folded.lines.len(), 4);
    toggle_json_node(&mut closed, "meta\u{1f}$.a");
    assert_eq!(closed, vec!["other\u{1f}$.a".to_string()]);
}

#[test]
fn a_scalar_or_no_json_is_drawn_as_text() {
    assert!(render("meta", "12", &Vec::new()).is_none());
    assert!(render("meta", "{not json", &Vec::new()).is_none());
    assert!(render("meta", "[]", &Vec::new()).is_some());
}

#[test]
fn a_clipped_tree_says_so() {
    let items: Vec<u32> = (0..500).collect();
    let text = serde_json::to_string(&items).unwrap();
    let tree = render("meta", &text, &Vec::new()).unwrap();
    assert_eq!(tree.more.as_deref(), Some("… more than the tree shows; read it as text"));
    assert_eq!(tree.lines.len(), 400);
}

#[test]
fn toggles_and_copies_are_reported() {
    let mut fields: Vec<String> = Vec::new();
    toggle_json_tree(&mut fields, "meta");
    assert_eq!(fields, vec!["meta".to_string()]);
    toggle_json_tree(&mut fields, "meta");
    assert!(fields.is_empty());
    assert!(matches!(copied_leaf("$.a"), Status::Info(text) if text == "Copied $.a"));
}

#[test]
fn no_two_rows_share_a_path() {
    // Keys that read like parts of a path, or that would end a quoted one.
    let text = r#"{"a": {"b": 1, "0": 2}, "a.b": 3, "a[0]": [4], "\"]": 5, "[\"a\"]": 6, "": 7, "\u0001": 8, "é": 9}"#;
    let mut paths: Vec<String> = rows(&json(text), &Vec::new())
        .iter()
        .map(|row| row.path.clone())
        .collect();
    let drawn = render("meta", text, &Vec::new()).unwrap();
    assert_eq!(drawn.lines.len(), paths.len());
    assert!(paths.contains(&"$[\"a.b\"]".to_string()));
    assert!(paths.contains(&"$[\"\\\"]\"]".to_string()));
    assert!(paths.contains(&"$[\"\\u0001\"]".to_string()));
    let count = paths.len();
    paths.sort();
    paths.dedup();
    assert_eq!(paths.len(), count);
}
