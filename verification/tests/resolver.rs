use confwatch::doc::{str_eq, DocValue};
use confwatch::json::parse_json;
use confwatch::path::{locate, split_on, ConfigReference, PathScheme};

fn nested_doc() -> DocValue {
    parse_json("{\"a\": {\"b\": 1}}").expect("valid JSON")
}

#[test]
fn dotted_sub_path_hits() {
    let doc = nested_doc();
    let found = locate(&doc, "a.b", PathScheme::Dotted);
    assert!(matches!(found, Some(DocValue::Int(1))));
}

#[test]
fn pointer_sub_path_hits() {
    let doc = nested_doc();
    let found = locate(&doc, "/a/b", PathScheme::Pointer);
    assert!(matches!(found, Some(DocValue::Int(1))));
}

#[test]
fn dotted_sub_path_misses() {
    let doc = nested_doc();
    assert!(locate(&doc, "a.c", PathScheme::Dotted).is_none());
}

#[test]
fn pointer_sub_path_misses() {
    let doc = nested_doc();
    assert!(locate(&doc, "/a/c", PathScheme::Pointer).is_none());
}

#[test]
fn pointer_empty_path_is_root() {
    let doc = nested_doc();
    let found = locate(&doc, "", PathScheme::Pointer);
    assert!(matches!(found, Some(DocValue::Table(_))));
}

#[test]
fn pointer_without_leading_slash_misses() {
    let doc = nested_doc();
    assert!(locate(&doc, "a/b", PathScheme::Pointer).is_none());
}

#[test]
fn dotted_empty_segment_misses() {
    let doc = nested_doc();
    assert!(locate(&doc, "", PathScheme::Dotted).is_none());
    assert!(locate(&doc, "a..b", PathScheme::Dotted).is_none());
}

#[test]
fn scalar_node_has_no_children() {
    let doc = nested_doc();
    assert!(locate(&doc, "a.b.c", PathScheme::Dotted).is_none());
}

#[test]
fn split_on_dots() {
    let parts = split_on("a.b.c", '.');
    assert_eq!(parts, vec!["a".to_string(), "b".to_string(), "c".to_string()]);
}

#[test]
fn split_empty_string() {
    let parts = split_on("", '.');
    assert_eq!(parts, vec![String::new()]);
}

#[test]
fn split_trailing_separator() {
    let parts = split_on("a.", '.');
    assert_eq!(parts, vec!["a".to_string(), String::new()]);
}

#[test]
fn reference_with_label() {
    let r = ConfigReference::parse("app.toml#audio");
    assert_eq!(r.location, "app.toml");
    assert_eq!(r.sub_path, Some("audio".to_string()));
}

#[test]
fn reference_without_label() {
    let r = ConfigReference::parse("app.toml");
    assert_eq!(r.location, "app.toml");
    assert_eq!(r.sub_path, None);
}

#[test]
fn reference_splits_at_first_hash() {
    let r = ConfigReference::parse("a#b#c");
    assert_eq!(r.location, "a");
    assert_eq!(r.sub_path, Some("b#c".to_string()));
}

#[test]
fn str_eq_decides_equality() {
    assert!(str_eq("volume", "volume"));
    assert!(!str_eq("volume", "volumes"));
    assert!(!str_eq("a", "b"));
    assert!(str_eq("", ""));
}
