use confwatch::adapter::{extract, format_for_extension, parse_document, FormatKind, ParseError};
use confwatch::path::PathScheme;
use confwatch::doc::DocValue;
use confwatch::json::parse_json;
use confwatch::pipeline::FromDoc;
use confwatch::settings::Settings;
use confwatch::toml::parse_toml;

#[test]
fn json_parses_into_the_model() {
    let doc = parse_json("{\"k\": [1, true, null, \"x\"]}").expect("valid JSON");
    let arr = doc.get("k").expect("key present");
    match arr {
        DocValue::Arr(items) => {
            assert_eq!(items.len(), 4);
            assert!(matches!(items[0], DocValue::Int(1)));
            assert!(matches!(items[1], DocValue::Bool(true)));
            assert!(matches!(items[2], DocValue::Null));
            assert!(matches!(&items[3], DocValue::Str(s) if s == "x"));
        }
        _ => panic!("expected an array node"),
    }
}

#[test]
fn json_floats_are_untracked() {
    let doc = parse_json("{\"k\": 1.5}").expect("valid JSON");
    assert!(matches!(doc.get("k"), Some(DocValue::Other)));
}

#[test]
fn json_rejects_bad_syntax() {
    assert!(parse_json("{\"k\": ").is_none());
}

#[test]
fn json_keeps_multibyte_text() {
    let doc = parse_json("{\"k\": \"caf\\u00e9\"}").expect("valid JSON");
    match doc.get("k") {
        Some(DocValue::Str(s)) => assert_eq!(s, "caf\u{e9}"),
        _ => panic!("expected a string node"),
    }
}

#[test]
fn toml_parses_into_the_model() {
    let doc = parse_toml("[audio]\nvolume = 7\nmuted = false\nname = \"main\"")
        .expect("valid TOML");
    let audio = doc.get("audio").expect("table present");
    assert!(matches!(audio.get("volume"), Some(DocValue::Int(7))));
    assert!(matches!(audio.get("muted"), Some(DocValue::Bool(false))));
    assert!(matches!(audio.get("name"), Some(DocValue::Str(s)) if s == "main"));
}

#[test]
fn toml_inline_values_parse() {
    let doc = parse_toml("point = { x = 1, y = 2 }\nlist = [1, 2, 3]").expect("valid TOML");
    let point = doc.get("point").expect("inline table present");
    assert!(matches!(point.get("x"), Some(DocValue::Int(1))));
    match doc.get("list") {
        Some(DocValue::Arr(items)) => assert_eq!(items.len(), 3),
        _ => panic!("expected an array node"),
    }
}

#[test]
fn toml_rejects_bad_syntax() {
    assert!(parse_toml("not [valid toml").is_none());
}

#[test]
fn formats_register_their_extensions() {
    assert_eq!(format_for_extension("toml"), Some(FormatKind::Toml));
    assert_eq!(format_for_extension("json"), Some(FormatKind::Json));
    assert_eq!(format_for_extension("yaml"), None);
}

#[test]
fn parse_document_reports_encoding_error() {
    let bytes: Vec<u8> = vec![0xff, 0xfe, 0x00];
    assert!(matches!(
        parse_document(&bytes, FormatKind::Toml),
        Err(ParseError::Encoding)
    ));
    assert!(matches!(
        parse_document(&bytes, FormatKind::Json),
        Err(ParseError::Encoding)
    ));
}

#[test]
fn parse_document_reports_syntax_error() {
    assert!(matches!(
        parse_document(b"{ broken", FormatKind::Json),
        Err(ParseError::Syntax)
    ));
    assert!(matches!(
        parse_document(b"= broken", FormatKind::Toml),
        Err(ParseError::Syntax)
    ));
}

#[test]
fn parse_document_accepts_both_formats() {
    let toml_doc = parse_document(b"volume = 3", FormatKind::Toml).expect("valid TOML");
    assert!(matches!(toml_doc.get("volume"), Some(DocValue::Int(3))));
    let json_doc = parse_document(b"{\"volume\": 3}", FormatKind::Json).expect("valid JSON");
    assert!(matches!(json_doc.get("volume"), Some(DocValue::Int(3))));
}

#[test]
fn extract_without_sub_path_is_whole_document() {
    let doc = parse_json("{\"volume\": 3}").expect("valid JSON");
    let source = extract(&doc, &None, PathScheme::Pointer).expect("whole document");
    assert!(matches!(source.get("volume"), Some(DocValue::Int(3))));
}

#[test]
fn extract_detaches_the_sub_tree() {
    let doc = parse_json("{\"a\": {\"b\": 1}}").expect("valid JSON");
    let source = extract(&doc, &Some("/a".to_string()), PathScheme::Pointer).expect("sub-tree");
    drop(doc);
    assert!(matches!(source.get("b"), Some(DocValue::Int(1))));
}

#[test]
fn deep_clone_copies_the_tree() {
    let doc = parse_json("{\"a\": {\"b\": [1, 2]}}").expect("valid JSON");
    let copy = doc.deep_clone();
    drop(doc);
    let a = copy.get("a").expect("key present");
    assert!(matches!(a.get("b"), Some(DocValue::Arr(_))));
}

#[test]
fn settings_deserialize_from_table() {
    let doc = parse_toml("volume = 7").expect("valid TOML");
    assert_eq!(Settings::from_doc(&doc), Some(Settings { volume: 7 }));
}

#[test]
fn settings_reject_missing_field() {
    let doc = parse_toml("loudness = 7").expect("valid TOML");
    assert_eq!(Settings::from_doc(&doc), None);
}

#[test]
fn settings_reject_wrong_field_type() {
    let doc = parse_toml("volume = \"loud\"").expect("valid TOML");
    assert_eq!(Settings::from_doc(&doc), None);
}

#[test]
fn settings_reject_out_of_range_values() {
    let negative = parse_toml("volume = -1").expect("valid TOML");
    assert_eq!(Settings::from_doc(&negative), None);
    let too_big = parse_toml("volume = 4294967296").expect("valid TOML");
    assert_eq!(Settings::from_doc(&too_big), None);
    let max = parse_toml("volume = 4294967295").expect("valid TOML");
    assert_eq!(Settings::from_doc(&max), Some(Settings { volume: u32::MAX }));
}
