use confwatch::doc::DocValue;
use confwatch::toml::parse_toml;

#[test]
fn it_works() {
    let doc = parse_toml("volume = 1").expect("valid TOML");
    assert!(matches!(doc.get("volume"), Some(DocValue::Int(1))));
}
