use code_copier::manifest::{parse_manifest, ManifestValue};

fn text(s: &str) -> ManifestValue {
    ManifestValue::Text(s.to_string())
}

#[test]
fn parse_manifest_keeps_texts_arrays_and_tables() {
    let doc = parse_manifest(
        "title = \"demo\"\ncount = 3\nratio = 1.5\nflag = true\nday = 2020-01-02\nitems = [\"a\", 1, [\"b\"]]\n[table]\nkey = \"value\"\n",
    )
    .unwrap();
    let entries = match &doc {
        ManifestValue::Table(entries) => entries,
        _ => panic!("a document is a table"),
    };
    let keys: Vec<&str> = entries.iter().map(|(k, _)| k.as_str()).collect();
    assert_eq!(keys, vec!["count", "day", "flag", "items", "ratio", "table", "title"]);
    assert!(matches!(doc.get("count"), Some(ManifestValue::Other)));
    assert!(matches!(doc.get("day"), Some(ManifestValue::Other)));
    assert!(matches!(doc.get("flag"), Some(ManifestValue::Other)));
    assert!(matches!(doc.get("ratio"), Some(ManifestValue::Other)));
    assert_eq!(doc.text_at("title"), Some("demo"));
    match doc.get("items") {
        Some(ManifestValue::List(items)) => {
            assert_eq!(items.len(), 3);
            assert_eq!(items[0].as_str(), Some("a"));
            assert!(matches!(items[1], ManifestValue::Other));
            match &items[2] {
                ManifestValue::List(inner) => {
                    assert_eq!(inner.len(), 1);
                    assert_eq!(inner[0].as_str(), Some("b"));
                }
                _ => panic!("an array in an array"),
            }
        }
        _ => panic!("an array"),
    }
    assert_eq!(doc.get("table").unwrap().text_at("key"), Some("value"));
}

#[test]
fn parse_manifest_refuses_what_is_no_document() {
    assert!(parse_manifest("[unclosed").is_none());
    assert!(parse_manifest("key").is_none());
    assert!(parse_manifest("\"demo\"").is_none());
    assert!(parse_manifest("").is_some());
}

#[test]
fn get_finds_the_first_entry_with_the_key() {
    let table = ManifestValue::Table(vec![
        ("a".to_string(), text("first")),
        ("b".to_string(), text("other")),
        ("a".to_string(), text("second")),
    ]);
    assert_eq!(table.text_at("a"), Some("first"));
    assert_eq!(table.text_at("b"), Some("other"));
    assert!(table.get("c").is_none());
    assert!(table.get("").is_none());
}

#[test]
fn get_on_a_value_that_is_no_table() {
    assert!(text("a").get("a").is_none());
    assert!(ManifestValue::List(vec![text("a")]).get("a").is_none());
    assert!(ManifestValue::Other.get("a").is_none());
}

#[test]
fn as_str_as_table_and_as_array_tell_the_kinds_apart() {
    let t = text("x");
    let l = ManifestValue::List(vec![text("x")]);
    let m = ManifestValue::Table(vec![("k".to_string(), text("x"))]);
    assert_eq!(t.as_str(), Some("x"));
    assert!(t.as_array().is_none() && t.as_table().is_none());
    assert!(l.as_str().is_none() && l.as_table().is_none());
    assert_eq!(l.as_array().map(|v| v.len()), Some(1));
    assert!(m.as_str().is_none() && m.as_array().is_none());
    assert_eq!(m.as_table().map(|v| v.len()), Some(1));
    assert!(ManifestValue::Other.as_str().is_none());
    assert_eq!(m.text_at("k"), Some("x"));
    assert_eq!(l.text_at("k"), None);
}
