use tanzim::parse_json::Json;
use tanzim::source::{Source, SourceBuilder};
use tanzim::value::Error;

fn file_source(resource: &str) -> Source {
    SourceBuilder::new()
        .with_source("file".to_string())
        .with_resource(resource.to_string())
        .build()
        .unwrap()
}

#[test]
fn parses_json_object() {
    let parsed = Json::new()
        .parse(&file_source("config.json"), br#"{"hello":"world"}"#, &[])
        .ok()
        .unwrap();
    assert_eq!(
        parsed.value().as_table().unwrap().get("hello").unwrap().value().as_string().unwrap(),
        "world"
    );
}

#[test]
fn detects_json_format() {
    let parser = Json::new();
    assert_eq!(parser.is_format_supported(br#"{"a":1}"#), Some(true));
    assert_eq!(parser.is_format_supported(b"not json"), Some(false));
}

#[test]
fn single_line_json_omits_position() {
    let root = Json::new().parse(&file_source("a.json"), br#"{"a":1}"#, &[]).ok().unwrap();
    let map = root.value().as_table().unwrap();
    let entry = map.get("a").unwrap();
    assert_eq!(entry.location().line, None);
    assert_eq!(entry.location().column, None);
}

#[test]
fn parses_null() {
    let root = Json::new().parse(&file_source("a.json"), b"{\n  \"a\": null\n}", &[]).ok().unwrap();
    let map = root.value().as_table().unwrap();
    let entry = map.get("a").unwrap();
    assert!(entry.value().is_null());
    assert_eq!(entry.location().line, Some(2));
}

#[test]
fn json_syntax_error_is_located() {
    let error = Json::new()
        .parse(&file_source("a.json"), b"{\n  \"a\":\n}\n", &[])
        .err()
        .unwrap();
    if let Error::Parse { ref location, .. } = error {
        let location = location.as_ref().expect("syntax error location");
        assert!(location.line.is_some());
        assert!(location.column.is_some());
    } else {
        panic!("expected parse error");
    }
}

#[test]
fn json_numbers_lists_and_invalid_utf8() {
    let root = Json::new()
        .parse(&file_source("a.json"), b"{\"n\": -3, \"f\": 1.5, \"l\": [true, \"x\"]}", &[])
        .ok()
        .unwrap();
    let map = root.value().as_table().unwrap();
    assert_eq!(map.get("n").unwrap().value().as_int(), Some(-3));
    assert_eq!(map.get("f").unwrap().value().as_float().unwrap(), "1.5");
    let list = map.get("l").unwrap().value().as_list().unwrap();
    assert_eq!(list.len(), 2);
    assert_eq!(list[0].value().as_bool(), Some(true));
    assert!(matches!(
        Json::new().parse(&file_source("a.json"), &[0xff, 0xfe], &[]),
        Err(Error::InvalidUtf8 { .. })
    ));
    assert_eq!(Json::new().is_format_supported(&[0xff]), Some(false));
}
