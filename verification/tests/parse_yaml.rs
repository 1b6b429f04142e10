use tanzim::parse_yaml::Yaml;
use tanzim::source::{Source, SourceBuilder};
use tanzim::value::{Error, LocatedValue, Table};

fn file_source(resource: &str) -> Source {
    SourceBuilder::new()
        .with_source("file".to_string())
        .with_resource(resource.to_string())
        .build()
        .unwrap()
}

fn parse(text: &[u8]) -> LocatedValue {
    Yaml::new().parse(&file_source("config.yaml"), text, &[]).ok().unwrap()
}

fn table(lv: &LocatedValue) -> &Table {
    lv.value().as_table().unwrap()
}

#[test]
fn parses_yaml_map() {
    let parsed = parse(b"hello: world\n");
    assert_eq!(
        table(&parsed).get("hello").unwrap().value().as_string().unwrap(),
        "world"
    );
}

#[test]
fn parses_yaml_map_with_lines() {
    let root = parse(b"foo: bar\nbaz: qux\n");
    let map = table(&root);
    let foo = map.get("foo").unwrap();
    assert_eq!(foo.value().as_string().unwrap(), "bar");
    assert_eq!(foo.location().line, Some(1));
    let baz = map.get("baz").unwrap();
    assert_eq!(baz.location().line, Some(2));
}

#[test]
fn parses_yaml_null_at_correct_column() {
    let root = parse("foo: bar\n\nbaz:\n\n  qux: ~\n".as_bytes());
    let baz = table(&root).get("baz").unwrap();
    let qux = table(baz).get("qux").unwrap();
    assert!(qux.value().is_null());
    assert_eq!(qux.location().line, Some(5));
    assert_eq!(qux.location().column, Some(8));
    assert_eq!(qux.location().length, Some(1));
}

#[test]
fn scan_error_is_located() {
    let error = Yaml::new()
        .parse(&file_source("config.yaml"), b"foo: [\n", &[])
        .err()
        .unwrap();
    match &error {
        Error::Parse { location, message } => {
            let location = location.as_ref().expect("syntax error location");
            assert!(location.line.is_some());
            assert!(location.column.is_some());
            assert!(!message.is_empty());
        }
        _ => panic!("expected parse error"),
    }
}

#[test]
fn scalars_sequences_and_null_spellings() {
    let root = parse(b"n: 3\nf: 1.5\nb: true\nxs:\n  - a\n  - ~\nnil: null\n");
    let map = table(&root);
    assert_eq!(map.get("n").unwrap().value().as_int(), Some(3));
    assert_eq!(map.get("f").unwrap().value().as_float().unwrap(), "1.5");
    assert_eq!(map.get("b").unwrap().value().as_bool(), Some(true));
    let xs = map.get("xs").unwrap().value().as_list().unwrap();
    assert_eq!(xs[0].value().as_string().unwrap(), "a");
    assert!(xs[1].value().is_null());
    assert!(map.get("nil").unwrap().value().is_null());
    assert_eq!(map.keys(), vec!["n", "f", "b", "xs", "nil"]);
}

#[test]
fn empty_text_gives_an_empty_map() {
    let root = parse(b"");
    assert!(table(&root).is_empty());
    assert_eq!(root.location().line, None);
}

#[test]
fn non_string_key_is_rejected() {
    let error = Yaml::new()
        .parse(&file_source("config.yaml"), b"[1, 2]: x\n", &[])
        .err()
        .unwrap();
    match error {
        Error::Parse { location, message } => {
            assert!(location.is_none());
            assert_eq!(message, "yaml map key must be a string");
        }
        _ => panic!("expected parse error"),
    }
}

#[test]
fn yaml_format_detection_and_names() {
    let yaml = Yaml::new();
    assert_eq!(yaml.is_format_supported(b"a: 1\n"), Some(true));
    assert_eq!(yaml.is_format_supported(b"foo: [\n"), Some(false));
    assert_eq!(yaml.is_format_supported(&[0xff]), Some(false));
    assert_eq!(yaml.name(), "YAML");
    assert_eq!(
        yaml.supported_format_list(),
        vec!["yml".to_string(), "yaml".to_string()]
    );
}
