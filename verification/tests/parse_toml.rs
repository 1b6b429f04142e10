use tanzim::parse_toml::Toml;
use tanzim::source::{Source, SourceBuilder};
use tanzim::value::{Error, LocatedValue, Table};

fn file_source(resource: &str) -> Source {
    SourceBuilder::new()
        .with_source("file".to_string())
        .with_resource(resource.to_string())
        .build()
        .unwrap()
}

fn parse(text: &[u8]) -> LocatedValue {
    Toml::new().parse(&file_source("config.toml"), text, &[]).ok().unwrap()
}

fn strings(items: &[&str]) -> Vec<String> {
    items.iter().map(|s| s.to_string()).collect()
}

fn table(lv: &LocatedValue) -> &Table {
    lv.value().as_table().unwrap()
}

#[test]
fn parses_toml_table() {
    let parsed = parse(b"hello = \"world\"\n");
    assert_eq!(
        table(&parsed).get("hello").unwrap().value().as_string().unwrap(),
        "world"
    );
}

#[test]
fn nested_table_key_has_line_number() {
    let parsed = parse(b"[https]\nfollow_redirects = false\ninsecure = true\nretries = 3\n");
    let https = table(&parsed).get("https").unwrap();
    let retries = table(https).get("retries").unwrap();
    assert_eq!(retries.location().line, Some(4));
    assert_eq!(retries.location().column, Some(11));
}

#[test]
fn parses_table_header_prefix_comment() {
    let parsed = Toml::new()
        .parse(
            &file_source("baz.toml"),
            b"# This is a comment\n[logging]\nlevel = \"debug\"\n",
            &[],
        )
        .ok()
        .unwrap();
    let root = table(&parsed);
    let logging = root.get("logging").unwrap();
    assert_eq!(logging.comment().before(), strings(&["This is a comment"]).as_slice());
    assert!(!root.contains_key("# This is a comment"));
    assert_eq!(
        table(logging).get("level").unwrap().value().as_string().unwrap(),
        "debug"
    );
}

#[test]
fn parses_inline_suffix_comments() {
    let text = b"# This is a comment\n[logging]\n# log level\nlevel = \"debug\" # debug, info, warn, error\n# output serialize format\noutput_serialize_format = \"json\" # json, yaml\n";
    let parsed = Toml::new().parse(&file_source("baz.toml"), text, &[]).ok().unwrap();
    let logging_lv = table(&parsed).get("logging").unwrap();
    assert_eq!(logging_lv.comment().before(), strings(&["This is a comment"]).as_slice());
    let logging = table(logging_lv);
    let level = logging.get("level").unwrap();
    assert_eq!(level.comment().before(), strings(&["log level"]).as_slice());
    assert_eq!(level.comment().after(), Some("debug, info, warn, error"));
    let osf = logging.get("output_serialize_format").unwrap();
    assert_eq!(osf.comment().before(), strings(&["output serialize format"]).as_slice());
    assert_eq!(osf.comment().after(), Some("json, yaml"));
}

#[test]
fn parses_array_element_suffix_comments() {
    let parsed = parse(b"buckets = [\n    0.001, # small\n    1, # big\n]\n");
    let buckets = table(&parsed).get("buckets").unwrap().value().as_list().unwrap();
    assert_eq!(buckets[0].comment().after(), Some("small"));
    assert_eq!(buckets[1].comment().after(), Some("big"));
}

#[test]
fn parses_array_element_prefix_comments() {
    let text = b"\
buckets = [
    0.001, # small
    # before second 1
    # before second 2
    0.01, # big
]
";
    let parsed = parse(text);
    let buckets = table(&parsed).get("buckets").unwrap().value().as_list().unwrap();
    assert_eq!(buckets[0].comment().after(), Some("small"));
    assert_eq!(
        buckets[1].comment().before(),
        strings(&["before second 1", "before second 2"]).as_slice()
    );
    assert_eq!(buckets[1].comment().after(), Some("big"));
}

#[test]
fn parses_prefix_comments() {
    let parsed = parse(b"# top comment\nhello = \"world\"\n");
    let map = table(&parsed);
    let hello = map.get("hello").unwrap();
    assert_eq!(hello.comment().before(), strings(&["top comment"]).as_slice());
    assert!(!map.contains_key("# top comment"));
    assert_eq!(hello.value().as_string().unwrap(), "world");
}

#[test]
fn syntax_error_is_located_on_its_line() {
    let error = Toml::new()
        .parse(&file_source("config.toml"), b"hello = \n", &[])
        .err()
        .unwrap();
    match &error {
        Error::Parse { location, message } => {
            let location = location.as_ref().unwrap();
            assert_eq!(location.line, Some(1));
            assert!(location.length.unwrap() >= 1);
            assert!(!message.is_empty());
        }
        _ => panic!("expected parse error"),
    }
}

#[test]
fn scalars_arrays_and_inline_tables() {
    let parsed = parse(b"n = -7\nf = 2.5\nb = true\nxs = [1, 2]\nt = { a = \"x\", b = 3 }\n");
    let map = table(&parsed);
    assert_eq!(map.get("n").unwrap().value().as_int(), Some(-7));
    assert_eq!(map.get("f").unwrap().value().as_float().unwrap(), "2.5");
    assert_eq!(map.get("b").unwrap().value().as_bool(), Some(true));
    let xs = map.get("xs").unwrap().value().as_list().unwrap();
    assert_eq!(xs.len(), 2);
    assert_eq!(xs[1].value().as_int(), Some(2));
    let t = table(map.get("t").unwrap());
    assert_eq!(t.keys(), strings(&["a", "b"]));
    assert_eq!(t.get("b").unwrap().value().as_int(), Some(3));
}

#[test]
fn array_of_tables_becomes_a_list_of_maps() {
    let parsed = parse(b"[[server]]\nname = \"a\"\n[[server]]\nname = \"b\"\n");
    let servers = table(&parsed).get("server").unwrap().value().as_list().unwrap();
    assert_eq!(servers.len(), 2);
    assert_eq!(table(&servers[1]).get("name").unwrap().value().as_string().unwrap(), "b");
}

#[test]
fn datetime_is_rejected() {
    let error = Toml::new()
        .parse(&file_source("config.toml"), b"at = 1979-05-27T07:32:00Z\n", &[])
        .err()
        .unwrap();
    match error {
        Error::UnsupportedType { found, .. } => assert_eq!(found, "datetime"),
        _ => panic!("expected unsupported type"),
    }
}

#[test]
fn single_line_toml_has_no_positions() {
    let parsed = parse(b"a = 1");
    let a = table(&parsed).get("a").unwrap();
    assert_eq!(a.location().line, None);
    assert_eq!(a.location().column, None);
}

#[test]
fn value_length_counts_characters() {
    let parsed = parse(b"name = \"\xce\xb1\xce\xb2\"\nother = 1\n");
    let name = table(&parsed).get("name").unwrap();
    assert_eq!(name.location().line, Some(1));
    assert_eq!(name.location().column, Some(8));
    assert_eq!(name.location().length, Some(4));
}

#[test]
fn toml_format_detection_and_names() {
    let toml = Toml::new();
    assert_eq!(toml.is_format_supported(b"a = 1\n"), Some(true));
    assert_eq!(toml.is_format_supported(b"a = \n"), Some(false));
    assert_eq!(toml.is_format_supported(&[0xff]), Some(false));
    assert_eq!(toml.name(), "TOML");
    assert_eq!(toml.supported_format_list(), vec!["toml".to_string()]);
    let error = toml.parse(&file_source("x.toml"), &[0xff], &[]).err().unwrap();
    assert!(matches!(error, Error::InvalidUtf8 { .. }));
}
