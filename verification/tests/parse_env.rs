use tanzim::parse_env::{separator_ok, unparse, Env};
use tanzim::source::{OptionValue, Source, SourceBuilder};
use tanzim::value::{Comment, Error, LocatedValue, Location, Table, Value};

fn file_source(resource: &str) -> Source {
    SourceBuilder::new()
        .with_source("file".to_string())
        .with_resource(resource.to_string())
        .build()
        .unwrap()
}

fn env_source(separator: &str) -> Source {
    SourceBuilder::new()
        .with_source("env".to_string())
        .with_option("separator".to_string(), OptionValue::String(separator.into()))
        .build()
        .unwrap()
}

fn loc(value: Value) -> LocatedValue {
    LocatedValue::new(value, Location::at("env", "test", None, None, None))
}

fn text_at<'a>(map: &'a Table, key: &str) -> &'a str {
    map.get(key).unwrap().value().as_string().unwrap()
}

#[test]
fn env_unparses_complex_env() {
    let source = env_source("__");
    let mut database = Table::new();
    database.insert("host".into(), loc(Value::String("localhost".into())));
    database.insert("port".into(), loc(Value::Int(5432)));
    let mut map = Table::new();
    map.insert("database".into(), loc(Value::Table(database)));
    map.insert("debug".into(), loc(Value::Bool(true)));
    map.insert("note".into(), loc(Value::String("has space".into())));

    let text = unparse(&source, &Value::Table(map)).unwrap();
    assert_eq!(
        text,
        "database__host=localhost\ndatabase__port=5432\ndebug=true\nnote=\"has space\"\n"
    );
}

#[test]
fn env_unparse_list_is_error() {
    let source = file_source(".env");
    let mut map = Table::new();
    map.insert("items".into(), loc(Value::List(vec![loc(Value::Int(1))])));
    assert!(unparse(&source, &Value::Table(map)).is_err());
}

#[test]
fn env_parses_dotenv_contents() {
    let source = file_source(".env");
    let parsed = Env::new().parse(&source, b"FOO=bar\nBAZ=qux\n", &[]).unwrap();
    let map = parsed.value().as_table().unwrap();
    assert_eq!(text_at(map, "foo"), "bar");
    assert_eq!(text_at(map, "baz"), "qux");
}

#[test]
fn env_parses_env_with_line_numbers() {
    let source = file_source(".env");
    let root = Env::new().parse(&source, b"FOO=bar\nBAZ=qux\n", &[]).unwrap();
    let map = root.value().as_table().unwrap();
    let foo = map.get("foo").unwrap();
    assert_eq!(foo.value().as_string().unwrap(), "bar");
    assert_eq!(foo.location().line, Some(1));
    let baz = map.get("baz").unwrap();
    assert_eq!(baz.location().line, Some(2));
}

#[test]
fn env_parses_nested_keys_with_separator() {
    let source = env_source("__");
    let parsed = Env::new().parse(&source, b"BAR__BAZ=val\n", &[]).unwrap();
    let map = parsed.value().as_table().unwrap();
    let nested = map.get("bar").unwrap().value().as_table().unwrap();
    assert_eq!(text_at(nested, "baz"), "val");
}

#[test]
fn env_parses_prefix_and_suffix_comments() {
    let text = b"# top comment\n# second line\nPORT=8080 # listen port\n";
    let parsed = Env::new().parse(&file_source(".env"), text, &[]).unwrap();
    let port = parsed.value().as_table().unwrap().get("port").unwrap();
    assert_eq!(
        port.comment().before(),
        &["top comment".to_string(), "second line".to_string()]
    );
    assert_eq!(port.comment().after(), Some("listen port"));
    assert_eq!(port.value().as_string().unwrap(), "8080");
}

#[test]
fn env_parses_quoted_value_with_suffix_comment() {
    let source = env_source("__");
    let parsed = Env::new()
        .parse(&source, b"SERVER__PORT=\"8080\" # listen port\n", &[])
        .unwrap();
    let server = parsed.value().as_table().unwrap().get("server").unwrap();
    let port = server.value().as_table().unwrap().get("port").unwrap();
    assert_eq!(port.value().as_string().unwrap(), "8080");
    assert_eq!(port.comment().after(), Some("listen port"));
}

#[test]
fn env_unparses_prefix_and_suffix_comments() {
    let source = file_source(".env");
    let mut map = Table::new();
    map.insert(
        "port".into(),
        loc(Value::String("8080".into())).with_comment(
            Comment::new()
                .with_before(vec!["top comment".to_string()])
                .with_after(Some("listen port".to_string())),
        ),
    );
    let text = unparse(&source, &Value::Table(map)).unwrap();
    assert_eq!(text, "# top comment\nport=8080 # listen port\n");
}

#[test]
fn env_parses_file_env_inheriting_separator() {
    let other_sources = [env_source(".")];
    let parsed = Env::new()
        .parse(&file_source("foo.env"), b"SERVER.PORT=8080\n", other_sources.as_slice())
        .unwrap();
    let server = parsed.value().as_table().unwrap().get("server").unwrap();
    let port = server.value().as_table().unwrap().get("port").unwrap();
    assert_eq!(port.value().as_string().unwrap(), "8080");
}

#[test]
fn env_rejects_conflicting_env_separators() {
    let other_sources = [env_source("."), env_source("__")];
    let error = Env::new()
        .parse(&file_source("foo.env"), b"SERVER.PORT=8080\n", other_sources.as_slice())
        .unwrap_err();
    assert!(matches!(error, Error::Parse { .. }));
    assert!(error.to_display_string().contains("separator"));
}

#[test]
fn parse_unparse_parse_keeps_nested_value_and_comment() {
    let source = env_source(".");
    let parsed = Env::new()
        .parse(&source, b"# note\nSERVER.PORT=8080 # listen port\n", &[])
        .unwrap();
    let text = unparse(&source, parsed.value()).unwrap();
    assert_eq!(text, "# note\nserver.port=8080 # listen port\n");
    let again = Env::new().parse(&source, text.as_bytes(), &[]).unwrap();
    let port = again
        .value()
        .as_table()
        .unwrap()
        .get("server")
        .unwrap()
        .value()
        .as_table()
        .unwrap()
        .get("port")
        .unwrap();
    assert_eq!(port.value().as_string().unwrap(), "8080");
    assert_eq!(port.comment().after(), Some("listen port"));
}

#[test]
fn quotes_exports_and_escapes() {
    let text = b"export A='x # y'\nB=\"line\\nnext\"\nC=plain value # tail\n\n";
    let parsed = Env::new().parse(&file_source(".env"), text, &[]).unwrap();
    let map = parsed.value().as_table().unwrap();
    assert_eq!(text_at(map, "a"), "x # y");
    assert_eq!(text_at(map, "b"), "line\nnext");
    assert_eq!(text_at(map, "c"), "plain value");
}

#[test]
fn lowercase_false_keeps_key_case() {
    let source = SourceBuilder::new()
        .with_source("env".to_string())
        .with_option("lowercase".to_string(), OptionValue::Bool(false))
        .build()
        .unwrap();
    let parsed = Env::new().parse(&source, b"MiXed=1\n", &[]).unwrap();
    assert_eq!(text_at(parsed.value().as_table().unwrap(), "MiXed"), "1");
}

#[test]
fn single_line_input_has_no_positions() {
    let parsed = Env::new().parse(&file_source(".env"), b"A=1", &[]).unwrap();
    let a = parsed.value().as_table().unwrap().get("a").unwrap();
    assert_eq!(a.location().line, None);
    assert_eq!(a.location().column, None);
    assert_eq!(parsed.location().line, None);
}

#[test]
fn invalid_utf8_is_an_error() {
    let error = Env::new().parse(&file_source(".env"), &[0xff, 0xfe], &[]).unwrap_err();
    assert!(matches!(error, Error::InvalidUtf8 { .. }));
    assert_eq!(error.to_display_string(), "configuration is not valid UTF-8");
}

#[test]
fn env_format_detection_and_names() {
    let env = Env::new();
    assert_eq!(env.is_format_supported(b"# only a comment\n\n"), Some(false));
    assert_eq!(env.is_format_supported(b"\n  KEY = v\n"), Some(true));
    assert_eq!(env.is_format_supported(&[0xff]), Some(false));
    assert_eq!(env.name(), "Environment-Variables");
    assert_eq!(env.supported_format_list(), vec!["env".to_string()]);
}

#[test]
fn unparse_errors_name_the_problem() {
    let no_separator = file_source(".env");
    let mut inner = Table::new();
    inner.insert("b".into(), loc(Value::Int(1)));
    let mut map = Table::new();
    map.insert("a".into(), loc(Value::Table(inner)));
    let error = unparse(&no_separator, &Value::Table(map)).unwrap_err();
    assert!(error.contains("separator"));
    let error = unparse(&no_separator, &Value::Int(3)).unwrap_err();
    assert_eq!(error, "env root must be a map, found integer");
}

#[test]
fn separator_must_not_be_empty() {
    assert!(separator_ok(&env_source("__"), &[]));
    assert!(!separator_ok(&env_source(""), &[]));
    assert!(!separator_ok(&file_source(".env"), &[env_source("")]));
    assert!(separator_ok(&file_source(".env"), &[]));
}

#[test]
fn parse_reads_back_what_unparse_wrote() {
    let source = SourceBuilder::new()
        .with_source("env".to_string())
        .with_option("lowercase".to_string(), OptionValue::Bool(false))
        .build()
        .unwrap();
    let mut map = Table::new();
    map.insert("Name".into(), loc(Value::String("two words".into())));
    map.insert("path".into(), loc(Value::String("a\"b\\c\nd".into())));
    map.insert("plain".into(), loc(Value::String("x".into())));
    let original = Value::Table(map);
    let text = unparse(&source, &original).unwrap();
    let parsed = Env::new().parse(&source, text.as_bytes(), &[]).unwrap();
    assert!(parsed.value().same_value(&original));
    let table = parsed.value().as_table().unwrap();
    assert_eq!(table.keys(), vec!["Name".to_string(), "path".to_string(), "plain".to_string()]);
    assert_eq!(text_at(table, "path"), "a\"b\\c\nd");
}
