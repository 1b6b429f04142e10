use std::convert::TryFrom;
use tanzim::source::{
    Error, OnError, OptionValue, OptionValueType, Options, Source, SourceBuilder, Stage,
};
use tanzim::source_parse::ParseError;

fn text(s: &str) -> OptionValue {
    OptionValue::String(s.to_string())
}

#[test]
fn builder_requires_source() {
    let error = SourceBuilder::new().build().unwrap_err();
    assert!(matches!(error, Error::MissingSource));

    let error = SourceBuilder::new().with_source("".to_string()).build().unwrap_err();
    assert!(matches!(error, Error::MissingSource));
}

#[test]
fn builder_with_option_and_into_string() {
    let source = SourceBuilder::new()
        .with_source("env".to_string())
        .with_resource("".to_string())
        .with_option("prefix".to_string(), OptionValue::from("APP"))
        .with_option("timeout".to_string(), OptionValue::from(30_i64))
        .with_option("retry".to_string(), OptionValue::from(true))
        .build()
        .unwrap();

    assert_eq!(source.source(), "env");
    assert_eq!(source.resource(), "");
    assert_eq!(source.options().get("prefix"), Some(&text("APP")));
    assert_eq!(source.options().get("timeout"), Some(&OptionValue::Integer(30)));
    assert_eq!(source.options().get("retry"), Some(&OptionValue::Bool(true)));
}

#[test]
fn options_last_key_wins() {
    let mut options = Options::new();
    options.insert("prefix".to_string(), text("OLD"));
    options.insert("prefix".to_string(), text("NEW"));
    assert_eq!(options.len(), 1);
    assert_eq!(options.get("prefix"), Some(&text("NEW")));
}

#[test]
fn option_value_accessors_and_type_name() {
    let value = OptionValue::from(vec!["a", "b"]);
    assert!(value.is_list());
    assert_eq!(value.value_type(), OptionValueType::List);
    assert_eq!(value.as_list().unwrap().len(), 2);

    let mut map = OptionValue::new_map();
    map.map_mut()
        .unwrap()
        .insert("enabled".to_string(), OptionValue::from(true));
    assert_eq!(map.value_type(), OptionValueType::Table);
}

#[test]
fn config_source_setters() {
    let mut source = SourceBuilder::new()
        .with_source("file".to_string())
        .with_resource("/etc/app".to_string())
        .build()
        .unwrap();

    source.set_source("http".to_string());
    source.set_resource("https://example.com/config.json".to_string());
    source.set_option("timeout".to_string(), OptionValue::from(5_u32));

    assert_eq!(source.source(), "http");
    assert_eq!(source.resource(), "https://example.com/config.json");
    assert_eq!(source.options().get("timeout"), Some(&OptionValue::Integer(5)));
}

#[test]
fn builder_with_options() {
    let mut options = Options::new();
    options.insert("prefix".to_string(), text("APP_"));
    let source = SourceBuilder::new()
        .with_source("env".to_string())
        .with_options(options)
        .build()
        .unwrap();
    assert_eq!(source.options().get("prefix"), Some(&text("APP_")));
}

#[test]
fn on_error_reads_reserved_option() {
    let fail = Source::parse("file:/etc/app").unwrap();
    assert_eq!(fail.on_error(Stage::Load), OnError::Fail);
    assert_eq!(fail.on_error(Stage::Validate), OnError::Fail);

    let source = Source::parse("file(on_error=(load=skip,validate=skip)):/etc/app").unwrap();
    assert_eq!(source.on_error(Stage::Load), OnError::Skip);
    assert_eq!(source.on_error(Stage::Parse), OnError::Fail);
    assert_eq!(source.on_error(Stage::Validate), OnError::Skip);
}

#[test]
fn named_builds_bare_source() {
    let source = Source::named("schema".to_string());
    assert_eq!(source.source(), "schema");
    assert_eq!(source.resource(), "");
    assert!(source.options().is_empty());
    assert_eq!(source.on_error(Stage::Validate), OnError::Fail);
}

#[test]
fn options_remove_and_option_value_mutators() {
    let mut options = Options::new();
    options.insert("keep".to_string(), text("yes"));
    options.insert("drop".to_string(), text("no"));
    options.remove("drop");
    assert!(!options.contains_key("drop"));
    assert!(options.contains_key("keep"));

    let mut value = OptionValue::Integer(1);
    assert_eq!(value.as_integer(), Some(1));
    if let Some(number) = value.integer_mut() {
        *number = 2;
    }
    assert_eq!(value.as_integer(), Some(2));
    assert_eq!(value.into_integer(), Some(2));
}

#[test]
fn options_display_iter_and_mutators() {
    let mut options = Options::new();
    options.insert("a".to_string(), OptionValue::from(1_i64));
    options.insert("b".to_string(), text("two"));
    assert_eq!(options.len(), 2);
    assert!(!options.is_empty());

    let keys: Vec<&str> = options.keys();
    assert_eq!(keys, vec!["a", "b"]);

    let mut values = 0;
    for (_, value) in options.entries().iter() {
        if value.is_integer() || value.is_string() {
            values += 1;
        }
    }
    assert_eq!(values, 2);

    if let Some(value) = options.get_mut("a") {
        *value = OptionValue::Integer(9);
    }
    assert_eq!(options.get("a"), Some(&OptionValue::Integer(9)));

    let previous = options.insert("a".to_string(), OptionValue::from(3_i64));
    assert_eq!(previous, Some(OptionValue::Integer(9)));

    let display = options.to_display_string();
    assert!(display.contains("\"a\""));
    assert!(display.contains("two"));
}

#[test]
fn option_value_and_type_display() {
    assert_eq!(OptionValueType::Table.as_str(), "map");
    assert_eq!(OptionValueType::List.as_str(), "list");

    let list = OptionValue::from(vec![1_i64, 2_i64]);
    assert_eq!(list.to_display_string(), "[1, 2]");

    let mut map = Options::new();
    map.insert("enabled".to_string(), OptionValue::from(true));
    let map_value = OptionValue::Table(map);
    assert!(map_value.to_display_string().contains("enabled"));
}

#[test]
fn source_display_and_builder_resource_colon() {
    let source = SourceBuilder::new()
        .with_source("env".to_string())
        .with_resource_colon(true)
        .build()
        .unwrap();
    assert!(source.resource_colon());
    assert_eq!(source.to_display_string(), "env:");

    let mut source = SourceBuilder::new()
        .with_source("file".to_string())
        .with_option("skip".to_string(), OptionValue::from(vec!["not-found"]))
        .with_resource("/tmp/x".to_string())
        .build()
        .unwrap();
    source.set_resource_colon(false);
    source.options_mut().insert("extra".to_string(), text("yes"));
    assert_eq!(source.source(), "file");
    let shown = source.to_display_string();
    assert!(shown.contains("/tmp/x"));
    assert!(shown.contains("extra=yes"));
}

#[test]
fn source_with_mutators_update_fields() {
    let source = SourceBuilder::new()
        .with_source("env".to_string())
        .build()
        .unwrap()
        .with_source("file".to_string())
        .with_resource("/etc/app".to_string())
        .with_option("lowercase".to_string(), OptionValue::from(false));
    assert_eq!(source.source(), "file");
    assert_eq!(source.resource(), "/etc/app");
    assert_eq!(source.options().get("lowercase"), Some(&OptionValue::Bool(false)));
}

#[test]
fn error_wraps_parse_failure() {
    match SourceBuilder::try_from("env(prefix=)") {
        Ok(_) => panic!("expected parse error"),
        Err(error) => assert!(matches!(error, Error::Parse(ParseError::EmptyValue { .. }))),
    }
}

#[test]
fn option_value_coercions_and_type_names() {
    let float = OptionValue::Float("1.5".to_string());
    assert!(float.is_float());
    assert_eq!(float.value_type(), OptionValueType::Float);
    assert_eq!(float.as_float().unwrap().parse::<f64>().unwrap(), 1.5);

    let hello = OptionValue::from("hello");
    assert!(hello.into_string().is_some());

    let mut flag = OptionValue::Bool(false);
    if let Some(value) = flag.bool_mut() {
        *value = true;
    }
    assert_eq!(flag.as_bool(), Some(true));
}

#[test]
fn option_list_mut_edits_items_in_place() {
    let mut list = OptionValue::from(vec![text("a")]);
    list.list_mut().unwrap().push(text("b"));
    assert_eq!(list.to_display_string(), "[\"a\", \"b\"]");
    assert!(OptionValue::Bool(true).as_list().is_none());
}
