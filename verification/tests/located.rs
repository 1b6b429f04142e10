use tanzim::parse_env::Env;
use tanzim::parse_json::Json;
use tanzim::parse_toml::Toml;
use tanzim::parse_yaml::Yaml;
use tanzim::source::{OptionValue, Source, SourceBuilder};
use tanzim::value::{LocatedValue, Value};

fn file_source(resource: &str) -> Source {
    SourceBuilder::new()
        .with_source("file".to_string())
        .with_resource(resource.to_string())
        .build()
        .unwrap()
}

/// Counts the nodes of a tree, checking that each one is located in `source`.
fn located_in(lv: &LocatedValue, source: &Source) -> usize {
    let at = &lv.location().source;
    assert_eq!(at.to_display_string(), source.to_display_string());
    1 + match lv.value() {
        Value::List(items) => items.iter().map(|item| located_in(item, source)).sum(),
        Value::Table(table) => table
            .entries()
            .iter()
            .map(|(_, item)| located_in(item, source))
            .sum(),
        _ => 0,
    }
}

/// Checks that every leaf is a string.
fn strings_only(lv: &LocatedValue) {
    match lv.value() {
        Value::String(_) => {}
        Value::Table(table) => table.entries().iter().for_each(|(_, item)| strings_only(item)),
        other => panic!("unexpected value {other:?}"),
    }
}

#[test]
fn json_values_are_located_in_their_source() {
    let source = file_source("a.json");
    let parsed = Json::new()
        .parse(&source, b"{\n \"a\": [1, {\"b\": null}],\n \"c\": \"x\"\n}\n", &[])
        .ok()
        .unwrap();
    assert_eq!(located_in(&parsed, &source), 6);
}

#[test]
fn toml_values_are_located_in_their_source() {
    let source = file_source("a.toml");
    let text = b"# top\na = [1, 2]\n[t]\nb = { c = \"x\" }\n[[s]]\nd = true\n";
    let parsed = Toml::new().parse(&source, text, &[]).ok().unwrap();
    assert_eq!(located_in(&parsed, &source), 10);
}

#[test]
fn yaml_values_are_located_in_their_source() {
    let source = file_source("a.yaml");
    let parsed = Yaml::new()
        .parse(&source, b"a:\n  - 1\n  - b: x\nc: ~\n", &[])
        .ok()
        .unwrap();
    assert_eq!(located_in(&parsed, &source), 6);
}

#[test]
fn env_values_are_located_strings() {
    let source = SourceBuilder::new()
        .with_source("env".to_string())
        .with_option("separator".to_string(), OptionValue::String("__".into()))
        .build()
        .unwrap();
    let parsed = Env::new()
        .parse(&source, b"A__B=1\nA__C=two\nD='x'\nA=scalar-then-map\nA__E=3\n", &[])
        .unwrap();
    assert!(located_in(&parsed, &source) >= 4);
    strings_only(&parsed);
}
