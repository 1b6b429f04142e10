use tanzim::load::Error;
use tanzim::load_env::Env;
use tanzim::source::{OptionValue, Options, Source, SourceBuilder};

fn make_source_with_options(options: Options) -> Source {
    SourceBuilder::new()
        .with_source("env".to_string())
        .with_options(options)
        .build()
        .unwrap()
}

fn vars(list: &[(&str, &str)]) -> Vec<(String, String)> {
    list.iter().map(|(k, v)| (k.to_string(), v.to_string())).collect()
}

fn text(s: &str) -> OptionValue {
    OptionValue::String(s.to_string())
}

#[test]
fn load_groups_environment_variables_by_name() {
    let mut options = Options::new();
    options.insert("prefix".to_string(), text("TANZIM_TEST__"));
    options.insert("separator".to_string(), text("__"));
    let environment = vars(&[("TANZIM_TEST__FOO__BAR", "baz"), ("TANZIM_TEST__QUX__ABC", "123")]);
    let loaded = Env::new()
        .load_vars(&make_source_with_options(options), &environment)
        .unwrap();

    let foo = loaded
        .iter()
        .find(|p| p.maybe_name == Some("foo".to_string()))
        .expect("foo payload");
    assert_eq!(foo.maybe_format, Some("env".to_string()));
    assert!(String::from_utf8_lossy(&foo.content).contains("BAR=\"baz\""));

    let qux = loaded
        .iter()
        .find(|p| p.maybe_name == Some("qux".to_string()))
        .expect("qux payload");
    assert!(String::from_utf8_lossy(&qux.content).contains("ABC=\"123\""));
}

#[test]
fn load_without_separator_puts_all_keys_in_one_payload() {
    let mut options = Options::new();
    options.insert("prefix".to_string(), text("TANZIM_FLAT__"));
    let environment = vars(&[("TANZIM_FLAT__FOO", "1"), ("TANZIM_FLAT__BAR", "2")]);
    let loaded = Env::new()
        .load_vars(&make_source_with_options(options), &environment)
        .unwrap();

    assert_eq!(loaded.len(), 1);
    let payload = &loaded[0];
    assert!(payload.maybe_name.is_none());
    let content = String::from_utf8_lossy(&payload.content);
    assert!(content.contains("FOO=\"1\""));
    assert!(content.contains("BAR=\"2\""));
}

#[test]
fn load_rejects_non_empty_resource() {
    let source = SourceBuilder::new()
        .with_source("env".to_string())
        .with_resource("oops".to_string())
        .build()
        .unwrap();
    let error = Env::new().load_vars(&source, &[]).unwrap_err();
    assert!(matches!(error, Error::InvalidResource { .. }));
}

#[test]
fn load_honors_strip_prefix_and_lowercase_options() {
    let mut options = Options::new();
    options.insert("prefix".to_string(), text("TANZIM_CASE__"));
    options.insert("separator".to_string(), text("__"));
    options.insert("lowercase".to_string(), OptionValue::Bool(false));
    let environment = vars(&[("TANZIM_CASE__Foo__BAR", "1")]);
    let loaded = Env::new()
        .load_vars(&make_source_with_options(options), &environment)
        .unwrap();
    assert_eq!(loaded.len(), 1);
    assert_eq!(loaded[0].maybe_name.as_deref(), Some("Foo"));
}

#[test]
fn env_load_ignores_unknown_option() {
    let mut options = Options::new();
    options.insert("bogus".to_string(), OptionValue::Bool(true));
    Env::new()
        .load_vars(&make_source_with_options(options), &[])
        .expect("unknown options are ignored");
}

#[test]
fn load_rejects_bad_separator_type() {
    let mut options = Options::new();
    options.insert("separator".to_string(), OptionValue::Integer(1));
    let error = Env::new()
        .load_vars(&make_source_with_options(options), &[])
        .unwrap_err();
    assert!(matches!(error, Error::InvalidOption { key, .. } if key == "separator"));
}

#[test]
fn with_prefix_override_skips_source_option() {
    let source = SourceBuilder::new()
        .with_source("env".to_string())
        .with_option("prefix".to_string(), text("OTHER__"))
        .build()
        .unwrap();
    let environment = vars(&[("PINNED__X", "yes"), ("OTHER__Y", "no")]);
    let loaded = Env::new()
        .with_prefix("PINNED__".to_string())
        .load_vars(&source, &environment)
        .unwrap();
    let content = String::from_utf8_lossy(&loaded[0].content);
    assert!(content.contains(r#"X="yes""#));
    assert!(!content.contains("no"));
}

#[test]
fn values_are_written_as_debug_quoted_strings() {
    let mut options = Options::new();
    options.insert("prefix".to_string(), text("APP_"));
    let environment = vars(&[("APP_MSG", "say \"hi\"\n"), ("UNRELATED", "x")]);
    let loaded = Env::new()
        .load_vars(&make_source_with_options(options), &environment)
        .unwrap();
    assert_eq!(loaded.len(), 1);
    assert_eq!(
        String::from_utf8(loaded[0].content.clone()).unwrap(),
        "MSG=\"say \\\"hi\\\"\\n\""
    );
    assert_eq!(loaded[0].source.source(), "env");
}

#[test]
fn settings_defaults_and_type_errors() {
    let settings = Env::new()
        .settings(&make_source_with_options(Options::new()))
        .unwrap();
    assert_eq!(settings.prefix, None);
    assert_eq!(settings.separator, None);
    assert!(!settings.strip_prefix);
    assert!(settings.lowercase);

    let mut options = Options::new();
    options.insert("lowercase".to_string(), text("yes"));
    let error = Env::new()
        .settings(&make_source_with_options(options))
        .unwrap_err();
    match error {
        Error::InvalidOption { loader, key, reason } => {
            assert_eq!(loader, "Environment-Variables");
            assert_eq!(key, "lowercase");
            assert_eq!(reason, "expected boolean, found string");
        }
        other => panic!("unexpected error {other:?}"),
    }
}

#[test]
fn env_loader_name_and_sources() {
    let env = Env::new();
    assert_eq!(env.name(), "Environment-Variables");
    assert_eq!(env.supported_source_list(), vec!["env".to_string()]);
}

#[test]
fn detected_prefix_is_the_default_prefix() {
    let mut env = Env::new();
    env.set_detected_prefix(Some("APP_".to_string()));
    let environment = vars(&[("APP_DEBUG", "true"), ("OTHER", "x")]);
    let loaded = env
        .load_vars(&make_source_with_options(Options::new()), &environment)
        .unwrap();
    assert_eq!(loaded.len(), 1);
    assert_eq!(String::from_utf8(loaded[0].content.clone()).unwrap(), "DEBUG=\"true\"");

    let mut options = Options::new();
    options.insert("prefix".to_string(), text("OTHER"));
    let settings = env.settings(&make_source_with_options(options)).unwrap();
    assert_eq!(settings.prefix, Some("OTHER".to_string()));
}

#[test]
fn pinned_prefix_acts_as_the_prefix_option() {
    let mut options = Options::new();
    options.insert("prefix".to_string(), OptionValue::from(3_i64));
    options.insert("separator".to_string(), text("__"));
    let pinned = Env::new()
        .with_prefix("P_".to_string())
        .settings(&make_source_with_options(options.clone()))
        .unwrap();
    options.insert("prefix".to_string(), text("P_"));
    let optioned = Env::new().settings(&make_source_with_options(options)).unwrap();
    assert_eq!(pinned.prefix, optioned.prefix);
    assert_eq!(pinned.separator, optioned.separator);
    assert_eq!(pinned.strip_prefix, optioned.strip_prefix);
    assert_eq!(pinned.lowercase, optioned.lowercase);
}
