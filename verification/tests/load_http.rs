use tanzim::load::{Error, Payload};
use tanzim::load_http::{finish, request};
use tanzim::source::{OptionValue, Options, Source, SourceBuilder};

fn http_source(resource: &str, options: Vec<(&str, OptionValue)>) -> Source {
    let mut builder = SourceBuilder::new()
        .with_source("http".to_string())
        .with_resource(resource.to_string());
    for (key, value) in options {
        builder = builder.with_option(key.to_string(), value);
    }
    builder.build().unwrap()
}

fn headers(entries: Vec<(&str, OptionValue)>) -> OptionValue {
    let mut map = Options::new();
    for (key, value) in entries {
        map.insert(key.to_string(), value);
    }
    OptionValue::Table(map)
}

fn fetched(source: &Source, name: Option<&str>, format: Option<&str>) -> Vec<Payload> {
    vec![Payload {
        source: source.clone(),
        maybe_name: name.map(str::to_string),
        maybe_format: format.map(str::to_string),
        content: b"{}".to_vec(),
    }]
}

#[test]
fn load_delegates_to_fetch_closure() {
    let source = http_source(
        "https://example.com/config.json",
        vec![
            (
                "headers",
                headers(vec![("Authorization", OptionValue::String("TOKEN".into()))]),
            ),
            ("timeout", OptionValue::Integer(30)),
            ("insecure", OptionValue::Bool(true)),
        ],
    );
    let req = request(&source).unwrap();
    assert_eq!(req.url, "https://example.com/config.json");
    assert_eq!(
        req.headers,
        vec![("Authorization".to_string(), "TOKEN".to_string())]
    );
    assert_eq!(req.timeout_seconds, 30);
    assert!(req.insecure);
    let loaded = finish(&source, &req, Ok(fetched(&source, Some("demo"), Some("json")))).unwrap();
    assert_eq!(loaded.len(), 1);
    assert_eq!(loaded[0].maybe_name, Some("demo".to_string()));
}

#[test]
fn load_rejects_invalid_url() {
    let source = http_source("not a url", vec![]);
    let error = request(&source).unwrap_err();
    assert!(matches!(error, Error::InvalidResource { .. }));
}

#[test]
fn http_load_requires_resource() {
    let source = SourceBuilder::new()
        .with_source("http".to_string())
        .build()
        .unwrap();
    let error = request(&source).unwrap_err();
    assert!(matches!(error, Error::InvalidResource { .. }));
}

#[test]
fn http_load_ignores_unknown_option() {
    let source = http_source("https://example.com", vec![("bogus", OptionValue::Bool(true))]);
    let req = request(&source).unwrap();
    let loaded = finish(&source, &req, Ok(Vec::new())).unwrap();
    assert!(loaded.is_empty());
}

#[test]
fn load_rejects_bad_headers_type() {
    let source = http_source(
        "https://example.com",
        vec![("headers", OptionValue::String("not-a-map".into()))],
    );
    let error = request(&source).unwrap_err();
    assert!(matches!(error, Error::InvalidOption { key, .. } if key == "headers"));
}

#[test]
fn load_rejects_non_string_header_value() {
    let source = http_source(
        "https://example.com",
        vec![("headers", headers(vec![("Authorization", OptionValue::Integer(1))]))],
    );
    let error = request(&source).unwrap_err();
    assert!(matches!(error, Error::InvalidOption { key, .. } if key == "headers"));
}

#[test]
fn load_uses_default_timeout() {
    let req = request(&http_source("https://example.com", vec![])).unwrap();
    assert_eq!(req.timeout_seconds, 15);
    assert!(!req.insecure);
    assert!(req.lowercase);
}

#[test]
fn load_rejects_non_positive_timeout() {
    let source = http_source("https://example.com", vec![("timeout", OptionValue::Integer(0))]);
    let error = request(&source).unwrap_err();
    assert!(matches!(error, Error::InvalidOption { key, .. } if key == "timeout"));
}

#[test]
fn load_rejects_bad_insecure_type() {
    let source = http_source(
        "https://example.com",
        vec![("insecure", OptionValue::String("yes".into()))],
    );
    let error = request(&source).unwrap_err();
    assert!(matches!(error, Error::InvalidOption { key, .. } if key == "insecure"));
}

#[test]
fn load_wraps_fetch_error() {
    let source = http_source("https://example.com", vec![]);
    let req = request(&source).unwrap();
    let error = finish(&source, &req, Err("network down".to_string())).unwrap_err();
    assert!(
        matches!(&error, Error::Load { description, .. } if description == "fetch configuration")
    );
    assert_eq!(
        error.to_display_string(false),
        "HTTP configuration loader could not fetch configuration `https://example.com`"
    );
    assert_eq!(
        error.to_display_string(true),
        "HTTP configuration loader could not fetch configuration `https://example.com`: network down"
    );
}

#[test]
fn load_normalizes_trimmed_empty_name_and_format() {
    let source = http_source("https://example.com", vec![]);
    let req = request(&source).unwrap();
    let loaded = finish(&source, &req, Ok(fetched(&source, Some("   "), Some("\t")))).unwrap();
    assert_eq!(loaded[0].maybe_name, None);
    assert_eq!(loaded[0].maybe_format, None);
}

#[test]
fn load_lowercases_name_and_format_by_default() {
    let source = http_source("https://example.com", vec![]);
    let req = request(&source).unwrap();
    let loaded =
        finish(&source, &req, Ok(fetched(&source, Some(" Demo "), Some(" JSON ")))).unwrap();
    assert_eq!(loaded[0].maybe_name.as_deref(), Some("demo"));
    assert_eq!(loaded[0].maybe_format.as_deref(), Some("json"));
}

#[test]
fn http_load_preserves_case_when_lowercase_disabled() {
    let source = http_source("https://example.com", vec![("lowercase", OptionValue::Bool(false))]);
    let req = request(&source).unwrap();
    let loaded = finish(&source, &req, Ok(fetched(&source, Some("Demo"), Some("JSON")))).unwrap();
    assert_eq!(loaded[0].maybe_name.as_deref(), Some("Demo"));
    assert_eq!(loaded[0].maybe_format.as_deref(), Some("JSON"));
}

#[test]
fn load_clones_source_onto_payloads() {
    let source = http_source("https://example.com/x", vec![]);
    let req = request(&source).unwrap();
    let other = http_source("https://elsewhere.example/", vec![]);
    let loaded = finish(&source, &req, Ok(fetched(&other, Some("app"), Some("json")))).unwrap();
    assert_eq!(loaded[0].source.resource(), source.resource());
    assert_eq!(loaded[0].content, b"{}".to_vec());
}

#[test]
fn url_is_normalized_by_the_url_parser() {
    let req = request(&http_source("HTTPS://Example.COM", vec![])).unwrap();
    assert_eq!(req.url, "https://example.com/");
}
