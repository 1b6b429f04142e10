use tanzim::load::Error;
use tanzim::load_file::{File, FileEntry, IoKind};
use tanzim::source::{OptionValue, Source, SourceBuilder};

fn make_source(resource: &str) -> Source {
    SourceBuilder::new()
        .with_source("file".to_string())
        .with_resource(resource.to_string())
        .build()
        .unwrap()
}

fn with_option(resource: &str, key: &str, value: OptionValue) -> Source {
    SourceBuilder::new()
        .with_source("file".to_string())
        .with_resource(resource.to_string())
        .with_option(key.to_string(), value)
        .build()
        .unwrap()
}

fn texts(items: &[&str]) -> OptionValue {
    OptionValue::List(items.iter().map(|s| OptionValue::String(s.to_string())).collect())
}

fn info(path: &str) -> (Option<String>, Option<String>) {
    File::info(path, true)
}

fn some(s: &str) -> Option<String> {
    Some(s.to_string())
}

#[test]
fn file_load_resolves_name_and_format_from_path() {
    assert_eq!(info("./foo.JSON"), (some("foo"), some("json")));
    assert_eq!(info("./README"), (some("readme"), None));
    assert_eq!(info("./.env"), (some(".env"), None));
}

#[test]
fn file_load_reads_files_with_and_without_extension() {
    let source = make_source(".");
    let settings = File::settings(&source).unwrap();
    let entries = vec![
        File::entry(&source, &settings, "./foo.json"),
        File::entry(&source, &settings, "./README"),
        File::entry(&source, &settings, "./.env"),
    ];
    let sorted = File::sort_entries(entries);
    assert_eq!(sorted.len(), 3);
    let names: Vec<Option<String>> = sorted.iter().map(|e| e.name.clone()).collect();
    assert_eq!(names, vec![some(".env"), some("readme"), some("foo")]);
    assert_eq!(sorted[2].format, some("json"));
    assert!(sorted[0].format.is_none());
    assert!(sorted[1].format.is_none());
}

#[test]
fn file_load_reads_files_from_directory() {
    let source = make_source(".");
    let settings = File::settings(&source).unwrap();
    let entry = File::entry(&source, &settings, "./foo.json");
    let payload = File::payload(entry, br#"{"hello":"world"}"#.to_vec());
    assert_eq!(payload.maybe_name, some("foo"));
    assert_eq!(payload.maybe_format, some("json"));
    assert!(payload.source.resource().ends_with("foo.json"));
    assert_eq!(payload.content, br#"{"hello":"world"}"#.to_vec());
}

#[test]
fn load_ignores_not_found_when_configured() {
    let source = with_option("/no/such/path", "ignore", texts(&["not-found"]));
    let settings = File::settings(&source).unwrap();
    assert!(File::missing(&settings).is_ok());
    assert!(File::directory_failure(&settings, IoKind::NotFound, "gone").is_ok());
    assert!(File::directory_failure(&settings, IoKind::PermissionDenied, "denied").is_err());
}

#[test]
fn file_load_requires_resource() {
    let source = SourceBuilder::new()
        .with_source("file".to_string())
        .build()
        .unwrap();
    let error = File::settings(&source).unwrap_err();
    assert!(matches!(error, Error::InvalidResource { .. }));
}

#[test]
fn file_load_single_file_path() {
    let source = make_source("solo.json");
    let settings = File::settings(&source).unwrap();
    let payload = File::payload(File::entry(&source, &settings, "solo.json"), b"{}".to_vec());
    assert_eq!(payload.maybe_name.as_deref(), Some("solo"));
    assert_eq!(payload.source.resource(), "solo.json");
}

#[test]
fn file_load_ignores_unknown_option() {
    let source = with_option(".", "bogus", OptionValue::Bool(true));
    let settings = File::settings(&source).unwrap();
    let entries = File::sort_entries(vec![File::entry(&source, &settings, "./foo.json")]);
    let loaded: Vec<_> = entries.into_iter().map(|e| File::payload(e, b"{}".to_vec())).collect();
    assert_eq!(loaded.len(), 1);
}

#[test]
fn load_rejects_invalid_ignore_list() {
    let source = with_option("/tmp", "ignore", OptionValue::String("not-a-list".to_string()));
    let error = File::settings(&source).unwrap_err();
    assert!(matches!(error, Error::InvalidOption { key, .. } if key == "ignore"));
}

#[test]
fn load_rejects_unknown_ignore_value() {
    let source = with_option("/tmp", "ignore", texts(&["bogus"]));
    let error = File::settings(&source).unwrap_err();
    assert!(matches!(error, Error::InvalidOption { key, .. } if key == "ignore"));
}

#[test]
fn file_load_preserves_case_when_lowercase_disabled() {
    let source = with_option(".", "lowercase", OptionValue::Bool(false));
    let settings = File::settings(&source).unwrap();
    assert!(!settings.lowercase);
    let entry = File::entry(&source, &settings, "./Demo.JSON");
    assert_eq!(entry.name.as_deref(), Some("Demo"));
    assert_eq!(entry.format.as_deref(), Some("JSON"));
}

#[test]
fn file_load_reports_not_found_for_missing_path() {
    let source = make_source("/no/such/tanzim-file-path");
    let settings = File::settings(&source).unwrap();
    let error = File::missing(&settings).unwrap_err();
    match error {
        Error::NotFound { loader, resource, item } => {
            assert_eq!(loader, "File");
            assert_eq!(resource, "/no/such/tanzim-file-path");
            assert_eq!(item, "path `\"/no/such/tanzim-file-path\"`");
        }
        other => panic!("unexpected error {other:?}"),
    }
}

#[test]
fn failures_by_kind() {
    let settings = File::settings(&make_source("conf")).unwrap();
    assert!(matches!(
        File::read_failure(&settings, "conf/a.json", IoKind::PermissionDenied, "denied"),
        Err(Error::NoAccess { .. })
    ));
    match File::read_failure(&settings, "conf/a.json", IoKind::Other, "boom") {
        Err(Error::Load { description, source, .. }) => {
            assert_eq!(description, "read contents of file `\"conf/a.json\"`");
            assert_eq!(source, "boom");
        }
        _ => panic!("expected a load error"),
    }
    match File::directory_failure(&settings, IoKind::NotFound, "gone") {
        Err(Error::NotFound { item, .. }) => assert_eq!(item, "directory `\"conf\"`"),
        _ => panic!("expected not found"),
    }
    assert!(matches!(
        File::entry_failure(&settings, IoKind::Other, "x"),
        Err(Error::Load { .. })
    ));
    assert!(matches!(File::not_regular(&settings), Error::InvalidResource { .. }));
}

#[test]
fn ignore_list_tolerates_only_listed_kinds() {
    let both = vec!["not-found".to_string(), "no-access".to_string()];
    assert!(File::should_ignore(&both, IoKind::NotFound));
    assert!(File::should_ignore(&both, IoKind::PermissionDenied));
    assert!(!File::should_ignore(&both, IoKind::Other));
    assert!(!File::should_ignore(&[], IoKind::NotFound));
}

#[test]
fn info_edge_cases() {
    assert_eq!(info("dir/.."), (some(".."), None));
    assert_eq!(info("archive.tar.GZ"), (some("archive.tar"), some("gz")));
    assert_eq!(File::info("a/B.Yaml", false), (some("B"), some("Yaml")));
}

#[test]
fn sort_entries_orders_by_path() {
    let source = make_source(".");
    let settings = File::settings(&source).unwrap();
    let entries: Vec<FileEntry> = ["c", "a", "b"]
        .iter()
        .map(|p| File::entry(&source, &settings, p))
        .collect();
    let sorted = File::sort_entries(entries);
    let paths: Vec<&str> = sorted.iter().map(|e| e.path.as_str()).collect();
    assert_eq!(paths, vec!["a", "b", "c"]);
}

#[test]
fn file_loader_name_and_sources() {
    assert_eq!(File::new().name(), "File");
    assert_eq!(File::new().supported_source_list(), vec!["file".to_string()]);
}

#[test]
fn missing_path_is_named_by_its_path_debug_form() {
    let source = make_source("it's");
    let settings = File::settings(&source).unwrap();
    match File::missing(&settings).unwrap_err() {
        Error::NotFound { item, .. } => {
            assert_eq!(item, format!("path `{:?}`", std::path::Path::new("it's")));
        }
        other => panic!("unexpected error {other:?}"),
    }
}
