use tanzim::environment::{is_within, resolve, Error};

#[test]
fn environment_error_display_and_source() {
    let error = Error::NotRelative { path: "/abs".to_string() };
    assert!(error.to_display_string(false).contains("relative"));
    assert!(error.source_text().is_none());

    let error = Error::Io {
        action: String::from("create the file"),
        path: Some("x".to_string()),
        source: "nope".to_string(),
    };
    assert!(error.to_display_string(false).contains("create the file"));
    assert!(error.source_text().is_some());
    assert!(error.to_display_string(true).contains("nope"));
}

#[test]
fn resolve_rejects_absolute_and_parent() {
    let directory = "/sandbox";
    assert!(matches!(resolve(directory, "/abs"), Err(Error::NotRelative { .. })));
    assert!(matches!(resolve(directory, "../up"), Err(Error::Escapes { .. })));
    assert!(resolve(directory, "a/b.txt").is_ok());
}

#[test]
fn resolve_joins_with_one_separator() {
    assert_eq!(resolve("/sandbox", "a/b.txt").ok().unwrap(), "/sandbox/a/b.txt");
    assert_eq!(resolve("/sandbox/", "a").ok().unwrap(), "/sandbox/a");
    assert_eq!(resolve("", "a").ok().unwrap(), "a");
    // A `..` inside a longer segment name is not a parent segment.
    assert_eq!(resolve("/s", "a..b/..c").ok().unwrap(), "/s/a..b/..c");
    assert!(matches!(resolve("/s", "a/.."), Err(Error::Escapes { .. })));
}

#[test]
fn environment_error_texts() {
    assert_eq!(
        Error::Inactive.to_display_string(false),
        "the sandbox environment is not active; call this inside `Environment::run`"
    );
    let io = Error::Io { action: "write the file".to_string(), path: None, source: "full".to_string() };
    assert_eq!(io.to_display_string(false), "could not write the file");
    assert_eq!(io.to_display_string(true), "could not write the file: full");
    let escapes = Error::Escapes { path: "../x".to_string() };
    assert_eq!(escapes.to_display_string(true), "path `../x` escapes the sandbox directory");
    assert_eq!(Error::Other("boom".to_string()).to_display_string(true), "boom");
}

#[test]
fn within_compares_whole_segments() {
    assert!(is_within("/tmp/box", "/tmp/box"));
    assert!(is_within("/tmp/box", "/tmp/box/a/b"));
    assert!(is_within("/tmp/box/", "/tmp/box/a"));
    assert!(!is_within("/tmp/box", "/tmp/boxes"));
    assert!(!is_within("/tmp/box", "/tmp"));
}
