//! The errors of the library.

use dagger::errors::{DaggerError, ErrorContext};

#[test]
fn test_error_creation() {
    let err = DaggerError::execution("test_component", "test failed");
    assert!(matches!(err, DaggerError::Execution { .. }));
    assert_eq!(err.category(), "execution");
}

#[test]
fn test_error_context() {
    let err = DaggerError::execution("test", "message").with_context("key1", "value1").with_context("key2", "value2");
    if let DaggerError::Execution { context, .. } = err {
        assert_eq!(context.get("key1"), Some(&"value1".to_string()));
        assert_eq!(context.get("key2"), Some(&"value2".to_string()));
    } else {
        panic!("Expected execution error");
    }
}

#[test]
fn test_error_recoverability() {
    assert!(DaggerError::timeout("test", 1000).is_recoverable());
    assert!(!DaggerError::validation("test").is_recoverable());
    assert!(!DaggerError::configuration("test").is_recoverable());
}

#[test]
fn test_macro() {
    let err = DaggerError::execution("component", "message");
    assert!(matches!(err, DaggerError::Execution { .. }));

    let err = DaggerError::validation("invalid input");
    assert!(matches!(err, DaggerError::Validation { .. }));
}

#[test]
fn error_texts_and_kinds() {
    let cases = [
        (DaggerError::execution("a", "b"), "execution", "Execution failed in a: b"),
        (DaggerError::resource_exhausted("mem", 5, 4), "resource", "Resource exhausted: mem (current: 5, limit: 4)"),
        (DaggerError::validation("v"), "validation", "Validation failed: v"),
        (DaggerError::configuration("c"), "configuration", "Configuration error: c"),
        (DaggerError::database("op", anyhow::Error::msg("s")), "database", "Database operation failed: op"),
        (DaggerError::io("op", std::io::Error::from(std::io::ErrorKind::NotFound)), "io", "IO operation failed: op"),
        (DaggerError::serialization("json", anyhow::Error::msg("s")), "serialization", "Serialization failed: json"),
        (DaggerError::concurrency("lock"), "concurrency", "Concurrency error: lock"),
        (DaggerError::task("t", "m"), "task", "Task error: t - m"),
        (DaggerError::agent("g", "m"), "agent", "Agent error: g - m"),
        (DaggerError::channel("c", "m"), "channel", "Channel error: c - m"),
        (DaggerError::timeout("op", 7), "timeout", "Operation timed out: op (timeout: 7ms)"),
        (DaggerError::cancelled("op"), "cancelled", "Operation was cancelled: op"),
        (DaggerError::internal("i"), "internal", "Internal error: i"),
    ];
    for (err, kind, text) in cases {
        assert_eq!(err.category(), kind);
        assert_eq!(err.message(), text);
    }
}

#[test]
fn context_is_added_to_execution_errors_only() {
    let context = ErrorContext::new().add("node", "n1");
    if let DaggerError::Execution { context, .. } = context.apply_to_error(DaggerError::execution("c", "m")) {
        assert_eq!(context.get("node"), Some(&"n1".to_string()));
    } else {
        panic!("Expected execution error");
    }
    let context = ErrorContext::new().add("node", "n1");
    let other = context.apply_to_error(DaggerError::validation("v"));
    assert_eq!(other.message(), "Validation failed: v");
}

#[test]
fn errors_keep_what_they_were_made_from() {
    let broken = || std::io::Error::new(std::io::ErrorKind::PermissionDenied, "closed");
    let kind = |e: &anyhow::Error| e.downcast_ref::<std::io::Error>().map(|e| e.kind());
    let denied = Some(std::io::ErrorKind::PermissionDenied);

    let err = DaggerError::execution_with_source("c", "m", anyhow::Error::new(broken()));
    assert_eq!(err.message(), DaggerError::execution("c", "m").message());
    match err {
        DaggerError::Execution { source: Some(e), context, .. } => {
            assert_eq!(kind(&e), denied);
            assert!(context.is_empty());
        },
        _ => panic!("Expected execution error"),
    }
    let err = DaggerError::database("op", anyhow::Error::new(broken()));
    assert!(err.is_recoverable());
    assert!(matches!(err, DaggerError::Database { source, .. } if kind(&source) == denied));
    let err = DaggerError::serialization("json", anyhow::Error::new(broken()));
    assert!(!err.is_recoverable());
    assert!(matches!(err, DaggerError::Serialization { source, .. } if kind(&source) == denied));
    let err = DaggerError::io("op", broken());
    assert!(err.is_recoverable());
    assert!(matches!(err, DaggerError::Io { source, .. } if Some(source.kind()) == denied));
    let err = DaggerError::from_io(broken());
    assert_eq!(err.message(), "IO operation failed: io_operation");
}
