use ehttpd::bytes::data::Data;
use ehttpd::error::{kind_message, Error, ErrorKind};
use ehttpd::log::{level, set_level, Logger, DEBUG, ERROR, INFO, WARN};

/// The threshold gates messages: everything at or above it passes.
#[test]
fn logger_threshold() {
    let mut logger = Logger::new(INFO);
    assert_eq!(level(&logger), INFO);
    assert!(!logger.enabled(DEBUG));
    assert!(logger.enabled(INFO));
    assert!(logger.enabled(WARN));
    set_level(&mut logger, ERROR);
    assert_eq!(level(&logger), ERROR);
    assert!(!logger.enabled(WARN));
    assert!(logger.enabled(ERROR));
}

/// The default threshold admits warnings.
#[test]
fn logger_default() {
    let logger = Logger::default();
    assert_eq!(level(&logger), WARN);
}

/// An ad-hoc error carries its description and cause, and never captures
/// a backtrace.
#[test]
fn error_new() {
    let error = Error::new("boom".to_string(), Some("io".to_string()));
    assert_eq!(error.kind, ErrorKind::Other);
    assert_eq!(error.error, "boom");
    assert_eq!(error.source, Some("io".to_string()));
    assert!(!error.has_backtrace());
}

/// A kinded error carries its canonical description and the offending
/// bytes.
#[test]
fn error_with_kind() {
    let error = Error::with_kind(ErrorKind::Congested, Data::Static(b"ctx"));
    assert_eq!(error.kind, ErrorKind::Congested);
    assert_eq!(error.error, "Threadpool is congested");
    assert_eq!(error.detail.to_vec(), b"ctx".to_vec());
    assert!(error.source.is_none());
    assert_eq!(kind_message(ErrorKind::HeaderTooLarge), "HTTP header is too large");
}
