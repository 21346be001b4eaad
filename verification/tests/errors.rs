use cdn_cache::error::CdnError;

#[test]
fn error_messages() {
    assert_eq!(CdnError::CacheError("x".to_string()).message(), "Cache error: x");
    assert_eq!(CdnError::LoadBalancerError("y".to_string()).message(), "Load balancer error: y");
    assert_eq!(CdnError::ConfigError("z".to_string()).message(), "Configuration error: z");
    assert_eq!(
        CdnError::InvalidHeader { expected: "a\"b".to_string(), found: "c".to_string() }.message(),
        "invalid header (expected \"a\\\"b\", found \"c\")"
    );
}

#[test]
fn io_errors_convert_and_display() {
    let io = std::io::Error::new(std::io::ErrorKind::NotFound, "missing file");
    let err: CdnError = CdnError::from(io);
    assert!(matches!(err, CdnError::IoError(_)));
    assert_eq!(err.message(), "IO error: missing file");
}
