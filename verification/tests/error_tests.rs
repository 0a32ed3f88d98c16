use mercury::error::{IoFailure, MercuryError};

#[test]
fn test_error_display() {
    let err = MercuryError::ConnectionFailed("refused".to_string());
    assert_eq!(err.to_string(), "Connection failed: refused");
}

#[test]
fn test_already_exists_display() {
    let err = MercuryError::AlreadyExists {
        kind: "File".to_string(),
        name: "test.json".to_string(),
    };
    assert_eq!(err.to_string(), "File already exists: test.json");
}

#[test]
fn test_user_message() {
    let err = MercuryError::Timeout(30000);
    assert!(err.user_message().contains("took too long"));
}

#[test]
fn test_is_recoverable() {
    assert!(MercuryError::Timeout(1000).is_recoverable());
    assert!(MercuryError::ConnectionFailed("test".to_string()).is_recoverable());
    assert!(!MercuryError::FileNotFound("test".to_string()).is_recoverable());
}

#[test]
fn test_from_io_error() {
    let io_err = std::io::Error::new(std::io::ErrorKind::NotFound, "file missing");
    let mercury_err: MercuryError = io_err.into();
    assert!(matches!(mercury_err, MercuryError::FileNotFound(_)));
}

#[test]
fn test_from_json_error() {
    let json_str = "{ invalid }";
    let json_err = serde_json::from_str::<serde_json::Value>(json_str).unwrap_err();
    let mercury_err: MercuryError = json_err.into();
    assert!(matches!(mercury_err, MercuryError::JsonError(_)));
}

#[test]
fn test_file_error_display() {
    let err = MercuryError::FileRead {
        path: "/tmp/test.json".to_string(),
        reason: "not found".to_string(),
    };
    assert_eq!(err.to_string(), "Failed to read file '/tmp/test.json': not found");
}

#[test]
fn messages_of_other_variants() {
    assert_eq!(MercuryError::Timeout(1500).to_string(), "Request timed out after 1500ms");
    assert_eq!(MercuryError::NoWorkspace.to_string(), "No workspace loaded");
    assert_eq!(
        MercuryError::RenameFailed {
            from: "a".to_string(),
            to: "b".to_string(),
            reason: "busy".to_string()
        }
        .to_string(),
        "Failed to rename 'a' to 'b': busy"
    );
    assert_eq!(
        MercuryError::NoWorkspace.user_message(),
        "No workspace is open. Create or open a workspace first."
    );
}

#[test]
fn io_and_request_failures_map_to_variants() {
    let e = MercuryError::from_io_parts(IoFailure::PermissionDenied, "x".to_string());
    assert_eq!(e.to_string(), "Failed to read file '': Permission denied");
    let e = MercuryError::from_io_parts(IoFailure::Other, "disk".to_string());
    assert_eq!(e.to_string(), "Failed to read file '': disk");
    assert!(matches!(
        MercuryError::from_request_failure("t".to_string(), true, true, false),
        MercuryError::Timeout(30000)
    ));
    assert!(matches!(
        MercuryError::from_request_failure("u".to_string(), false, false, true),
        MercuryError::InvalidUrl(_)
    ));
    let denied = std::io::Error::new(std::io::ErrorKind::PermissionDenied, "no");
    let e: MercuryError = denied.into();
    assert_eq!(e.to_string(), "Failed to read file '': Permission denied");
}
