use madsterm::validate::{validate_cwd, validate_dimensions, validate_session_id, PathStatus};

#[test]
fn test_validate_session_id_valid() {
    let id = uuid::Uuid::new_v4().to_string();
    assert!(validate_session_id(&id).is_ok());
}

#[test]
fn test_validate_session_id_invalid() {
    assert!(validate_session_id("not-a-uuid").is_err());
    assert!(validate_session_id("").is_err());
    assert!(validate_session_id("12345").is_err());
}

#[test]
fn test_validate_dimensions_valid() {
    assert!(validate_dimensions(80, 24).is_ok());
    assert!(validate_dimensions(1, 1).is_ok());
    assert!(validate_dimensions(500, 500).is_ok());
}

#[test]
fn test_validate_dimensions_invalid() {
    assert!(validate_dimensions(0, 24).is_err());
    assert!(validate_dimensions(80, 0).is_err());
    assert!(validate_dimensions(501, 24).is_err());
    assert!(validate_dimensions(80, 501).is_err());
}

#[test]
fn test_validate_dimensions_messages() {
    assert_eq!(
        validate_dimensions(0, 24).unwrap_err(),
        "Invalid cols value: 0 (must be 1-500)"
    );
    assert_eq!(
        validate_dimensions(501, 24).unwrap_err(),
        "Invalid cols value: 501 (must be 1-500)"
    );
    assert_eq!(
        validate_dimensions(80, 501).unwrap_err(),
        "Invalid rows value: 501 (must be 1-500)"
    );
}

#[test]
fn test_validate_cwd_nonexistent() {
    assert!(validate_cwd("/nonexistent/path/that/doesnt/exist", PathStatus::Missing).is_err());
}

#[test]
fn test_validate_cwd_relative() {
    assert!(validate_cwd("relative/path", PathStatus::Missing).is_err());
}

#[test]
fn test_validate_cwd_directory() {
    assert!(validate_cwd("/tmp", PathStatus::Directory).is_ok());
    assert_eq!(
        validate_cwd("/tmp/nothing-here", PathStatus::Missing).unwrap_err(),
        "CWD path does not exist: /tmp/nothing-here"
    );
    assert_eq!(
        validate_cwd("/tmp/a-file", PathStatus::NotDirectory).unwrap_err(),
        "CWD is not a directory: /tmp/a-file"
    );
    assert_eq!(
        validate_cwd("", PathStatus::Directory).unwrap_err(),
        "CWD must be an absolute path"
    );
}

#[test]
fn test_u16_rendering() {
    assert_eq!(madsterm::numfmt::u16_dec(0), "0");
    assert_eq!(madsterm::numfmt::u16_dec(7), "7");
    assert_eq!(madsterm::numfmt::u16_dec(42), "42");
    assert_eq!(madsterm::numfmt::u16_dec(500), "500");
    assert_eq!(madsterm::numfmt::u16_dec(65535), "65535");
}
