use madsterm::error::AppError;

#[test]
fn test_display_io_error() {
    let err = AppError::Io("disk full".to_string());
    assert_eq!(err.message(), "disk full");
}

#[test]
fn test_display_git_error() {
    let err = AppError::Git("not a repo".to_string());
    assert_eq!(err.message(), "not a repo");
}

#[test]
fn test_display_pty_error() {
    let err = AppError::Pty("spawn failed".to_string());
    assert_eq!(err.message(), "spawn failed");
}

#[test]
fn test_display_invalid_input() {
    let err = AppError::InvalidInput("bad data".to_string());
    assert_eq!(err.message(), "bad data");
}

#[test]
fn test_display_not_found() {
    let err = AppError::NotFound("missing".to_string());
    assert_eq!(err.message(), "missing");
}

#[test]
fn test_debug_format() {
    let err = AppError::Io("test".to_string());
    let debug_str = format!("{:?}", err);
    assert!(debug_str.contains("Io"));
    assert!(debug_str.contains("test"));
}
