use rem::error::{RemError, RemErrorKind, REM_00003, REM_00005};

#[test]
fn with_reason_keeps_the_reason() {
    let err = RemError::with_reason(String::from("something broke"));
    assert_eq!(err.kind, RemErrorKind::IoFailure);
    assert_eq!(err.description(), "something broke");
}

#[test]
fn with_reason_str_keeps_the_reason() {
    let err = RemError::with_reason_str(REM_00003);
    assert_eq!(err.kind, RemErrorKind::IoFailure);
    assert_eq!(err.description(), REM_00003);
}

#[test]
fn storage_unavailable_kind() {
    let err = RemError::storage_unavailable("cache directory denied");
    assert_eq!(err.kind, RemErrorKind::StorageUnavailable);
}

#[test]
fn invalid_framing_kind() {
    let err = RemError::invalid_framing("bad prefix");
    assert_eq!(err.kind, RemErrorKind::InvalidFraming);
    assert_eq!(err.description(), "bad prefix");
}

#[test]
fn invalid_command_carries_the_character() {
    let err = RemError::invalid_command('Z');
    assert_eq!(err.kind, RemErrorKind::InvalidCommand('Z'));
    assert_eq!(err.description(), "Invalid cache command Z");
}

#[test]
fn key_not_found_uses_the_catalog_message() {
    let err = RemError::key_not_found();
    assert_eq!(err.kind, RemErrorKind::KeyNotFound);
    assert_eq!(err.description(), REM_00005);
}
