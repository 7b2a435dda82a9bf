use psy::protocol::{ErrorCode, Response};
#[test]
fn classify_already_running() {
    assert_eq!(
        ErrorCode::classify_message("process 'foo' is already running"),
        ErrorCode::AlreadyExists
    );
}

#[test]
fn classify_not_found() {
    assert_eq!(
        ErrorCode::classify_message("process 'bar' not found"),
        ErrorCode::NotFound
    );
}

#[test]
fn classify_not_running() {
    assert_eq!(
        ErrorCode::classify_message("process 'baz' is not running"),
        ErrorCode::NotRunning
    );
}

#[test]
fn classify_spawn_failed() {
    assert_eq!(
        ErrorCode::classify_message("spawn failed: ENOENT"),
        ErrorCode::SpawnFailed
    );
    assert_eq!(
        ErrorCode::classify_message("spawn 'name' failed: blah"),
        ErrorCode::SpawnFailed
    );
}

#[test]
fn classify_port_allocation() {
    assert_eq!(
        ErrorCode::classify_message("failed to allocate port 'http': bind failure"),
        ErrorCode::PortAllocationFailed
    );
}

#[test]
fn classify_shutting_down() {
    assert_eq!(
        ErrorCode::classify_message("server is shutting down"),
        ErrorCode::ShuttingDown
    );
}

#[test]
fn classify_psyfile_error() {
    assert_eq!(
        ErrorCode::classify_message("Psyfile error: invalid TOML"),
        ErrorCode::PsyfileError
    );
    assert_eq!(
        ErrorCode::classify_message("circular dependency: a → b → a"),
        ErrorCode::PsyfileError
    );
}

#[test]
fn classify_subroot_unauthorized() {
    assert_eq!(
        ErrorCode::classify_message(
            "sub-root pid 1234 is not a descendant of parent psy pid 5678"
        ),
        ErrorCode::SubrootUnauthorized
    );
}

#[test]
fn classify_invalid_args() {
    assert_eq!(
        ErrorCode::classify_message("invalid or missing run args"),
        ErrorCode::InvalidArgs
    );
    assert_eq!(
        ErrorCode::classify_message("cannot stop the main process (use 'down' instead)"),
        ErrorCode::InvalidArgs
    );
}

#[test]
fn classify_unknown_falls_back_to_other() {
    assert_eq!(
        ErrorCode::classify_message("something completely unexpected"),
        ErrorCode::Other
    );
}

#[test]
fn err_constructor_sets_code() {
    let r = Response::err("rid", "process 'x' is already running");
    assert_eq!(r.error_code, Some(ErrorCode::AlreadyExists));
    assert_eq!(r.error.as_deref(), Some("process 'x' is already running"));
}

#[test]
fn err_code_constructor_locks_explicit_code() {
    let r = Response::err_code("rid", ErrorCode::Other, "anything");
    assert_eq!(r.error_code, Some(ErrorCode::Other));
}
