use grep_cli::failure::AppError;

#[test]
fn uses_conventional_error_exit_codes() {
    assert_eq!(AppError::Usage("bad arguments".into()).exit_code(), 2);
    assert_eq!(AppError::Runtime("network failure".into()).exit_code(), 1);
}

#[test]
fn keeps_the_message_of_each_failure() {
    assert_eq!(AppError::Usage("bad arguments".into()).message(), "bad arguments");
    assert_eq!(AppError::Runtime("network failure".into()).message(), "network failure");
}
