use diary_cli::logger::{
    error_kind, vital_kind, DynamicLogger, ErrorResponse, LogType, Quiet, Verbose, RETRIES,
    RETRY_PAUSE,
};

#[test]
fn failure_is_retried_twice() {
    let mut logger = Verbose::new();
    assert_eq!(logger.retry_count, 2);
    assert_eq!(logger.error(false, true), ErrorResponse::Retry);
    assert_eq!(logger.error(false, true), ErrorResponse::Retry);
    assert_eq!(logger.error(false, true), ErrorResponse::Crash);
    assert_eq!(logger.error(false, true), ErrorResponse::Crash);
    assert_eq!(RETRIES, 2);
    assert_eq!(RETRY_PAUSE, 800);
}

#[test]
fn progress_restores_the_tries() {
    let mut logger = Quiet::new();
    assert_eq!(logger.error(false, true), ErrorResponse::Retry);
    assert_eq!(logger.error(false, true), ErrorResponse::Retry);
    logger.verbose();
    assert_eq!(logger.retry_count, 2);
    assert_eq!(logger.error(false, true), ErrorResponse::Retry);
    assert_eq!(logger.hollow().retry_count, 2);
    assert_eq!(logger.retry_count, 1);
}

#[test]
fn answer_goes_by_what_is_allowed() {
    let mut logger = Verbose::new();
    assert_eq!(logger.error(true, true), ErrorResponse::AskUser);
    assert_eq!(logger.retry_count, 2);
    assert_eq!(logger.error(false, false), ErrorResponse::Crash);
    assert_eq!(logger.retry_count, 2);
}

#[test]
fn dynamic_logger_is_of_one_kind() {
    let mut loud = DynamicLogger::new(true);
    assert!(loud.verbose.is_some() && loud.quiet.is_none() && loud.shows_all());
    let mut quiet = DynamicLogger::new(false);
    assert!(quiet.verbose.is_none() && quiet.quiet.is_some() && !quiet.shows_all());
    assert_eq!(quiet.error(false, true), ErrorResponse::Retry);
    assert_eq!(quiet.quiet, Some(Quiet { retry_count: 1 }));
    assert_eq!(quiet.error(false, true), ErrorResponse::Retry);
    assert_eq!(quiet.error(false, true), ErrorResponse::Crash);
    quiet.verbose();
    assert_eq!(quiet, DynamicLogger::new(false));
    assert_eq!(quiet.hollow(), DynamicLogger::new(false));
    assert_eq!(loud.error(true, false), ErrorResponse::AskUser);
    assert_eq!(loud.hollow(), DynamicLogger::new(true));
}

#[test]
fn log_kinds_are_errors_or_vital() {
    assert!(error_kind(LogType::Failure) && error_kind(LogType::Fatal));
    assert!(!error_kind(LogType::Warning) && !error_kind(LogType::Log));
    assert!(vital_kind(LogType::Warning) && vital_kind(LogType::Inconvenience));
    assert!(vital_kind(LogType::Result) && vital_kind(LogType::Log));
    assert!(!vital_kind(LogType::Failure) && !vital_kind(LogType::Fatal));
}
