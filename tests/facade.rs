use safe_log::{begin_init, sinks_for, Destination, InitError, InitGuard, LogLevelFilter, SinkKind};

#[test]
fn second_attempt_is_refused() {
    let mut g = InitGuard::new();
    assert!(!g.is_initialised());
    assert_eq!(g.try_begin(), Ok(()));
    assert!(g.is_initialised());
    assert_eq!(g.try_begin(), Err(InitError::AlreadyInitialised));
    assert_eq!(g.try_begin(), Err(InitError::AlreadyInitialised));
}

#[test]
fn begin_init_resolves_then_refuses() {
    let mut g = InitGuard::new();
    let (level, loggers) = begin_init(&mut g, Some("info,foo")).unwrap();
    assert_eq!(level, LogLevelFilter::Info);
    assert_eq!(loggers.len(), 1);
    assert_eq!(loggers[0].name(), "foo");
    assert_eq!(begin_init(&mut g, None).unwrap_err(), InitError::AlreadyInitialised);
    assert_eq!(begin_init(&mut g, Some("info")).unwrap_err(), InitError::AlreadyInitialised);
}

#[test]
fn failed_first_attempt_still_claims_the_guard() {
    let mut g = InitGuard::new();
    assert_eq!(begin_init(&mut g, Some("a=b")).unwrap_err(), InitError::InvalidDirective);
    assert_eq!(begin_init(&mut g, None).unwrap_err(), InitError::AlreadyInitialised);
}

#[test]
fn default_without_environment() {
    let mut g = InitGuard::new();
    let (level, loggers) = begin_init(&mut g, None).unwrap();
    assert_eq!(level, LogLevelFilter::Warn);
    assert!(loggers.is_empty());
}

#[test]
fn error_messages() {
    assert_eq!(InitError::AlreadyInitialised.message(), "Logger already initialised");
    assert_eq!(InitError::InvalidDirective.message(), "ParseLoggerError");
}

#[test]
fn sinks_per_configuration() {
    assert_eq!(sinks_for(Destination::Console), vec![SinkKind::Console]);
    assert_eq!(sinks_for(Destination::ConsoleAndFile), vec![SinkKind::Console, SinkKind::File]);
    assert_eq!(sinks_for(Destination::FileAsync { log_to_console: false }), vec![SinkKind::File]);
    assert_eq!(
        sinks_for(Destination::FileAsync { log_to_console: true }),
        vec![SinkKind::File, SinkKind::Console]
    );
    assert_eq!(
        sinks_for(Destination::ServerAsync { log_to_console: true }),
        vec![SinkKind::Server, SinkKind::Console]
    );
    assert_eq!(sinks_for(Destination::ServerAsync { log_to_console: false }), vec![SinkKind::Server]);
}
