use safe_log::{parse_loggers, parse_loggers_from_env, LogLevelFilter, DEFAULT_LOG_LEVEL_FILTER};

#[test]
fn test_parse_loggers() {
    let (level, loggers) = parse_loggers("").unwrap();
    assert_eq!(level, LogLevelFilter::Warn);
    assert!(loggers.is_empty());

    let (level, loggers) = parse_loggers("foo").unwrap();
    assert_eq!(level, LogLevelFilter::Warn);
    assert_eq!(loggers.len(), 1);
    assert_eq!(loggers[0].name(), "foo");
    assert_eq!(loggers[0].level(), LogLevelFilter::Warn);

    let (level, loggers) = parse_loggers("info").unwrap();
    assert_eq!(level, LogLevelFilter::Info);
    assert!(loggers.is_empty());

    let (level, loggers) = parse_loggers("foo::bar=warn").unwrap();
    assert_eq!(level, LogLevelFilter::Warn);
    assert_eq!(loggers.len(), 1);
    assert_eq!(loggers[0].name(), "foo::bar");
    assert_eq!(loggers[0].level(), LogLevelFilter::Warn);

    let (level, loggers) = parse_loggers("foo::bar=error,baz=debug,qux").unwrap();
    assert_eq!(level, LogLevelFilter::Warn);
    assert_eq!(loggers.len(), 3);

    assert_eq!(loggers[0].name(), "foo::bar");
    assert_eq!(loggers[0].level(), LogLevelFilter::Error);

    assert_eq!(loggers[1].name(), "baz");
    assert_eq!(loggers[1].level(), LogLevelFilter::Debug);

    assert_eq!(loggers[2].name(), "qux");
    assert_eq!(loggers[2].level(), LogLevelFilter::Warn);

    let (level, loggers) = parse_loggers("info,foo::bar,baz=debug,a0,a1, a2 , a3").unwrap();
    assert_eq!(level, LogLevelFilter::Info);
    assert_eq!(loggers.len(), 6);

    assert_eq!(loggers[0].name(), "foo::bar");
    assert_eq!(loggers[0].level(), LogLevelFilter::Debug);

    assert_eq!(loggers[1].name(), "baz");
    assert_eq!(loggers[1].level(), LogLevelFilter::Debug);

    assert_eq!(loggers[2].name(), "a0");
    assert_eq!(loggers[2].level(), LogLevelFilter::Info);

    assert_eq!(loggers[3].name(), "a1");
    assert_eq!(loggers[3].level(), LogLevelFilter::Info);

    assert_eq!(loggers[4].name(), "a2");
    assert_eq!(loggers[4].level(), LogLevelFilter::Info);

    assert_eq!(loggers[5].name(), "a3");
    assert_eq!(loggers[5].level(), LogLevelFilter::Info);
}

#[test]
fn default_set_after_bare_names_applies_to_them() {
    let (level, loggers) = parse_loggers("mod0,mod1=debug,mod2,trace").unwrap();
    assert_eq!(level, LogLevelFilter::Trace);
    assert_eq!(loggers.len(), 3);
    assert_eq!(loggers[0].name(), "mod0");
    assert_eq!(loggers[0].level(), LogLevelFilter::Debug);
    assert_eq!(loggers[1].name(), "mod1");
    assert_eq!(loggers[1].level(), LogLevelFilter::Debug);
    assert_eq!(loggers[2].name(), "mod2");
    assert_eq!(loggers[2].level(), LogLevelFilter::Trace);
}

#[test]
fn last_default_wins_and_case_is_ignored() {
    let (level, loggers) = parse_loggers("TRACE, Error").unwrap();
    assert_eq!(level, LogLevelFilter::Error);
    assert!(loggers.is_empty());
    let (level, _) = parse_loggers("off").unwrap();
    assert_eq!(level, LogLevelFilter::Off);
}

#[test]
fn empty_pieces_are_skipped() {
    let (level, loggers) = parse_loggers(" , ,,x=info, ").unwrap();
    assert_eq!(level, LogLevelFilter::Warn);
    assert_eq!(loggers.len(), 1);
    assert_eq!(loggers[0].name(), "x");
    assert_eq!(loggers[0].level(), LogLevelFilter::Info);
}

#[test]
fn bad_level_is_rejected() {
    assert!(parse_loggers("foo=bogus").is_err());
    assert!(parse_loggers("info,foo=").is_err());
    assert!(parse_loggers("a,b,c=nope,d").is_err());
}

#[test]
fn empty_module_name_is_rejected() {
    assert!(parse_loggers("=info").is_err());
}

#[test]
fn level_text_runs_to_the_end() {
    assert!(parse_loggers("a=info=x").is_err());
}

#[test]
fn env_without_directive_gives_default() {
    let (level, loggers) = parse_loggers_from_env(None).unwrap();
    assert_eq!(level, DEFAULT_LOG_LEVEL_FILTER);
    assert_eq!(level, LogLevelFilter::Warn);
    assert!(loggers.is_empty());
    let (level, loggers) = parse_loggers_from_env(Some("debug,x")).unwrap();
    assert_eq!(level, LogLevelFilter::Debug);
    assert_eq!(loggers.len(), 1);
    assert_eq!(loggers[0].level(), LogLevelFilter::Debug);
    assert!(parse_loggers_from_env(Some("x=y")).is_err());
}
