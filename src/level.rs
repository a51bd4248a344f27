use vstd::prelude::*;

verus! {

/// Severity threshold, from the most restrictive (`Off`) to the most
/// permissive (`Trace`).
#[derive(Clone, Copy, Debug, PartialEq, Eq, Structural)]
pub enum LogLevelFilter {
    Off,
    Error,
    Warn,
    Info,
    Debug,
    Trace,
}

/// `c` is the lower-case ASCII letter `lower`, written in either case.
pub open spec fn same_letter(c: char, lower: char) -> bool {
    c == lower || ('A' <= c && c <= 'Z' && (c as int) + 32 == lower as int)
}

/// `s` spells `name` (given in lower case), ignoring ASCII case.
pub open spec fn spells(s: Seq<char>, name: Seq<char>) -> bool {
    &&& s.len() == name.len()
    &&& forall|i: int| 0 <= i < s.len() ==> #[trigger] same_letter(s[i], name[i])
}

/// The threshold that a level name denotes, if `s` is one.
pub open spec fn level_named(s: Seq<char>) -> Option<LogLevelFilter> {
    if spells(s, seq!['o', 'f', 'f']) {
        Some(LogLevelFilter::Off)
    } else if spells(s, seq!['e', 'r', 'r', 'o', 'r']) {
        Some(LogLevelFilter::Error)
    } else if spells(s, seq!['w', 'a', 'r', 'n']) {
        Some(LogLevelFilter::Warn)
    } else if spells(s, seq!['i', 'n', 'f', 'o']) {
        Some(LogLevelFilter::Info)
    } else if spells(s, seq!['d', 'e', 'b', 'u', 'g']) {
        Some(LogLevelFilter::Debug)
    } else if spells(s, seq!['t', 'r', 'a', 'c', 'e']) {
        Some(LogLevelFilter::Trace)
    } else {
        None
    }
}

/// Relies on `<log::LevelFilter as FromStr>::from_str`, which accepts exactly
/// the names "OFF", "ERROR", "WARN", "INFO", "DEBUG" and "TRACE", compared
/// with `eq_ignore_ascii_case`.
#[verifier::external_body]
pub(crate) fn level_from_text(s: &str) -> (r: Option<LogLevelFilter>)
    ensures
        r == level_named(s@),
{
    match s.parse::<log::LevelFilter>() {
        Ok(log::LevelFilter::Off) => Some(LogLevelFilter::Off),
        Ok(log::LevelFilter::Error) => Some(LogLevelFilter::Error),
        Ok(log::LevelFilter::Warn) => Some(LogLevelFilter::Warn),
        Ok(log::LevelFilter::Info) => Some(LogLevelFilter::Info),
        Ok(log::LevelFilter::Debug) => Some(LogLevelFilter::Debug),
        Ok(log::LevelFilter::Trace) => Some(LogLevelFilter::Trace),
        Err(_) => None,
    }
}

} // verus!
