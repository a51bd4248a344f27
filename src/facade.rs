use vstd::prelude::*;
use crate::level::LogLevelFilter;
use crate::directive::{Logger, parse_loggers_from_env, parsed, loggers_view, DEFAULT_LOG_LEVEL_FILTER};

verus! {

/// Why an initialisation of the process-wide logger did not go ahead.
#[derive(Clone, Copy, Debug, PartialEq, Eq, Structural)]
pub enum InitError {
    /// An earlier initialisation already ran.
    AlreadyInitialised,
    /// The directive string could not be resolved.
    InvalidDirective,
}

impl InitError {
    /// The text reported to the caller.
    pub fn message(&self) -> (r: String)
        ensures
            *self is AlreadyInitialised ==> r@ == "Logger already initialised"@,
            *self is InvalidDirective ==> r@ == "ParseLoggerError"@,
    {
        match self {
            InitError::AlreadyInitialised => "Logger already initialised".to_owned(),
            InitError::InvalidDirective => "ParseLoggerError".to_owned(),
        }
    }
}

/// The outcome of an initialisation attempt on a guard in state `initialised`.
pub open spec fn begin_result(initialised: bool) -> Result<(), InitError> {
    if initialised {
        Err(InitError::AlreadyInitialised)
    } else {
        Ok(())
    }
}

/// The process-wide "initialise at most once" flag. The first attempt goes
/// ahead, whatever becomes of it; every later one is refused.
pub struct InitGuard {
    done: bool,
}

impl InitGuard {
    pub closed spec fn initialised(&self) -> bool {
        self.done
    }

    pub fn new() -> (r: InitGuard)
        ensures
            !r.initialised(),
    {
        InitGuard { done: false }
    }

    pub fn is_initialised(&self) -> (r: bool)
        ensures
            r == self.initialised(),
    {
        self.done
    }

    pub fn try_begin(&mut self) -> (r: Result<(), InitError>)
        ensures
            r == begin_result(old(self).initialised()),
            final(self).initialised(),
    {
        if self.done {
            Err(InitError::AlreadyInitialised)
        } else {
            self.done = true;
            Ok(())
        }
    }
}

/// Over any run of attempts on one guard, each as `try_begin` ensures
/// (`states[k]` before attempt `k`, `results[k]` its outcome), no attempt
/// after a successful one succeeds: each of them is refused as already
/// initialised.
pub proof fn lemma_init_once(states: Seq<bool>, results: Seq<Result<(), InitError>>)
    requires
        states.len() == results.len() + 1,
        forall|k: int|
            0 <= k < results.len() ==> #[trigger] results[k] == begin_result(states[k])
                && states[k + 1],
    ensures
        forall|j: int, k: int|
            0 <= j < k < results.len() && results[j] is Ok ==> results[k] == Err::<(), InitError>(
                InitError::AlreadyInitialised,
            ),
{
    assert forall|j: int, k: int|
        0 <= j < k < results.len() && results[j] is Ok implies results[k] == Err::<(), InitError>(
            InitError::AlreadyInitialised,
        ) by {
        assert(results[k - 1] == begin_result(states[k - 1]) && states[k]);
        assert(results[k] == begin_result(states[k]));
    }
}

/// The first step of every initialiser: claim the guard, then resolve the
/// directive found in the environment (`env`), or the default without one.
pub fn begin_init(guard: &mut InitGuard, env: Option<&str>) -> (r: Result<
    (LogLevelFilter, Vec<Logger>),
    InitError,
>)
    ensures
        final(guard).initialised(),
        old(guard).initialised() ==> r == Err::<(LogLevelFilter, Vec<Logger>), InitError>(
            InitError::AlreadyInitialised,
        ),
        !old(guard).initialised() && env is None ==> (r matches Ok(v) && v.0
            == DEFAULT_LOG_LEVEL_FILTER && v.1@.len() == 0),
        !old(guard).initialised() ==> (env matches Some(s) ==> (parsed(s@) is None ==> r == Err::<
            (LogLevelFilter, Vec<Logger>),
            InitError,
        >(InitError::InvalidDirective))),
        !old(guard).initialised() ==> (env matches Some(s) ==> (parsed(s@) matches Some(p) ==> (
        r matches Ok(v) && v.0 == p.0 && loggers_view(v.1@) == p.1))),
{
    if let Err(e) = guard.try_begin() {
        return Err(e);
    }
    match parse_loggers_from_env(env) {
        Ok(v) => Ok(v),
        Err(_) => Err(InitError::InvalidDirective),
    }
}

/// A destination that records are written to.
#[derive(Clone, Copy, Debug, PartialEq, Eq, Structural)]
pub enum SinkKind {
    Console,
    File,
    Server,
}

/// The configurations that the facade offers.
#[derive(Clone, Copy, Debug, PartialEq, Eq, Structural)]
pub enum Destination {
    /// The console alone.
    Console,
    /// The console and a file, written synchronously.
    ConsoleAndFile,
    /// A file, and the console where asked, written asynchronously.
    FileAsync { log_to_console: bool },
    /// A remote collector, and the console where asked, written asynchronously.
    ServerAsync { log_to_console: bool },
}

/// The sinks that a configuration attaches, in the order they are attached.
pub open spec fn planned(d: Destination) -> Seq<SinkKind> {
    match d {
        Destination::Console => seq![SinkKind::Console],
        Destination::ConsoleAndFile => seq![SinkKind::Console, SinkKind::File],
        Destination::FileAsync { log_to_console } => if log_to_console {
            seq![SinkKind::File, SinkKind::Console]
        } else {
            seq![SinkKind::File]
        },
        Destination::ServerAsync { log_to_console } => if log_to_console {
            seq![SinkKind::Server, SinkKind::Console]
        } else {
            seq![SinkKind::Server]
        },
    }
}

pub fn sinks_for(d: Destination) -> (r: Vec<SinkKind>)
    ensures
        r@ == planned(d),
{
    let mut r: Vec<SinkKind> = Vec::new();
    match d {
        Destination::Console => {
            r.push(SinkKind::Console);
        },
        Destination::ConsoleAndFile => {
            r.push(SinkKind::Console);
            r.push(SinkKind::File);
        },
        Destination::FileAsync { log_to_console } => {
            r.push(SinkKind::File);
            if log_to_console {
                r.push(SinkKind::Console);
            }
        },
        Destination::ServerAsync { log_to_console } => {
            r.push(SinkKind::Server);
            if log_to_console {
                r.push(SinkKind::Console);
            }
        },
    }
    assert(r@ =~= planned(d));
    r
}

} // verus!
