use vstd::prelude::*;
use vstd::slice::slice_subrange;
use crate::level::{LogLevelFilter, level_named, level_from_text};
use crate::text::{chars_of, string_of, trim, trimmed, split_on, lemma_split_on_nonempty};

verus! {

/// The threshold in effect when a directive does not set one.
pub const DEFAULT_LOG_LEVEL_FILTER: LogLevelFilter = LogLevelFilter::Warn;

/// A per-module override: records from module `name` are admitted at `level`
/// and more severe.
#[derive(Clone, Debug)]
pub struct Logger {
    pub name: String,
    pub level: LogLevelFilter,
}

impl Logger {
    pub fn name(&self) -> (r: &str)
        ensures
            r@ == self.name@,
    {
        self.name.as_str()
    }

    pub fn level(&self) -> (r: LogLevelFilter)
        ensures
            r == self.level,
    {
        self.level
    }
}

/// A directive string that could not be resolved.
#[derive(Clone, Copy, Debug, PartialEq, Eq, Structural)]
pub struct ParseLoggerError;

/// An override as a pair of module path and threshold.
pub type Override = (Seq<char>, LogLevelFilter);

/// The state of a directive resolution: the default threshold, the overrides
/// emitted so far, and the bare module names still waiting for a level.
pub type Resolution = (LogLevelFilter, Seq<Override>, Seq<Seq<char>>);

pub open spec fn loggers_view(v: Seq<Logger>) -> Seq<Override> {
    v.map_values(|l: Logger| (l.name@, l.level))
}

pub open spec fn names_view(v: Seq<String>) -> Seq<Seq<char>> {
    v.map_values(|s: String| s@)
}

/// Each of `names` paired with `level`, in order.
pub open spec fn with_level(names: Seq<Seq<char>>, level: LogLevelFilter) -> Seq<Override> {
    names.map_values(|n: Seq<char>| (n, level))
}

/// `k` is the position of the first `c` in `t`.
pub open spec fn is_first(t: Seq<char>, c: char, k: int) -> bool {
    &&& 0 <= k < t.len()
    &&& t[k] == c
    &&& forall|j: int| 0 <= j < k ==> t[j] != c
}

/// The effect of one non-empty token on the resolution, or `None` where the
/// token is malformed.
pub open spec fn apply_token(st: Resolution, t: Seq<char>) -> Option<Resolution> {
    if exists|k: int| is_first(t, '=', k) {
        let k = choose|k: int| is_first(t, '=', k);
        let name = t.take(k);
        if name.len() == 0 {
            None
        } else {
            match level_named(t.skip(k + 1)) {
                None => None,
                Some(l) => Some((st.0, st.1 + with_level(st.2, l).push((name, l)), Seq::empty())),
            }
        }
    } else {
        match level_named(t) {
            Some(l) => Some((l, st.1, st.2)),
            None => Some((st.0, st.1, st.2.push(t))),
        }
    }
}

/// The resolution after the comma-separated pieces `pieces`, each trimmed,
/// the empty ones skipped.
pub open spec fn run_pieces(pieces: Seq<Seq<char>>) -> Option<Resolution>
    decreases pieces.len(),
{
    if pieces.len() == 0 {
        Some((DEFAULT_LOG_LEVEL_FILTER, Seq::empty(), Seq::empty()))
    } else {
        let prev = run_pieces(pieces.drop_last());
        let t = trimmed(pieces.last());
        if t.len() == 0 {
            prev
        } else {
            match prev {
                None => None,
                Some(st) => apply_token(st, t),
            }
        }
    }
}

/// The directive table that `input` denotes: its default threshold and its
/// overrides, where the bare names left waiting take the final default.
pub open spec fn parsed(input: Seq<char>) -> Option<(LogLevelFilter, Seq<Override>)> {
    match run_pieces(split_on(input, ',')) {
        None => None,
        Some(st) => Some((st.0, st.1 + with_level(st.2, st.0))),
    }
}

/// Appends each waiting name to `loggers` at `level`, in order, and empties the queue.
fn flush(grouped: &mut Vec<String>, level: LogLevelFilter, loggers: &mut Vec<Logger>)
    ensures
        loggers_view(final(loggers)@) == loggers_view(old(loggers)@) + with_level(
            names_view(old(grouped)@),
            level,
        ),
        final(grouped)@.len() == 0,
{
    let ghost start = loggers_view(loggers@);
    let mut j: usize = 0;
    while j < grouped.len()
        invariant
            j <= grouped@.len(),
            grouped@ == old(grouped)@,
            loggers_view(loggers@) == start + with_level(
                names_view(grouped@.take(j as int)),
                level,
            ),
        decreases grouped@.len() - j,
    {
        let name = grouped[j].clone();
        let ghost prev = loggers@;
        loggers.push(Logger { name, level });
        assert(names_view(grouped@.take(j + 1)) =~= names_view(grouped@.take(j as int)).push(
            grouped@[j as int]@,
        ));
        assert(with_level(names_view(grouped@.take(j + 1)), level) =~= with_level(
            names_view(grouped@.take(j as int)),
            level,
        ).push((grouped@[j as int]@, level)));
        assert(loggers_view(loggers@) =~= loggers_view(prev).push((grouped@[j as int]@, level)));
        j = j + 1;
    }
    assert(grouped@.take(j as int) =~= grouped@);
    grouped.clear();
}

pub open spec fn resolution_of(
    default_level: LogLevelFilter,
    loggers: Seq<Logger>,
    grouped: Seq<String>,
) -> Resolution {
    (default_level, loggers_view(loggers), names_view(grouped))
}

/// Applies the piece `piece` of a directive string to the resolution held in
/// `default_level`, `loggers` and `grouped`; false where it is malformed.
fn apply_piece(
    piece: &[char],
    default_level: &mut LogLevelFilter,
    loggers: &mut Vec<Logger>,
    grouped: &mut Vec<String>,
) -> (ok: bool)
    ensures
        trimmed(piece@).len() == 0 ==> ok && resolution_of(
            *final(default_level),
            final(loggers)@,
            final(grouped)@,
        ) == resolution_of(*old(default_level), old(loggers)@, old(grouped)@),
        trimmed(piece@).len() > 0 ==> match apply_token(
            resolution_of(*old(default_level), old(loggers)@, old(grouped)@),
            trimmed(piece@),
        ) {
            None => !ok,
            Some(st) => ok && resolution_of(*final(default_level), final(loggers)@, final(grouped)@)
                == st,
        },
{
    let t = trim(piece);
    if t.len() == 0 {
        return true;
    }
    let ghost before = resolution_of(*default_level, loggers@, grouped@);
    let mut k: usize = 0;
    while k < t.len() && t[k] != '='
        invariant
            k <= t@.len(),
            forall|j: int| 0 <= j < k ==> t@[j] != '=',
        decreases t@.len() - k,
    {
        k = k + 1;
    }
    if k < t.len() {
        assert(is_first(t@, '=', k as int));
        assert forall|k2: int| is_first(t@, '=', k2) implies k2 == k by {
            if k2 < k {
                assert(t@[k2] != '=');
            } else if k2 > k {
                assert(t@[k as int] != '=');
            }
        }
        if k == 0 {
            return false;
        }
        let level_text = string_of(slice_subrange(t.as_slice(), k + 1, t.len()));
        assert(level_text@ =~= t@.skip(k + 1));
        match level_from_text(level_text.as_str()) {
            None => false,
            Some(level) => {
                let name = string_of(slice_subrange(t.as_slice(), 0, k));
                assert(name@ =~= t@.take(k as int));
                flush(grouped, level, loggers);
                let ghost prev = loggers@;
                loggers.push(Logger { name, level });
                assert(loggers_view(loggers@) =~= loggers_view(prev).push((name@, level)));
                assert(names_view(grouped@) =~= Seq::<Seq<char>>::empty());
                true
            },
        }
    } else {
        assert(!exists|k2: int| is_first(t@, '=', k2));
        let word = string_of(t.as_slice());
        match level_from_text(word.as_str()) {
            Some(level) => {
                *default_level = level;
                true
            },
            None => {
                let ghost prev = grouped@;
                grouped.push(word);
                assert(names_view(grouped@) =~= names_view(prev).push(t@));
                true
            },
        }
    }
}

/// Resolves a directive string such as `info,foo::bar,baz=debug,a0` into
/// the default threshold and the ordered per-module overrides.
pub fn parse_loggers(input: &str) -> (r: Result<(LogLevelFilter, Vec<Logger>), ParseLoggerError>)
    ensures
        parsed(input@) is None <==> r is Err,
        parsed(input@) matches Some(p) ==> (r matches Ok(v) && v.0 == p.0 && loggers_view(v.1@)
            == p.1),
{
    let chars = chars_of(input);
    let mut default_level = DEFAULT_LOG_LEVEL_FILTER;
    let mut loggers: Vec<Logger> = Vec::new();
    let mut grouped: Vec<String> = Vec::new();
    let mut piece: Vec<char> = Vec::new();
    let ghost mut done: Seq<Seq<char>> = Seq::empty();
    assert(chars@.take(0) =~= Seq::<char>::empty());
    assert(loggers_view(loggers@) =~= Seq::<Override>::empty());
    assert(names_view(grouped@) =~= Seq::<Seq<char>>::empty());
    let mut failed = false;
    let mut i: usize = 0;
    while i < chars.len()
        invariant
            i <= chars@.len(),
            split_on(chars@.take(i as int), ',') == done.push(piece@),
            failed ==> run_pieces(done) is None,
            !failed ==> run_pieces(done) == Some(resolution_of(default_level, loggers@, grouped@)),
        decreases chars@.len() - i,
    {
        let c = chars[i];
        let ghost pre = chars@.take(i + 1);
        assert(pre.drop_last() =~= chars@.take(i as int));
        proof {
            lemma_split_on_nonempty(chars@.take(i as int), ',');
        }
        if c == ',' {
            assert(done.push(piece@).drop_last() =~= done);
            if !failed {
                failed = !apply_piece(
                    piece.as_slice(),
                    &mut default_level,
                    &mut loggers,
                    &mut grouped,
                );
            }
            proof {
                done = done.push(piece@);
            }
            piece = Vec::new();
        } else {
            let ghost old_piece = piece@;
            piece.push(c);
            assert(done.push(old_piece).update(done.len() as int, old_piece.push(c)) =~= done.push(
                piece@,
            ));
        }
        i = i + 1;
    }
    assert(chars@.take(chars@.len() as int) =~= chars@);
    assert(done.push(piece@).drop_last() =~= done);
    if failed || !apply_piece(piece.as_slice(), &mut default_level, &mut loggers, &mut grouped) {
        return Err(ParseLoggerError);
    }
    let level = default_level;
    flush(&mut grouped, level, &mut loggers);
    Ok((default_level, loggers))
}

/// Resolves the directive held in the environment, where there is one
/// (`var` is its value); without one, the default threshold and no override.
pub fn parse_loggers_from_env(var: Option<&str>) -> (r: Result<
    (LogLevelFilter, Vec<Logger>),
    ParseLoggerError,
>)
    ensures
        var is None ==> (r matches Ok(v) && v.0 == DEFAULT_LOG_LEVEL_FILTER && v.1@.len() == 0),
        var matches Some(s) ==> (parsed(s@) is None <==> r is Err),
        var matches Some(s) ==> (parsed(s@) matches Some(p) ==> (r matches Ok(v) && v.0 == p.0
            && loggers_view(v.1@) == p.1)),
{
    match var {
        Some(s) => parse_loggers(s),
        None => Ok((DEFAULT_LOG_LEVEL_FILTER, Vec::new())),
    }
}

} // verus!
