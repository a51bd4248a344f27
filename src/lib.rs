//! Leveled logging support: a directive parser that resolves per-module
//! verbosity, a self-delimiting record framing for stream sinks with its
//! reassembler, the bounded FIFO state machine behind each asynchronous sink,
//! and the one-time initialisation rule of the process-wide facade.

mod level;
mod text;
mod directive;
mod frame;
mod sink;
mod facade;

pub use level::{LogLevelFilter, level_named, spells, same_letter};
pub use text::{white_space, trimmed, trim_start, trim_end, split_on};
pub use directive::{
    DEFAULT_LOG_LEVEL_FILTER, Logger, Override, ParseLoggerError, Resolution, apply_token,
    is_first, loggers_view, names_view, parse_loggers, parse_loggers_from_env, parsed,
    run_pieces, with_level,
};
pub use frame::{
    Reassembler, TERM_0, TERM_1, TERM_2, all_records, frame, frames, joined, lemma_frames_append,
    lemma_frames_unique, lemma_round_trip, msg_terminator, records_view, term_at, term_free,
    terminator,
};
pub use sink::{SinkQueue, Submit, lemma_producer_order};
pub use facade::{
    Destination, InitError, InitGuard, SinkKind, begin_init, begin_result, lemma_init_once,
    planned, sinks_for,
};
