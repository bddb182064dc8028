//! Logging settings: the level a textual setting names, and the settings that
//! result from the command line and the configuration.

use vstd::prelude::*;
use crate::cli::Args;
use crate::config::AppConfig;
use tracing::level_filters::LevelFilter;

verus! {

/// The most verbose level that is logged.
#[derive(Debug, Clone, Copy, PartialEq, Eq, Structural)]
pub enum LogLevel {
    Off,
    Error,
    Warn,
    Info,
    Debug,
    Trace,
}

/// `c` is an ASCII digit.
pub open spec fn is_digit(c: char) -> bool {
    '0' <= c <= '9'
}

pub open spec fn digit_value(c: char) -> int {
    c as int - '0' as int
}

/// The decimal value of a string of digits.
pub open spec fn decimal_value(s: Seq<char>) -> int
    decreases s.len(),
{
    if s.len() == 0 {
        0
    } else {
        decimal_value(s.drop_last()) * 10 + digit_value(s.last())
    }
}

/// The text parsed as an unsigned number: an optional `+` followed by one or
/// more digits. (A value too large for `usize` is refused by the parser, and
/// any such value is far above the levels, so it reads here as a large value.)
pub open spec fn spec_parse_unsigned(s: Seq<char>) -> Option<int> {
    let body = unsigned_body(s);
    if body.len() > 0 && is_digit_string(body) {
        Some(decimal_value(body))
    } else {
        None
    }
}

/// The text after an optional leading `+` (a lone `+` is kept).
pub open spec fn unsigned_body(s: Seq<char>) -> Seq<char> {
    if s.len() > 1 && s[0] == '+' {
        s.drop_first()
    } else {
        s
    }
}

pub open spec fn is_digit_string(b: Seq<char>) -> bool {
    forall|i: int| 0 <= i < b.len() ==> is_digit(#[trigger] b[i])
}

/// `c` equals the lower-case ASCII letter `w` up to ASCII case.
pub open spec fn char_eq_ignore_case(c: char, w: char) -> bool {
    c == w || ('a' <= w <= 'z' && c as int == w as int - 32)
}

/// `s` equals the lower-case ASCII word `w` up to ASCII case.
pub open spec fn eq_ignore_case(s: Seq<char>, w: Seq<char>) -> bool {
    s.len() == w.len() && forall|i: int| 0 <= i < s.len() ==> char_eq_ignore_case(#[trigger] s[i], w[i])
}

pub open spec fn level_of_number(v: int) -> LogLevel {
    if v == 0 {
        LogLevel::Off
    } else if v == 1 {
        LogLevel::Error
    } else if v == 2 {
        LogLevel::Warn
    } else if v == 3 {
        LogLevel::Info
    } else if v == 4 {
        LogLevel::Debug
    } else {
        LogLevel::Trace
    }
}

/// The level a setting names, as the `tracing` level filter reads it: a
/// number from 0 (off) to 5 (trace); else, ignoring ASCII case, `error`,
/// `warn`, `info`, `debug`, `trace` or `off`; the empty text means `error`.
pub open spec fn spec_parse_level(s: Seq<char>) -> Option<LogLevel> {
    match spec_parse_unsigned(s) {
        Some(v) if v <= 5 => Some(level_of_number(v)),
        _ => if s.len() == 0 {
            Some(LogLevel::Error)
        } else if eq_ignore_case(s, seq!['e', 'r', 'r', 'o', 'r']) {
            Some(LogLevel::Error)
        } else if eq_ignore_case(s, seq!['w', 'a', 'r', 'n']) {
            Some(LogLevel::Warn)
        } else if eq_ignore_case(s, seq!['i', 'n', 'f', 'o']) {
            Some(LogLevel::Info)
        } else if eq_ignore_case(s, seq!['d', 'e', 'b', 'u', 'g']) {
            Some(LogLevel::Debug)
        } else if eq_ignore_case(s, seq!['t', 'r', 'a', 'c', 'e']) {
            Some(LogLevel::Trace)
        } else if eq_ignore_case(s, seq!['o', 'f', 'f']) {
            Some(LogLevel::Off)
        } else {
            None
        },
    }
}

/// `LevelFilter::from_str` of `tracing` (tracing-core): the level filter a
/// text names, read here as a [`LogLevel`]. The contract restates the parser's
/// source: a `usize` from 0 to 5, else one of six names ignoring ASCII case,
/// else the empty text for `error`; anything else is refused. The six
/// constants are all the values a `LevelFilter` has, so the last arm is only
/// the parse error.
#[verifier::external_body]
fn level_filter_from_str(s: &str) -> (r: Option<LogLevel>)
    ensures
        r == spec_parse_level(s@),
{
    match s.parse::<LevelFilter>() {
        Ok(LevelFilter::OFF) => Some(LogLevel::Off),
        Ok(LevelFilter::ERROR) => Some(LogLevel::Error),
        Ok(LevelFilter::WARN) => Some(LogLevel::Warn),
        Ok(LevelFilter::INFO) => Some(LogLevel::Info),
        Ok(LevelFilter::DEBUG) => Some(LogLevel::Debug),
        Ok(LevelFilter::TRACE) => Some(LogLevel::Trace),
        Ok(_) | Err(_) => None,
    }
}

/// The logging settings in effect.
#[derive(Debug)]
pub struct LogSettings {
    pub level: LogLevel,
    pub save_log_file: bool,
}

pub open spec fn opt_string_view(o: Option<String>) -> Option<Seq<char>> {
    match o {
        Some(s) => Some(s@),
        None => None,
    }
}

/// The level in effect: the level named by the command-line setting, else by
/// the configured one; `info` when neither is given or the setting names no
/// level.
pub open spec fn spec_effective_level(arg: Option<Seq<char>>, configured: Option<Seq<char>>) -> LogLevel {
    let chosen = match arg {
        Some(a) => Some(a),
        None => configured,
    };
    match chosen {
        Some(s) => match spec_parse_level(s) {
            Some(l) => l,
            None => LogLevel::Info,
        },
        None => LogLevel::Info,
    }
}

/// The logging settings: the command line overrides the configuration, for
/// the level and for saving to a file.
pub fn log_settings(args: &Args, config: &AppConfig) -> (r: LogSettings)
    ensures
        r.level == spec_effective_level(opt_string_view(args.log_level), config@.log_level),
        r.save_log_file == match args.save_log_file {
            Some(b) => b,
            None => config.save_log_file,
        },
{
    let chosen: Option<&String> = match &args.log_level {
        Some(a) => Some(a),
        None => match &config.log_level {
            Some(c) => Some(c),
            None => None,
        },
    };
    let level = match chosen {
        Some(s) => match level_filter_from_str(s.as_str()) {
            Some(l) => l,
            None => LogLevel::Info,
        },
        None => LogLevel::Info,
    };
    let save_log_file = match args.save_log_file {
        Some(b) => b,
        None => config.save_log_file,
    };
    LogSettings { level, save_log_file }
}

} // verus!
