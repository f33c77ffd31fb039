//! What the process is started with: the capacities of its channels, and
//! the log level and log format that its arguments name.

use vstd::prelude::*;
use vstd::string::*;

verus! {

/// Capacity of the channels that hand frames and template updates on: a
/// producer waits until the one message before has been taken.
pub const HANDOFF_CHANNEL_CAPACITY: usize = 1;

/// Capacity of the channel of decoded statistics: a burst of records does
/// not hold the decoder up.
pub const STATISTICS_CHANNEL_CAPACITY: usize = 100;

/// The levels of the log.
#[derive(Clone, Copy, Debug, PartialEq, Eq)]
pub enum LogLevel {
    Trace,
    Debug,
    Info,
    Warn,
    Error,
}

/// The formats of a log line: the level and the message alone, or with the
/// time and the place in the source before them.
#[derive(Clone, Copy, Debug, PartialEq, Eq)]
pub enum LogFormat {
    Simple,
    Full,
}

/// The level that an argument stands for, and whether the argument named
/// one; where it named none, `level` is the default.
#[derive(Clone, Copy, Debug, PartialEq, Eq)]
pub struct LevelChoice {
    pub level: LogLevel,
    pub recognized: bool,
}

/// The format that an argument stands for, and whether the argument named
/// one; where it named none, `format` is the default.
#[derive(Clone, Copy, Debug, PartialEq, Eq)]
pub struct FormatChoice {
    pub format: LogFormat,
    pub recognized: bool,
}

/// The lowercase form of a text, as `str::to_lowercase` gives it.
pub uninterp spec fn lowercase_of(text: Seq<char>) -> Seq<char>;

/// Calls `str::to_lowercase`, which returns the lowercase equivalent of the
/// text as a new string. The contract gives that string its name and says
/// nothing more of it.
#[verifier::external_body]
fn lowercase(text: &str) -> (lower: String)
    ensures
        lower@ == lowercase_of(text@),
{
    text.to_lowercase()
}

fn same_text(left: &str, right: &str) -> (same: bool)
    ensures
        same == (left@ == right@),
{
    left.to_owned() == right.to_owned()
}

/// The level that a lowercase name names.
pub open spec fn level_named(lower: Seq<char>) -> Option<LogLevel> {
    if lower == "trace"@ {
        Some(LogLevel::Trace)
    } else if lower == "debug"@ {
        Some(LogLevel::Debug)
    } else if lower == "info"@ {
        Some(LogLevel::Info)
    } else if lower == "warn"@ {
        Some(LogLevel::Warn)
    } else if lower == "error"@ {
        Some(LogLevel::Error)
    } else {
        None
    }
}

/// The format that a lowercase name names.
pub open spec fn format_named(lower: Seq<char>) -> Option<LogFormat> {
    if lower == "simple"@ {
        Some(LogFormat::Simple)
    } else if lower == "full"@ {
        Some(LogFormat::Full)
    } else {
        None
    }
}

/// The choice that a named level makes: the level, or `Info` where none
/// was named.
pub open spec fn level_choice(named: Option<LogLevel>) -> LevelChoice {
    match named {
        Some(level) => LevelChoice { level, recognized: true },
        None => LevelChoice { level: LogLevel::Info, recognized: false },
    }
}

/// The choice that a named format makes: the format, or `Full` where none
/// was named.
pub open spec fn format_choice(named: Option<LogFormat>) -> FormatChoice {
    match named {
        Some(format) => FormatChoice { format, recognized: true },
        None => FormatChoice { format: LogFormat::Full, recognized: false },
    }
}

/// The level of a name that is already in lowercase: one of `trace`,
/// `debug`, `info`, `warn`, `error`; any other name makes the default
/// choice.
pub fn level_of_lowercase(lower: &str) -> (choice: LevelChoice)
    ensures
        choice == level_choice(level_named(lower@)),
{
    if same_text(lower, "trace") {
        LevelChoice { level: LogLevel::Trace, recognized: true }
    } else if same_text(lower, "debug") {
        LevelChoice { level: LogLevel::Debug, recognized: true }
    } else if same_text(lower, "info") {
        LevelChoice { level: LogLevel::Info, recognized: true }
    } else if same_text(lower, "warn") {
        LevelChoice { level: LogLevel::Warn, recognized: true }
    } else if same_text(lower, "error") {
        LevelChoice { level: LogLevel::Error, recognized: true }
    } else {
        LevelChoice { level: LogLevel::Info, recognized: false }
    }
}

/// The format of a name that is already in lowercase: `simple` or `full`;
/// any other name makes the default choice.
pub fn format_of_lowercase(lower: &str) -> (choice: FormatChoice)
    ensures
        choice == format_choice(format_named(lower@)),
{
    if same_text(lower, "simple") {
        FormatChoice { format: LogFormat::Simple, recognized: true }
    } else if same_text(lower, "full") {
        FormatChoice { format: LogFormat::Full, recognized: true }
    } else {
        FormatChoice { format: LogFormat::Full, recognized: false }
    }
}

/// The log level that the argument `name` stands for, whatever its case.
pub fn log_level(name: &str) -> (choice: LevelChoice)
    ensures
        choice == level_choice(level_named(lowercase_of(name@))),
{
    let lower = lowercase(name);
    level_of_lowercase(lower.as_str())
}

/// The log format that the argument `name` stands for, whatever its case.
pub fn log_format(name: &str) -> (choice: FormatChoice)
    ensures
        choice == format_choice(format_named(lowercase_of(name@))),
{
    let lower = lowercase(name);
    format_of_lowercase(lower.as_str())
}

} // verus!
