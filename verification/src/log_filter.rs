//! Classification of log lines: which lines are noise, and how severe a line
//! is.
use vstd::prelude::*;
use crate::text::{chars_contain, chars_of, contains};

verus! {

/// How severe a log line is.
#[derive(Debug, Clone, Copy, PartialEq, Eq, Structural)]
pub enum LogLevel {
    Error,
    Warning,
    Info,
}

/// The line carries one of the noise markers: the tag of an information
/// message, or the progress report of the setup or of the module shutdown
/// phase, in either of the two forms in which those are written.
pub open spec fn is_noise(line: Seq<char>) -> bool {
    ||| contains(line, "INFO]"@)
    ||| contains(line, "-=|Setup|"@)
    ||| contains(line, "=|Setup|"@)
    ||| contains(line, "-=|Shutdown Modules|"@)
    ||| contains(line, "=|Shutdown Modules|"@)
}

/// A line is hidden when filtering is on and the line is noise.
pub open spec fn should_hide(line: Seq<char>, filter_enabled: bool) -> bool {
    filter_enabled && is_noise(line)
}

/// The severity of a line: an error if it names one, else a warning if it
/// names one, else information.
pub open spec fn level_of(line: Seq<char>) -> LogLevel {
    if contains(line, "ERROR"@) {
        LogLevel::Error
    } else if contains(line, "WARN"@) {
        LogLevel::Warning
    } else {
        LogLevel::Info
    }
}

/// Whether `line` is to be hidden from the log view.
pub fn should_filter_line(line: &str, filter_enabled: bool) -> (hidden: bool)
    ensures
        hidden == should_hide(line@, filter_enabled),
{
    if !filter_enabled {
        return false;
    }
    let chars = chars_of(line);
    chars_contain(&chars, &chars_of("INFO]"))
        || chars_contain(&chars, &chars_of("-=|Setup|"))
        || chars_contain(&chars, &chars_of("=|Setup|"))
        || chars_contain(&chars, &chars_of("-=|Shutdown Modules|"))
        || chars_contain(&chars, &chars_of("=|Shutdown Modules|"))
}

/// The severity of `line`.
pub fn detect_log_level(line: &str) -> (level: LogLevel)
    ensures
        level == level_of(line@),
{
    let chars = chars_of(line);
    if chars_contain(&chars, &chars_of("ERROR")) {
        LogLevel::Error
    } else if chars_contain(&chars, &chars_of("WARN")) {
        LogLevel::Warning
    } else {
        LogLevel::Info
    }
}

/// With filtering off no line is hidden.
pub proof fn lemma_filter_off_hides_nothing(line: Seq<char>)
    ensures
        !should_hide(line, false),
{
}

/// The severity depends on nothing but the characters of the line: two lines
/// that read the same are classified alike, and so is one line asked twice.
pub proof fn lemma_level_depends_on_text_only(first: &str, second: &str)
    requires
        first@ == second@,
    ensures
        level_of(first@) == level_of(second@),
        should_hide(first@, true) == should_hide(second@, true),
{
}

} // verus!
