//! Colouring log lines by the severity they mention.

use crate::text::{chars_of, contains, contains_text, lowercase, lowercased};
use vstd::prelude::*;

verus! {

/// The severity that a log line speaks of.
#[derive(Debug, Clone, Copy, PartialEq, Eq, Structural)]
pub enum LineLevel {
    /// The line mentions an error, something fatal, or a panic.
    Error,
    /// The line mentions a warning.
    Warning,
    /// The line mentions information.
    Info,
    /// The line mentions debugging or tracing.
    Debug,
    /// The line mentions none of these.
    Plain,
}

/// The level of a line, from its text in lower case. The gravest mention wins.
pub open spec fn level_of(lower: Seq<char>) -> LineLevel {
    if contains_text(lower, "error"@) || contains_text(lower, "fatal"@) || contains_text(
        lower,
        "panic"@,
    ) {
        LineLevel::Error
    } else if contains_text(lower, "warn"@) {
        LineLevel::Warning
    } else if contains_text(lower, "info"@) {
        LineLevel::Info
    } else if contains_text(lower, "debug"@) || contains_text(lower, "trace"@) {
        LineLevel::Debug
    } else {
        LineLevel::Plain
    }
}

/// The escape sequence that switches a level's style on.
pub open spec fn style_of(level: LineLevel) -> Seq<char> {
    match level {
        LineLevel::Error => "\x1b[31m"@,
        LineLevel::Warning => "\x1b[33m"@,
        LineLevel::Info => "\x1b[34m"@,
        LineLevel::Debug => "\x1b[2m"@,
        LineLevel::Plain => Seq::empty(),
    }
}

/// The escape sequence that switches all styles off.
pub open spec fn style_end() -> Seq<char> {
    "\x1b[0m"@
}

/// `shown` is `line` as it comes out in the style of `level`: unchanged
/// where colours are switched off; otherwise between the style's escape
/// sequence and the one that ends it, and exactly so unless the line
/// itself holds an ending sequence, after which the style is set again.
pub open spec fn styled(line: Seq<char>, level: LineLevel, shown: Seq<char>) -> bool {
    ||| shown == line
    ||| {
        &&& style_of(level).is_prefix_of(shown)
        &&& style_end().is_suffix_of(shown)
        &&& shown.len() >= style_of(level).len() + line.len() + style_end().len()
        &&& !contains_text(line, style_end()) ==> shown == style_of(level) + line + style_end()
    }
}

/// The level of a line whose text is in lower case already.
pub fn level_of_lowered(lower: &str) -> (level: LineLevel)
    ensures
        level == level_of(lower@),
{
    let text = chars_of(lower);
    let error = chars_of("error");
    let fatal = chars_of("fatal");
    let panic = chars_of("panic");
    let warn = chars_of("warn");
    let info = chars_of("info");
    let debug = chars_of("debug");
    let trace = chars_of("trace");
    if contains(text.as_slice(), error.as_slice()) || contains(text.as_slice(), fatal.as_slice())
        || contains(text.as_slice(), panic.as_slice()) {
        LineLevel::Error
    } else if contains(text.as_slice(), warn.as_slice()) {
        LineLevel::Warning
    } else if contains(text.as_slice(), info.as_slice()) {
        LineLevel::Info
    } else if contains(text.as_slice(), debug.as_slice()) || contains(
        text.as_slice(),
        trace.as_slice(),
    ) {
        LineLevel::Debug
    } else {
        LineLevel::Plain
    }
}

/// The level of a line, whatever the case of its letters.
pub fn classify(line: &str) -> (level: LineLevel)
    ensures
        level == level_of(lowercased(line@)),
{
    let lower = lowercase(line);
    level_of_lowered(lower.as_str())
}

/// Calls `Colorize::red` of the `colored` crate and renders the result.
/// `colored` decides by the environment and by its override switch whether
/// to colour at all, so the contract states what holds either way.
#[verifier::external_body]
fn paint_red(line: &str) -> (shown: String)
    ensures
        styled(line@, LineLevel::Error, shown@),
{
    colored::Colorize::red(line).to_string()
}

/// Calls `Colorize::yellow` of the `colored` crate and renders the result;
/// coloured or not, as `colored` decides.
#[verifier::external_body]
fn paint_yellow(line: &str) -> (shown: String)
    ensures
        styled(line@, LineLevel::Warning, shown@),
{
    colored::Colorize::yellow(line).to_string()
}

/// Calls `Colorize::blue` of the `colored` crate and renders the result;
/// coloured or not, as `colored` decides.
#[verifier::external_body]
fn paint_blue(line: &str) -> (shown: String)
    ensures
        styled(line@, LineLevel::Info, shown@),
{
    colored::Colorize::blue(line).to_string()
}

/// Calls `Colorize::dimmed` of the `colored` crate and renders the result;
/// dimmed or not, as `colored` decides.
#[verifier::external_body]
fn paint_dimmed(line: &str) -> (shown: String)
    ensures
        styled(line@, LineLevel::Debug, shown@),
{
    colored::Colorize::dimmed(line).to_string()
}

/// The line in the style of the level given; a plain line stays as it is.
pub fn paint(line: &str, level: LineLevel) -> (shown: String)
    ensures
        styled(line@, level, shown@),
        level is Plain ==> shown@ == line@,
{
    match level {
        LineLevel::Error => paint_red(line),
        LineLevel::Warning => paint_yellow(line),
        LineLevel::Info => paint_blue(line),
        LineLevel::Debug => paint_dimmed(line),
        LineLevel::Plain => line.to_string(),
    }
}

/// The line in the style of the severity it mentions: red for errors,
/// yellow for warnings, blue for information, dimmed for debugging; a line
/// that mentions none stays as it is.
pub fn colorize_line(line: &str) -> (shown: String)
    ensures
        styled(line@, level_of(lowercased(line@)), shown@),
        level_of(lowercased(line@)) is Plain ==> shown@ == line@,
{
    paint(line, classify(line))
}

/// The line as the log viewer shows it: coloured where colours are asked for.
pub fn render_line(line: &str, colorize: bool) -> (shown: String)
    ensures
        if colorize {
            styled(line@, level_of(lowercased(line@)), shown@)
        } else {
            shown@ == line@
        },
{
    if colorize {
        colorize_line(line)
    } else {
        line.to_string()
    }
}

} // verus!
