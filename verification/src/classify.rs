//! The line classifier: a line of process output loses its colour codes and
//! is put into one of seven categories by the markers it holds.

use vstd::prelude::*;
use vstd::string::*;
use crate::pattern::{regex_replaced, replace_every};
use crate::text::{chars_of, contains, has};

verus! {

/// The pattern of a colour code: the escape character, an opening bracket,
/// digits and semicolons, and the letter `m`. Only these sequences, which
/// set colour and style, match; an escape sequence that ends in another
/// letter does not.
pub const ANSI: &'static str = "\\x1b\\[[0-9;]*m";

/// The category of a line of output.
#[derive(Clone, Copy, Debug, PartialEq, Eq, Structural)]
pub enum LineKind {
    Success,
    Error,
    Warning,
    Status,
    Info,
    DryRun,
    Output,
}

impl LineKind {
    /// The name under which observers know the category.
    pub open spec fn name(self) -> Seq<char> {
        match self {
            LineKind::Success => "success"@,
            LineKind::Error => "error"@,
            LineKind::Warning => "warning"@,
            LineKind::Status => "status"@,
            LineKind::Info => "info"@,
            LineKind::DryRun => "dry-run"@,
            LineKind::Output => "output"@,
        }
    }

    /// The name under which observers know the category.
    pub fn as_str(self) -> (r: &'static str)
        ensures
            r@ == self.name(),
    {
        match self {
            LineKind::Success => "success",
            LineKind::Error => "error",
            LineKind::Warning => "warning",
            LineKind::Status => "status",
            LineKind::Info => "info",
            LineKind::DryRun => "dry-run",
            LineKind::Output => "output",
        }
    }
}

/// One line of output as observers receive it.
#[derive(Debug)]
pub struct OutputLine {
    /// The category.
    pub line_type: LineKind,
    /// The line without colour codes.
    pub message: String,
    /// The line as it was read.
    pub raw: String,
}

/// The mathematical value of an `OutputLine`.
pub ghost struct OutputModel {
    pub line_type: LineKind,
    pub message: Seq<char>,
    pub raw: Seq<char>,
}

impl View for OutputLine {
    type V = OutputModel;

    open spec fn view(&self) -> OutputModel {
        OutputModel { line_type: self.line_type, message: self.message@, raw: self.raw@ }
    }
}

/// The category of a message: the first, in this order, of which the
/// message holds a marker; `Output` where it holds none.
pub open spec fn kind_of(message: Seq<char>) -> LineKind {
    if has(message, "\u{2713}"@) || has(message, "[SUCCESS]"@) {
        LineKind::Success
    } else if has(message, "\u{2717}"@) || has(message, "[ERROR]"@) || has(message, "Failed"@) {
        LineKind::Error
    } else if has(message, "\u{26a0}"@) || has(message, "[WARNING]"@) {
        LineKind::Warning
    } else if has(message, "\u{2192}"@) || has(message, "[STATUS]"@) {
        LineKind::Status
    } else if has(message, "\u{2139}"@) || has(message, "[INFO]"@) {
        LineKind::Info
    } else if has(message, "[DRY RUN]"@) {
        LineKind::DryRun
    } else {
        LineKind::Output
    }
}

/// A line without its colour codes: what the matcher leaves when every
/// match of `ANSI` is replaced by nothing. Escape sequences of other kinds
/// (cursor movement, clearing the screen) stay in the message. Should the
/// pattern not compile, the line stays as it is.
pub open spec fn cleaned(line: Seq<char>) -> Seq<char> {
    match regex_replaced(ANSI@, line, ""@) {
        Some(m) => m,
        None => line,
    }
}

/// What `parse_output_line` makes of a line.
pub open spec fn classified(line: Seq<char>) -> OutputModel {
    OutputModel { line_type: kind_of(cleaned(line)), message: cleaned(line), raw: line }
}

/// Whether the marker occurs in the message.
fn mentions(message: &Vec<char>, marker: &str) -> (r: bool)
    ensures
        r == has(message@, marker@),
{
    let pat = chars_of(marker);
    contains(message, &pat)
}

/// The category of a message that holds no colour codes any more.
pub fn kind_of_message(message: &str) -> (k: LineKind)
    ensures
        k == kind_of(message@),
{
    let m = chars_of(message);
    if mentions(&m, "\u{2713}") || mentions(&m, "[SUCCESS]") {
        LineKind::Success
    } else if mentions(&m, "\u{2717}") || mentions(&m, "[ERROR]") || mentions(&m, "Failed") {
        LineKind::Error
    } else if mentions(&m, "\u{26a0}") || mentions(&m, "[WARNING]") {
        LineKind::Warning
    } else if mentions(&m, "\u{2192}") || mentions(&m, "[STATUS]") {
        LineKind::Status
    } else if mentions(&m, "\u{2139}") || mentions(&m, "[INFO]") {
        LineKind::Info
    } else if mentions(&m, "[DRY RUN]") {
        LineKind::DryRun
    } else {
        LineKind::Output
    }
}

/// The record of a line whose colour codes were already removed: `message`
/// is the line without them, `raw` the line as it was read.
pub fn line_of_message(message: String, raw: &str) -> (r: OutputLine)
    ensures
        r@ == (OutputModel { line_type: kind_of(message@), message: message@, raw: raw@ }),
{
    let line_type = kind_of_message(message.as_str());
    OutputLine { line_type, message, raw: String::from_str(raw) }
}

/// Removes the colour codes from a line and classifies what is left. Every
/// line gets exactly one category.
pub fn parse_output_line(line: &str) -> (r: OutputLine)
    ensures
        r@ == classified(line@),
{
    let message = match replace_every(ANSI, line, "") {
        Some(m) => m,
        None => String::from_str(line),
    };
    line_of_message(message, line)
}

} // verus!
