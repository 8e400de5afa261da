//! The decisions of a script run: the arguments of each mode, the outcome of
//! an exit status, the completion record, and the state machine that turns
//! the events of a run into what observers are told.

use vstd::prelude::*;
use vstd::string::*;
use crate::classify::{LineKind, OutputLine, OutputModel};

verus! {

/// The decimal digit of a value below ten.
pub open spec fn digit_char(d: int) -> char {
    if d == 0 {
        '0'
    } else if d == 1 {
        '1'
    } else if d == 2 {
        '2'
    } else if d == 3 {
        '3'
    } else if d == 4 {
        '4'
    } else if d == 5 {
        '5'
    } else if d == 6 {
        '6'
    } else if d == 7 {
        '7'
    } else if d == 8 {
        '8'
    } else {
        '9'
    }
}

/// The decimal digits of a natural number, without leading zeros.
pub open spec fn digits(n: nat) -> Seq<char>
    decreases n,
{
    if n < 10 {
        seq![digit_char(n as int)]
    } else {
        digits(n / 10).push(digit_char((n % 10) as int))
    }
}

/// An integer in decimal, with a minus sign where it is negative.
pub open spec fn decimal(n: int) -> Seq<char> {
    if n < 0 {
        seq!['-'] + digits((-n) as nat)
    } else {
        digits(n as nat)
    }
}

/// The one-character string of a digit.
fn digit_str(d: u64) -> (r: &'static str)
    requires
        d < 10,
    ensures
        r@ == seq![digit_char(d as int)],
{
    proof {
        reveal_strlit("0");
        reveal_strlit("1");
        reveal_strlit("2");
        reveal_strlit("3");
        reveal_strlit("4");
        reveal_strlit("5");
        reveal_strlit("6");
        reveal_strlit("7");
        reveal_strlit("8");
        reveal_strlit("9");
    }
    let r = if d == 0 {
        "0"
    } else if d == 1 {
        "1"
    } else if d == 2 {
        "2"
    } else if d == 3 {
        "3"
    } else if d == 4 {
        "4"
    } else if d == 5 {
        "5"
    } else if d == 6 {
        "6"
    } else if d == 7 {
        "7"
    } else if d == 8 {
        "8"
    } else {
        "9"
    };
    assert(r@ =~= seq![digit_char(d as int)]);
    r
}

/// Appends the decimal digits of `n` to `out`.
fn push_digits(out: &mut String, n: u64)
    ensures
        final(out)@ == old(out)@ + digits(n as nat),
    decreases n,
{
    if n >= 10 {
        push_digits(out, n / 10);
    }
    out.append(digit_str(n % 10));
    assert(out@ =~= old(out)@ + digits(n as nat));
}

/// Appends `n` in decimal to `out`.
pub fn push_decimal(out: &mut String, n: i32)
    ensures
        final(out)@ == old(out)@ + decimal(n as int),
{
    let wide: i64 = n as i64;
    if wide < 0 {
        out.append("-");
        proof {
            reveal_strlit("-");
        }
        push_digits(out, (-wide) as u64);
        assert(out@ =~= old(out)@ + decimal(n as int));
    } else {
        push_digits(out, wide as u64);
    }
}

/// How a run is restricted.
#[derive(Debug)]
pub enum RunMode {
    /// The whole script.
    Full,
    /// The whole script, without side effects.
    DryRun,
    /// One named section.
    Section(String),
    /// One named section, without side effects.
    DryRunSection(String),
}

/// The arguments that the script gets in a mode.
pub open spec fn mode_args(mode: RunMode) -> Seq<Seq<char>> {
    match mode {
        RunMode::Full => Seq::<Seq<char>>::empty(),
        RunMode::DryRun => seq!["--dry-run"@],
        RunMode::Section(name) => seq!["--dry-run-section"@, name@],
        RunMode::DryRunSection(name) => seq!["--dry-run"@, "--dry-run-section"@, name@],
    }
}

impl RunMode {
    /// The arguments that the script gets in this mode.
    pub fn args(&self) -> (r: Vec<String>)
        ensures
            crate::rows::strs(r@) == mode_args(*self),
    {
        let mut out: Vec<String> = Vec::new();
        match self {
            RunMode::Full => {},
            RunMode::DryRun => {
                out.push(String::from_str("--dry-run"));
            },
            RunMode::Section(name) => {
                out.push(String::from_str("--dry-run-section"));
                out.push(name.clone());
            },
            RunMode::DryRunSection(name) => {
                out.push(String::from_str("--dry-run"));
                out.push(String::from_str("--dry-run-section"));
                out.push(name.clone());
            },
        }
        assert(crate::rows::strs(out@) =~= mode_args(*self));
        out
    }
}

/// How a process ended.
#[derive(Clone, Copy, Debug, PartialEq, Eq, Structural)]
pub struct RunOutcome {
    /// The exit code, or -1 where the process left none.
    pub exit_code: i32,
    /// Whether the run succeeded.
    pub is_success: bool,
}

impl RunOutcome {
    /// A run succeeded exactly if its exit code is zero.
    pub open spec fn wf(self) -> bool {
        self.is_success == (self.exit_code == 0)
    }
}

/// The outcome of an exit status: a missing code counts as -1.
pub open spec fn outcome_of(code: Option<i32>) -> RunOutcome {
    match code {
        Some(c) => RunOutcome { exit_code: c, is_success: c == 0 },
        None => RunOutcome { exit_code: -1i32, is_success: false },
    }
}

/// Why a run failed.
#[derive(Clone, Copy, Debug, PartialEq, Eq, Structural)]
pub enum RunError {
    /// The process ended with this code, which is not zero.
    NonZeroExit(i32),
}

/// The result of a run with the given outcome.
pub open spec fn result_of(outcome: RunOutcome) -> Result<(), RunError> {
    if outcome.exit_code == 0 {
        Ok(())
    } else {
        Err(RunError::NonZeroExit(outcome.exit_code))
    }
}

/// The record that closes a run with the given outcome.
pub open spec fn completion_of(outcome: RunOutcome) -> OutputModel {
    if outcome.exit_code == 0 {
        OutputModel {
            line_type: LineKind::Success,
            message: "\u{2713} Setup completed successfully (exit code: "@ + decimal(0) + ")"@,
            raw: Seq::<char>::empty(),
        }
    } else {
        OutputModel {
            line_type: LineKind::Error,
            message: "\u{2717} Setup failed with exit code: "@ + decimal(outcome.exit_code as int),
            raw: Seq::<char>::empty(),
        }
    }
}

/// The outcome of an exit status: a missing code counts as -1.
pub fn outcome(code: Option<i32>) -> (r: RunOutcome)
    ensures
        r == outcome_of(code),
        r.wf(),
{
    match code {
        Some(c) => RunOutcome { exit_code: c, is_success: c == 0 },
        None => RunOutcome { exit_code: -1, is_success: false },
    }
}

/// The result of a run: an error that carries the exit code unless the code
/// is zero.
pub fn run_result(outcome: RunOutcome) -> (r: Result<(), RunError>)
    ensures
        r == result_of(outcome),
{
    if outcome.exit_code == 0 {
        Ok(())
    } else {
        Err(RunError::NonZeroExit(outcome.exit_code))
    }
}

/// The record that closes a run: a success or an error, with the exit code
/// in its message and no raw text.
pub fn completion_line(outcome: RunOutcome) -> (r: OutputLine)
    ensures
        r@ == completion_of(outcome),
{
    if outcome.exit_code == 0 {
        let mut message = String::from_str("\u{2713} Setup completed successfully (exit code: ");
        push_decimal(&mut message, outcome.exit_code);
        message.append(")");
        OutputLine { line_type: LineKind::Success, message, raw: String::new() }
    } else {
        let mut message = String::from_str("\u{2717} Setup failed with exit code: ");
        push_decimal(&mut message, outcome.exit_code);
        OutputLine { line_type: LineKind::Error, message, raw: String::new() }
    }
}

/// What the caller is told of a failed run.
pub open spec fn error_text(e: RunError) -> Seq<char> {
    match e {
        RunError::NonZeroExit(code) => "Process exited with code: "@ + decimal(code as int),
    }
}

impl RunError {
    /// What the caller is told of the failure.
    pub fn message(&self) -> (r: String)
        ensures
            r@ == error_text(*self),
    {
        match self {
            RunError::NonZeroExit(code) => {
                let mut out = String::from_str("Process exited with code: ");
                push_decimal(&mut out, *code);
                out
            },
        }
    }
}

} // verus!
