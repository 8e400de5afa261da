use dotfiles_manager::classify::LineKind;
use dotfiles_manager::runner::{
    completion_line, outcome, push_decimal, run_result, RunError, RunMode, RunOutcome,
};
use dotfiles_manager::session::{RunAction, RunEvent, RunState, Stream};

fn decimal(n: i32) -> String {
    let mut out = String::from("n=");
    push_decimal(&mut out, n);
    out
}

fn line(s: Stream, text: &str) -> RunEvent {
    RunEvent::Line(s, text.to_string())
}

#[test]
fn decimal_of_integers() {
    assert_eq!(decimal(0), "n=0");
    assert_eq!(decimal(7), "n=7");
    assert_eq!(decimal(10), "n=10");
    assert_eq!(decimal(255), "n=255");
    assert_eq!(decimal(-1), "n=-1");
    assert_eq!(decimal(1203), "n=1203");
    assert_eq!(decimal(i32::MAX), "n=2147483647");
    assert_eq!(decimal(i32::MIN), "n=-2147483648");
    for n in [-100000, -99, -10, -9, 9, 99, 100, 101, 65535] {
        assert_eq!(decimal(n), format!("n={}", n));
    }
}

#[test]
fn outcome_of_an_exit_status() {
    assert_eq!(outcome(Some(0)), RunOutcome { exit_code: 0, is_success: true });
    assert_eq!(outcome(Some(7)), RunOutcome { exit_code: 7, is_success: false });
    assert_eq!(outcome(Some(-1)), RunOutcome { exit_code: -1, is_success: false });
    assert_eq!(outcome(None), RunOutcome { exit_code: -1, is_success: false });
}

#[test]
fn non_zero_exit() {
    let o = outcome(Some(7));
    let record = completion_line(o);
    assert_eq!(record.line_type, LineKind::Error);
    assert_eq!(record.message, "\u{2717} Setup failed with exit code: 7");
    assert_eq!(record.raw, "");
    assert_eq!(run_result(o), Err(RunError::NonZeroExit(7)));
    assert_eq!(RunError::NonZeroExit(7).message(), "Process exited with code: 7");
}

#[test]
fn zero_exit() {
    let o = outcome(Some(0));
    let record = completion_line(o);
    assert_eq!(record.line_type, LineKind::Success);
    assert_eq!(record.message, "\u{2713} Setup completed successfully (exit code: 0)");
    assert_eq!(record.raw, "");
    assert_eq!(run_result(o), Ok(()));
}

#[test]
fn unknown_exit_is_a_failure() {
    let o = outcome(None);
    let record = completion_line(o);
    assert_eq!(record.line_type, LineKind::Error);
    assert_eq!(record.message, "\u{2717} Setup failed with exit code: -1");
    assert_eq!(run_result(o), Err(RunError::NonZeroExit(-1)));
    assert_eq!(RunError::NonZeroExit(-1).message(), "Process exited with code: -1");
}

#[test]
fn arguments_of_each_mode() {
    assert_eq!(RunMode::Full.args(), Vec::<String>::new());
    assert_eq!(RunMode::DryRun.args(), vec!["--dry-run".to_string()]);
    assert_eq!(
        RunMode::Section("fonts".to_string()).args(),
        vec!["--dry-run-section".to_string(), "fonts".to_string()]
    );
    assert_eq!(
        RunMode::DryRunSection("fonts".to_string()).args(),
        vec!["--dry-run".to_string(), "--dry-run-section".to_string(), "fonts".to_string()]
    );
}

#[test]
fn completion_ordering() {
    let events = vec![
        line(Stream::Stdout, "one"),
        line(Stream::Stderr, "[WARNING] first"),
        line(Stream::Stdout, "\u{1b}[32m[SUCCESS]\u{1b}[0m two"),
        RunEvent::Exited(Some(0)),
        line(Stream::Stderr, "second"),
        line(Stream::Stdout, "three"),
        RunEvent::Closed(Stream::Stdout),
        RunEvent::Closed(Stream::Stderr),
    ];
    let total = events.len();
    let mut state = RunState::new();
    let mut outputs: Vec<String> = Vec::new();
    let mut completes = 0;
    let mut last_index = 0;
    for (i, e) in events.into_iter().enumerate() {
        match state.step(e) {
            RunAction::Nothing => {}
            RunAction::Output(record) => {
                assert_eq!(completes, 0);
                outputs.push(record.message);
            }
            RunAction::Complete(record, result) => {
                completes += 1;
                last_index = i;
                assert_eq!(record.line_type, LineKind::Success);
                assert_eq!(result, Ok(()));
            }
        }
    }
    assert_eq!(outputs, vec!["one", "[WARNING] first", "[SUCCESS] two", "second", "three"]);
    assert_eq!(completes, 1);
    assert_eq!(last_index, total - 1);
    assert!(state.is_done());
}

#[test]
fn completion_waits_for_the_exit() {
    let mut state = RunState::new();
    assert!(matches!(state.step(RunEvent::Closed(Stream::Stderr)), RunAction::Nothing));
    assert!(matches!(state.step(RunEvent::Closed(Stream::Stdout)), RunAction::Nothing));
    assert!(!state.is_done());
    match state.step(RunEvent::Exited(Some(7))) {
        RunAction::Complete(record, result) => {
            assert_eq!(record.line_type, LineKind::Error);
            assert_eq!(record.message, "\u{2717} Setup failed with exit code: 7");
            assert_eq!(result, Err(RunError::NonZeroExit(7)));
        }
        _ => panic!("the run is drained"),
    }
    assert!(state.is_done());
}

#[test]
fn nothing_is_told_after_completion() {
    let mut state = RunState::new();
    state.step(RunEvent::Exited(None));
    state.step(RunEvent::Closed(Stream::Stdout));
    assert!(matches!(state.step(RunEvent::Closed(Stream::Stderr)), RunAction::Complete(_, _)));
    assert!(matches!(state.step(line(Stream::Stdout, "late")), RunAction::Nothing));
    assert!(matches!(state.step(RunEvent::Closed(Stream::Stderr)), RunAction::Nothing));
    assert!(matches!(state.step(RunEvent::Exited(Some(0))), RunAction::Nothing));
    assert!(state.is_done());
}

#[test]
fn lines_of_a_closed_stream_are_dropped_and_the_first_exit_counts() {
    let mut state = RunState::new();
    state.step(RunEvent::Closed(Stream::Stdout));
    assert!(matches!(state.step(line(Stream::Stdout, "late")), RunAction::Nothing));
    assert!(matches!(state.step(line(Stream::Stderr, "ok")), RunAction::Output(_)));
    state.step(RunEvent::Exited(Some(3)));
    state.step(RunEvent::Exited(Some(0)));
    match state.step(RunEvent::Closed(Stream::Stderr)) {
        RunAction::Complete(_, result) => assert_eq!(result, Err(RunError::NonZeroExit(3))),
        _ => panic!("the run is drained"),
    }
}
