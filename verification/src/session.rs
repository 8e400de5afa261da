//! A run as a state machine. The surrounding program spawns the process,
//! reads its two streams and waits for its exit; it hands each thing that
//! happens to `RunState::step`, in the order in which it learns of it, and
//! tells observers what the step answers.

use vstd::prelude::*;
use vstd::string::*;
use crate::classify::{classified, parse_output_line, OutputLine, OutputModel};
use crate::runner::{
    completion_line, completion_of, outcome, outcome_of, result_of, run_result, RunError,
    RunOutcome,
};

verus! {

/// One of the two output streams of the process.
#[derive(Clone, Copy, Debug, PartialEq, Eq, Structural)]
pub enum Stream {
    Stdout,
    Stderr,
}

/// Something that happened in a run.
#[derive(Debug)]
pub enum RunEvent {
    /// A line was read from a stream.
    Line(Stream, String),
    /// A stream reached its end.
    Closed(Stream),
    /// The process ended, with an exit code or without one.
    Exited(Option<i32>),
}

/// The mathematical value of a `RunEvent`.
pub ghost enum EventModel {
    Line(Stream, Seq<char>),
    Closed(Stream),
    Exited(Option<i32>),
}

impl View for RunEvent {
    type V = EventModel;

    open spec fn view(&self) -> EventModel {
        match self {
            RunEvent::Line(s, text) => EventModel::Line(*s, text@),
            RunEvent::Closed(s) => EventModel::Closed(*s),
            RunEvent::Exited(code) => EventModel::Exited(*code),
        }
    }
}

/// What observers are told after an event.
#[derive(Debug)]
pub enum RunAction {
    /// Nothing.
    Nothing,
    /// An output record.
    Output(OutputLine),
    /// The completion record; the run is over and has this result.
    Complete(OutputLine, Result<(), RunError>),
}

/// The mathematical value of a `RunAction`.
pub ghost enum ActionModel {
    Nothing,
    Output(OutputModel),
    Complete(OutputModel, Result<(), RunError>),
}

impl View for RunAction {
    type V = ActionModel;

    open spec fn view(&self) -> ActionModel {
        match self {
            RunAction::Nothing => ActionModel::Nothing,
            RunAction::Output(line) => ActionModel::Output(line@),
            RunAction::Complete(line, result) => ActionModel::Complete(line@, *result),
        }
    }
}

/// What is known of a run so far.
#[derive(Clone, Copy, Debug)]
pub struct RunState {
    /// Standard output has not reached its end.
    pub stdout_open: bool,
    /// Standard error has not reached its end.
    pub stderr_open: bool,
    /// How the process ended, once it has.
    pub exit: Option<RunOutcome>,
    /// The completion record was issued.
    pub done: bool,
}

impl RunState {
    /// The state of a run whose process was just spawned.
    pub open spec fn start() -> RunState {
        RunState { stdout_open: true, stderr_open: true, exit: None, done: false }
    }

    /// Whether lines of `s` are still expected.
    pub open spec fn is_open(self, s: Stream) -> bool {
        match s {
            Stream::Stdout => self.stdout_open,
            Stream::Stderr => self.stderr_open,
        }
    }

    /// Whether nothing more can come: both streams have ended and the
    /// process has exited.
    pub open spec fn drained(self) -> bool {
        !self.stdout_open && !self.stderr_open && self.exit is Some
    }

    /// The state with the end of a stream or the exit taken down. The first
    /// exit status counts.
    pub open spec fn noted(self, e: EventModel) -> RunState {
        match e {
            EventModel::Line(_, _) => self,
            EventModel::Closed(Stream::Stdout) => RunState { stdout_open: false, ..self },
            EventModel::Closed(Stream::Stderr) => RunState { stderr_open: false, ..self },
            EventModel::Exited(code) => if self.exit is None {
                RunState { exit: Some(outcome_of(code)), ..self }
            } else {
                self
            },
        }
    }

    /// The state after an event and what observers are told. A line of an
    /// open stream is classified and passed on. The event that leaves the
    /// run drained is answered by the completion record, once; after that
    /// nothing is told any more.
    pub open spec fn next(self, e: EventModel) -> (RunState, ActionModel) {
        if self.done {
            (self, ActionModel::Nothing)
        } else {
            match e {
                EventModel::Line(s, text) => if self.is_open(s) {
                    (self, ActionModel::Output(classified(text)))
                } else {
                    (self, ActionModel::Nothing)
                },
                _ => {
                    let t = self.noted(e);
                    if t.drained() {
                        (
                            RunState { done: true, ..t },
                            ActionModel::Complete(
                                completion_of(t.exit->0),
                                result_of(t.exit->0),
                            ),
                        )
                    } else {
                        (t, ActionModel::Nothing)
                    }
                },
            }
        }
    }

    /// The state after a list of events.
    pub open spec fn after(self, events: Seq<EventModel>) -> RunState
        decreases events.len(),
    {
        if events.len() == 0 {
            self
        } else {
            self.next(events.first()).0.after(events.drop_first())
        }
    }

    /// What observers are told in the course of a list of events, one
    /// answer for each event.
    pub open spec fn told(self, events: Seq<EventModel>) -> Seq<ActionModel>
        decreases events.len(),
    {
        if events.len() == 0 {
            Seq::<ActionModel>::empty()
        } else {
            seq![self.next(events.first()).1] + self.next(events.first()).0.told(
                events.drop_first(),
            )
        }
    }

    /// The state of a run whose process was just spawned.
    pub fn new() -> (r: RunState)
        ensures
            r == RunState::start(),
    {
        RunState { stdout_open: true, stderr_open: true, exit: None, done: false }
    }

    /// Whether the completion record was issued.
    pub fn is_done(&self) -> (r: bool)
        ensures
            r == self.done,
    {
        self.done
    }

    /// Closes the run where it is drained.
    fn conclude(&mut self) -> (a: RunAction)
        requires
            !old(self).done,
        ensures
            old(self).drained() ==> *final(self) == (RunState { done: true, ..*old(self) }) && a@
                == ActionModel::Complete(
                completion_of(old(self).exit->0),
                result_of(old(self).exit->0),
            ),
            !old(self).drained() ==> *final(self) == *old(self) && a@ == ActionModel::Nothing,
    {
        if self.stdout_open || self.stderr_open {
            return RunAction::Nothing;
        }
        match self.exit {
            Some(o) => {
                self.done = true;
                RunAction::Complete(completion_line(o), run_result(o))
            },
            None => RunAction::Nothing,
        }
    }

    /// Takes one event and answers what observers are to be told.
    pub fn step(&mut self, event: RunEvent) -> (a: RunAction)
        ensures
            (*final(self), a@) == old(self).next(event@),
    {
        if self.done {
            return RunAction::Nothing;
        }
        match event {
            RunEvent::Line(s, text) => {
                let open = match s {
                    Stream::Stdout => self.stdout_open,
                    Stream::Stderr => self.stderr_open,
                };
                if open {
                    RunAction::Output(parse_output_line(text.as_str()))
                } else {
                    RunAction::Nothing
                }
            },
            RunEvent::Closed(s) => {
                match s {
                    Stream::Stdout => {
                        self.stdout_open = false;
                    },
                    Stream::Stderr => {
                        self.stderr_open = false;
                    },
                }
                self.conclude()
            },
            RunEvent::Exited(code) => {
                if self.exit.is_none() {
                    self.exit = Some(outcome(code));
                }
                self.conclude()
            },
        }
    }
}

/// Once the completion record was issued, observers are told nothing more,
/// whatever happens.
pub proof fn lemma_done_is_silent(state: RunState, events: Seq<EventModel>)
    requires
        state.done,
    ensures
        state.told(events).len() == events.len(),
        forall|i: int| 0 <= i < events.len() ==> state.told(events)[i] == ActionModel::Nothing,
        state.after(events) == state,
    decreases events.len(),
{
    if events.len() > 0 {
        lemma_done_is_silent(state, events.drop_first());
    }
}

/// Observers get one answer for each event.
pub proof fn lemma_told_len(state: RunState, events: Seq<EventModel>)
    ensures
        state.told(events).len() == events.len(),
    decreases events.len(),
{
    if events.len() > 0 {
        lemma_told_len(state.next(events.first()).0, events.drop_first());
    }
}

/// Each answer is the answer of `next` in the state that the earlier events
/// have left. So the records of the lines of one stream are told in the
/// order of the lines, each as soon as its line arrives.
pub proof fn lemma_told_at(state: RunState, events: Seq<EventModel>, i: int)
    requires
        0 <= i < events.len(),
    ensures
        state.told(events).len() == events.len(),
        state.told(events)[i] == state.after(events.take(i)).next(events[i]).1,
    decreases events.len(),
{
    let s1 = state.next(events.first()).0;
    let rest = events.drop_first();
    lemma_told_len(state, events);
    lemma_told_len(s1, rest);
    if i == 0 {
        assert(events.take(0).len() == 0);
    } else {
        lemma_told_at(s1, rest, i - 1);
        assert(rest.take(i - 1) =~= events.take(i).drop_first());
        assert(events.take(i).first() == events.first());
    }
}

/// The completion record is the last thing that observers are told: after
/// the event that it answers, every answer is `Nothing`. So a run issues at
/// most one completion record, and no output record follows it.
pub proof fn lemma_complete_is_last(state: RunState, events: Seq<EventModel>, i: int, j: int)
    requires
        0 <= i < j < events.len(),
        state.told(events)[i] is Complete,
    ensures
        state.told(events)[j] == ActionModel::Nothing,
    decreases events.len(),
{
    let s1 = state.next(events.first()).0;
    let rest = events.drop_first();
    lemma_told_len(s1, rest);
    if i == 0 {
        lemma_done_is_silent(s1, rest);
    } else {
        lemma_complete_is_last(s1, rest, i - 1, j - 1);
    }
}

/// The completion record is issued only when both streams have ended and
/// the process has exited, and it tells of that exit.
pub proof fn lemma_complete_when_drained(state: RunState, e: EventModel)
    requires
        state.next(e).1 is Complete,
    ensures
        !state.done,
        state.next(e).0.done,
        state.next(e).0.drained(),
        state.next(e).1 == ActionModel::Complete(
            completion_of(state.next(e).0.exit->0),
            result_of(state.next(e).0.exit->0),
        ),
{
}

/// How many completion records a list of answers holds.
pub open spec fn completions(told: Seq<ActionModel>) -> nat
    decreases told.len(),
{
    if told.len() == 0 {
        0
    } else if told.first() is Complete {
        1 + completions(told.drop_first())
    } else {
        completions(told.drop_first())
    }
}

/// Whether the end of the stream `s` is among the events.
pub open spec fn closed_in(events: Seq<EventModel>, s: Stream) -> bool {
    exists|i: int| 0 <= i < events.len() && #[trigger] events[i] == EventModel::Closed(s)
}

/// Whether the exit of the process is among the events.
pub open spec fn exited_in(events: Seq<EventModel>) -> bool {
    exists|i: int| 0 <= i < events.len() && #[trigger] events[i] is Exited
}

/// Whether a state can be reached: the completion record was issued
/// exactly if the run is drained.
pub open spec fn settled(state: RunState) -> bool {
    state.done == state.drained()
}

/// Whether the run is drained once the events have happened.
pub open spec fn drains(state: RunState, events: Seq<EventModel>) -> bool {
    &&& !state.stdout_open || closed_in(events, Stream::Stdout)
    &&& !state.stderr_open || closed_in(events, Stream::Stderr)
    &&& state.exit is Some || exited_in(events)
}

proof fn lemma_closed_in_front(events: Seq<EventModel>, s: Stream)
    requires
        events.len() > 0,
    ensures
        closed_in(events, s) == (events.first() == EventModel::Closed(s) || closed_in(
            events.drop_first(),
            s,
        )),
{
    let rest = events.drop_first();
    if closed_in(events, s) {
        let i = choose|i: int| 0 <= i < events.len() && #[trigger] events[i] == EventModel::Closed(s);
        if i > 0 {
            assert(rest[i - 1] == events[i]);
        }
    }
    if closed_in(rest, s) {
        let j = choose|j: int| 0 <= j < rest.len() && #[trigger] rest[j] == EventModel::Closed(s);
        assert(events[j + 1] == rest[j]);
    }
    if events.first() == EventModel::Closed(s) {
        assert(events[0] == EventModel::Closed(s));
    }
}

proof fn lemma_exited_in_front(events: Seq<EventModel>)
    requires
        events.len() > 0,
    ensures
        exited_in(events) == (events.first() is Exited || exited_in(events.drop_first())),
{
    let rest = events.drop_first();
    if exited_in(events) {
        let i = choose|i: int| 0 <= i < events.len() && #[trigger] events[i] is Exited;
        if i > 0 {
            assert(rest[i - 1] == events[i]);
        }
    }
    if exited_in(rest) {
        let j = choose|j: int| 0 <= j < rest.len() && #[trigger] rest[j] is Exited;
        assert(events[j + 1] == rest[j]);
    }
    if events.first() is Exited {
        assert(events[0] is Exited);
    }
}

proof fn lemma_silence_has_no_completion(told: Seq<ActionModel>)
    requires
        forall|i: int| 0 <= i < told.len() ==> told[i] == ActionModel::Nothing,
    ensures
        completions(told) == 0,
    decreases told.len(),
{
    if told.len() > 0 {
        assert(told[0] == ActionModel::Nothing);
        assert forall|i: int| 0 <= i < told.drop_first().len() implies told.drop_first()[i]
            == ActionModel::Nothing by {
            assert(told.drop_first()[i] == told[i + 1]);
        }
        lemma_silence_has_no_completion(told.drop_first());
    }
}

/// From a state that can be reached and is not done, the completion record
/// is issued exactly once if the events leave the run drained, and not at
/// all if they do not.
pub proof fn lemma_completion_from(state: RunState, events: Seq<EventModel>)
    requires
        settled(state),
        !state.done,
    ensures
        settled(state.after(events)),
        state.after(events).done == drains(state, events),
        completions(state.told(events)) == if drains(state, events) {
            1nat
        } else {
            0nat
        },
    decreases events.len(),
{
    if events.len() > 0 {
        let e = events.first();
        let rest = events.drop_first();
        let s1 = state.next(e).0;
        let a = state.next(e).1;
        let told = state.told(events);
        lemma_closed_in_front(events, Stream::Stdout);
        lemma_closed_in_front(events, Stream::Stderr);
        lemma_exited_in_front(events);
        assert(told.first() == a);
        assert(told.drop_first() =~= s1.told(rest));
        if s1.done {
            lemma_done_is_silent(s1, rest);
            lemma_silence_has_no_completion(s1.told(rest));
        } else {
            lemma_completion_from(s1, rest);
        }
    }
}

/// A run issues its completion record exactly once, as soon as both streams
/// have ended and the process has exited, and never before.
pub proof fn lemma_completes_exactly_once(events: Seq<EventModel>)
    ensures
        ({
            let over = closed_in(events, Stream::Stdout) && closed_in(events, Stream::Stderr)
                && exited_in(events);
            &&& RunState::start().after(events).done == over
            &&& completions(RunState::start().told(events)) == if over {
                1nat
            } else {
                0nat
            }
        }),
{
    lemma_completion_from(RunState::start(), events);
}

} // verus!
