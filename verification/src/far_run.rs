//! The run on the destination, and what a verb does to it once it is done
//! watching.
//!
//! Two verbs reach a machine that is already hosting a run. A migration reaches
//! it after the follow it drove; a recall reaches it over a far run it never
//! followed. What either does from there is the same four steps: end the far
//! run, pull what it produced, settle the run over the store that came home,
//! and dispose of the machine.
//!
//! The steps that wait or ask are state machines. A machine's `action` is the
//! one thing to do next, and its `step` takes the answer to it. An answer to
//! anything else leaves the machine where it is, so the same question stands.
use vstd::prelude::*;
use vstd::string::*;

use crate::fault::Fault;
use crate::routine::Routine;
use crate::text::{cat3, decimal, quote, trim};

verus! {

// ---- Outcomes -----------------------------------------------------------------

/// What a migration came home with.
#[derive(Debug, Clone, PartialEq, Eq)]
pub enum MigrateOutcome {
    /// Every task committed and the local manifest was written.
    Finalized { run: String },
    /// The far run ended and the results came home, with tasks still to run.
    Outstanding { run: String, remaining: usize },
    /// A task failed definitively on the far side; no manifest was written.
    Failed { task: String, reason: String },
    /// The migration was wound down, out of budget or asked to end by a recall.
    /// The results were pulled and the run is resumable.
    Interrupted { run: String, remaining: usize },
    /// This side let go: the far run keeps computing on `machine`, nothing was
    /// pulled, and a rental is left standing.
    Detached { run: String, machine: String },
    /// The operator let go while the run was still being placed, so no far run
    /// was started.
    Abandoned { run: String, machine: String },
}

/// What ended the follow, which decides what happens to the far run after it.
#[derive(Debug, Clone, Copy, PartialEq, Eq, Structural)]
pub enum FollowEnd {
    /// The far run ended on its own. Nothing is signalled; the results come
    /// home.
    FarRun,
    /// This side ended it. It is signalled, waited for, and its results come
    /// home.
    WoundDown,
    /// This side let go. The far run is left alone.
    Detached,
}

/// The state a run's journal projects.
#[derive(Debug, Clone, PartialEq, Eq)]
pub enum RunState {
    /// Nothing terminal is journaled.
    InProgress,
    /// The run completed.
    Finalized,
    /// A task failed definitively.
    Failed { task: String, reason: String },
    /// The run was wound down.
    Interrupted,
}

/// The one answer a verb comes home with, from what it did and what became of
/// the machine it did it on. The verb's own failure is the cause, and stands
/// before a failed teardown.
pub fn merged<T, E>(outcome: Result<T, E>, teardown: Result<(), E>) -> (r: Result<T, E>)
    ensures
        r == (match outcome {
            Err(error) => Err(error),
            Ok(value) => match teardown {
                Err(error) => Err(error),
                Ok(_) => Ok(value),
            },
        }),
{
    match outcome {
        Err(error) => Err(error),
        Ok(value) => match teardown {
            Err(error) => Err(error),
            Ok(()) => Ok(value),
        },
    }
}

/// What becomes of a rented machine when its verb is over.
#[derive(Debug, Clone, Copy, PartialEq, Eq, Structural)]
pub enum Disposal {
    /// There is none: the machine is yours.
    Nothing,
    /// The machine is kept, and its ledger record left standing for the next
    /// invocation to adopt.
    Keep,
    /// The machine is destroyed.
    Release,
}

/// What becomes of a machine, by whether it is rented and whether its verb let
/// go of a far run that is still computing there.
///
/// A guard left alive is a machine still being paid for, so every path that
/// ended the far run releases it. A detached migration is the one path that
/// does not.
pub open spec fn disposal_of(rented: bool, detached: bool) -> Disposal {
    if !rented {
        Disposal::Nothing
    } else if detached {
        Disposal::Keep
    } else {
        Disposal::Release
    }
}

/// What becomes of the machine of a verb that is over.
pub fn dispose(rented: bool, detached: bool) -> (disposal: Disposal)
    ensures
        disposal == disposal_of(rented, detached),
{
    if !rented {
        Disposal::Nothing
    } else if detached {
        Disposal::Keep
    } else {
        Disposal::Release
    }
}

/// How long a destination may take to answer and how often to look, in
/// milliseconds: a rented machine states both, and one of yours states neither.
pub fn ready_bounds(form: &crate::config::HostForm, default: (u64, u64)) -> (bounds: (u64, u64))
    ensures
        bounds == (match *form {
            crate::config::HostForm::Rented(spec) => (spec.ready_timeout_ms, spec.ready_poll_ms),
            crate::config::HostForm::Owned(_) => default,
        }),
{
    match form {
        crate::config::HostForm::Rented(spec) => (spec.ready_timeout_ms, spec.ready_poll_ms),
        crate::config::HostForm::Owned(_) => default,
    }
}

// ---- Messages -------------------------------------------------------------------

/// What a recall of a machine that was never migrated to is refused with.
pub open spec fn never_placed_text(machine: Seq<char>, run: Seq<char>) -> Seq<char> {
    crate::text::quoted(machine) + " holds no directory for run "@ + run
        + ": nothing was ever migrated there, so there is nothing to recall. `sima migrate` is what puts a run on a machine."@
}

/// The refusal of a recall of a machine that was never migrated to.
pub fn never_placed(machine: &str, run: &str) -> (fault: Fault)
    ensures
        fault@ == crate::fault::Complaint::Validation(never_placed_text(machine@, run@)),
{
    let name: String = quote(machine);
    let mut message: String = cat3(name.as_str(), " holds no directory for run ", run);
    message.append(
        ": nothing was ever migrated there, so there is nothing to recall. `sima migrate` is what puts a run on a machine.",
    );
    Fault::Validation(message)
}

/// What a far journal that could not be read is reported with.
pub open spec fn unreadable_text(machine: Seq<char>, error: Seq<char>) -> Seq<char> {
    "the journal of the run on "@ + crate::text::quoted(machine) + " could not be read: "@ + error
}

/// The failure of a journal read, naming the machine and carrying what the far
/// side said.
pub fn unreadable_journal(machine: &str, error: &str) -> (fault: Fault)
    ensures
        fault@ == crate::fault::Complaint::Validation(unreadable_text(machine@, error@)),
{
    let name: String = quote(machine);
    let mut message: String = cat3("the journal of the run on ", name.as_str(), " could not be read: ");
    message.append(error);
    Fault::Validation(message)
}

/// The last words of a far run, from what asking for its log answered.
pub open spec fn last_words(tail: Result<Seq<char>, Seq<char>>) -> Seq<char> {
    match tail {
        Ok(tail) => if crate::text::trimmed(tail).len() == 0 {
            "(its log is empty)"@
        } else {
            tail
        },
        Err(error) => "(its log could not be read: "@ + error + ")"@,
    }
}

/// The last words of a far run are its log, as it is, wherever that says anything;
/// a log of white space alone, and one that could not be read, is said to be that,
/// with why.
pub proof fn a_log_that_says_anything_is_quoted(log: Seq<char>, error: Seq<char>, k: int)
    requires
        0 <= k < log.len(),
        !crate::text::is_white(log[k]),
    ensures
        last_words(Ok::<Seq<char>, Seq<char>>(log)) == log,
        last_words(Ok::<Seq<char>, Seq<char>>(Seq::empty())) == "(its log is empty)"@,
        last_words(Err::<Seq<char>, Seq<char>>(error)) == "(its log could not be read: "@ + error
            + ")"@,
{
    crate::text::trimming_takes_the_white_space_at_both_ends(log);
    crate::text::trimming_takes_the_white_space_at_both_ends(Seq::empty());
    let (start, end) = choose|start: int, end: int|
        #![trigger log.subrange(start, end)]
        0 <= start <= end <= log.len() && crate::text::trimmed(log) == log.subrange(start, end) && (
        forall|i: int| 0 <= i < start ==> crate::text::is_white(#[trigger] log[i])) && (forall|
            i: int,
        |
            end <= i < log.len() ==> crate::text::is_white(#[trigger] log[i]));
    assert(start <= k < end);
}

/// What a far run that is gone is reported with: the machine it was on, what
/// this side observed, and the last words its log holds.
pub open spec fn died_text(
    machine: Seq<char>,
    what: Seq<char>,
    tail: Result<Seq<char>, Seq<char>>,
) -> Seq<char> {
    "the run on "@ + crate::text::quoted(machine) + " "@ + what + ". Its last words were:\n"@
        + last_words(tail)
}

/// The text of what asking for a log answered.
pub open spec fn tail_view(tail: Result<&str, &str>) -> Result<Seq<char>, Seq<char>> {
    match tail {
        Ok(tail) => Ok(tail@),
        Err(error) => Err(error@),
    }
}

/// The report of a far run that is gone.
pub fn died(machine: &str, what: &str, tail: Result<&str, &str>) -> (fault: Fault)
    ensures
        fault@ == crate::fault::Complaint::Validation(
            died_text(machine@, what@, tail_view(tail)),
        ),
{
    let words: String = match tail {
        Ok(tail) => {
            let kept: String = trim(tail);
            if kept.as_str().is_empty() {
                "(its log is empty)".to_owned()
            } else {
                tail.to_owned()
            }
        },
        Err(error) => cat3("(its log could not be read: ", error, ")"),
    };
    let name: String = quote(machine);
    let mut message: String = cat3("the run on ", name.as_str(), " ");
    message.append(what);
    message.append(". Its last words were:\n");
    message.append(words.as_str());
    Fault::Validation(message)
}

/// What a wait for a far run that ran out is recorded with.
pub open spec fn overstayed_text(machine: Seq<char>, bound_ms: nat) -> Seq<char> {
    "the run on "@ + crate::text::quoted(machine) + " did not exit within "@
        + crate::text::decimal_text(bound_ms) + "ms of the wind-down; terminating it"@
}

/// The warning that a far run outlasted the wind-down.
pub fn overstayed(machine: &str, bound_ms: u64) -> (message: String)
    ensures
        message@ == overstayed_text(machine@, bound_ms as nat),
{
    let name: String = quote(machine);
    let bound: String = decimal(bound_ms);
    let mut message: String = cat3("the run on ", name.as_str(), " did not exit within ");
    message.append(bound.as_str());
    message.append("ms of the wind-down; terminating it");
    message
}

/// What a far run that survived its termination is reported with.
pub open spec fn survived_text(machine: Seq<char>, pid: nat) -> Seq<char> {
    "the run on "@ + crate::text::quoted(machine) + " is still there as pid "@
        + crate::text::decimal_text(pid) + " after being terminated"@
}

/// The failure of a far run that survived its termination.
pub fn survived(machine: &str, pid: u32) -> (fault: Fault)
    ensures
        fault@ == crate::fault::Complaint::Validation(survived_text(machine@, pid as nat)),
{
    let name: String = quote(machine);
    let number: String = decimal(pid as u64);
    let mut message: String = cat3("the run on ", name.as_str(), " is still there as pid ");
    message.append(number.as_str());
    message.append(" after being terminated");
    Fault::Validation(message)
}

// ---- Winding down -----------------------------------------------------------------

/// Where a wind-down is.
#[derive(Debug, Clone, Copy, PartialEq, Eq, Structural)]
pub enum WindPhase {
    /// The far run is about to be signalled.
    Signalling,
    /// The far side is asked whether it is driving.
    Asking,
    /// The clock is held against the deadline.
    Timing,
    /// The wait goes on.
    Pausing,
    /// The wait ran out, which is recorded.
    Warning,
    /// The far run is ended outright.
    Terminating,
    /// The far side is given one interval to reap it.
    Reaping,
    /// The far side is asked once more.
    Confirming,
    /// It is over.
    Over(WindEnd),
}

/// How a wind-down ended.
#[derive(Debug, Clone, Copy, PartialEq, Eq, Structural)]
pub enum WindEnd {
    /// The far run is gone.
    Gone,
    /// The far run survived its termination.
    Survived,
    /// An operation failed, and its failure is the answer.
    Raised,
}

/// What a wind-down does next.
#[derive(Debug, Clone, Copy, PartialEq, Eq, Structural)]
pub enum WindAction {
    /// Ask the far run to wind down.
    Interrupt(u32),
    /// Ask the far side for the process that is driving.
    AskDriving,
    /// Read the clock.
    ReadClock,
    /// Wait one poll interval.
    Sleep,
    /// Record that the wait ran out.
    Warn,
    /// End the far run outright.
    Terminate(u32),
    /// Nothing: it is over.
    Finish(WindEnd),
}

/// What came of an action of a wind-down.
#[derive(Debug, Clone, Copy, PartialEq, Eq, Structural)]
pub enum WindAnswer {
    /// It was done.
    Done,
    /// It failed.
    Failed,
    /// The process that is driving, if one is.
    Driving(Option<u32>),
    /// Whether the deadline has passed.
    Past(bool),
}

/// The end of a far run: it is asked to wind down where this side ended the
/// follow, and waited for. A wait that runs out is recorded and then escalated.
///
/// The signal is sent again on every poll, because a far run is not signallable
/// from the instant it starts. Whichever way it ends, the far run is gone
/// before the pull that follows.
#[derive(Debug, Clone, Copy, PartialEq, Eq, Structural)]
pub struct WindDown {
    /// The process to end.
    pub pid: u32,
    /// Whether it is signalled, or only waited for.
    pub signal: bool,
    /// Where the wind-down is.
    pub phase: WindPhase,
}

impl WindDown {
    /// Where each round of the wait begins.
    pub open spec fn round(self) -> WindDown {
        WindDown {
            phase: if self.signal {
                WindPhase::Signalling
            } else {
                WindPhase::Asking
            },
            ..self
        }
    }

    /// The wind-down of `pid`, before anything was done.
    pub open spec fn starting(pid: u32, signal: bool) -> WindDown {
        WindDown { pid, signal, phase: WindPhase::Asking }.round()
    }

    /// The action a phase calls for.
    pub open spec fn act(self) -> WindAction {
        match self.phase {
            WindPhase::Signalling => WindAction::Interrupt(self.pid),
            WindPhase::Asking => WindAction::AskDriving,
            WindPhase::Timing => WindAction::ReadClock,
            WindPhase::Pausing => WindAction::Sleep,
            WindPhase::Warning => WindAction::Warn,
            WindPhase::Terminating => WindAction::Terminate(self.pid),
            WindPhase::Reaping => WindAction::Sleep,
            WindPhase::Confirming => WindAction::AskDriving,
            WindPhase::Over(end) => WindAction::Finish(end),
        }
    }

    /// This wind-down in another phase.
    pub open spec fn at(self, phase: WindPhase) -> WindDown {
        WindDown { phase, ..self }
    }

    /// Where an answer takes the wind-down.
    pub open spec fn next(self, answer: WindAnswer) -> WindDown {
        match (self.phase, answer) {
            (WindPhase::Over(_), _) => self,
            (_, WindAnswer::Failed) => self.at(WindPhase::Over(WindEnd::Raised)),
            (WindPhase::Signalling, WindAnswer::Done) => self.at(WindPhase::Asking),
            (WindPhase::Asking, WindAnswer::Driving(None)) => self.at(
                WindPhase::Over(WindEnd::Gone),
            ),
            (WindPhase::Asking, WindAnswer::Driving(Some(_))) => self.at(WindPhase::Timing),
            (WindPhase::Timing, WindAnswer::Past(true)) => self.at(WindPhase::Warning),
            (WindPhase::Timing, WindAnswer::Past(false)) => self.at(WindPhase::Pausing),
            (WindPhase::Pausing, WindAnswer::Done) => self.round(),
            (WindPhase::Warning, WindAnswer::Done) => self.at(WindPhase::Terminating),
            (WindPhase::Terminating, WindAnswer::Done) => self.at(WindPhase::Reaping),
            (WindPhase::Reaping, WindAnswer::Done) => self.at(WindPhase::Confirming),
            (WindPhase::Confirming, WindAnswer::Driving(None)) => self.at(
                WindPhase::Over(WindEnd::Gone),
            ),
            (WindPhase::Confirming, WindAnswer::Driving(Some(_))) => self.at(
                WindPhase::Over(WindEnd::Survived),
            ),
            _ => self,
        }
    }

    /// Begins the wind-down of `pid`.
    pub fn begin(pid: u32, signal: bool) -> (r: WindDown)
        ensures
            r == WindDown::starting(pid, signal),
    {
        if signal {
            WindDown { pid, signal, phase: WindPhase::Signalling }
        } else {
            WindDown { pid, signal, phase: WindPhase::Asking }
        }
    }

    /// What to do next.
    pub fn action(&self) -> (r: WindAction)
        ensures
            r == self.act(),
    {
        match self.phase {
            WindPhase::Signalling => WindAction::Interrupt(self.pid),
            WindPhase::Asking => WindAction::AskDriving,
            WindPhase::Timing => WindAction::ReadClock,
            WindPhase::Pausing => WindAction::Sleep,
            WindPhase::Warning => WindAction::Warn,
            WindPhase::Terminating => WindAction::Terminate(self.pid),
            WindPhase::Reaping => WindAction::Sleep,
            WindPhase::Confirming => WindAction::AskDriving,
            WindPhase::Over(end) => WindAction::Finish(end),
        }
    }

    /// Takes the answer to the action.
    pub fn step(self, answer: WindAnswer) -> (r: WindDown)
        ensures
            r == self.next(answer),
    {
        let phase: WindPhase = match (self.phase, answer) {
            (WindPhase::Over(end), _) => WindPhase::Over(end),
            (_, WindAnswer::Failed) => WindPhase::Over(WindEnd::Raised),
            (WindPhase::Signalling, WindAnswer::Done) => WindPhase::Asking,
            (WindPhase::Asking, WindAnswer::Driving(None)) => WindPhase::Over(WindEnd::Gone),
            (WindPhase::Asking, WindAnswer::Driving(Some(_))) => WindPhase::Timing,
            (WindPhase::Timing, WindAnswer::Past(past)) => if past {
                WindPhase::Warning
            } else {
                WindPhase::Pausing
            },
            (WindPhase::Pausing, WindAnswer::Done) => if self.signal {
                WindPhase::Signalling
            } else {
                WindPhase::Asking
            },
            (WindPhase::Warning, WindAnswer::Done) => WindPhase::Terminating,
            (WindPhase::Terminating, WindAnswer::Done) => WindPhase::Reaping,
            (WindPhase::Reaping, WindAnswer::Done) => WindPhase::Confirming,
            (WindPhase::Confirming, WindAnswer::Driving(None)) => WindPhase::Over(WindEnd::Gone),
            (WindPhase::Confirming, WindAnswer::Driving(Some(_))) => WindPhase::Over(
                WindEnd::Survived,
            ),
            (phase, _) => phase,
        };
        WindDown { pid: self.pid, signal: self.signal, phase }
    }

    /// The wind-down after the answers, one after another.
    pub open spec fn after(self, answers: Seq<WindAnswer>) -> WindDown
        decreases answers.len(),
    {
        if answers.len() == 0 {
            self
        } else {
            self.after(answers.drop_last()).next(answers.last())
        }
    }
}

impl Routine for WindDown {
    type Action = WindAction;

    type Answer = WindAnswer;

    open spec fn calls_for(self) -> WindAction {
        self.act()
    }

    open spec fn reached(self, answers: Seq<WindAnswer>) -> WindDown {
        self.after(answers)
    }

    open spec fn can_answer(action: WindAction, answer: WindAnswer) -> bool {
        match action {
            WindAction::Finish(_) => false,
            WindAction::AskDriving => answer is Driving || answer is Failed,
            WindAction::ReadClock => answer is Past || answer is Failed,
            _ => answer is Done || answer is Failed,
        }
    }
}

/// What a wind-down does, from what it did last. Each round signals the far run
/// where this side ends it, asks whether it is there, and reads the clock; a far
/// run that is there when the wait ran out is warned of, ended, given one
/// interval, and asked about once more, and that answer is final.
pub proof fn what_a_wind_down_does_next(pid: u32, signal: bool, answers: Seq<WindAnswer>)
    ensures
        ({
            let start = WindDown::starting(pid, signal);
            let act = start.after(answers).act();
            let ended = crate::routine::did(
                start,
                answers,
                WindAction::Terminate(pid),
                WindAnswer::Done,
            );
            let round = if signal {
                WindAction::Interrupt(pid)
            } else {
                WindAction::AskDriving
            };
            match crate::routine::last_done(start, answers) {
                None => act == round,
                Some((_, WindAnswer::Failed)) => act == WindAction::Finish(WindEnd::Raised),
                Some((WindAction::Interrupt(_), _)) => act == WindAction::AskDriving,
                Some((_, WindAnswer::Driving(None))) => act == WindAction::Finish(WindEnd::Gone),
                Some((_, WindAnswer::Driving(Some(_)))) => act == if ended {
                    WindAction::Finish(WindEnd::Survived)
                } else {
                    WindAction::ReadClock
                },
                Some((_, WindAnswer::Past(past))) => act == if past {
                    WindAction::Warn
                } else {
                    WindAction::Sleep
                },
                Some((WindAction::Warn, _)) => act == WindAction::Terminate(pid),
                Some((WindAction::Terminate(_), _)) => act == WindAction::Sleep,
                Some((WindAction::Sleep, _)) => act == if ended {
                    WindAction::AskDriving
                } else {
                    round
                },
                Some(_) => false,
            }
        }),
    decreases answers.len(),
{
    lemma_wind_down_phase(pid, signal, answers);
    if answers.len() > 0 {
        what_a_wind_down_does_next(pid, signal, answers.drop_last());
        lemma_wind_down_phase(pid, signal, answers.drop_last());
    }
}

proof fn lemma_wind_down_phase(pid: u32, signal: bool, answers: Seq<WindAnswer>)
    ensures
        ({
            let start = WindDown::starting(pid, signal);
            let now = start.after(answers);
            let ended = crate::routine::did(
                start,
                answers,
                WindAction::Terminate(pid),
                WindAnswer::Done,
            );
            &&& now.pid == pid && now.signal == signal
            &&& (now.phase is Reaping || now.phase is Confirming || now.phase == WindPhase::Over(
                WindEnd::Survived,
            )) ==> ended
            &&& ended ==> now.phase is Reaping || now.phase is Confirming || now.phase is Over
        }),
    decreases answers.len(),
{
    if answers.len() > 0 {
        lemma_wind_down_phase(pid, signal, answers.drop_last());
    }
}

/// A wind-down ends the process it was given, signals it only where it was told
/// to, ends it outright only once the deadline has passed, and takes it for
/// gone only when the far side answered that nothing is driving.
pub proof fn wind_down_escalates_only_past_the_deadline(
    pid: u32,
    signal: bool,
    answers: Seq<WindAnswer>,
)
    ensures
        ({
            let now = WindDown::starting(pid, signal).after(answers);
            &&& now.pid == pid && now.signal == signal
            &&& now.act() matches WindAction::Interrupt(target) ==> signal && target == pid
            &&& now.act() matches WindAction::Terminate(target) ==> target == pid
                && answers.contains(WindAnswer::Past(true))
            &&& now.act() == WindAction::Finish(WindEnd::Survived) ==> answers.contains(WindAnswer::Past(true))
            &&& now.act() == WindAction::Finish(WindEnd::Gone) ==> answers.contains(WindAnswer::Driving(None))
            &&& now.act() == WindAction::Finish(WindEnd::Raised) ==> answers.contains(WindAnswer::Failed)
        }),
{
    lemma_wind_down_history(pid, signal, answers);
}

proof fn lemma_wind_down_history(pid: u32, signal: bool, answers: Seq<WindAnswer>)
    ensures
        ({
            let now = WindDown::starting(pid, signal).after(answers);
            &&& now.pid == pid && now.signal == signal
            &&& now.phase == WindPhase::Signalling ==> signal
            &&& (now.phase == WindPhase::Warning || now.phase == WindPhase::Terminating || now.phase
                == WindPhase::Reaping || now.phase == WindPhase::Confirming || now.phase
                == WindPhase::Over(WindEnd::Survived)) ==> answers.contains(WindAnswer::Past(true))
            &&& now.phase == WindPhase::Over(WindEnd::Gone) ==> answers.contains(WindAnswer::Driving(None))
            &&& now.phase == WindPhase::Over(WindEnd::Raised) ==> answers.contains(WindAnswer::Failed)
        }),
    decreases answers.len(),
{
    if answers.len() > 0 {
        let rest = answers.drop_last();
        lemma_wind_down_history(pid, signal, rest);
        assert forall|a: WindAnswer| rest.contains(a) implies answers.contains(a) by {
            let k = choose|k: int| 0 <= k < rest.len() && rest[k] == a;
            assert(answers[k] == a);
        }
        assert(answers[answers.len() - 1] == answers.last());
    }
}

/// A far run is signalled again before every time it is asked about, where this
/// side ends it: the question is only ever reached through the signal.
pub proof fn every_poll_is_signalled(at: WindDown, answer: WindAnswer)
    requires
        at.signal,
        at.phase != WindPhase::Asking,
        at.next(answer).phase == WindPhase::Asking,
    ensures
        at.act() == WindAction::Interrupt(at.pid),
        answer == WindAnswer::Done,
{
}

/// Nothing is ended outright twice: past the termination there is only the one
/// question left.
pub proof fn termination_is_final(at: WindDown, answers: Seq<WindAnswer>)
    requires
        at.phase == WindPhase::Reaping || at.phase == WindPhase::Confirming || at.phase is Over,
    ensures
        !(at.after(answers).act() is Terminate),
        !(at.after(answers).act() is Interrupt),
        at.after(answers).phase == WindPhase::Reaping || at.after(answers).phase
            == WindPhase::Confirming || at.after(answers).phase is Over,
    decreases answers.len(),
{
    if answers.len() > 0 {
        termination_is_final(at, answers.drop_last());
    }
}

// ---- Settling -------------------------------------------------------------------------

/// The state a journal projects, without what a failure says.
#[derive(Debug, Clone, Copy, PartialEq, Eq, Structural)]
pub enum Standing {
    InProgress,
    Finalized,
    Failed,
    Interrupted,
}

impl RunState {
    /// The state without what a failure says.
    pub open spec fn stands(self) -> Standing {
        match self {
            RunState::InProgress => Standing::InProgress,
            RunState::Finalized => Standing::Finalized,
            RunState::Failed { .. } => Standing::Failed,
            RunState::Interrupted => Standing::Interrupted,
        }
    }

    /// The state without what a failure says.
    pub fn standing(&self) -> (r: Standing)
        ensures
            r == self.stands(),
    {
        match self {
            RunState::InProgress => Standing::InProgress,
            RunState::Finalized => Standing::Finalized,
            RunState::Failed { .. } => Standing::Failed,
            RunState::Interrupted => Standing::Interrupted,
        }
    }
}

/// How many keys hold no record.
pub open spec fn missing_of(committed: Seq<bool>) -> nat
    decreases committed.len(),
{
    if committed.len() == 0 {
        0
    } else {
        missing_of(committed.drop_last()) + if committed.last() {
            0nat
        } else {
            1nat
        }
    }
}

/// How many keys hold no record, from whether each of them does.
pub fn missing(committed: &Vec<bool>) -> (n: usize)
    ensures
        n == missing_of(committed@),
        n <= committed@.len(),
        n == 0 <==> forall|i: int| 0 <= i < committed@.len() ==> #[trigger] committed@[i],
{
    let mut n: usize = 0;
    let mut i: usize = 0;
    while i < committed.len()
        invariant
            i <= committed@.len(),
            n == missing_of(committed@.take(i as int)),
            n <= i,
            n == 0 <==> forall|k: int| 0 <= k < i ==> #[trigger] committed@[k],
        decreases committed@.len() - i,
    {
        proof {
            assert(committed@.take(i + 1).drop_last() =~= committed@.take(i as int));
        }
        if !committed[i] {
            n = n + 1;
        }
        i = i + 1;
    }
    proof {
        assert(committed@.take(committed@.len() as int) =~= committed@);
    }
    n
}

/// What settling a run does next.
#[derive(Debug, Clone, Copy, PartialEq, Eq, Structural)]
pub enum Settling {
    /// Derive the key set and look each key up in the store.
    ReadKeys { stands: Standing, end: FollowEnd },
    /// Write the manifest over those keys.
    WriteManifest,
    /// Nothing: the run is settled.
    Settled(Settled),
}

/// What a run settled as.
#[derive(Debug, Clone, Copy, PartialEq, Eq, Structural)]
pub enum Settled {
    /// Every task is committed and the manifest is written.
    Finalized,
    /// Tasks are still to run.
    Outstanding(usize),
    /// A task failed definitively.
    Failed,
    /// The run was wound down.
    Interrupted(usize),
    /// An operation failed, and its failure is the answer.
    Raised,
}

/// What came of an action of settling.
#[derive(Debug, Clone, Copy, PartialEq, Eq, Structural)]
pub enum SettleAnswer {
    /// This many keys hold no record.
    Missing(usize),
    /// The manifest was written.
    Written,
    /// It failed.
    Failed,
}

impl Settling {
    /// Settling a run over its store. A definitive far-side failure is the
    /// outcome whatever the store holds.
    pub open spec fn starting(stands: Standing, end: FollowEnd) -> Settling {
        if stands == Standing::Failed {
            Settling::Settled(Settled::Failed)
        } else {
            Settling::ReadKeys { stands, end }
        }
    }

    /// Where an answer takes it: a wound-down run stays resumable, one with
    /// tasks left reports them, and a complete one is finalized.
    pub open spec fn next(self, answer: SettleAnswer) -> Settling {
        match (self, answer) {
            (Settling::Settled(_), _) => self,
            (_, SettleAnswer::Failed) => Settling::Settled(Settled::Raised),
            (Settling::ReadKeys { stands, end }, SettleAnswer::Missing(remaining)) => if end
                == FollowEnd::WoundDown || stands == Standing::Interrupted {
                Settling::Settled(Settled::Interrupted(remaining))
            } else if remaining > 0 {
                Settling::Settled(Settled::Outstanding(remaining))
            } else {
                Settling::WriteManifest
            },
            (Settling::WriteManifest, SettleAnswer::Written) => Settling::Settled(
                Settled::Finalized,
            ),
            _ => self,
        }
    }

    /// Begins to settle a run.
    pub fn begin(stands: Standing, end: FollowEnd) -> (r: Settling)
        ensures
            r == Settling::starting(stands, end),
    {
        match stands {
            Standing::Failed => Settling::Settled(Settled::Failed),
            _ => Settling::ReadKeys { stands, end },
        }
    }

    /// Takes the answer to the action.
    pub fn step(self, answer: SettleAnswer) -> (r: Settling)
        ensures
            r == self.next(answer),
    {
        match (self, answer) {
            (Settling::Settled(settled), _) => Settling::Settled(settled),
            (_, SettleAnswer::Failed) => Settling::Settled(Settled::Raised),
            (Settling::ReadKeys { stands, end }, SettleAnswer::Missing(remaining)) => {
                if end == FollowEnd::WoundDown || stands == Standing::Interrupted {
                    Settling::Settled(Settled::Interrupted(remaining))
                } else if remaining > 0 {
                    Settling::Settled(Settled::Outstanding(remaining))
                } else {
                    Settling::WriteManifest
                }
            },
            (Settling::WriteManifest, SettleAnswer::Written) => Settling::Settled(
                Settled::Finalized,
            ),
            (at, _) => at,
        }
    }

    /// Settling after the answers, one after another.
    pub open spec fn after(self, answers: Seq<SettleAnswer>) -> Settling
        decreases answers.len(),
    {
        if answers.len() == 0 {
            self
        } else {
            self.after(answers.drop_last()).next(answers.last())
        }
    }
}

/// The outcome a settled run is reported as; none where an operation failed.
pub open spec fn outcome_of(settled: Settled, run: String, state: RunState) -> Option<
    MigrateOutcome,
> {
    match settled {
        Settled::Finalized => Some(MigrateOutcome::Finalized { run }),
        Settled::Outstanding(remaining) => Some(MigrateOutcome::Outstanding { run, remaining }),
        Settled::Interrupted(remaining) => Some(MigrateOutcome::Interrupted { run, remaining }),
        Settled::Failed => match state {
            RunState::Failed { task, reason } => Some(MigrateOutcome::Failed { task, reason }),
            _ => None,
        },
        Settled::Raised => None,
    }
}

/// The outcome a settled run is reported as; none where an operation failed,
/// and none for a failure that `state` does not state.
pub fn settled_outcome(settled: Settled, run: String, state: RunState) -> (r: Option<
    MigrateOutcome,
>)
    ensures
        r == outcome_of(settled, run, state),
{
    match settled {
        Settled::Finalized => Some(MigrateOutcome::Finalized { run }),
        Settled::Outstanding(remaining) => Some(MigrateOutcome::Outstanding { run, remaining }),
        Settled::Interrupted(remaining) => Some(MigrateOutcome::Interrupted { run, remaining }),
        Settled::Failed => match state {
            RunState::Failed { task, reason } => Some(MigrateOutcome::Failed { task, reason }),
            _ => None,
        },
        Settled::Raised => None,
    }
}

/// A run is reported as it settled, under its own id and with the number of tasks
/// that were left; a failure is reported with the task and the reason its journal
/// states; and an operation that failed reports no outcome at all.
pub proof fn a_run_is_reported_as_it_settled(settled: Settled, run: String, state: RunState)
    ensures
        ({
            let outcome = outcome_of(settled, run, state);
            &&& outcome == Some(MigrateOutcome::Finalized { run }) <==> settled
                == Settled::Finalized
            &&& forall|n: usize| #[trigger]
                outcome_of(Settled::Outstanding(n), run, state) == Some(
                    MigrateOutcome::Outstanding { run, remaining: n },
                )
            &&& forall|n: usize| #[trigger]
                outcome_of(Settled::Interrupted(n), run, state) == Some(
                    MigrateOutcome::Interrupted { run, remaining: n },
                )
            &&& outcome is Some && outcome->0 is Outstanding <==> settled is Outstanding
            &&& outcome is Some && outcome->0 is Interrupted <==> settled is Interrupted
            &&& settled == Settled::Failed ==> (state matches RunState::Failed { task, reason }
                ==> outcome == Some(MigrateOutcome::Failed { task, reason }))
            &&& outcome is None <==> settled == Settled::Raised || (settled == Settled::Failed
                && !(state is Failed))
            &&& !(outcome matches Some(MigrateOutcome::Detached { .. })) && !(outcome matches Some(
                MigrateOutcome::Abandoned { .. },
            ))
        }),
{
}

/// The keys of two lists that hold no record are those of the first and those of
/// the second; one key is missing exactly where it holds none.
pub proof fn every_missing_key_is_counted(first: Seq<bool>, second: Seq<bool>)
    ensures
        missing_of(first + second) == missing_of(first) + missing_of(second),
        missing_of(seq![true]) == 0,
        missing_of(seq![false]) == 1,
    decreases second.len(),
{
    assert(seq![true].drop_last() =~= Seq::empty());
    assert(seq![false].drop_last() =~= Seq::empty());
    assert(missing_of(Seq::<bool>::empty()) == 0);
    if second.len() == 0 {
        assert(first + second =~= first);
    } else {
        every_missing_key_is_counted(first, second.drop_last());
        assert((first + second).drop_last() =~= first + second.drop_last());
    }
}

/// A machine is destroyed exactly where it is rented and its far run was not left
/// computing there, and kept exactly where it was; one of yours is left alone.
pub proof fn only_a_machine_left_computing_is_kept(rented: bool, detached: bool)
    ensures
        disposal_of(rented, detached) == Disposal::Release <==> rented && !detached,
        disposal_of(rented, detached) == Disposal::Keep <==> rented && detached,
        disposal_of(rented, detached) == Disposal::Nothing <==> !rented,
{
}

impl Routine for Settling {
    type Action = Settling;

    type Answer = SettleAnswer;

    open spec fn calls_for(self) -> Settling {
        self
    }

    open spec fn reached(self, answers: Seq<SettleAnswer>) -> Settling {
        self.after(answers)
    }

    open spec fn can_answer(action: Settling, answer: SettleAnswer) -> bool {
        match action {
            Settling::ReadKeys { .. } => answer is Missing || answer is Failed,
            Settling::WriteManifest => answer is Written || answer is Failed,
            Settling::Settled(_) => false,
        }
    }
}

/// What a run settles as, from what was told last. A run that failed is settled
/// before anything is read; one that was wound down, here or there, is
/// interrupted over what the store lacks; any other is outstanding where the
/// store lacks anything, and finalized by the manifest where it lacks nothing.
pub proof fn what_a_run_settles_as(stands: Standing, end: FollowEnd, answers: Seq<SettleAnswer>)
    ensures
        ({
            let start = Settling::starting(stands, end);
            let now = start.after(answers);
            match crate::routine::last_done(start, answers) {
                None => now == if stands == Standing::Failed {
                    Settling::Settled(Settled::Failed)
                } else {
                    Settling::ReadKeys { stands, end }
                },
                Some((_, SettleAnswer::Failed)) => now == Settling::Settled(Settled::Raised),
                Some((_, SettleAnswer::Missing(n))) => stands != Standing::Failed && now
                    == if end == FollowEnd::WoundDown || stands == Standing::Interrupted {
                    Settling::Settled(Settled::Interrupted(n))
                } else if n > 0 {
                    Settling::Settled(Settled::Outstanding(n))
                } else {
                    Settling::WriteManifest
                },
                Some((_, SettleAnswer::Written)) => now == Settling::Settled(Settled::Finalized),
            }
        }),
    decreases answers.len(),
{
    if answers.len() > 0 {
        what_a_run_settles_as(stands, end, answers.drop_last());
    }
}

/// A run is finalized only when no key is missing a record, nothing failed or
/// interrupted it, and this side did not wind it down.
pub proof fn only_a_complete_run_is_finalized(
    stands: Standing,
    end: FollowEnd,
    answers: Seq<SettleAnswer>,
)
    requires
        Settling::starting(stands, end).after(answers) == Settling::Settled(Settled::Finalized),
    ensures
        exists|k: int|
            0 <= k < answers.len() && #[trigger] answers[k] == SettleAnswer::Missing(0),
        end != FollowEnd::WoundDown,
        stands == Standing::InProgress || stands == Standing::Finalized,
{
    lemma_settling_history(stands, end, answers);
}

proof fn lemma_settling_history(stands: Standing, end: FollowEnd, answers: Seq<SettleAnswer>)
    ensures
        ({
            let now = Settling::starting(stands, end).after(answers);
            &&& now matches Settling::ReadKeys { stands: s, end: e } ==> s == stands && e == end
                && s != Standing::Failed
            &&& (now == Settling::WriteManifest || now == Settling::Settled(Settled::Finalized))
                ==> ({
                &&& exists|k: int|
                    0 <= k < answers.len() && #[trigger] answers[k] == SettleAnswer::Missing(0)
                &&& end != FollowEnd::WoundDown
                &&& stands != Standing::Interrupted
                &&& stands != Standing::Failed
            })
        }),
    decreases answers.len(),
{
    if answers.len() > 0 {
        let rest = answers.drop_last();
        lemma_settling_history(stands, end, rest);
        if exists|k: int| 0 <= k < rest.len() && #[trigger] rest[k] == SettleAnswer::Missing(0) {
            let k = choose|k: int|
                0 <= k < rest.len() && #[trigger] rest[k] == SettleAnswer::Missing(0);
            assert(answers[k] == SettleAnswer::Missing(0));
        }
        assert(answers[answers.len() - 1] == answers.last());
    }
}

/// A task that failed definitively is the outcome whatever the store holds.
pub proof fn a_failure_settles_at_once(end: FollowEnd, answers: Seq<SettleAnswer>)
    ensures
        Settling::starting(Standing::Failed, end).after(answers) == Settling::Settled(
            Settled::Failed,
        ),
    decreases answers.len(),
{
    if answers.len() > 0 {
        a_failure_settles_at_once(end, answers.drop_last());
    }
}

// ---- Winding back ------------------------------------------------------------------------

/// Where the end of a far run that this side never followed is.
#[derive(Debug, Clone, Copy, PartialEq, Eq, Structural)]
pub enum WindBack {
    /// Is the run's directory there?
    AskPlaced,
    /// Is the far side driving?
    AskDriving,
    /// The far run is being ended.
    Winding(WindDown),
    /// The far journal is read, to tell what the run ended as.
    ReadJournal { end: FollowEnd },
    /// Everything the far side's records reference is brought home.
    Pull { stands: Standing, end: FollowEnd },
    /// The run is settled over the store that came home.
    Settle(Settling),
    /// It is over.
    Over(WindBackEnd),
}

/// How the end of a far run came out.
#[derive(Debug, Clone, Copy, PartialEq, Eq, Structural)]
pub enum WindBackEnd {
    /// The run settled.
    Settled(Settled),
    /// Nothing was ever migrated there.
    NeverPlaced,
    /// The far run survived its termination.
    Survived(u32),
    /// The far journal could not be read, and why is the answer.
    Unreadable,
    /// An operation failed, and its failure is the answer.
    Raised,
}

/// Whether `r` is what a settled run is answered with: its outcome, or none,
/// where the failure that was met on the way is the answer.
pub open spec fn is_settled_answer(
    settled: Settled,
    run: String,
    state: RunState,
    r: Result<MigrateOutcome, Option<Fault>>,
) -> bool {
    match outcome_of(settled, run, state) {
        Some(outcome) => r == Ok::<MigrateOutcome, Option<Fault>>(outcome),
        None => r == Err::<MigrateOutcome, Option<Fault>>(None),
    }
}

/// Whether `r` reports `text` as a refusal.
pub open spec fn is_refusal(r: Result<MigrateOutcome, Option<Fault>>, text: Seq<char>) -> bool {
    r matches Err(Some(fault)) && fault@ == crate::fault::Complaint::Validation(text)
}

/// What bringing the run on `machine` home is answered with, where it ended so:
/// the outcome its results settled to, the refusal of a machine that holds
/// nothing, or the failure of a run that stayed or of a journal that could not
/// be read, as `error` says. An error of none is an operation that failed on the
/// way, and its failure is the answer.
pub fn wind_back_outcome(
    end: WindBackEnd,
    run: String,
    machine: &str,
    state: RunState,
    error: &str,
) -> (r: Result<MigrateOutcome, Option<Fault>>)
    ensures
        match end {
            WindBackEnd::Settled(settled) => is_settled_answer(settled, run, state, r),
            WindBackEnd::NeverPlaced => is_refusal(r, never_placed_text(machine@, run@)),
            WindBackEnd::Survived(pid) => is_refusal(r, survived_text(machine@, pid as nat)),
            WindBackEnd::Unreadable => is_refusal(r, unreadable_text(machine@, error@)),
            WindBackEnd::Raised => r == Err::<MigrateOutcome, Option<Fault>>(None),
        },
{
    match end {
        WindBackEnd::Settled(settled) => match settled_outcome(settled, run, state) {
            Some(outcome) => Ok(outcome),
            None => Err(None),
        },
        WindBackEnd::NeverPlaced => Err(Some(never_placed(machine, run.as_str()))),
        WindBackEnd::Survived(pid) => Err(Some(survived(machine, pid))),
        WindBackEnd::Unreadable => Err(Some(unreadable_journal(machine, error))),
        WindBackEnd::Raised => Err(None),
    }
}

/// What ending a far run does next.
#[derive(Debug, Clone, Copy, PartialEq, Eq, Structural)]
pub enum WindBackAction {
    AskPlaced,
    AskDriving,
    Wind(WindAction),
    /// Read the far run's journal once, an absent one being empty.
    ReadJournal,
    Pull,
    ReadKeys,
    WriteManifest,
    Finish(WindBackEnd),
}

/// What came of an action of ending a far run.
#[derive(Debug, Clone, Copy, PartialEq, Eq, Structural)]
pub enum WindBackAnswer {
    Placed(bool),
    Driving(Option<u32>),
    Wind(WindAnswer),
    /// What the journal projects.
    Journal(Standing),
    Pulled,
    Settle(SettleAnswer),
    Failed,
}

impl WindBack {
    /// The action a place calls for.
    pub open spec fn act(self) -> WindBackAction {
        match self {
            WindBack::AskPlaced => WindBackAction::AskPlaced,
            WindBack::AskDriving => WindBackAction::AskDriving,
            WindBack::Winding(wind) => WindBackAction::Wind(wind.act()),
            WindBack::ReadJournal { .. } => WindBackAction::ReadJournal,
            WindBack::Pull { .. } => WindBackAction::Pull,
            WindBack::Settle(Settling::ReadKeys { .. }) => WindBackAction::ReadKeys,
            WindBack::Settle(Settling::WriteManifest) => WindBackAction::WriteManifest,
            WindBack::Settle(Settling::Settled(settled)) => WindBackAction::Finish(
                WindBackEnd::Settled(settled),
            ),
            WindBack::Over(end) => WindBackAction::Finish(end),
        }
    }

    /// Where a wind-down in progress leaves it.
    pub open spec fn wound(wind: WindDown) -> WindBack {
        match wind.phase {
            WindPhase::Over(WindEnd::Gone) => WindBack::ReadJournal { end: FollowEnd::WoundDown },
            WindPhase::Over(WindEnd::Survived) => WindBack::Over(WindBackEnd::Survived(wind.pid)),
            WindPhase::Over(WindEnd::Raised) => WindBack::Over(WindBackEnd::Raised),
            _ => WindBack::Winding(wind),
        }
    }

    /// Where settling leaves it.
    pub open spec fn settling(at: Settling) -> WindBack {
        match at {
            Settling::Settled(Settled::Raised) => WindBack::Over(WindBackEnd::Raised),
            Settling::Settled(settled) => WindBack::Over(WindBackEnd::Settled(settled)),
            _ => WindBack::Settle(at),
        }
    }

    /// Where an answer takes it.
    pub open spec fn next(self, answer: WindBackAnswer) -> WindBack {
        match (self, answer) {
            (WindBack::Over(_), _) => self,
            (WindBack::Winding(wind), WindBackAnswer::Wind(a)) => WindBack::wound(wind.next(a)),
            (WindBack::Winding(_), _) => self,
            (WindBack::Settle(at), WindBackAnswer::Settle(a)) => WindBack::settling(at.next(a)),
            (WindBack::Settle(_), _) => self,
            (WindBack::ReadJournal { .. }, WindBackAnswer::Failed) => WindBack::Over(
                WindBackEnd::Unreadable,
            ),
            (_, WindBackAnswer::Failed) => WindBack::Over(WindBackEnd::Raised),
            (WindBack::AskPlaced, WindBackAnswer::Placed(false)) => WindBack::Over(
                WindBackEnd::NeverPlaced,
            ),
            (WindBack::AskPlaced, WindBackAnswer::Placed(true)) => WindBack::AskDriving,
            (WindBack::AskDriving, WindBackAnswer::Driving(Some(pid))) => WindBack::Winding(
                WindDown::starting(pid, true),
            ),
            (WindBack::AskDriving, WindBackAnswer::Driving(None)) => WindBack::ReadJournal {
                end: FollowEnd::FarRun,
            },
            (WindBack::ReadJournal { end }, WindBackAnswer::Journal(stands)) => WindBack::Pull {
                stands,
                end,
            },
            (WindBack::Pull { stands, end }, WindBackAnswer::Pulled) => WindBack::settling(
                Settling::starting(stands, end),
            ),
            _ => self,
        }
    }

    /// Begins to end a far run.
    pub fn begin() -> (r: WindBack)
        ensures
            r == WindBack::AskPlaced,
    {
        WindBack::AskPlaced
    }

    /// What to do next.
    pub fn action(&self) -> (r: WindBackAction)
        ensures
            r == self.act(),
    {
        match self {
            WindBack::AskPlaced => WindBackAction::AskPlaced,
            WindBack::AskDriving => WindBackAction::AskDriving,
            WindBack::Winding(wind) => WindBackAction::Wind(wind.action()),
            WindBack::ReadJournal { .. } => WindBackAction::ReadJournal,
            WindBack::Pull { .. } => WindBackAction::Pull,
            WindBack::Settle(Settling::ReadKeys { .. }) => WindBackAction::ReadKeys,
            WindBack::Settle(Settling::WriteManifest) => WindBackAction::WriteManifest,
            WindBack::Settle(Settling::Settled(settled)) => WindBackAction::Finish(
                WindBackEnd::Settled(*settled),
            ),
            WindBack::Over(end) => WindBackAction::Finish(*end),
        }
    }

    fn after_wind(wind: WindDown) -> (r: WindBack)
        ensures
            r == WindBack::wound(wind),
    {
        match wind.phase {
            WindPhase::Over(WindEnd::Gone) => WindBack::ReadJournal { end: FollowEnd::WoundDown },
            WindPhase::Over(WindEnd::Survived) => WindBack::Over(WindBackEnd::Survived(wind.pid)),
            WindPhase::Over(WindEnd::Raised) => WindBack::Over(WindBackEnd::Raised),
            _ => WindBack::Winding(wind),
        }
    }

    fn after_settling(at: Settling) -> (r: WindBack)
        ensures
            r == WindBack::settling(at),
    {
        match at {
            Settling::Settled(Settled::Raised) => WindBack::Over(WindBackEnd::Raised),
            Settling::Settled(settled) => WindBack::Over(WindBackEnd::Settled(settled)),
            at => WindBack::Settle(at),
        }
    }

    /// Takes the answer to the action.
    pub fn step(self, answer: WindBackAnswer) -> (r: WindBack)
        ensures
            r == self.next(answer),
    {
        match (self, answer) {
            (WindBack::Over(end), _) => WindBack::Over(end),
            (WindBack::Winding(wind), WindBackAnswer::Wind(a)) => WindBack::after_wind(
                wind.step(a),
            ),
            (WindBack::Winding(wind), _) => WindBack::Winding(wind),
            (WindBack::Settle(at), WindBackAnswer::Settle(a)) => WindBack::after_settling(
                at.step(a),
            ),
            (WindBack::Settle(at), _) => WindBack::Settle(at),
            (WindBack::ReadJournal { .. }, WindBackAnswer::Failed) => WindBack::Over(
                WindBackEnd::Unreadable,
            ),
            (_, WindBackAnswer::Failed) => WindBack::Over(WindBackEnd::Raised),
            (WindBack::AskPlaced, WindBackAnswer::Placed(placed)) => if placed {
                WindBack::AskDriving
            } else {
                WindBack::Over(WindBackEnd::NeverPlaced)
            },
            (WindBack::AskDriving, WindBackAnswer::Driving(Some(pid))) => WindBack::Winding(
                WindDown::begin(pid, true),
            ),
            (WindBack::AskDriving, WindBackAnswer::Driving(None)) => WindBack::ReadJournal {
                end: FollowEnd::FarRun,
            },
            (WindBack::ReadJournal { end }, WindBackAnswer::Journal(stands)) => WindBack::Pull {
                stands,
                end,
            },
            (WindBack::Pull { stands, end }, WindBackAnswer::Pulled) => WindBack::after_settling(
                Settling::begin(stands, end),
            ),
            (at, _) => at,
        }
    }

    /// Ending a far run after the answers, one after another.
    pub open spec fn after(self, answers: Seq<WindBackAnswer>) -> WindBack
        decreases answers.len(),
    {
        if answers.len() == 0 {
            self
        } else {
            self.after(answers.drop_last()).next(answers.last())
        }
    }
}

impl Routine for WindBack {
    type Action = WindBackAction;

    type Answer = WindBackAnswer;

    open spec fn calls_for(self) -> WindBackAction {
        self.act()
    }

    open spec fn reached(self, answers: Seq<WindBackAnswer>) -> WindBack {
        self.after(answers)
    }

    open spec fn can_answer(action: WindBackAction, answer: WindBackAnswer) -> bool {
        match action {
            WindBackAction::AskPlaced => answer is Placed || answer is Failed,
            WindBackAction::AskDriving => answer is Driving || answer is Failed,
            WindBackAction::Wind(of) => answer matches WindBackAnswer::Wind(a)
                && WindDown::can_answer(of, a),
            WindBackAction::ReadJournal => answer is Journal || answer is Failed,
            WindBackAction::Pull => answer is Pulled || answer is Failed,
            WindBackAction::ReadKeys => answer matches WindBackAnswer::Settle(a) && (a is Missing
                || a is Failed),
            WindBackAction::WriteManifest => answer matches WindBackAnswer::Settle(a) && (
            a is Written || a is Failed),
            WindBackAction::Finish(_) => false,
        }
    }
}

/// What is waited for inside a place of a winding back is not over yet.
pub open spec fn winding_back_goes_on(at: WindBack) -> bool {
    match at {
        WindBack::Winding(wind) => !(wind.phase is Over),
        WindBack::Settle(settling) => !(settling is Settled),
        _ => true,
    }
}

/// An answer to something else than what a winding back calls for leaves it as
/// it is, and every answer leaves it where what it waits for is not over.
pub proof fn winding_back_takes_only_answers_to_its_action(at: WindBack, answer: WindBackAnswer)
    requires
        winding_back_goes_on(at),
    ensures
        !WindBack::can_answer(at.act(), answer) ==> at.next(answer) == at,
        winding_back_goes_on(at.next(answer)),
{
}

/// What the wind-down that ends a far run was told.
pub open spec fn winding_told(answers: Seq<WindBackAnswer>) -> Seq<WindAnswer>
    decreases answers.len(),
{
    if answers.len() == 0 {
        Seq::empty()
    } else {
        let told = winding_told(answers.drop_last());
        match (WindBack::AskPlaced.after(answers.drop_last()).act(), answers.last()) {
            (WindBackAction::Wind(_), WindBackAnswer::Wind(a)) => told.push(a),
            _ => told,
        }
    }
}

/// What bringing a far run home does, from what it did last. A far run that is
/// driving is wound down with a signal; once nothing drives, its journal is
/// read, whatever it stands as everything is pulled, and only then is the run
/// settled, as the journal stands and over what the store lacks.
pub proof fn what_winding_back_does_next(answers: Seq<WindBackAnswer>)
    ensures
        ({
            let start = WindBack::AskPlaced;
            let act = start.after(answers).act();
            let found = crate::routine::answer_to(start, answers, WindBackAction::AskDriving);
            let journal = crate::routine::answer_to(start, answers, WindBackAction::ReadJournal);
            match crate::routine::last_done(start, answers) {
                None => act == WindBackAction::AskPlaced,
                Some((WindBackAction::ReadJournal, WindBackAnswer::Failed)) => act
                    == WindBackAction::Finish(WindBackEnd::Unreadable),
                Some((_, WindBackAnswer::Failed)) => act == WindBackAction::Finish(
                    WindBackEnd::Raised,
                ),
                Some((_, WindBackAnswer::Placed(placed))) => act == if placed {
                    WindBackAction::AskDriving
                } else {
                    WindBackAction::Finish(WindBackEnd::NeverPlaced)
                },
                Some((_, WindBackAnswer::Driving(None))) => act == WindBackAction::ReadJournal,
                Some((_, WindBackAnswer::Driving(Some(pid)))) => act == WindBackAction::Wind(
                    WindAction::Interrupt(pid),
                ),
                Some((_, WindBackAnswer::Wind(_))) => found matches Some(
                    WindBackAnswer::Driving(Some(pid)),
                ) && act == match WindDown::starting(pid, true).after(winding_told(answers)).act() {
                    WindAction::Finish(WindEnd::Gone) => WindBackAction::ReadJournal,
                    WindAction::Finish(WindEnd::Survived) => WindBackAction::Finish(
                        WindBackEnd::Survived(pid),
                    ),
                    WindAction::Finish(WindEnd::Raised) => WindBackAction::Finish(
                        WindBackEnd::Raised,
                    ),
                    of => WindBackAction::Wind(of),
                },
                Some((_, WindBackAnswer::Journal(_))) => act == WindBackAction::Pull,
                Some((_, WindBackAnswer::Pulled)) => act == if journal == Some(
                    WindBackAnswer::Journal(Standing::Failed),
                ) {
                    WindBackAction::Finish(WindBackEnd::Settled(Settled::Failed))
                } else {
                    WindBackAction::ReadKeys
                },
                Some((_, WindBackAnswer::Settle(SettleAnswer::Failed))) => act
                    == WindBackAction::Finish(WindBackEnd::Raised),
                Some((_, WindBackAnswer::Settle(SettleAnswer::Missing(n)))) => act == if found
                    != Some(WindBackAnswer::Driving(None)) || journal == Some(
                    WindBackAnswer::Journal(Standing::Interrupted),
                ) {
                    WindBackAction::Finish(WindBackEnd::Settled(Settled::Interrupted(n)))
                } else if n > 0 {
                    WindBackAction::Finish(WindBackEnd::Settled(Settled::Outstanding(n)))
                } else {
                    WindBackAction::WriteManifest
                },
                Some((_, WindBackAnswer::Settle(SettleAnswer::Written))) => act
                    == WindBackAction::Finish(WindBackEnd::Settled(Settled::Finalized)),
            }
        }),
    decreases answers.len(),
{
    lemma_wind_back_so_far(answers);
    if answers.len() > 0 {
        let rest = answers.drop_last();
        what_winding_back_does_next(rest);
        lemma_wind_back_so_far(rest);
        if let WindBackAnswer::Wind(a) = answers.last() {
            let told = winding_told(rest);
            assert(told.push(a).drop_last() =~= told);
            if let WindBack::Winding(wind) = WindBack::AskPlaced.after(rest) {
                assert(WindDown::starting(wind.pid, true).after(told.push(a)) == wind.next(a));
            }
        }
    }
}

/// A far run is settled here only once everything was pulled, whatever its
/// journal stands as: the run was there, nothing drove it any more, its journal
/// was read, and the pull was called for and done.
pub proof fn nothing_is_settled_before_the_pull(answers: Seq<WindBackAnswer>)
    ensures
        ({
            let start = WindBack::AskPlaced;
            let now = start.after(answers);
            (now is Settle || now matches WindBack::Over(WindBackEnd::Settled(_))) ==> {
                &&& crate::routine::did(
                    start,
                    answers,
                    WindBackAction::AskPlaced,
                    WindBackAnswer::Placed(true),
                )
                &&& crate::routine::answer_to(start, answers, WindBackAction::AskDriving) matches Some(
                    WindBackAnswer::Driving(_),
                )
                &&& crate::routine::answer_to(start, answers, WindBackAction::ReadJournal) matches Some(
                    WindBackAnswer::Journal(_),
                )
                &&& crate::routine::did(
                    start,
                    answers,
                    WindBackAction::Pull,
                    WindBackAnswer::Pulled,
                )
            }
        }),
{
    lemma_wind_back_so_far(answers);
}

/// How the end of a far run was come to: wound down from here where the far
/// side was driving, its own where it was not.
spec fn ended_as(found: Option<WindBackAnswer>, end: FollowEnd) -> bool {
    ||| found matches Some(WindBackAnswer::Driving(Some(_))) && end == FollowEnd::WoundDown
    ||| found == Some(WindBackAnswer::Driving(None)) && end == FollowEnd::FarRun
}

proof fn lemma_wind_back_so_far(answers: Seq<WindBackAnswer>)
    ensures
        ({
            let start = WindBack::AskPlaced;
            let now = start.after(answers);
            let found = crate::routine::answer_to(start, answers, WindBackAction::AskDriving);
            let journal = crate::routine::answer_to(start, answers, WindBackAction::ReadJournal);
            &&& !(now is AskPlaced || now is Over) ==> crate::routine::did(
                start,
                answers,
                WindBackAction::AskPlaced,
                WindBackAnswer::Placed(true),
            )
            &&& match now {
                WindBack::AskPlaced => found is None && journal is None && winding_told(
                    answers,
                ).len() == 0,
                WindBack::AskDriving => found is None && journal is None && winding_told(
                    answers,
                ).len() == 0,
                WindBack::Winding(wind) => {
                    &&& !(wind.phase is Over)
                    &&& found == Some(WindBackAnswer::Driving(Some(wind.pid)))
                    &&& journal is None
                    &&& wind.signal
                    &&& wind == WindDown::starting(wind.pid, true).after(winding_told(answers))
                },
                WindBack::ReadJournal { end } => ended_as(found, end) && journal is None,
                WindBack::Pull { stands, end } => ended_as(found, end) && journal == Some(
                    WindBackAnswer::Journal(stands),
                ),
                WindBack::Settle(at) => {
                    &&& !(at is Settled)
                    &&& found is Some
                    &&& journal matches Some(WindBackAnswer::Journal(_))
                    &&& at matches Settling::ReadKeys { stands, end } ==> ended_as(found, end)
                        && journal == Some(WindBackAnswer::Journal(stands)) && stands
                        != Standing::Failed
                    &&& found matches Some(WindBackAnswer::Driving(_))
                    &&& crate::routine::did(
                        start,
                        answers,
                        WindBackAction::Pull,
                        WindBackAnswer::Pulled,
                    )
                },
                WindBack::Over(WindBackEnd::Settled(_)) => {
                    &&& found matches Some(WindBackAnswer::Driving(_))
                    &&& journal matches Some(WindBackAnswer::Journal(_))
                    &&& crate::routine::did(
                        start,
                        answers,
                        WindBackAction::AskPlaced,
                        WindBackAnswer::Placed(true),
                    )
                    &&& crate::routine::did(
                        start,
                        answers,
                        WindBackAction::Pull,
                        WindBackAnswer::Pulled,
                    )
                },
                WindBack::Over(_) => true,
            }
        }),
    decreases answers.len(),
{
    if answers.len() > 0 {
        let rest = answers.drop_last();
        lemma_wind_back_so_far(rest);
        let told = winding_told(rest);
        if let WindBackAnswer::Wind(a) = answers.last() {
            assert(told.push(a).drop_last() =~= told);
        }
    }
}

/// Whether the far side was found quiet: it answered that nothing was driving,
/// to the first question or during the wind-down.
pub open spec fn found_quiet(answers: Seq<WindBackAnswer>) -> bool {
    exists|k: int|
        0 <= k < answers.len() && (#[trigger] answers[k] == WindBackAnswer::Driving(None)
            || answers[k] == WindBackAnswer::Wind(WindAnswer::Driving(None)))
}

/// Nothing is read or pulled from a far side before it is known to be quiet,
/// and nothing at all is done on a machine without the run's directory.
pub proof fn nothing_is_collected_before_the_far_side_is_quiet(answers: Seq<WindBackAnswer>)
    ensures
        ({
            let now = WindBack::AskPlaced.after(answers);
            &&& (now is ReadJournal || now is Pull || now is Settle) ==> found_quiet(answers)
            &&& now.act() matches WindBackAction::Finish(WindBackEnd::Settled(_)) ==> found_quiet(
                answers,
            )
            &&& !(now is AskPlaced) && now != WindBack::Over(WindBackEnd::NeverPlaced) && now
                != WindBack::Over(WindBackEnd::Raised) ==> exists|k: int|
                0 <= k < answers.len() && #[trigger] answers[k] == WindBackAnswer::Placed(true)
        }),
{
    lemma_wind_back_history(answers);
}

proof fn lemma_wind_back_history(answers: Seq<WindBackAnswer>)
    ensures
        ({
            let now = WindBack::AskPlaced.after(answers);
            let placed = exists|k: int|
                0 <= k < answers.len() && #[trigger] answers[k] == WindBackAnswer::Placed(true);
            &&& (now is ReadJournal || now is Pull || now is Settle || now == WindBack::Over(
                WindBackEnd::Unreadable,
            ) || now matches WindBack::Over(WindBackEnd::Settled(_))) ==> found_quiet(answers)
                && placed
            &&& (now is AskDriving || now is Winding || now matches WindBack::Over(
                WindBackEnd::Survived(_),
            )) ==> placed
            &&& now matches WindBack::Winding(wind) ==> wind.signal && !(wind.phase is Over)
            &&& now matches WindBack::Settle(at) ==> !(at is Settled)
        }),
    decreases answers.len(),
{
    if answers.len() > 0 {
        let rest = answers.drop_last();
        lemma_wind_back_history(rest);
        let was = WindBack::AskPlaced.after(rest);
        if found_quiet(rest) {
            let k = choose|k: int|
                0 <= k < rest.len() && (#[trigger] rest[k] == WindBackAnswer::Driving(None)
                    || rest[k] == WindBackAnswer::Wind(WindAnswer::Driving(None)));
            assert(answers[k] == rest[k]);
        }
        if exists|k: int| 0 <= k < rest.len() && #[trigger] rest[k] == WindBackAnswer::Placed(true) {
            let k = choose|k: int|
                0 <= k < rest.len() && #[trigger] rest[k] == WindBackAnswer::Placed(true);
            assert(answers[k] == WindBackAnswer::Placed(true));
        }
        assert(answers[answers.len() - 1] == answers.last());
    }
}

} // verus!
