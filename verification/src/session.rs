//! The choreography that moves a run onto another machine and brings its
//! results home.
//!
//! ```text
//!   reach the destination; write the synthesized configuration there
//!   is the far side already driving this run?
//!     yes  it is a reattach: nothing is pushed and nothing is started
//!     no   push the run's closure, open the follow, start the far run
//!   follow, forwarding each record into the local journal
//!   end on a terminal event, a local interrupt, or an exhausted budget
//!     interrupt  let go: the far run and its machine are left as they are
//!     otherwise  wait for the far run to exit, pull, and settle
//! ```
//!
//! **The far run is detached**, so a connection that drops leaves the
//! destination computing, and running again reattaches.
//!
//! **The follow's first poll is the journal as it already stood.** Opened
//! before the start, it is an earlier session's journal, which neither decides
//! this run's outcome nor crosses into the local journal again. On a reattach
//! it is the far run's own history, which decides the state and is not emitted
//! again. Opened after the start, it is this run's like any other.
use vstd::prelude::*;
use vstd::string::*;

use crate::far_run::{
    died, settled_outcome, survived, FollowEnd, MigrateOutcome, RunState, SettleAnswer, Settled,
    Settling, Standing, WindAction, WindAnswer, WindDown, WindEnd, WindPhase,
};
use crate::fault::Fault;
use crate::routine::Routine;
use crate::text::cat;

verus! {

// ---- Reaching the destination -----------------------------------------------------

/// Where the first contact with a destination is.
#[derive(Debug, Clone, Copy, PartialEq, Eq, Structural)]
pub enum Contacting {
    /// The machine is asked.
    Asking,
    /// It could not be reached, and the clock is held against the deadline.
    Timing,
    /// The wait goes on.
    Pausing,
    /// It is over.
    Over(ContactEnd),
}

/// How a first contact ended.
#[derive(Debug, Clone, Copy, PartialEq, Eq, Structural)]
pub enum ContactEnd {
    /// The machine answered with its devices.
    Answered,
    /// The machine was not reached in time, and the last refusal is the answer.
    TimedOut,
    /// The machine answered that the run cannot proceed, which is the answer.
    Raised,
}

/// What a first contact does next.
#[derive(Debug, Clone, Copy, PartialEq, Eq, Structural)]
pub enum ContactAction {
    /// Ask the machine for its devices.
    AskDevices,
    /// Read the clock.
    ReadClock,
    /// Wait one poll interval.
    Sleep,
    /// Nothing: it is over.
    Finish(ContactEnd),
}

/// What came of an action of a first contact.
#[derive(Debug, Clone, Copy, PartialEq, Eq, Structural)]
pub enum ContactAnswer {
    /// The machine answered with its devices.
    Answered,
    /// The machine could not be reached.
    Unreachable,
    /// The machine answered that the run cannot proceed.
    Failed,
    /// Whether the deadline has passed.
    Past(bool),
    /// The wait is over.
    Slept,
}

impl Contacting {
    /// The action a place calls for.
    pub open spec fn act(self) -> ContactAction {
        match self {
            Contacting::Asking => ContactAction::AskDevices,
            Contacting::Timing => ContactAction::ReadClock,
            Contacting::Pausing => ContactAction::Sleep,
            Contacting::Over(end) => ContactAction::Finish(end),
        }
    }

    /// Where an answer takes it. Only a machine that could not be reached is
    /// asked again, and only until its deadline.
    pub open spec fn next(self, answer: ContactAnswer) -> Contacting {
        match (self, answer) {
            (Contacting::Asking, ContactAnswer::Answered) => Contacting::Over(ContactEnd::Answered),
            (Contacting::Asking, ContactAnswer::Failed) => Contacting::Over(ContactEnd::Raised),
            (Contacting::Asking, ContactAnswer::Unreachable) => Contacting::Timing,
            (Contacting::Timing, ContactAnswer::Past(true)) => Contacting::Over(
                ContactEnd::TimedOut,
            ),
            (Contacting::Timing, ContactAnswer::Past(false)) => Contacting::Pausing,
            (Contacting::Pausing, ContactAnswer::Slept) => Contacting::Asking,
            _ => self,
        }
    }

    /// Begins a first contact.
    pub fn begin() -> (r: Contacting)
        ensures
            r == Contacting::Asking,
    {
        Contacting::Asking
    }

    /// What to do next.
    pub fn action(&self) -> (r: ContactAction)
        ensures
            r == self.act(),
    {
        match self {
            Contacting::Asking => ContactAction::AskDevices,
            Contacting::Timing => ContactAction::ReadClock,
            Contacting::Pausing => ContactAction::Sleep,
            Contacting::Over(end) => ContactAction::Finish(*end),
        }
    }

    /// Takes the answer to the action.
    pub fn step(self, answer: ContactAnswer) -> (r: Contacting)
        ensures
            r == self.next(answer),
    {
        match (self, answer) {
            (Contacting::Asking, ContactAnswer::Answered) => Contacting::Over(ContactEnd::Answered),
            (Contacting::Asking, ContactAnswer::Failed) => Contacting::Over(ContactEnd::Raised),
            (Contacting::Asking, ContactAnswer::Unreachable) => Contacting::Timing,
            (Contacting::Timing, ContactAnswer::Past(past)) => if past {
                Contacting::Over(ContactEnd::TimedOut)
            } else {
                Contacting::Pausing
            },
            (Contacting::Pausing, ContactAnswer::Slept) => Contacting::Asking,
            (at, _) => at,
        }
    }

    /// The contact after the answers, one after another.
    pub open spec fn after(self, answers: Seq<ContactAnswer>) -> Contacting
        decreases answers.len(),
    {
        if answers.len() == 0 {
            self
        } else {
            self.after(answers.drop_last()).next(answers.last())
        }
    }
}

impl Routine for Contacting {
    type Action = ContactAction;

    type Answer = ContactAnswer;

    open spec fn calls_for(self) -> ContactAction {
        self.act()
    }

    open spec fn reached(self, answers: Seq<ContactAnswer>) -> Contacting {
        self.after(answers)
    }

    open spec fn can_answer(action: ContactAction, answer: ContactAnswer) -> bool {
        match action {
            ContactAction::AskDevices => answer is Answered || answer is Unreachable
                || answer is Failed,
            ContactAction::ReadClock => answer is Past,
            ContactAction::Sleep => answer is Slept,
            ContactAction::Finish(_) => false,
        }
    }
}

/// What a first contact does, from what it was told last: a machine that cannot
/// be reached is asked again after a wait, for as long as its deadline has not
/// passed; any other answer ends the contact.
pub proof fn what_a_first_contact_does_next(answers: Seq<ContactAnswer>)
    ensures
        ({
            let start = Contacting::Asking;
            let act = start.after(answers).act();
            match crate::routine::last_done(start, answers) {
                None => act == ContactAction::AskDevices,
                Some((_, ContactAnswer::Answered)) => act == ContactAction::Finish(
                    ContactEnd::Answered,
                ),
                Some((_, ContactAnswer::Failed)) => act == ContactAction::Finish(
                    ContactEnd::Raised,
                ),
                Some((_, ContactAnswer::Unreachable)) => act == ContactAction::ReadClock,
                Some((_, ContactAnswer::Past(past))) => act == if past {
                    ContactAction::Finish(ContactEnd::TimedOut)
                } else {
                    ContactAction::Sleep
                },
                Some((_, ContactAnswer::Slept)) => act == ContactAction::AskDevices,
            }
        }),
    decreases answers.len(),
{
    if answers.len() > 0 {
        what_a_first_contact_does_next(answers.drop_last());
    }
}

/// A machine is given up on only when it could not be reached and its deadline
/// has passed; any other failure is reported at the first attempt.
pub proof fn only_an_unreachable_machine_is_waited_for(answers: Seq<ContactAnswer>)
    ensures
        ({
            let now = Contacting::Asking.after(answers);
            &&& now == Contacting::Over(ContactEnd::TimedOut) ==> answers.contains(
                ContactAnswer::Unreachable,
            ) && answers.contains(ContactAnswer::Past(true))
            &&& now == Contacting::Over(ContactEnd::Answered) ==> answers.contains(
                ContactAnswer::Answered,
            )
            &&& now == Contacting::Timing || now == Contacting::Pausing ==> answers.contains(
                ContactAnswer::Unreachable,
            )
        }),
    decreases answers.len(),
{
    if answers.len() > 0 {
        let rest = answers.drop_last();
        only_an_unreachable_machine_is_waited_for(rest);
        assert(answers[answers.len() - 1] == answers.last());
        assert forall|a: ContactAnswer| rest.contains(a) implies answers.contains(a) by {
            let k = choose|k: int| 0 <= k < rest.len() && rest[k] == a;
            assert(answers[k] == a);
        }
    }
}

// ---- Attaching ----------------------------------------------------------------------

/// Where the opening of a follow is.
#[derive(Debug, Clone, Copy, PartialEq, Eq, Structural)]
pub enum Attaching {
    /// The follow is opened.
    Opening,
    /// It was refused, and the far side is asked whether it is driving.
    Asking,
    /// The far run is up, and the clock is held against the bound.
    Timing,
    /// The wait goes on.
    Pausing,
    /// It is over.
    Over(AttachEnd),
}

/// How the opening of a follow ended.
#[derive(Debug, Clone, Copy, PartialEq, Eq, Structural)]
pub enum AttachEnd {
    /// The follow is open.
    Attached,
    /// The far run is gone, and died before it journaled anything.
    Died,
    /// The far run is up and did not journal in time; the refusal is the answer.
    Refused,
    /// An operation failed, and its failure is the answer.
    Raised,
}

/// What the opening of a follow does next.
#[derive(Debug, Clone, Copy, PartialEq, Eq, Structural)]
pub enum AttachAction {
    Open,
    AskDriving,
    ReadClock,
    Sleep,
    Finish(AttachEnd),
}

/// What came of an action of opening a follow.
#[derive(Debug, Clone, Copy, PartialEq, Eq, Structural)]
pub enum AttachAnswer {
    Opened,
    Refused,
    Driving(bool),
    Past(bool),
    Slept,
    Failed,
}

impl Attaching {
    /// The action a place calls for.
    pub open spec fn act(self) -> AttachAction {
        match self {
            Attaching::Opening => AttachAction::Open,
            Attaching::Asking => AttachAction::AskDriving,
            Attaching::Timing => AttachAction::ReadClock,
            Attaching::Pausing => AttachAction::Sleep,
            Attaching::Over(end) => AttachAction::Finish(end),
        }
    }

    /// Where an answer takes it. A far run that is gone ends the wait at once:
    /// it will never journal.
    pub open spec fn next(self, answer: AttachAnswer) -> Attaching {
        match (self, answer) {
            (Attaching::Opening, AttachAnswer::Opened) => Attaching::Over(AttachEnd::Attached),
            (Attaching::Opening, AttachAnswer::Refused) => Attaching::Asking,
            (Attaching::Asking, AttachAnswer::Failed) => Attaching::Over(AttachEnd::Raised),
            (Attaching::Asking, AttachAnswer::Driving(false)) => Attaching::Over(AttachEnd::Died),
            (Attaching::Asking, AttachAnswer::Driving(true)) => Attaching::Timing,
            (Attaching::Timing, AttachAnswer::Past(true)) => Attaching::Over(AttachEnd::Refused),
            (Attaching::Timing, AttachAnswer::Past(false)) => Attaching::Pausing,
            (Attaching::Pausing, AttachAnswer::Slept) => Attaching::Opening,
            _ => self,
        }
    }

    /// Begins to open a follow.
    pub fn begin() -> (r: Attaching)
        ensures
            r == Attaching::Opening,
    {
        Attaching::Opening
    }

    /// What to do next.
    pub fn action(&self) -> (r: AttachAction)
        ensures
            r == self.act(),
    {
        match self {
            Attaching::Opening => AttachAction::Open,
            Attaching::Asking => AttachAction::AskDriving,
            Attaching::Timing => AttachAction::ReadClock,
            Attaching::Pausing => AttachAction::Sleep,
            Attaching::Over(end) => AttachAction::Finish(*end),
        }
    }

    /// Takes the answer to the action.
    pub fn step(self, answer: AttachAnswer) -> (r: Attaching)
        ensures
            r == self.next(answer),
    {
        match (self, answer) {
            (Attaching::Opening, AttachAnswer::Opened) => Attaching::Over(AttachEnd::Attached),
            (Attaching::Opening, AttachAnswer::Refused) => Attaching::Asking,
            (Attaching::Asking, AttachAnswer::Failed) => Attaching::Over(AttachEnd::Raised),
            (Attaching::Asking, AttachAnswer::Driving(driving)) => if driving {
                Attaching::Timing
            } else {
                Attaching::Over(AttachEnd::Died)
            },
            (Attaching::Timing, AttachAnswer::Past(past)) => if past {
                Attaching::Over(AttachEnd::Refused)
            } else {
                Attaching::Pausing
            },
            (Attaching::Pausing, AttachAnswer::Slept) => Attaching::Opening,
            (at, _) => at,
        }
    }

    /// The opening of a follow after the answers, one after another.
    pub open spec fn after(self, answers: Seq<AttachAnswer>) -> Attaching
        decreases answers.len(),
    {
        if answers.len() == 0 {
            self
        } else {
            self.after(answers.drop_last()).next(answers.last())
        }
    }
}

impl Routine for Attaching {
    type Action = AttachAction;

    type Answer = AttachAnswer;

    open spec fn calls_for(self) -> AttachAction {
        self.act()
    }

    open spec fn reached(self, answers: Seq<AttachAnswer>) -> Attaching {
        self.after(answers)
    }

    open spec fn can_answer(action: AttachAction, answer: AttachAnswer) -> bool {
        match action {
            AttachAction::Open => answer is Opened || answer is Refused,
            AttachAction::AskDriving => answer is Driving || answer is Failed,
            AttachAction::ReadClock => answer is Past,
            AttachAction::Sleep => answer is Slept,
            AttachAction::Finish(_) => false,
        }
    }
}

/// What the opening of a follow does, from what it was told last: a refusal asks
/// whether the far run is there, one that is gone has died, and one that is
/// there is tried again after a wait, for as long as the bound has not passed.
pub proof fn what_opening_a_follow_does_next(answers: Seq<AttachAnswer>)
    ensures
        ({
            let start = Attaching::Opening;
            let act = start.after(answers).act();
            match crate::routine::last_done(start, answers) {
                None => act == AttachAction::Open,
                Some((_, AttachAnswer::Opened)) => act == AttachAction::Finish(AttachEnd::Attached),
                Some((_, AttachAnswer::Refused)) => act == AttachAction::AskDriving,
                Some((_, AttachAnswer::Driving(driving))) => act == if driving {
                    AttachAction::ReadClock
                } else {
                    AttachAction::Finish(AttachEnd::Died)
                },
                Some((_, AttachAnswer::Past(past))) => act == if past {
                    AttachAction::Finish(AttachEnd::Refused)
                } else {
                    AttachAction::Sleep
                },
                Some((_, AttachAnswer::Slept)) => act == AttachAction::Open,
                Some((_, AttachAnswer::Failed)) => act == AttachAction::Finish(AttachEnd::Raised),
            }
        }),
    decreases answers.len(),
{
    if answers.len() > 0 {
        what_opening_a_follow_does_next(answers.drop_last());
    }
}

/// What a follow that could not attach observed of a far run that is gone.
pub open spec fn unattachable_text(refusal: Seq<char>) -> Seq<char> {
    "ended before it journaled anything, so there is nothing to follow: "@ + refusal
}

/// What a follow that could not attach observed of a far run that is gone.
pub fn unattachable(refusal: &str) -> (out: String)
    ensures
        out@ == unattachable_text(refusal@),
{
    cat("ended before it journaled anything, so there is nothing to follow: ", refusal)
}

/// What a follow observed of a far run that is gone and journaled nothing.
pub fn unjournaled() -> (out: &'static str)
    ensures
        out@ == "ended before it journaled anything"@,
{
    "ended before it journaled anything"
}

// ---- Following ----------------------------------------------------------------------

/// What is done with the records of one poll.
#[derive(Debug, Clone, Copy, PartialEq, Eq, Structural)]
pub enum Treatment {
    /// They are an earlier session's: nothing.
    Skip,
    /// They are replayed: they decide the state, and are not emitted.
    Apply,
    /// They decide the state and cross into the local journal.
    ApplyAndEmit,
}

/// Where a follow is.
#[derive(Debug, Clone, Copy, PartialEq, Eq, Structural)]
pub enum FollowPhase {
    /// The feed is polled.
    Polling,
    /// The records of the poll are taken.
    Taking { treatment: Treatment, empty: bool },
    /// Has the operator let go?
    Interruptible { empty: bool },
    /// Is the budget due to be assessed?
    Due { empty: bool },
    /// The budget is assessed.
    Assessing { empty: bool },
    /// Its exhaustion is recorded.
    Exhausted,
    /// Nothing arrived: is the far store's lock held?
    AskHolder,
    /// The lock is free: is the far run gone?
    AskDriving,
    /// The wait goes on.
    Pausing,
    /// It is over.
    Over(Followed),
}

/// How a follow ended.
#[derive(Debug, Clone, Copy, PartialEq, Eq, Structural)]
pub enum Followed {
    /// It ended, with the state the far journal projects.
    Ended { stands: Standing, end: FollowEnd },
    /// The far run is gone and journaled nothing of its own.
    Died,
    /// An operation failed, and its failure is the answer.
    Raised,
}

/// What a follow does next.
#[derive(Debug, Clone, Copy, PartialEq, Eq, Structural)]
pub enum FollowAction {
    /// Poll the feed.
    Poll,
    /// Treat the polled records, and give back the state they project.
    Take(Treatment),
    /// Read the interrupt.
    ReadInterrupt,
    /// Has a budget interval passed since the last assessment?
    ReadBudgetClock,
    /// Assess the budget.
    Assess,
    /// Emit the exhaustion.
    EmitExhaustion,
    /// Ask the feed who holds the far run's lock.
    AskHolder,
    /// Ask the far side for the process that is driving.
    AskDriving,
    /// Wait one tick.
    Sleep,
    /// Nothing: it is over.
    Finish(Followed),
}

/// What came of an action of a follow.
#[derive(Debug, Clone, Copy, PartialEq, Eq, Structural)]
pub enum FollowAnswer {
    /// Whether the poll came back empty.
    Polled { empty: bool },
    /// The state after the records were treated.
    Stands(Standing),
    /// Whether the operator let go.
    Interrupted(bool),
    /// Whether a budget interval has passed.
    IntervalPassed(bool),
    /// Whether the budget is exhausted.
    Exhausted(bool),
    /// Whether the lock is held.
    Held(bool),
    /// Whether a process is driving.
    Driving(bool),
    /// It was done.
    Done,
    /// It failed.
    Failed,
}

/// A follow of a far run: until it ends, the operator lets go, or a rental's
/// budget runs out.
#[derive(Debug, Clone, Copy, PartialEq, Eq, Structural)]
pub struct Following {
    /// The follow was opened before the far run was started.
    pub earlier_session: bool,
    /// The far run was already going.
    pub reattached: bool,
    /// The machine is paid for, so there is a ceiling to keep.
    pub budgeted: bool,
    /// Nothing was polled yet.
    pub first: bool,
    /// The run has journaled a line of its own.
    pub journaled: bool,
    /// The budget was assessed at least once.
    pub assessed: bool,
    /// Where the follow is.
    pub phase: FollowPhase,
}

impl Following {
    /// A follow before its first poll.
    pub open spec fn starting(earlier_session: bool, reattached: bool, budgeted: bool) -> Following {
        Following {
            earlier_session,
            reattached,
            budgeted,
            first: true,
            journaled: false,
            assessed: false,
            phase: FollowPhase::Polling,
        }
    }

    /// This follow in another phase.
    pub open spec fn at(self, phase: FollowPhase) -> Following {
        Following { phase, ..self }
    }

    /// What the records of this poll are to this migration.
    pub open spec fn treats(self) -> Treatment {
        if self.first && self.earlier_session {
            Treatment::Skip
        } else if self.first && self.reattached {
            Treatment::Apply
        } else {
            Treatment::ApplyAndEmit
        }
    }

    /// The action a phase calls for.
    pub open spec fn act(self) -> FollowAction {
        match self.phase {
            FollowPhase::Polling => FollowAction::Poll,
            FollowPhase::Taking { treatment, .. } => FollowAction::Take(treatment),
            FollowPhase::Interruptible { .. } => FollowAction::ReadInterrupt,
            FollowPhase::Due { .. } => FollowAction::ReadBudgetClock,
            FollowPhase::Assessing { .. } => FollowAction::Assess,
            FollowPhase::Exhausted => FollowAction::EmitExhaustion,
            FollowPhase::AskHolder => FollowAction::AskHolder,
            FollowPhase::AskDriving => FollowAction::AskDriving,
            FollowPhase::Pausing => FollowAction::Sleep,
            FollowPhase::Over(followed) => FollowAction::Finish(followed),
        }
    }

    /// The end of the follow in this way.
    pub open spec fn ended(self, stands: Standing, end: FollowEnd) -> Following {
        self.at(FollowPhase::Over(Followed::Ended { stands, end }))
    }

    /// Where a tick that found nothing to end the follow goes: on to the next
    /// poll, or, where nothing arrived, to the question whether the far run is
    /// still there.
    pub open spec fn onward(self, empty: bool) -> Following {
        if empty {
            self.at(FollowPhase::AskHolder)
        } else {
            self.at(FollowPhase::Polling)
        }
    }

    /// Where an answer takes the follow.
    pub open spec fn next(self, answer: FollowAnswer) -> Following {
        match (self.phase, answer) {
            (FollowPhase::Over(_), _) => self,
            (_, FollowAnswer::Failed) => self.at(FollowPhase::Over(Followed::Raised)),
            (FollowPhase::Polling, FollowAnswer::Polled { empty }) => Following {
                first: false,
                journaled: self.journaled || (self.treats() != Treatment::Skip && !empty),
                phase: FollowPhase::Taking { treatment: self.treats(), empty },
                ..self
            },
            (FollowPhase::Taking { empty, .. }, FollowAnswer::Stands(stands)) => if stands
                == Standing::InProgress {
                self.at(FollowPhase::Interruptible { empty })
            } else {
                self.ended(stands, FollowEnd::FarRun)
            },
            (FollowPhase::Interruptible { empty }, FollowAnswer::Interrupted(interrupted)) => {
                if interrupted {
                    self.ended(Standing::InProgress, FollowEnd::Detached)
                } else if !self.budgeted {
                    self.onward(empty)
                } else if !self.assessed {
                    self.at(FollowPhase::Assessing { empty })
                } else {
                    self.at(FollowPhase::Due { empty })
                }
            },
            (FollowPhase::Due { empty }, FollowAnswer::IntervalPassed(passed)) => if passed {
                self.at(FollowPhase::Assessing { empty })
            } else {
                self.onward(empty)
            },
            (FollowPhase::Assessing { empty }, FollowAnswer::Exhausted(exhausted)) => {
                let assessed = Following { assessed: true, ..self };
                if exhausted {
                    assessed.at(FollowPhase::Exhausted)
                } else {
                    assessed.onward(empty)
                }
            },
            (FollowPhase::Exhausted, FollowAnswer::Done) => self.ended(
                Standing::InProgress,
                FollowEnd::WoundDown,
            ),
            (FollowPhase::AskHolder, FollowAnswer::Held(held)) => if held {
                self.at(FollowPhase::Pausing)
            } else {
                self.at(FollowPhase::AskDriving)
            },
            (FollowPhase::AskDriving, FollowAnswer::Driving(driving)) => if driving {
                self.at(FollowPhase::Pausing)
            } else if !self.reattached && !self.journaled {
                self.at(FollowPhase::Over(Followed::Died))
            } else {
                self.ended(Standing::InProgress, FollowEnd::FarRun)
            },
            (FollowPhase::Pausing, FollowAnswer::Done) => self.at(FollowPhase::Polling),
            _ => self,
        }
    }

    /// Begins a follow.
    pub fn begin(earlier_session: bool, reattached: bool, budgeted: bool) -> (r: Following)
        ensures
            r == Following::starting(earlier_session, reattached, budgeted),
    {
        Following {
            earlier_session,
            reattached,
            budgeted,
            first: true,
            journaled: false,
            assessed: false,
            phase: FollowPhase::Polling,
        }
    }

    fn treatment(&self) -> (r: Treatment)
        ensures
            r == self.treats(),
    {
        if self.first && self.earlier_session {
            Treatment::Skip
        } else if self.first && self.reattached {
            Treatment::Apply
        } else {
            Treatment::ApplyAndEmit
        }
    }

    /// What to do next.
    pub fn action(&self) -> (r: FollowAction)
        ensures
            r == self.act(),
    {
        match self.phase {
            FollowPhase::Polling => FollowAction::Poll,
            FollowPhase::Taking { treatment, .. } => FollowAction::Take(treatment),
            FollowPhase::Interruptible { .. } => FollowAction::ReadInterrupt,
            FollowPhase::Due { .. } => FollowAction::ReadBudgetClock,
            FollowPhase::Assessing { .. } => FollowAction::Assess,
            FollowPhase::Exhausted => FollowAction::EmitExhaustion,
            FollowPhase::AskHolder => FollowAction::AskHolder,
            FollowPhase::AskDriving => FollowAction::AskDriving,
            FollowPhase::Pausing => FollowAction::Sleep,
            FollowPhase::Over(followed) => FollowAction::Finish(followed),
        }
    }

    fn go_on(self, empty: bool) -> (r: Following)
        ensures
            r == self.onward(empty),
    {
        Following {
            phase: if empty {
                FollowPhase::AskHolder
            } else {
                FollowPhase::Polling
            },
            ..self
        }
    }

    fn end(self, stands: Standing, end: FollowEnd) -> (r: Following)
        ensures
            r == self.ended(stands, end),
    {
        Following { phase: FollowPhase::Over(Followed::Ended { stands, end }), ..self }
    }

    /// Takes the answer to the action.
    pub fn step(self, answer: FollowAnswer) -> (r: Following)
        ensures
            r == self.next(answer),
    {
        match (self.phase, answer) {
            (FollowPhase::Over(_), _) => self,
            (_, FollowAnswer::Failed) => Following {
                phase: FollowPhase::Over(Followed::Raised),
                ..self
            },
            (FollowPhase::Polling, FollowAnswer::Polled { empty }) => {
                let treatment: Treatment = self.treatment();
                let own: bool = treatment != Treatment::Skip && !empty;
                Following {
                    first: false,
                    journaled: self.journaled || own,
                    phase: FollowPhase::Taking { treatment, empty },
                    ..self
                }
            },
            (FollowPhase::Taking { empty, .. }, FollowAnswer::Stands(stands)) => {
                if stands == Standing::InProgress {
                    Following { phase: FollowPhase::Interruptible { empty }, ..self }
                } else {
                    self.end(stands, FollowEnd::FarRun)
                }
            },
            (FollowPhase::Interruptible { empty }, FollowAnswer::Interrupted(interrupted)) => {
                if interrupted {
                    self.end(Standing::InProgress, FollowEnd::Detached)
                } else if !self.budgeted {
                    self.go_on(empty)
                } else if !self.assessed {
                    Following { phase: FollowPhase::Assessing { empty }, ..self }
                } else {
                    Following { phase: FollowPhase::Due { empty }, ..self }
                }
            },
            (FollowPhase::Due { empty }, FollowAnswer::IntervalPassed(passed)) => {
                if passed {
                    Following { phase: FollowPhase::Assessing { empty }, ..self }
                } else {
                    self.go_on(empty)
                }
            },
            (FollowPhase::Assessing { empty }, FollowAnswer::Exhausted(exhausted)) => {
                let assessed: Following = Following { assessed: true, ..self };
                if exhausted {
                    Following { phase: FollowPhase::Exhausted, ..assessed }
                } else {
                    assessed.go_on(empty)
                }
            },
            (FollowPhase::Exhausted, FollowAnswer::Done) => self.end(
                Standing::InProgress,
                FollowEnd::WoundDown,
            ),
            (FollowPhase::AskHolder, FollowAnswer::Held(held)) => {
                if held {
                    Following { phase: FollowPhase::Pausing, ..self }
                } else {
                    Following { phase: FollowPhase::AskDriving, ..self }
                }
            },
            (FollowPhase::AskDriving, FollowAnswer::Driving(driving)) => {
                if driving {
                    Following { phase: FollowPhase::Pausing, ..self }
                } else if !self.reattached && !self.journaled {
                    Following { phase: FollowPhase::Over(Followed::Died), ..self }
                } else {
                    self.end(Standing::InProgress, FollowEnd::FarRun)
                }
            },
            (FollowPhase::Pausing, FollowAnswer::Done) => Following {
                phase: FollowPhase::Polling,
                ..self
            },
            _ => self,
        }
    }

    /// The follow after the answers, one after another.
    pub open spec fn after(self, answers: Seq<FollowAnswer>) -> Following
        decreases answers.len(),
    {
        if answers.len() == 0 {
            self
        } else {
            self.after(answers.drop_last()).next(answers.last())
        }
    }
}

impl Routine for Following {
    type Action = FollowAction;

    type Answer = FollowAnswer;

    open spec fn calls_for(self) -> FollowAction {
        self.act()
    }

    open spec fn reached(self, answers: Seq<FollowAnswer>) -> Following {
        self.after(answers)
    }

    open spec fn can_answer(action: FollowAction, answer: FollowAnswer) -> bool {
        answer is Failed && !(action is Finish) || match action {
            FollowAction::Poll => answer is Polled,
            FollowAction::Take(_) => answer is Stands,
            FollowAction::ReadInterrupt => answer is Interrupted,
            FollowAction::ReadBudgetClock => answer is IntervalPassed,
            FollowAction::Assess => answer is Exhausted,
            FollowAction::EmitExhaustion => answer is Done,
            FollowAction::AskHolder => answer is Held,
            FollowAction::AskDriving => answer is Driving,
            FollowAction::Sleep => answer is Done,
            FollowAction::Finish(_) => false,
        }
    }
}

/// Whether a follow has seen records of the run's own: those of any poll, but
/// for the first of a follow that was opened before the run was started.
pub open spec fn saw_own_records(start: Following, answers: Seq<FollowAnswer>) -> bool
    decreases answers.len(),
{
    answers.len() > 0 && {
        let rest = answers.drop_last();
        saw_own_records(start, rest) || (start.after(rest).act() == FollowAction::Poll
            && answers.last() == (FollowAnswer::Polled { empty: false }) && !(start.earlier_session
            && crate::routine::times(start, rest, FollowAction::Poll) == 0))
    }
}

/// What a follow does, from what it did last. Every poll is taken, the first for
/// what it was opened on; a run that ended ends it; then the operator may let
/// go; then the budget of a paid machine is assessed, on the first tick and
/// after every interval; and only where the poll brought nothing is the far run
/// looked for. One that is gone has died where nothing of its own was ever seen.
pub proof fn what_a_follow_does_next(
    earlier_session: bool,
    reattached: bool,
    budgeted: bool,
    answers: Seq<FollowAnswer>,
)
    ensures
        ({
            let start = Following::starting(earlier_session, reattached, budgeted);
            let act = start.after(answers).act();
            let first = crate::routine::times(start, answers, FollowAction::Poll) == 1;
            let onward = if crate::routine::answer_to(start, answers, FollowAction::Poll) == Some(
                FollowAnswer::Polled { empty: true },
            ) {
                FollowAction::AskHolder
            } else {
                FollowAction::Poll
            };
            match crate::routine::last_done(start, answers) {
                None => act == FollowAction::Poll,
                Some((_, FollowAnswer::Failed)) => act == FollowAction::Finish(Followed::Raised),
                Some((_, FollowAnswer::Polled { .. })) => act == FollowAction::Take(
                    if first && earlier_session {
                        Treatment::Skip
                    } else if first && reattached {
                        Treatment::Apply
                    } else {
                        Treatment::ApplyAndEmit
                    },
                ),
                Some((_, FollowAnswer::Stands(stands))) => act == if stands
                    == Standing::InProgress {
                    FollowAction::ReadInterrupt
                } else {
                    FollowAction::Finish(Followed::Ended { stands, end: FollowEnd::FarRun })
                },
                Some((_, FollowAnswer::Interrupted(interrupted))) => act == if interrupted {
                    FollowAction::Finish(
                        Followed::Ended { stands: Standing::InProgress, end: FollowEnd::Detached },
                    )
                } else if !budgeted {
                    onward
                } else if crate::routine::times(start, answers, FollowAction::Assess) == 0 {
                    FollowAction::Assess
                } else {
                    FollowAction::ReadBudgetClock
                },
                Some((_, FollowAnswer::IntervalPassed(passed))) => act == if passed {
                    FollowAction::Assess
                } else {
                    onward
                },
                Some((_, FollowAnswer::Exhausted(exhausted))) => act == if exhausted {
                    FollowAction::EmitExhaustion
                } else {
                    onward
                },
                Some((FollowAction::EmitExhaustion, FollowAnswer::Done)) => act
                    == FollowAction::Finish(
                    Followed::Ended { stands: Standing::InProgress, end: FollowEnd::WoundDown },
                ),
                Some((_, FollowAnswer::Held(held))) => act == if held {
                    FollowAction::Sleep
                } else {
                    FollowAction::AskDriving
                },
                Some((_, FollowAnswer::Driving(driving))) => act == if driving {
                    FollowAction::Sleep
                } else if !reattached && !saw_own_records(start, answers) {
                    FollowAction::Finish(Followed::Died)
                } else {
                    FollowAction::Finish(
                        Followed::Ended { stands: Standing::InProgress, end: FollowEnd::FarRun },
                    )
                },
                Some((_, FollowAnswer::Done)) => act == FollowAction::Poll,
            }
        }),
    decreases answers.len(),
{
    if answers.len() > 0 {
        let start = Following::starting(earlier_session, reattached, budgeted);
        let rest = answers.drop_last();
        let was = start.after(rest);
        lemma_follow_so_far(start, rest);
        if Following::can_answer(was.act(), answers.last()) {
            assert(crate::routine::last_done(start, answers) == Some((was.act(), answers.last())));
        } else {
            what_a_follow_does_next(earlier_session, reattached, budgeted, rest);
            lemma_nothing_followed(start, answers);
        }
    }
}

proof fn lemma_nothing_followed(start: Following, answers: Seq<FollowAnswer>)
    requires
        answers.len() > 0,
        !Following::can_answer(start.after(answers.drop_last()).act(), answers.last()),
    ensures
        ({
            let rest = answers.drop_last();
            let poll = FollowAction::Poll;
            let assess = FollowAction::Assess;
            &&& start.after(answers) == start.after(rest)
            &&& crate::routine::last_done(start, answers) == crate::routine::last_done(start, rest)
            &&& crate::routine::times(start, answers, poll) == crate::routine::times(
                start,
                rest,
                poll,
            )
            &&& crate::routine::times(start, answers, assess) == crate::routine::times(
                start,
                rest,
                assess,
            )
            &&& crate::routine::answer_to(start, answers, poll) == crate::routine::answer_to(
                start,
                rest,
                poll,
            )
            &&& saw_own_records(start, answers) == saw_own_records(start, rest)
        }),
{
}

proof fn lemma_follow_so_far(start: Following, answers: Seq<FollowAnswer>)
    requires
        start.first,
        !start.journaled,
        !start.assessed,
        start.phase == FollowPhase::Polling,
    ensures
        ({
            let now = start.after(answers);
            let polled = crate::routine::answer_to(start, answers, FollowAction::Poll);
            &&& now.earlier_session == start.earlier_session
            &&& now.reattached == start.reattached
            &&& now.budgeted == start.budgeted
            &&& !(now.phase is Over) ==> {
                &&& now.first == (crate::routine::times(start, answers, FollowAction::Poll) == 0)
                &&& now.assessed == (crate::routine::times(start, answers, FollowAction::Assess)
                    != 0)
                &&& now.journaled == saw_own_records(start, answers)
            }
            &&& match now.phase {
                FollowPhase::Taking { empty, .. } => polled == Some(FollowAnswer::Polled { empty }),
                FollowPhase::Interruptible { empty } => polled == Some(
                    FollowAnswer::Polled { empty },
                ),
                FollowPhase::Due { empty } => polled == Some(FollowAnswer::Polled { empty }),
                FollowPhase::Assessing { empty } => polled == Some(FollowAnswer::Polled { empty }),
                _ => true,
            }
        }),
    decreases answers.len(),
{
    if answers.len() > 0 {
        lemma_follow_so_far(start, answers.drop_last());
    }
}

/// What holds of every follow: how it was opened never changes, only its first
/// poll is ever treated specially, a stale journal never counts as the run's
/// own, only a paid machine's budget is assessed, and each way it can end has
/// the answer that ends it.
pub proof fn a_follow_ends_on_what_it_was_told(
    earlier_session: bool,
    reattached: bool,
    budgeted: bool,
    answers: Seq<FollowAnswer>,
)
    ensures
        ({
            let now = Following::starting(earlier_session, reattached, budgeted).after(answers);
            &&& now.earlier_session == earlier_session && now.reattached == reattached
                && now.budgeted == budgeted
            &&& now.act() == FollowAction::Assess || now.act() == FollowAction::EmitExhaustion
                ==> budgeted
            &&& now.act() == FollowAction::Take(Treatment::Skip) ==> earlier_session
            &&& now.act() == FollowAction::Take(Treatment::Apply) ==> reattached
            &&& now.phase matches FollowPhase::Over(Followed::Ended { stands, end }) ==> {
                &&& end == FollowEnd::Detached ==> answers.contains(FollowAnswer::Interrupted(true))
                &&& end == FollowEnd::WoundDown ==> budgeted && answers.contains(
                    FollowAnswer::Exhausted(true),
                )
                &&& end == FollowEnd::FarRun ==> (stands != Standing::InProgress
                    && answers.contains(FollowAnswer::Stands(stands))) || (stands
                    == Standing::InProgress && answers.contains(FollowAnswer::Driving(false)) && (
                reattached || now.journaled))
                &&& stands == Standing::InProgress || end == FollowEnd::FarRun
            }
            &&& now.phase == FollowPhase::Over(Followed::Died) ==> !reattached && !now.journaled
                && answers.contains(FollowAnswer::Driving(false))
            &&& now.phase == FollowPhase::Over(Followed::Raised) ==> answers.contains(
                FollowAnswer::Failed,
            )
        }),
{
    lemma_follow_history(earlier_session, reattached, budgeted, answers);
}

proof fn lemma_follow_history(
    earlier_session: bool,
    reattached: bool,
    budgeted: bool,
    answers: Seq<FollowAnswer>,
)
    ensures
        ({
            let now = Following::starting(earlier_session, reattached, budgeted).after(answers);
            &&& now.earlier_session == earlier_session && now.reattached == reattached
                && now.budgeted == budgeted
            &&& (now.phase is Assessing || now.phase is Exhausted || now.phase is Due) ==> budgeted
            &&& now.phase is Exhausted ==> answers.contains(FollowAnswer::Exhausted(true))
            &&& now.phase matches FollowPhase::Taking { treatment, .. } ==> (treatment
                == Treatment::Skip ==> earlier_session) && (treatment == Treatment::Apply
                ==> reattached)
            &&& now.phase matches FollowPhase::Over(Followed::Ended { stands, end }) ==> {
                &&& end == FollowEnd::Detached ==> answers.contains(FollowAnswer::Interrupted(true))
                &&& end == FollowEnd::WoundDown ==> budgeted && answers.contains(
                    FollowAnswer::Exhausted(true),
                )
                &&& end == FollowEnd::FarRun ==> (stands != Standing::InProgress
                    && answers.contains(FollowAnswer::Stands(stands))) || (stands
                    == Standing::InProgress && answers.contains(FollowAnswer::Driving(false)) && (
                reattached || now.journaled))
                &&& stands == Standing::InProgress || end == FollowEnd::FarRun
            }
            &&& now.phase == FollowPhase::Over(Followed::Died) ==> !reattached && !now.journaled
                && answers.contains(FollowAnswer::Driving(false))
            &&& now.phase == FollowPhase::Over(Followed::Raised) ==> answers.contains(
                FollowAnswer::Failed,
            )
        }),
    decreases answers.len(),
{
    if answers.len() > 0 {
        let rest = answers.drop_last();
        lemma_follow_history(earlier_session, reattached, budgeted, rest);
        assert(answers[answers.len() - 1] == answers.last());
        assert forall|a: FollowAnswer| rest.contains(a) implies answers.contains(a) by {
            let k = choose|k: int| 0 <= k < rest.len() && rest[k] == a;
            assert(answers[k] == a);
        }
    }
}

/// The records of an earlier session, delivered by the first poll of a follow
/// opened before the start, are skipped and do not count as the run's own; the
/// replay of a reattach is applied and not emitted; everything after the first
/// poll is applied and emitted.
pub proof fn the_first_poll_is_what_it_was_opened_on(at: Following, empty: bool)
    requires
        at.phase == FollowPhase::Polling,
    ensures
        ({
            let now = at.next(FollowAnswer::Polled { empty });
            &&& !now.first
            &&& at.first && at.earlier_session ==> now.act() == FollowAction::Take(Treatment::Skip)
                && now.journaled == at.journaled
            &&& at.first && !at.earlier_session && at.reattached ==> now.act()
                == FollowAction::Take(Treatment::Apply)
            &&& !at.first || (!at.earlier_session && !at.reattached) ==> now.act()
                == FollowAction::Take(Treatment::ApplyAndEmit)
            &&& !(at.first && at.earlier_session) ==> now.journaled == (at.journaled || !empty)
        }),
{
}

/// A budget is assessed on the first tick that reaches it: a migration run again
/// under a ceiling already spent does not first watch for an interval.
pub proof fn the_first_tick_assesses(at: Following, empty: bool)
    requires
        at.phase == (FollowPhase::Interruptible { empty }),
        at.budgeted,
        !at.assessed,
    ensures
        at.next(FollowAnswer::Interrupted(false)).act() == FollowAction::Assess,
{
}

// ---- The session --------------------------------------------------------------------

/// Where a session is.
#[derive(Debug, Clone, Copy, PartialEq, Eq, Structural)]
pub enum SessionPhase {
    /// The destination is reached.
    Reaching(Contacting),
    /// The far configuration is synthesized.
    Synthesizing,
    /// It is written into the run's directory.
    Placing,
    /// Is the far side already driving this run?
    AskDriving,
    /// It is not: the key set is derived.
    DerivingKeys,
    /// The objects behind the keys are named.
    NamingObjects,
    /// The objects of the program the run carries are named.
    NamingClosure,
    /// All of it is pushed.
    Pushing,
    /// The follow is opened, on the journal as it stands.
    OpeningFollow,
    /// The far run is started.
    Starting { opened: bool },
    /// The follow is opened on a run that is going.
    Attaching { pid: u32, reattached: bool, attaching: Attaching },
    /// The far run is followed.
    Following { pid: u32, following: Following },
    /// The far run is waited for.
    Winding { stands: Standing, end: FollowEnd, wind: WindDown },
    /// Its results are brought home.
    Pulling { stands: Standing, end: FollowEnd },
    /// The run is settled.
    Settling(Settling),
    /// It is over.
    Over(SessionEnd),
}

/// How a session ended.
#[derive(Debug, Clone, Copy, PartialEq, Eq, Structural)]
pub enum SessionEnd {
    /// The run settled.
    Settled(Settled),
    /// This side let go.
    Detached,
    /// The destination was not reached in time; its refusal is the answer.
    TimedOut,
    /// The far run is gone, and the follow never attached.
    DiedUnattached,
    /// The far run is gone, and journaled nothing of its own.
    DiedUnjournaled,
    /// The follow was refused for too long; the refusal is the answer.
    Refused,
    /// The far run survived its termination.
    Survived(u32),
    /// An operation failed, and its failure is the answer.
    Raised,
}

/// What a session with the run on `machine` is answered with, where it ended so.
/// A session that settled has the outcome of its run; one that let go says where
/// the run was left. A far run that is gone is reported with what was observed
/// of it, the follow's `refusal` where it could not attach, and with the `tail`
/// of its log. An error of none is a failure that was met on the way, and that
/// failure is the answer.
pub fn session_outcome(
    end: SessionEnd,
    run: String,
    machine: &str,
    state: RunState,
    refusal: &str,
    tail: Result<&str, &str>,
) -> (r: Result<MigrateOutcome, Option<Fault>>)
    ensures
        match end {
            SessionEnd::Settled(settled) => crate::far_run::is_settled_answer(
                settled,
                run,
                state,
                r,
            ),
            SessionEnd::Detached => r matches Ok(MigrateOutcome::Detached { run: id, machine: at })
                && id == run && at@ == machine@,
            SessionEnd::DiedUnattached => crate::far_run::is_refusal(
                r,
                crate::far_run::died_text(
                    machine@,
                    unattachable_text(refusal@),
                    crate::far_run::tail_view(tail),
                ),
            ),
            SessionEnd::DiedUnjournaled => crate::far_run::is_refusal(
                r,
                crate::far_run::died_text(
                    machine@,
                    "ended before it journaled anything"@,
                    crate::far_run::tail_view(tail),
                ),
            ),
            SessionEnd::Survived(pid) => crate::far_run::is_refusal(
                r,
                crate::far_run::survived_text(machine@, pid as nat),
            ),
            SessionEnd::TimedOut | SessionEnd::Refused | SessionEnd::Raised => r == Err::<
                MigrateOutcome,
                Option<Fault>,
            >(None),
        },
{
    match end {
        SessionEnd::Settled(settled) => match settled_outcome(settled, run, state) {
            Some(outcome) => Ok(outcome),
            None => Err(None),
        },
        SessionEnd::Detached => Ok(MigrateOutcome::Detached { run, machine: machine.to_owned() }),
        SessionEnd::DiedUnattached => {
            let what: String = unattachable(refusal);
            Err(Some(died(machine, what.as_str(), tail)))
        },
        SessionEnd::DiedUnjournaled => Err(Some(died(machine, unjournaled(), tail))),
        SessionEnd::Survived(pid) => Err(Some(survived(machine, pid))),
        SessionEnd::TimedOut => Err(None),
        SessionEnd::Refused => Err(None),
        SessionEnd::Raised => Err(None),
    }
}

/// What a session does next.
#[derive(Debug, Clone, Copy, PartialEq, Eq, Structural)]
pub enum SessionAction {
    Contact(ContactAction),
    Synthesize,
    Place,
    AskDriving,
    DeriveKeys,
    NameObjects,
    NameClosure,
    Push,
    OpenFollow,
    Start,
    Attach(AttachAction),
    Follow(FollowAction),
    Wind(WindAction),
    Pull,
    ReadKeys,
    WriteManifest,
    Finish(SessionEnd),
}

/// What came of an action of a session.
#[derive(Debug, Clone, Copy, PartialEq, Eq, Structural)]
pub enum SessionAnswer {
    Contact(ContactAnswer),
    Done,
    Driving(Option<u32>),
    /// Whether the follow opened.
    Opened(bool),
    /// The process the start reported.
    Started(u32),
    Attach(AttachAnswer),
    Follow(FollowAnswer),
    Wind(WindAnswer),
    Settle(SettleAnswer),
    Failed,
}

/// One migration, past the destination's resolution: from reaching the machine
/// to settling the run.
#[derive(Debug, Clone, Copy, PartialEq, Eq, Structural)]
pub struct Session {
    /// The machine is rented, so there is a budget to keep.
    pub rented: bool,
    /// The run carries a program.
    pub registered: bool,
    /// Where the session is.
    pub phase: SessionPhase,
}

impl Session {
    /// A session before anything was done.
    pub open spec fn starting(rented: bool, registered: bool) -> Session {
        Session { rented, registered, phase: SessionPhase::Reaching(Contacting::Asking) }
    }

    /// This session in another phase.
    pub open spec fn at(self, phase: SessionPhase) -> Session {
        Session { phase, ..self }
    }

    /// This session, over in this way.
    pub open spec fn over(self, end: SessionEnd) -> Session {
        self.at(SessionPhase::Over(end))
    }

    /// The action a phase calls for.
    pub open spec fn act(self) -> SessionAction {
        match self.phase {
            SessionPhase::Reaching(contact) => SessionAction::Contact(contact.act()),
            SessionPhase::Synthesizing => SessionAction::Synthesize,
            SessionPhase::Placing => SessionAction::Place,
            SessionPhase::AskDriving => SessionAction::AskDriving,
            SessionPhase::DerivingKeys => SessionAction::DeriveKeys,
            SessionPhase::NamingObjects => SessionAction::NameObjects,
            SessionPhase::NamingClosure => SessionAction::NameClosure,
            SessionPhase::Pushing => SessionAction::Push,
            SessionPhase::OpeningFollow => SessionAction::OpenFollow,
            SessionPhase::Starting { .. } => SessionAction::Start,
            SessionPhase::Attaching { attaching, .. } => SessionAction::Attach(attaching.act()),
            SessionPhase::Following { following, .. } => SessionAction::Follow(following.act()),
            SessionPhase::Winding { wind, .. } => SessionAction::Wind(wind.act()),
            SessionPhase::Pulling { .. } => SessionAction::Pull,
            SessionPhase::Settling(Settling::ReadKeys { .. }) => SessionAction::ReadKeys,
            SessionPhase::Settling(Settling::WriteManifest) => SessionAction::WriteManifest,
            SessionPhase::Settling(Settling::Settled(settled)) => SessionAction::Finish(
                SessionEnd::Settled(settled),
            ),
            SessionPhase::Over(end) => SessionAction::Finish(end),
        }
    }

    /// Where a contact in progress leaves the session.
    pub open spec fn reached(self, contact: Contacting) -> Session {
        match contact {
            Contacting::Over(ContactEnd::Answered) => self.at(SessionPhase::Synthesizing),
            Contacting::Over(ContactEnd::TimedOut) => self.over(SessionEnd::TimedOut),
            Contacting::Over(ContactEnd::Raised) => self.over(SessionEnd::Raised),
            _ => self.at(SessionPhase::Reaching(contact)),
        }
    }

    /// Where the opening of a follow leaves the session.
    pub open spec fn attached(self, pid: u32, reattached: bool, attaching: Attaching) -> Session {
        match attaching {
            Attaching::Over(AttachEnd::Attached) => self.at(
                SessionPhase::Following {
                    pid,
                    following: Following::starting(false, reattached, self.rented),
                },
            ),
            Attaching::Over(AttachEnd::Died) => self.over(SessionEnd::DiedUnattached),
            Attaching::Over(AttachEnd::Refused) => self.over(SessionEnd::Refused),
            Attaching::Over(AttachEnd::Raised) => self.over(SessionEnd::Raised),
            _ => self.at(SessionPhase::Attaching { pid, reattached, attaching }),
        }
    }

    /// Where a follow leaves the session: letting go signals nothing and waits
    /// for nothing.
    pub open spec fn followed(self, pid: u32, following: Following) -> Session {
        match following.phase {
            FollowPhase::Over(Followed::Ended { stands, end }) => match end {
                FollowEnd::Detached => self.over(SessionEnd::Detached),
                FollowEnd::FarRun => self.at(
                    SessionPhase::Winding { stands, end, wind: WindDown::starting(pid, false) },
                ),
                FollowEnd::WoundDown => self.at(
                    SessionPhase::Winding { stands, end, wind: WindDown::starting(pid, true) },
                ),
            },
            FollowPhase::Over(Followed::Died) => self.over(SessionEnd::DiedUnjournaled),
            FollowPhase::Over(Followed::Raised) => self.over(SessionEnd::Raised),
            _ => self.at(SessionPhase::Following { pid, following }),
        }
    }

    /// Where a wind-down leaves the session.
    pub open spec fn wound(self, stands: Standing, end: FollowEnd, wind: WindDown) -> Session {
        match wind.phase {
            WindPhase::Over(WindEnd::Gone) => self.at(SessionPhase::Pulling { stands, end }),
            WindPhase::Over(WindEnd::Survived) => self.over(SessionEnd::Survived(wind.pid)),
            WindPhase::Over(WindEnd::Raised) => self.over(SessionEnd::Raised),
            _ => self.at(SessionPhase::Winding { stands, end, wind }),
        }
    }

    /// Where settling leaves the session.
    pub open spec fn settling(self, settling: Settling) -> Session {
        match settling {
            Settling::Settled(Settled::Raised) => self.over(SessionEnd::Raised),
            Settling::Settled(settled) => self.over(SessionEnd::Settled(settled)),
            _ => self.at(SessionPhase::Settling(settling)),
        }
    }

    /// Where an answer takes the session.
    pub open spec fn next(self, answer: SessionAnswer) -> Session {
        match (self.phase, answer) {
            (SessionPhase::Over(_), _) => self,
            (SessionPhase::Reaching(contact), SessionAnswer::Contact(a)) => self.reached(
                contact.next(a),
            ),
            (SessionPhase::Reaching(_), _) => self,
            (SessionPhase::Attaching { pid, reattached, attaching }, SessionAnswer::Attach(a)) => {
                self.attached(pid, reattached, attaching.next(a))
            },
            (SessionPhase::Attaching { .. }, _) => self,
            (SessionPhase::Following { pid, following }, SessionAnswer::Follow(a)) => self.followed(
                pid,
                following.next(a),
            ),
            (SessionPhase::Following { .. }, _) => self,
            (SessionPhase::Winding { stands, end, wind }, SessionAnswer::Wind(a)) => self.wound(
                stands,
                end,
                wind.next(a),
            ),
            (SessionPhase::Winding { .. }, _) => self,
            (SessionPhase::Settling(at), SessionAnswer::Settle(a)) => self.settling(at.next(a)),
            (SessionPhase::Settling(_), _) => self,
            (_, SessionAnswer::Failed) => self.over(SessionEnd::Raised),
            (SessionPhase::Synthesizing, SessionAnswer::Done) => self.at(SessionPhase::Placing),
            (SessionPhase::Placing, SessionAnswer::Done) => self.at(SessionPhase::AskDriving),
            (SessionPhase::AskDriving, SessionAnswer::Driving(Some(pid))) => self.at(
                SessionPhase::Attaching { pid, reattached: true, attaching: Attaching::Opening },
            ),
            (SessionPhase::AskDriving, SessionAnswer::Driving(None)) => self.at(
                SessionPhase::DerivingKeys,
            ),
            (SessionPhase::DerivingKeys, SessionAnswer::Done) => self.at(
                SessionPhase::NamingObjects,
            ),
            (SessionPhase::NamingObjects, SessionAnswer::Done) => if self.registered {
                self.at(SessionPhase::NamingClosure)
            } else {
                self.at(SessionPhase::Pushing)
            },
            (SessionPhase::NamingClosure, SessionAnswer::Done) => self.at(SessionPhase::Pushing),
            (SessionPhase::Pushing, SessionAnswer::Done) => self.at(SessionPhase::OpeningFollow),
            (SessionPhase::OpeningFollow, SessionAnswer::Opened(opened)) => self.at(
                SessionPhase::Starting { opened },
            ),
            (SessionPhase::Starting { opened }, SessionAnswer::Started(pid)) => if opened {
                self.at(
                    SessionPhase::Following {
                        pid,
                        following: Following::starting(true, false, self.rented),
                    },
                )
            } else {
                self.at(
                    SessionPhase::Attaching {
                        pid,
                        reattached: false,
                        attaching: Attaching::Opening,
                    },
                )
            },
            (SessionPhase::Pulling { stands, end }, SessionAnswer::Done) => self.settling(
                Settling::starting(stands, end),
            ),
            _ => self,
        }
    }

    /// Begins a session.
    pub fn begin(rented: bool, registered: bool) -> (r: Session)
        ensures
            r == Session::starting(rented, registered),
    {
        Session { rented, registered, phase: SessionPhase::Reaching(Contacting::Asking) }
    }

    /// What to do next.
    pub fn action(&self) -> (r: SessionAction)
        ensures
            r == self.act(),
    {
        match self.phase {
            SessionPhase::Reaching(contact) => SessionAction::Contact(contact.action()),
            SessionPhase::Synthesizing => SessionAction::Synthesize,
            SessionPhase::Placing => SessionAction::Place,
            SessionPhase::AskDriving => SessionAction::AskDriving,
            SessionPhase::DerivingKeys => SessionAction::DeriveKeys,
            SessionPhase::NamingObjects => SessionAction::NameObjects,
            SessionPhase::NamingClosure => SessionAction::NameClosure,
            SessionPhase::Pushing => SessionAction::Push,
            SessionPhase::OpeningFollow => SessionAction::OpenFollow,
            SessionPhase::Starting { .. } => SessionAction::Start,
            SessionPhase::Attaching { attaching, .. } => SessionAction::Attach(attaching.action()),
            SessionPhase::Following { following, .. } => SessionAction::Follow(following.action()),
            SessionPhase::Winding { wind, .. } => SessionAction::Wind(wind.action()),
            SessionPhase::Pulling { .. } => SessionAction::Pull,
            SessionPhase::Settling(Settling::ReadKeys { .. }) => SessionAction::ReadKeys,
            SessionPhase::Settling(Settling::WriteManifest) => SessionAction::WriteManifest,
            SessionPhase::Settling(Settling::Settled(settled)) => SessionAction::Finish(
                SessionEnd::Settled(settled),
            ),
            SessionPhase::Over(end) => SessionAction::Finish(end),
        }
    }

    fn to(self, phase: SessionPhase) -> (r: Session)
        ensures
            r == self.at(phase),
    {
        Session { phase, ..self }
    }

    fn finish(self, end: SessionEnd) -> (r: Session)
        ensures
            r == self.over(end),
    {
        Session { phase: SessionPhase::Over(end), ..self }
    }

    fn after_contact(self, contact: Contacting) -> (r: Session)
        ensures
            r == self.reached(contact),
    {
        match contact {
            Contacting::Over(ContactEnd::Answered) => self.to(SessionPhase::Synthesizing),
            Contacting::Over(ContactEnd::TimedOut) => self.finish(SessionEnd::TimedOut),
            Contacting::Over(ContactEnd::Raised) => self.finish(SessionEnd::Raised),
            contact => self.to(SessionPhase::Reaching(contact)),
        }
    }

    fn after_attach(self, pid: u32, reattached: bool, attaching: Attaching) -> (r: Session)
        ensures
            r == self.attached(pid, reattached, attaching),
    {
        match attaching {
            Attaching::Over(AttachEnd::Attached) => {
                let following: Following = Following::begin(false, reattached, self.rented);
                self.to(SessionPhase::Following { pid, following })
            },
            Attaching::Over(AttachEnd::Died) => self.finish(SessionEnd::DiedUnattached),
            Attaching::Over(AttachEnd::Refused) => self.finish(SessionEnd::Refused),
            Attaching::Over(AttachEnd::Raised) => self.finish(SessionEnd::Raised),
            attaching => self.to(SessionPhase::Attaching { pid, reattached, attaching }),
        }
    }

    fn after_follow(self, pid: u32, following: Following) -> (r: Session)
        ensures
            r == self.followed(pid, following),
    {
        match following.phase {
            FollowPhase::Over(Followed::Ended { stands, end }) => match end {
                FollowEnd::Detached => self.finish(SessionEnd::Detached),
                FollowEnd::FarRun => {
                    let wind: WindDown = WindDown::begin(pid, false);
                    self.to(SessionPhase::Winding { stands, end, wind })
                },
                FollowEnd::WoundDown => {
                    let wind: WindDown = WindDown::begin(pid, true);
                    self.to(SessionPhase::Winding { stands, end, wind })
                },
            },
            FollowPhase::Over(Followed::Died) => self.finish(SessionEnd::DiedUnjournaled),
            FollowPhase::Over(Followed::Raised) => self.finish(SessionEnd::Raised),
            _ => self.to(SessionPhase::Following { pid, following }),
        }
    }

    fn after_wind(self, stands: Standing, end: FollowEnd, wind: WindDown) -> (r: Session)
        ensures
            r == self.wound(stands, end, wind),
    {
        match wind.phase {
            WindPhase::Over(WindEnd::Gone) => self.to(SessionPhase::Pulling { stands, end }),
            WindPhase::Over(WindEnd::Survived) => self.finish(SessionEnd::Survived(wind.pid)),
            WindPhase::Over(WindEnd::Raised) => self.finish(SessionEnd::Raised),
            _ => self.to(SessionPhase::Winding { stands, end, wind }),
        }
    }

    fn after_settling(self, settling: Settling) -> (r: Session)
        ensures
            r == self.settling(settling),
    {
        match settling {
            Settling::Settled(Settled::Raised) => self.finish(SessionEnd::Raised),
            Settling::Settled(settled) => self.finish(SessionEnd::Settled(settled)),
            settling => self.to(SessionPhase::Settling(settling)),
        }
    }

    /// Takes the answer to the action.
    pub fn step(self, answer: SessionAnswer) -> (r: Session)
        ensures
            r == self.next(answer),
    {
        match (self.phase, answer) {
            (SessionPhase::Over(_), _) => self,
            (SessionPhase::Reaching(contact), SessionAnswer::Contact(a)) => self.after_contact(
                contact.step(a),
            ),
            (SessionPhase::Reaching(_), _) => self,
            (SessionPhase::Attaching { pid, reattached, attaching }, SessionAnswer::Attach(a)) => {
                self.after_attach(pid, reattached, attaching.step(a))
            },
            (SessionPhase::Attaching { .. }, _) => self,
            (SessionPhase::Following { pid, following }, SessionAnswer::Follow(a)) => {
                self.after_follow(pid, following.step(a))
            },
            (SessionPhase::Following { .. }, _) => self,
            (SessionPhase::Winding { stands, end, wind }, SessionAnswer::Wind(a)) => {
                self.after_wind(stands, end, wind.step(a))
            },
            (SessionPhase::Winding { .. }, _) => self,
            (SessionPhase::Settling(at), SessionAnswer::Settle(a)) => self.after_settling(
                at.step(a),
            ),
            (SessionPhase::Settling(_), _) => self,
            (_, SessionAnswer::Failed) => self.finish(SessionEnd::Raised),
            (SessionPhase::Synthesizing, SessionAnswer::Done) => self.to(SessionPhase::Placing),
            (SessionPhase::Placing, SessionAnswer::Done) => self.to(SessionPhase::AskDriving),
            (SessionPhase::AskDriving, SessionAnswer::Driving(Some(pid))) => self.to(
                SessionPhase::Attaching { pid, reattached: true, attaching: Attaching::Opening },
            ),
            (SessionPhase::AskDriving, SessionAnswer::Driving(None)) => self.to(
                SessionPhase::DerivingKeys,
            ),
            (SessionPhase::DerivingKeys, SessionAnswer::Done) => self.to(
                SessionPhase::NamingObjects,
            ),
            (SessionPhase::NamingObjects, SessionAnswer::Done) => {
                if self.registered {
                    self.to(SessionPhase::NamingClosure)
                } else {
                    self.to(SessionPhase::Pushing)
                }
            },
            (SessionPhase::NamingClosure, SessionAnswer::Done) => self.to(SessionPhase::Pushing),
            (SessionPhase::Pushing, SessionAnswer::Done) => self.to(SessionPhase::OpeningFollow),
            (SessionPhase::OpeningFollow, SessionAnswer::Opened(opened)) => self.to(
                SessionPhase::Starting { opened },
            ),
            (SessionPhase::Starting { opened }, SessionAnswer::Started(pid)) => {
                if opened {
                    let following: Following = Following::begin(true, false, self.rented);
                    self.to(SessionPhase::Following { pid, following })
                } else {
                    self.to(
                        SessionPhase::Attaching {
                            pid,
                            reattached: false,
                            attaching: Attaching::Opening,
                        },
                    )
                }
            },
            (SessionPhase::Pulling { stands, end }, SessionAnswer::Done) => self.after_settling(
                Settling::begin(stands, end),
            ),
            _ => self,
        }
    }

    /// The session after the answers, one after another.
    pub open spec fn after(self, answers: Seq<SessionAnswer>) -> Session
        decreases answers.len(),
    {
        if answers.len() == 0 {
            self
        } else {
            self.after(answers.drop_last()).next(answers.last())
        }
    }

    /// What a session waits for inside a phase is not over yet.
    pub open spec fn wf(self) -> bool {
        match self.phase {
            SessionPhase::Reaching(contact) => !(contact is Over),
            SessionPhase::Attaching { attaching, .. } => !(attaching is Over),
            SessionPhase::Following { following, .. } => !(following.phase is Over),
            SessionPhase::Winding { wind, .. } => !(wind.phase is Over),
            SessionPhase::Settling(settling) => !(settling is Settled),
            _ => true,
        }
    }

    /// How far along the choreography a phase is.
    pub open spec fn rank(self) -> nat {
        match self.phase {
            SessionPhase::Reaching(_) => 0,
            SessionPhase::Synthesizing => 1,
            SessionPhase::Placing => 2,
            SessionPhase::AskDriving => 3,
            SessionPhase::DerivingKeys => 4,
            SessionPhase::NamingObjects => 5,
            SessionPhase::NamingClosure => 6,
            SessionPhase::Pushing => 7,
            SessionPhase::OpeningFollow => 8,
            SessionPhase::Starting { .. } => 9,
            SessionPhase::Attaching { .. } => 10,
            SessionPhase::Following { .. } => 11,
            SessionPhase::Winding { .. } => 12,
            SessionPhase::Pulling { .. } => 13,
            SessionPhase::Settling(_) => 14,
            SessionPhase::Over(_) => 15,
        }
    }
}

/// Every state a session reaches is well formed.
pub proof fn a_session_stays_well_formed(at: Session, answers: Seq<SessionAnswer>)
    requires
        at.wf(),
    ensures
        at.after(answers).wf(),
    decreases answers.len(),
{
    if answers.len() > 0 {
        a_session_stays_well_formed(at, answers.drop_last());
    }
}

/// A session never goes back: whatever is answered, it is at least as far along
/// as it was, and it is the same migration.
pub proof fn a_session_never_goes_back(at: Session, answers: Seq<SessionAnswer>)
    ensures
        at.after(answers).rank() >= at.rank(),
        at.after(answers).rented == at.rented,
        at.after(answers).registered == at.registered,
    decreases answers.len(),
{
    if answers.len() > 0 {
        a_session_never_goes_back(at, answers.drop_last());
    }
}

/// A far side that is already driving is neither pushed to nor started: from
/// that answer on, nothing before the attach happens again.
pub proof fn a_reattach_neither_pushes_nor_starts(
    at: Session,
    pid: u32,
    answers: Seq<SessionAnswer>,
)
    requires
        at.phase == SessionPhase::AskDriving,
    ensures
        ({
            let now = at.next(SessionAnswer::Driving(Some(pid))).after(answers);
            now.act() != SessionAction::DeriveKeys && now.act() != SessionAction::NameObjects
                && now.act() != SessionAction::NameClosure && now.act() != SessionAction::Push
                && now.act() != SessionAction::OpenFollow && now.act() != SessionAction::Start
        }),
{
    a_session_never_goes_back(at.next(SessionAnswer::Driving(Some(pid))), answers);
}

/// Each step of the choreography is reached only through the one before it: the
/// directory is placed before anything is asked of the run, the closure pushed
/// before the follow is opened, the follow opened before the far run is
/// started, and the far run gone before anything is pulled.
pub proof fn the_choreography_is_in_order(at: Session, answer: SessionAnswer)
    requires
        at.wf(),
        at.next(answer).phase != at.phase,
    ensures
        ({
            let now = at.next(answer);
            &&& now.phase is Synthesizing ==> at.phase is Reaching && answer
                == SessionAnswer::Contact(ContactAnswer::Answered)
            &&& now.phase is Placing ==> at.phase is Synthesizing && answer == SessionAnswer::Done
            &&& now.phase is AskDriving ==> at.phase is Placing && answer == SessionAnswer::Done
            &&& now.phase is DerivingKeys ==> at.phase is AskDriving && answer
                == SessionAnswer::Driving(None)
            &&& now.phase is NamingObjects ==> at.phase is DerivingKeys
            &&& now.phase is NamingClosure ==> at.phase is NamingObjects && at.registered
            &&& now.phase is Pushing ==> at.phase is NamingClosure || (at.phase is NamingObjects
                && !at.registered)
            &&& now.phase is OpeningFollow ==> at.phase is Pushing && answer == SessionAnswer::Done
            &&& now.phase is Starting ==> at.phase is OpeningFollow
            &&& now.phase is Pulling ==> at.phase is Winding && answer == SessionAnswer::Wind(
                WindAnswer::Driving(None),
            )
            &&& now.phase == SessionPhase::Over(SessionEnd::Detached) ==> at.phase is Following
                && answer == SessionAnswer::Follow(FollowAnswer::Interrupted(true))
        }),
{
}

/// A migration that let go did nothing to the far run: it never signalled or
/// terminated it, pulled nothing, and settled nothing.
pub proof fn letting_go_leaves_the_far_run_alone(
    rented: bool,
    registered: bool,
    answers: Seq<SessionAnswer>,
    k: int,
)
    requires
        Session::starting(rented, registered).after(answers).phase == SessionPhase::Over(
            SessionEnd::Detached,
        ),
        0 <= k <= answers.len(),
    ensures
        ({
            let midway = Session::starting(rented, registered).after(answers.take(k));
            !(midway.act() is Wind) && midway.act() != SessionAction::Pull && midway.act()
                != SessionAction::ReadKeys && midway.act() != SessionAction::WriteManifest
        }),
{
    lemma_letting_go(Session::starting(rented, registered), answers, k);
}

proof fn lemma_letting_go(start: Session, answers: Seq<SessionAnswer>, k: int)
    requires
        start.rank() <= 11,
        0 <= k <= answers.len(),
        start.after(answers).rank() <= 11 || start.after(answers).phase == SessionPhase::Over(
            SessionEnd::Detached,
        ),
    ensures
        start.after(answers.take(k)).rank() <= 11 || start.after(answers.take(k)).phase
            == SessionPhase::Over(SessionEnd::Detached),
    decreases answers.len(),
{
    if k == answers.len() {
        assert(answers.take(k) =~= answers);
    } else {
        let rest = answers.drop_last();
        assert(rest.take(k) =~= answers.take(k));
        assert(start.after(rest).next(answers.last()) == start.after(answers));
        lemma_letting_go(start, rest, k);
    }
}

/// Nothing is pulled and nothing settled before the far side answered that
/// nothing is driving.
pub proof fn nothing_is_pulled_under_a_driving_run(
    rented: bool,
    registered: bool,
    answers: Seq<SessionAnswer>,
)
    ensures
        ({
            let now = Session::starting(rented, registered).after(answers);
            (now.phase is Pulling || now.phase is Settling || now.phase matches SessionPhase::Over(
                SessionEnd::Settled(_),
            )) ==> answers.contains(SessionAnswer::Wind(WindAnswer::Driving(None)))
        }),
    decreases answers.len(),
{
    if answers.len() > 0 {
        let rest = answers.drop_last();
        nothing_is_pulled_under_a_driving_run(rented, registered, rest);
        a_session_stays_well_formed(Session::starting(rented, registered), rest);
        assert(answers[answers.len() - 1] == answers.last());
        assert forall|a: SessionAnswer| rest.contains(a) implies answers.contains(a) by {
            let k = choose|k: int| 0 <= k < rest.len() && rest[k] == a;
            assert(answers[k] == a);
        }
    }
}

impl Routine for Session {
    type Action = SessionAction;

    type Answer = SessionAnswer;

    open spec fn calls_for(self) -> SessionAction {
        self.act()
    }

    open spec fn reached(self, answers: Seq<SessionAnswer>) -> Session {
        self.after(answers)
    }

    open spec fn can_answer(action: SessionAction, answer: SessionAnswer) -> bool {
        match action {
            SessionAction::Contact(of) => answer matches SessionAnswer::Contact(a)
                && Contacting::can_answer(of, a),
            SessionAction::Attach(of) => answer matches SessionAnswer::Attach(a)
                && Attaching::can_answer(of, a),
            SessionAction::Follow(of) => answer matches SessionAnswer::Follow(a)
                && Following::can_answer(of, a),
            SessionAction::Wind(of) => answer matches SessionAnswer::Wind(a)
                && WindDown::can_answer(of, a),
            SessionAction::ReadKeys => answer matches SessionAnswer::Settle(a) && (a is Missing
                || a is Failed),
            SessionAction::WriteManifest => answer matches SessionAnswer::Settle(a) && (
            a is Written || a is Failed),
            SessionAction::AskDriving => answer is Driving || answer is Failed,
            SessionAction::OpenFollow => answer is Opened || answer is Failed,
            SessionAction::Start => answer is Started || answer is Failed,
            SessionAction::Finish(_) => false,
            _ => answer is Done || answer is Failed,
        }
    }
}

/// What the first contact of a session was told.
pub open spec fn contact_told(start: Session, answers: Seq<SessionAnswer>) -> Seq<ContactAnswer>
    decreases answers.len(),
{
    if answers.len() == 0 {
        Seq::empty()
    } else {
        let told = contact_told(start, answers.drop_last());
        match (start.after(answers.drop_last()).act(), answers.last()) {
            (SessionAction::Contact(of), SessionAnswer::Contact(a)) if Contacting::can_answer(of, a) => {
                told.push(a)
            },
            _ => told,
        }
    }
}

/// What the opening of a session's follow was told.
pub open spec fn attach_told(start: Session, answers: Seq<SessionAnswer>) -> Seq<AttachAnswer>
    decreases answers.len(),
{
    if answers.len() == 0 {
        Seq::empty()
    } else {
        let told = attach_told(start, answers.drop_last());
        match (start.after(answers.drop_last()).act(), answers.last()) {
            (SessionAction::Attach(of), SessionAnswer::Attach(a)) if Attaching::can_answer(of, a) => {
                told.push(a)
            },
            _ => told,
        }
    }
}

/// What a session's follow was told.
pub open spec fn follow_told(start: Session, answers: Seq<SessionAnswer>) -> Seq<FollowAnswer>
    decreases answers.len(),
{
    if answers.len() == 0 {
        Seq::empty()
    } else {
        let told = follow_told(start, answers.drop_last());
        match (start.after(answers.drop_last()).act(), answers.last()) {
            (SessionAction::Follow(of), SessionAnswer::Follow(a)) if Following::can_answer(of, a) => {
                told.push(a)
            },
            _ => told,
        }
    }
}

/// What a session's wait for its far run was told.
pub open spec fn wind_told(start: Session, answers: Seq<SessionAnswer>) -> Seq<WindAnswer>
    decreases answers.len(),
{
    if answers.len() == 0 {
        Seq::empty()
    } else {
        let told = wind_told(start, answers.drop_last());
        match (start.after(answers.drop_last()).act(), answers.last()) {
            (SessionAction::Wind(of), SessionAnswer::Wind(a)) if WindDown::can_answer(of, a) => {
                told.push(a)
            },
            _ => told,
        }
    }
}

/// The far process a session is about: the one that was found driving, or the
/// one it started.
pub open spec fn far_process(start: Session, answers: Seq<SessionAnswer>) -> Option<u32> {
    match crate::routine::answer_to(start, answers, SessionAction::AskDriving) {
        Some(SessionAnswer::Driving(Some(pid))) => Some(pid),
        _ => match crate::routine::answer_to(start, answers, SessionAction::Start) {
            Some(SessionAnswer::Started(pid)) => Some(pid),
            _ => None,
        },
    }
}

/// The follow of a session, where it is: of an earlier session's journal where
/// it opened before the start, of a run that was going where one was found
/// driving, and under a budget where the machine is rented.
pub open spec fn follow_of(start: Session, answers: Seq<SessionAnswer>) -> Following {
    Following::starting(
        crate::routine::answer_to(start, answers, SessionAction::OpenFollow) == Some(
            SessionAnswer::Opened(true),
        ),
        crate::routine::answer_to(start, answers, SessionAction::AskDriving) matches Some(
            SessionAnswer::Driving(Some(_)),
        ),
        start.rented,
    ).after(follow_told(start, answers))
}

/// How a session gets its run going, from what it did last. The machine is
/// reached, and the run's directory placed; a far side that is driving is
/// attached to; one that is not is given what the run needs, and the program it
/// carries, and then started, with the follow opened before.
#[verifier::rlimit(40)]
pub proof fn how_a_session_gets_the_run_going(
    rented: bool,
    registered: bool,
    answers: Seq<SessionAnswer>,
)
    ensures
        ({
            let start = Session::starting(rented, registered);
            let act = start.after(answers).act();
            match crate::routine::last_done(start, answers) {
                None => act == SessionAction::Contact(ContactAction::AskDevices),
                Some((_, SessionAnswer::Failed)) => act == SessionAction::Finish(
                    SessionEnd::Raised,
                ),
                Some((SessionAction::Synthesize, _)) => act == SessionAction::Place,
                Some((SessionAction::Place, _)) => act == SessionAction::AskDriving,
                Some((_, SessionAnswer::Driving(Some(_)))) => act == SessionAction::Attach(
                    AttachAction::Open,
                ),
                Some((_, SessionAnswer::Driving(None))) => act == SessionAction::DeriveKeys,
                Some((SessionAction::DeriveKeys, _)) => act == SessionAction::NameObjects,
                Some((SessionAction::NameObjects, _)) => act == if registered {
                    SessionAction::NameClosure
                } else {
                    SessionAction::Push
                },
                Some((SessionAction::NameClosure, _)) => act == SessionAction::Push,
                Some((SessionAction::Push, _)) => act == SessionAction::OpenFollow,
                Some((_, SessionAnswer::Opened(_))) => act == SessionAction::Start,
                Some((_, SessionAnswer::Started(_))) => act == if crate::routine::answer_to(
                    start,
                    answers,
                    SessionAction::OpenFollow,
                ) == Some(SessionAnswer::Opened(true)) {
                    SessionAction::Follow(FollowAction::Poll)
                } else {
                    SessionAction::Attach(AttachAction::Open)
                },
                Some(_) => true,
            }
        }),
    decreases answers.len(),
{
    if answers.len() > 0 {
        let start = Session::starting(rented, registered);
        let rest = answers.drop_last();
        let was = start.after(rest);
        lemma_attaching(start, rest);
        lemma_session_facts(start, rest);
        a_session_stays_well_formed(start, rest);
        if Session::can_answer(was.act(), answers.last()) {
            lemma_session_told(start, answers);
        } else {
            how_a_session_gets_the_run_going(rented, registered, rest);
            lemma_nothing_held(start, answers);
        }
    }
}

/// How the first contact and the opening of the follow leave a session: each
/// goes on by what it was told, and how it ended decides what comes after.
#[verifier::rlimit(40)]
pub proof fn how_a_session_waits_for_its_machine(
    rented: bool,
    registered: bool,
    answers: Seq<SessionAnswer>,
)
    ensures
        ({
            let start = Session::starting(rented, registered);
            let act = start.after(answers).act();
            match crate::routine::last_done(start, answers) {
                Some((_, SessionAnswer::Contact(_))) => act == match Contacting::Asking.after(
                    contact_told(start, answers),
                ).act() {
                    ContactAction::Finish(ContactEnd::Answered) => SessionAction::Synthesize,
                    ContactAction::Finish(ContactEnd::TimedOut) => SessionAction::Finish(
                        SessionEnd::TimedOut,
                    ),
                    ContactAction::Finish(ContactEnd::Raised) => SessionAction::Finish(
                        SessionEnd::Raised,
                    ),
                    of => SessionAction::Contact(of),
                },
                Some((_, SessionAnswer::Attach(_))) => act == match Attaching::Opening.after(
                    attach_told(start, answers),
                ).act() {
                    AttachAction::Finish(AttachEnd::Attached) => SessionAction::Follow(
                        FollowAction::Poll,
                    ),
                    AttachAction::Finish(AttachEnd::Died) => SessionAction::Finish(
                        SessionEnd::DiedUnattached,
                    ),
                    AttachAction::Finish(AttachEnd::Refused) => SessionAction::Finish(
                        SessionEnd::Refused,
                    ),
                    AttachAction::Finish(AttachEnd::Raised) => SessionAction::Finish(
                        SessionEnd::Raised,
                    ),
                    of => SessionAction::Attach(of),
                },
                _ => true,
            }
        }),
    decreases answers.len(),
{
    if answers.len() > 0 {
        let start = Session::starting(rented, registered);
        let rest = answers.drop_last();
        let was = start.after(rest);
        lemma_reaching(start, rest);
        lemma_attaching(start, rest);
        lemma_session_facts(start, rest);
        a_session_stays_well_formed(start, rest);
        if Session::can_answer(was.act(), answers.last()) {
            lemma_session_told(start, answers);
        } else {
            how_a_session_waits_for_its_machine(rented, registered, rest);
            lemma_nothing_held(start, answers);
        }
    }
}

/// How a session watches its run. The follow goes on by what it was told, and
/// how it ended decides how the far run is waited for: signalled where the
/// budget ran out, and not otherwise; letting go waits for nothing.
#[verifier::rlimit(40)]
pub proof fn how_a_session_watches_its_run(
    rented: bool,
    registered: bool,
    answers: Seq<SessionAnswer>,
)
    ensures
        ({
            let start = Session::starting(rented, registered);
            let act = start.after(answers).act();
            let pid = far_process(start, answers);
            let followed = follow_of(start, answers).act();
            match crate::routine::last_done(start, answers) {
                Some((_, SessionAnswer::Follow(_))) => pid is Some && act == match followed {
                    FollowAction::Finish(
                        Followed::Ended { end: FollowEnd::Detached, .. },
                    ) => SessionAction::Finish(SessionEnd::Detached),
                    FollowAction::Finish(
                        Followed::Ended { end: FollowEnd::FarRun, .. },
                    ) => SessionAction::Wind(WindAction::AskDriving),
                    FollowAction::Finish(
                        Followed::Ended { end: FollowEnd::WoundDown, .. },
                    ) => SessionAction::Wind(WindAction::Interrupt(pid->0)),
                    FollowAction::Finish(Followed::Died) => SessionAction::Finish(
                        SessionEnd::DiedUnjournaled,
                    ),
                    FollowAction::Finish(Followed::Raised) => SessionAction::Finish(
                        SessionEnd::Raised,
                    ),
                    of => SessionAction::Follow(of),
                },
                _ => true,
            }
        }),
    decreases answers.len(),
{
    if answers.len() > 0 {
        let start = Session::starting(rented, registered);
        let rest = answers.drop_last();
        let was = start.after(rest);
        lemma_following(start, rest);
        lemma_session_facts(start, rest);
        a_session_stays_well_formed(start, rest);
        if Session::can_answer(was.act(), answers.last()) {
            lemma_session_told(start, answers);
        } else {
            how_a_session_watches_its_run(rented, registered, rest);
            lemma_nothing_held(start, answers);
        }
    }
}

/// How a session sees its run off: the wait is for the process it was about,
/// signalled where the follow wound it down, and goes on by what it was told.
/// Only a far run that is gone is pulled from.
#[verifier::rlimit(40)]
pub proof fn how_a_session_sees_its_run_off(
    rented: bool,
    registered: bool,
    answers: Seq<SessionAnswer>,
)
    ensures
        ({
            let start = Session::starting(rented, registered);
            let act = start.after(answers).act();
            let pid = far_process(start, answers);
            let followed = follow_of(start, answers).act();
            match crate::routine::last_done(start, answers) {
                Some((_, SessionAnswer::Wind(_))) => {
                    &&& pid is Some
                    &&& followed matches FollowAction::Finish(Followed::Ended { end, .. })
                    &&& act == match WindDown::starting(pid->0, end == FollowEnd::WoundDown).after(
                        wind_told(start, answers),
                    ).act() {
                        WindAction::Finish(WindEnd::Gone) => SessionAction::Pull,
                        WindAction::Finish(WindEnd::Survived) => SessionAction::Finish(
                            SessionEnd::Survived(pid->0),
                        ),
                        WindAction::Finish(WindEnd::Raised) => SessionAction::Finish(
                            SessionEnd::Raised,
                        ),
                        of => SessionAction::Wind(of),
                    }
                },
                _ => true,
            }
        }),
    decreases answers.len(),
{
    if answers.len() > 0 {
        let start = Session::starting(rented, registered);
        let rest = answers.drop_last();
        let was = start.after(rest);
        lemma_winding(start, rest);
        lemma_session_facts(start, rest);
        a_session_stays_well_formed(start, rest);
        if Session::can_answer(was.act(), answers.last()) {
            lemma_session_told(start, answers);
        } else {
            how_a_session_sees_its_run_off(rented, registered, rest);
            lemma_nothing_held(start, answers);
        }
    }
}

/// How a session settles its run: what was pulled is settled as the follow stood
/// and ended, over what the store lacks.
#[verifier::rlimit(40)]
pub proof fn how_a_session_settles_its_run(
    rented: bool,
    registered: bool,
    answers: Seq<SessionAnswer>,
)
    ensures
        ({
            let start = Session::starting(rented, registered);
            let act = start.after(answers).act();
            let followed = follow_of(start, answers).act();
            match crate::routine::last_done(start, answers) {
                Some((SessionAction::Pull, SessionAnswer::Done)) => {
                    &&& followed matches FollowAction::Finish(Followed::Ended { stands, .. })
                    &&& act == if stands == Standing::Failed {
                        SessionAction::Finish(SessionEnd::Settled(Settled::Failed))
                    } else {
                        SessionAction::ReadKeys
                    }
                },
                Some((_, SessionAnswer::Settle(SettleAnswer::Failed))) => act
                    == SessionAction::Finish(SessionEnd::Raised),
                Some((_, SessionAnswer::Settle(SettleAnswer::Missing(n)))) => {
                    &&& followed matches FollowAction::Finish(Followed::Ended { stands, end })
                    &&& act == if end == FollowEnd::WoundDown || stands == Standing::Interrupted {
                        SessionAction::Finish(SessionEnd::Settled(Settled::Interrupted(n)))
                    } else if n > 0 {
                        SessionAction::Finish(SessionEnd::Settled(Settled::Outstanding(n)))
                    } else {
                        SessionAction::WriteManifest
                    }
                },
                Some((_, SessionAnswer::Settle(SettleAnswer::Written))) => act
                    == SessionAction::Finish(SessionEnd::Settled(Settled::Finalized)),
                _ => true,
            }
        }),
    decreases answers.len(),
{
    if answers.len() > 0 {
        let start = Session::starting(rented, registered);
        let rest = answers.drop_last();
        let was = start.after(rest);
        lemma_settling(start, rest);
        lemma_session_facts(start, rest);
        a_session_stays_well_formed(start, rest);
        if Session::can_answer(was.act(), answers.last()) {
            lemma_session_told(start, answers);
        } else {
            how_a_session_settles_its_run(rented, registered, rest);
            lemma_nothing_held(start, answers);
        }
    }
}

/// What a session's follow ended as is what the session goes on with.
spec fn ended_so(start: Session, answers: Seq<SessionAnswer>, stands: Standing, end: FollowEnd) -> bool {
    &&& follow_of(start, answers).phase == FollowPhase::Over(Followed::Ended { stands, end })
    &&& end != FollowEnd::Detached
}

proof fn lemma_reaching(start: Session, answers: Seq<SessionAnswer>)
    requires
        start.phase == SessionPhase::Reaching(Contacting::Asking),
    ensures
        ({
            start.after(answers).phase matches SessionPhase::Reaching(contact) ==> contact
                == Contacting::Asking.after(contact_told(start, answers))
        }),
    decreases answers.len(),
{
    if answers.len() > 0 {
        let rest = answers.drop_last();
        let was = start.after(rest);
        lemma_reaching(start, rest);
        lemma_session_facts(start, rest);
        a_session_stays_well_formed(start, rest);
        if Session::can_answer(was.act(), answers.last()) {
            lemma_session_facts(start, answers);
            lemma_session_told(start, answers);
            assert(start.after(answers) == was.next(answers.last()));
        } else {
            lemma_nothing_held(start, answers);
        }
    }
}

#[verifier::rlimit(40)]
proof fn lemma_attaching(start: Session, answers: Seq<SessionAnswer>)
    requires
        start.phase == SessionPhase::Reaching(Contacting::Asking),
    ensures
        ({
            let now = start.after(answers);
            let found = crate::routine::answer_to(start, answers, SessionAction::AskDriving);
            let opened = crate::routine::answer_to(start, answers, SessionAction::OpenFollow);
            &&& now.phase matches SessionPhase::Starting { opened: o } ==> opened == Some(
                SessionAnswer::Opened(o),
            )
            &&& now.phase matches SessionPhase::Attaching { pid, reattached, attaching } ==> {
                &&& attaching == Attaching::Opening.after(attach_told(start, answers))
                &&& far_process(start, answers) == Some(pid)
                &&& reattached == (found matches Some(SessionAnswer::Driving(Some(_))))
                &&& opened != Some(SessionAnswer::Opened(true))
            }
        }),
    decreases answers.len(),
{
    if answers.len() > 0 {
        let rest = answers.drop_last();
        let was = start.after(rest);
        lemma_attaching(start, rest);
        lemma_session_facts(start, rest);
        a_session_stays_well_formed(start, rest);
        if Session::can_answer(was.act(), answers.last()) {
            lemma_session_facts(start, answers);
            lemma_session_told(start, answers);
            assert(start.after(answers) == was.next(answers.last()));
        } else {
            lemma_nothing_held(start, answers);
        }
    }
}

#[verifier::rlimit(40)]
proof fn lemma_following(start: Session, answers: Seq<SessionAnswer>)
    requires
        start.phase == SessionPhase::Reaching(Contacting::Asking),
    ensures
        ({
            start.after(answers).phase matches SessionPhase::Following { pid, following } ==> {
                &&& following == follow_of(start, answers)
                &&& far_process(start, answers) == Some(pid)
            }
        }),
    decreases answers.len(),
{
    if answers.len() > 0 {
        let rest = answers.drop_last();
        let was = start.after(rest);
        lemma_following(start, rest);
        lemma_attaching(start, rest);
        lemma_session_facts(start, rest);
        a_session_stays_well_formed(start, rest);
        if Session::can_answer(was.act(), answers.last()) {
            lemma_session_facts(start, answers);
            lemma_session_told(start, answers);
            assert(start.after(answers) == was.next(answers.last()));
        } else {
            lemma_nothing_held(start, answers);
        }
    }
}

#[verifier::rlimit(40)]
proof fn lemma_winding(start: Session, answers: Seq<SessionAnswer>)
    requires
        start.phase == SessionPhase::Reaching(Contacting::Asking),
    ensures
        ({
            start.after(answers).phase matches SessionPhase::Winding { stands, end, wind } ==> {
                &&& ended_so(start, answers, stands, end)
                &&& far_process(start, answers) == Some(wind.pid)
                &&& wind.signal == (end == FollowEnd::WoundDown)
                &&& wind == WindDown::starting(wind.pid, wind.signal).after(
                    wind_told(start, answers),
                )
            }
        }),
    decreases answers.len(),
{
    if answers.len() > 0 {
        let rest = answers.drop_last();
        let was = start.after(rest);
        lemma_winding(start, rest);
        lemma_following(start, rest);
        lemma_session_facts(start, rest);
        a_session_stays_well_formed(start, rest);
        if Session::can_answer(was.act(), answers.last()) {
            lemma_session_facts(start, answers);
            lemma_session_told(start, answers);
            assert(start.after(answers) == was.next(answers.last()));
        } else {
            lemma_nothing_held(start, answers);
        }
    }
}

#[verifier::rlimit(40)]
proof fn lemma_settling(start: Session, answers: Seq<SessionAnswer>)
    requires
        start.phase == SessionPhase::Reaching(Contacting::Asking),
    ensures
        ({
            let now = start.after(answers);
            &&& now.phase matches SessionPhase::Pulling { stands, end } ==> ended_so(
                start,
                answers,
                stands,
                end,
            )
            &&& now.phase matches SessionPhase::Settling(Settling::ReadKeys { stands, end })
                ==> ended_so(start, answers, stands, end)
        }),
    decreases answers.len(),
{
    if answers.len() > 0 {
        let rest = answers.drop_last();
        let was = start.after(rest);
        lemma_settling(start, rest);
        lemma_winding(start, rest);
        lemma_session_facts(start, rest);
        a_session_stays_well_formed(start, rest);
        if Session::can_answer(was.act(), answers.last()) {
            lemma_session_facts(start, answers);
            lemma_session_told(start, answers);
            assert(start.after(answers) == was.next(answers.last()));
        } else {
            lemma_nothing_held(start, answers);
        }
    }
}

#[verifier::rlimit(30)]
proof fn lemma_session_facts(start: Session, answers: Seq<SessionAnswer>)
    requires
        start.phase == SessionPhase::Reaching(Contacting::Asking),
    ensures
        ({
            let now = start.after(answers);
            let found = crate::routine::answer_to(start, answers, SessionAction::AskDriving);
            let opened = crate::routine::answer_to(start, answers, SessionAction::OpenFollow);
            let started = crate::routine::answer_to(start, answers, SessionAction::Start);
            &&& now.rented == start.rented && now.registered == start.registered
            &&& now.rank() <= 3 ==> found is None
            &&& 4 <= now.rank() <= 9 ==> found == Some(SessionAnswer::Driving(None))
            &&& now.rank() <= 8 ==> opened is None
            &&& now.rank() <= 9 ==> started is None && attach_told(start, answers).len() == 0
            &&& now.rank() <= 10 ==> follow_told(start, answers).len() == 0
            &&& now.rank() <= 11 ==> wind_told(start, answers).len() == 0
        }),
    decreases answers.len(),
{
    if answers.len() > 0 {
        lemma_session_facts(start, answers.drop_last());
        a_session_never_goes_back(start.after(answers.drop_last()), seq![answers.last()]);
    }
}

proof fn lemma_session_told(start: Session, answers: Seq<SessionAnswer>)
    requires
        answers.len() > 0,
    ensures
        ({
            let rest = answers.drop_last();
            match (start.after(rest).act(), answers.last()) {
                (SessionAction::Contact(of), SessionAnswer::Contact(a)) if Contacting::can_answer(of, a)
                    => Contacting::Asking.after(contact_told(start, answers))
                    == Contacting::Asking.after(contact_told(start, rest)).next(a),
                (SessionAction::Attach(of), SessionAnswer::Attach(a)) if Attaching::can_answer(of, a)
                    => Attaching::Opening.after(attach_told(start, answers))
                    == Attaching::Opening.after(attach_told(start, rest)).next(a),
                (SessionAction::Follow(of), SessionAnswer::Follow(a)) if Following::can_answer(of, a)
                    => follow_of(start, answers) == follow_of(start, rest).next(a),
                (SessionAction::Wind(of), SessionAnswer::Wind(a)) if WindDown::can_answer(of, a)
                    => forall|pid: u32, signal: bool|
                    #[trigger] WindDown::starting(pid, signal).after(wind_told(start, answers))
                        == WindDown::starting(pid, signal).after(wind_told(start, rest)).next(a),
                _ => true,
            }
        }),
{
    let rest = answers.drop_last();
    match answers.last() {
        SessionAnswer::Contact(a) => {
            assert(contact_told(start, rest).push(a).drop_last() =~= contact_told(start, rest));
        },
        SessionAnswer::Attach(a) => {
            assert(attach_told(start, rest).push(a).drop_last() =~= attach_told(start, rest));
        },
        SessionAnswer::Follow(a) => {
            assert(follow_told(start, rest).push(a).drop_last() =~= follow_told(start, rest));
        },
        SessionAnswer::Wind(a) => {
            assert(wind_told(start, rest).push(a).drop_last() =~= wind_told(start, rest));
        },
        _ => {},
    }
}

/// An answer to something else than what a session calls for leaves it as it is.
pub proof fn a_session_takes_only_answers_to_its_action(at: Session, answer: SessionAnswer)
    requires
        at.wf(),
        !Session::can_answer(at.act(), answer),
    ensures
        at.next(answer) == at,
{
}

proof fn lemma_nothing_held(start: Session, answers: Seq<SessionAnswer>)
    requires
        answers.len() > 0,
        !Session::can_answer(start.after(answers.drop_last()).act(), answers.last()),
        start.after(answers.drop_last()).wf(),
    ensures
        ({
            let rest = answers.drop_last();
            &&& start.after(answers) == start.after(rest)
            &&& crate::routine::last_done(start, answers) == crate::routine::last_done(start, rest)
            &&& contact_told(start, answers) == contact_told(start, rest)
            &&& attach_told(start, answers) == attach_told(start, rest)
            &&& follow_told(start, answers) == follow_told(start, rest)
            &&& wind_told(start, answers) == wind_told(start, rest)
            &&& crate::routine::answer_to(start, answers, SessionAction::OpenFollow)
                == crate::routine::answer_to(start, rest, SessionAction::OpenFollow)
            &&& follow_of(start, answers) == follow_of(start, rest)
            &&& far_process(start, answers) == far_process(start, rest)
        }),
{
    a_session_takes_only_answers_to_its_action(start.after(answers.drop_last()), answers.last());
}

/// Whether a session called for the action and it was done.
#[verifier::inline]
pub open spec fn session_did(start: Session, answers: Seq<SessionAnswer>, action: SessionAction) -> bool {
    crate::routine::did(start, answers, action, SessionAnswer::Done)
}

/// A far run is started only once the machine has all that the run needs: it was
/// reached, the run's directory was placed, nothing was driving there, everything
/// the run references was named and pushed, with the program's own objects where
/// it carries one, and the follow was opened. A session that follows a run
/// nothing was driving started it, and one that settles its run has pulled from
/// it.
pub proof fn a_run_is_started_once_it_has_all_it_needs(
    rented: bool,
    registered: bool,
    answers: Seq<SessionAnswer>,
)
    ensures
        ({
            let start = Session::starting(rented, registered);
            let now = start.after(answers);
            let found = crate::routine::answer_to(start, answers, SessionAction::AskDriving);
            let settled = now.phase matches SessionPhase::Over(SessionEnd::Settled(_));
            let detached = now.phase == SessionPhase::Over(SessionEnd::Detached);
            let going = now.phase is Attaching || now.phase is Following || now.phase is Winding
                || now.phase is Pulling || now.phase is Settling || settled || detached;
            &&& now.phase is Starting || going ==> {
                &&& crate::routine::did(
                    start,
                    answers,
                    SessionAction::Contact(ContactAction::AskDevices),
                    SessionAnswer::Contact(ContactAnswer::Answered),
                )
                &&& session_did(start, answers, SessionAction::Synthesize)
                &&& session_did(start, answers, SessionAction::Place)
                &&& found matches Some(SessionAnswer::Driving(_))
            }
            &&& now.phase is Starting || (going && found == Some(SessionAnswer::Driving(None)))
                ==> {
                &&& session_did(start, answers, SessionAction::DeriveKeys)
                &&& session_did(start, answers, SessionAction::NameObjects)
                &&& registered ==> session_did(start, answers, SessionAction::NameClosure)
                &&& session_did(start, answers, SessionAction::Push)
                &&& crate::routine::answer_to(start, answers, SessionAction::OpenFollow) matches Some(
                    SessionAnswer::Opened(_),
                )
            }
            &&& going && found == Some(SessionAnswer::Driving(None)) ==> (crate::routine::answer_to(
                start,
                answers,
                SessionAction::Start,
            ) matches Some(SessionAnswer::Started(_)))
            &&& now.phase is Settling || settled ==> session_did(
                start,
                answers,
                SessionAction::Pull,
            )
        }),
{
    lemma_started_so_far(Session::starting(rented, registered), answers);
}

/// A session that is still going, or that ended with its run going or settled.
spec fn still_going(at: Session) -> bool {
    !(at.phase is Over) || at.phase == SessionPhase::Over(SessionEnd::Detached) || (
    at.phase matches SessionPhase::Over(SessionEnd::Settled(_)))
}

#[verifier::rlimit(40)]
proof fn lemma_started_so_far(start: Session, answers: Seq<SessionAnswer>)
    requires
        start.phase == SessionPhase::Reaching(Contacting::Asking),
    ensures
        ({
            let now = start.after(answers);
            let found = crate::routine::answer_to(start, answers, SessionAction::AskDriving);
            let fresh = found == Some(SessionAnswer::Driving(None));
            let rank = now.rank();
            &&& now.registered == start.registered
            &&& still_going(now) ==> {
                &&& rank >= 1 ==> crate::routine::did(
                    start,
                    answers,
                    SessionAction::Contact(ContactAction::AskDevices),
                    SessionAnswer::Contact(ContactAnswer::Answered),
                )
                &&& rank >= 2 ==> session_did(start, answers, SessionAction::Synthesize)
                &&& rank >= 3 ==> session_did(start, answers, SessionAction::Place)
                &&& rank >= 4 ==> (found matches Some(SessionAnswer::Driving(_)))
                &&& fresh && rank >= 5 ==> session_did(start, answers, SessionAction::DeriveKeys)
                &&& fresh && rank >= 6 ==> session_did(start, answers, SessionAction::NameObjects)
                &&& fresh && rank >= 7 && start.registered ==> session_did(
                    start,
                    answers,
                    SessionAction::NameClosure,
                )
                &&& fresh && rank >= 8 ==> session_did(start, answers, SessionAction::Push)
                &&& fresh && rank >= 9 ==> (crate::routine::answer_to(
                    start,
                    answers,
                    SessionAction::OpenFollow,
                ) matches Some(SessionAnswer::Opened(_)))
                &&& fresh && rank >= 10 ==> (crate::routine::answer_to(
                    start,
                    answers,
                    SessionAction::Start,
                ) matches Some(SessionAnswer::Started(_)))
                &&& 4 <= rank <= 9 ==> fresh
            }
            &&& now.phase is Settling || (now.phase matches SessionPhase::Over(
                SessionEnd::Settled(_),
            )) ==> session_did(start, answers, SessionAction::Pull)
        }),
    decreases answers.len(),
{
    if answers.len() > 0 {
        let rest = answers.drop_last();
        lemma_started_so_far(start, rest);
        a_session_stays_well_formed(start, rest);
        if !Session::can_answer(start.after(rest).act(), answers.last()) {
            a_session_takes_only_answers_to_its_action(start.after(rest), answers.last());
        }
    }
}

} // verus!
